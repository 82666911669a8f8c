//! A kinetic lattice-gas simulation on a flat-top hexagonal grid.
//!
//! Particles occupy sites of a `size x size` grid in offset hexagonal
//! coordinates with periodic wrap. Each timestep sweeps the grid once and
//! attempts, for every cell, one stochastic hop of its particle to a random
//! neighbour, accepted by a Metropolis-like rule biased by a disorder
//! parameter. Scalar observables (total energy, sublattice order parameters)
//! are derived from the occupancy state.

pub mod boltzmann;
pub mod cell;
pub mod counting;
pub mod hexboard;
pub mod rng;
