use vstd::prelude::*;
use rand::rngs::StdRng;
use crate::boltzmann::{FIX_ONE, DECAY_PER_MILLI, boltzmann_fix, sat_mul, pow_fix};
use crate::cell::Hex;
use crate::rng::{sample_index, sample_below, next_word};
use crate::counting::{
    col_occupied, col_empty, col_class, col_cells, sum_occupied, sum_empty, sum_class, sum_cells,
    lemma_col_occupied_update, lemma_sum_occupied_update, lemma_sum_occupied_all_empty,
    lemma_col_empty_update, lemma_sum_empty_update, lemma_sum_empty_complement,
    lemma_sum_occupied_monotone_h, lemma_sum_occupied_monotone_upto, lemma_sum_occupied_bounds,
    lemma_sum_occupied_zero_pointwise,
    lemma_col_occupied_bounds, lemma_col_occupied_monotone,
    lemma_sum_class_nonneg, lemma_sum_class_partition, lemma_sum_cells_len,
};

verus! {

/// An exact fraction: observables are reported as integer counts over an
/// integer denominator, so that nothing is lost to rounding.
#[derive(Clone, Copy, PartialEq, Eq, Structural)]
pub struct Frac {
    pub num: u64,
    pub den: u64,
}

/// Periodic wrap of an x coordinate onto [0, size): one step outside the
/// range on either side comes back in on the other.
pub open spec fn wrap_x_spec(size: int, index: int) -> int {
    if index < 0 {
        size - 1
    } else if index >= size {
        0
    } else {
        index
    }
}

/// Periodic wrap of a y coordinate, with period `size - 1` rather than
/// `size`: an asymmetry of the model that is kept exactly as defined. For a
/// negative index it yields `size - 1`, one past that period.
pub open spec fn wrap_y_spec(size: int, index: int) -> int {
    if index < 0 {
        size - 1
    } else if index >= size - 1 {
        0
    } else {
        index
    }
}

/// The x offset of neighbour `i` of a cell in row `y`: the row's parity
/// selects between the two direction sets of the flat-top hexagonal layout.
pub open spec fn dir_dx(y: int, i: int) -> int {
    if i == 0 {
        1
    } else if i == 1 {
        -1
    } else if i == 2 || i == 3 {
        0
    } else if y % 2 == 0 {
        -1
    } else {
        1
    }
}

/// The y offset of neighbour `i`: the same for both row parities.
pub open spec fn dir_dy(i: int) -> int {
    if i == 0 || i == 1 {
        0
    } else if i == 2 || i == 4 {
        1
    } else {
        -1
    }
}

/// The x coordinate of neighbour `i` of (x, y), after periodic wrap.
pub open spec fn nbr_x(size: int, x: int, y: int, i: int) -> int {
    wrap_x_spec(size, x + dir_dx(y, i))
}

/// The y coordinate of neighbour `i` of a cell in row `y`, after wrap.
pub open spec fn nbr_y(size: int, y: int, i: int) -> int {
    wrap_y_spec(size, y + dir_dy(i))
}

/// Occupied cells among the first `upto` of the six neighbours of (x, y).
pub open spec fn nbr_occ(g: Seq<Vec<Hex>>, size: int, x: int, y: int, upto: int) -> int
    decreases upto,
{
    if upto <= 0 {
        0
    } else {
        nbr_occ(g, size, x, y, upto - 1) + (if g[nbr_x(size, x, y, upto - 1)]@[nbr_y(
            size,
            y,
            upto - 1,
        )].value {
            1int
        } else {
            0int
        })
    }
}

/// The local energy of the cell at (x, y): how many of its six neighbours
/// are occupied.
pub open spec fn cell_energy(g: Seq<Vec<Hex>>, size: int, x: int, y: int) -> int {
    nbr_occ(g, size, x, y, 6)
}

/// Local energies summed over the occupied cells of column `x`, rows
/// `[0, upto)`.
pub open spec fn col_energy(g: Seq<Vec<Hex>>, size: int, x: int, upto: int) -> int
    decreases upto,
{
    if upto <= 0 {
        0
    } else {
        col_energy(g, size, x, upto - 1) + (if g[x]@[upto - 1].value {
            cell_energy(g, size, x, upto - 1)
        } else {
            0int
        })
    }
}

/// Local energies summed over the occupied cells of the first `upto`
/// columns: each occupied pair of neighbours is counted once from each side.
pub open spec fn sum_energy(g: Seq<Vec<Hex>>, size: int, upto: int) -> int
    decreases upto,
{
    if upto <= 0 {
        0
    } else {
        sum_energy(g, size, upto - 1) + col_energy(g, size, upto - 1, size)
    }
}

pub proof fn lemma_nbr_occ_bounds(g: Seq<Vec<Hex>>, size: int, x: int, y: int, upto: int)
    requires
        upto >= 0,
    ensures
        0 <= nbr_occ(g, size, x, y, upto) <= upto,
    decreases upto,
{
    if upto > 0 {
        lemma_nbr_occ_bounds(g, size, x, y, upto - 1);
    }
}

pub proof fn lemma_col_energy_bounds(g: Seq<Vec<Hex>>, size: int, x: int, upto: int)
    requires
        upto >= 0,
    ensures
        0 <= col_energy(g, size, x, upto) <= 6 * col_occupied(g[x]@, upto),
    decreases upto,
{
    if upto > 0 {
        lemma_col_energy_bounds(g, size, x, upto - 1);
        lemma_nbr_occ_bounds(g, size, x, upto - 1, 6);
    }
}

pub proof fn lemma_sum_energy_bounds(g: Seq<Vec<Hex>>, size: int, upto: int)
    requires
        upto >= 0,
        size >= 0,
    ensures
        0 <= sum_energy(g, size, upto) <= 6 * sum_occupied(g, upto, size),
    decreases upto,
{
    if upto > 0 {
        lemma_sum_energy_bounds(g, size, upto - 1);
        lemma_col_energy_bounds(g, size, upto - 1, size);
        lemma_col_occupied_bounds(g[upto - 1]@, size);
    }
}

/// `g2` is `g1` after one taken hop: the source cell at (x, y) cleared, the
/// destination at (nx, ny) set, every other cell and every column length
/// exactly as it was.
pub open spec fn hop_applied(
    g1: Seq<Vec<Hex>>,
    g2: Seq<Vec<Hex>>,
    x: int,
    y: int,
    nx: int,
    ny: int,
) -> bool {
    &&& g2.len() == g1.len()
    &&& forall|i: int| 0 <= i < g1.len() ==> (#[trigger] g2[i])@.len() == g1[i]@.len()
    &&& forall|i: int, j: int|
        0 <= i < g1.len() && 0 <= j < g1[i]@.len() && !(i == x && j == y) && !(i == nx && j == ny)
            ==> (#[trigger] g2[i]@[j]) == g1[i]@[j]
    &&& g2[x]@[y] == (Hex { x: g1[x]@[y].x, y: g1[x]@[y].y, value: false })
    &&& g2[nx]@[ny] == (Hex { x: g1[nx]@[ny].x, y: g1[nx]@[ny].y, value: true })
}

/// One cell of the sweep: the hop rule, as a relation between the grid
/// before (`g1`) and after (`g2`) the cell at (x, y) attempts its move
/// toward its drawn neighbour `j`, with `accepted` the outcome of the
/// Metropolis draw where one is taken. Nothing changes unless the source is
/// occupied and the destination empty; a strict local-energy descent hops
/// outright; otherwise the draw decides — and it must succeed where the
/// fixed-point acceptance probability is one, and fail where it is zero.
/// The destination energy is the approximate `E - 1`, kept as defined.
pub open spec fn step_ok(
    g1: Seq<Vec<Hex>>,
    g2: Seq<Vec<Hex>>,
    size: int,
    x: int,
    y: int,
    j: int,
    accepted: bool,
    disorder_millis: u64,
) -> bool {
    &&& 0 <= j < 6
    &&& {
        let nx = nbr_x(size, x, y, j);
        let ny = nbr_y(size, y, j);
        if g1[x]@[y].value && !g1[nx]@[ny].value {
            let delta = cell_energy(g1, size, x, y) - (cell_energy(g1, size, nx, ny) - 1);
            if delta > 0 {
                hop_applied(g1, g2, x, y, nx, ny)
            } else {
                &&& (boltzmann_fix(disorder_millis, delta as i16) == FIX_ONE as int ==> accepted)
                &&& (boltzmann_fix(disorder_millis, delta as i16) == 0 ==> !accepted)
                &&& if accepted {
                    hop_applied(g1, g2, x, y, nx, ny)
                } else {
                    g2 == g1
                }
            }
        } else {
            g2 == g1
        }
    }
}

/// One whole sweep explained, cell by cell: `grids` is the chain of grids
/// around the `size * size` attempted moves in row-major order (x outer, y
/// inner, cell idx at column `idx / size`, row `idx % size`), `draws[idx]`
/// the neighbour index drawn for that cell and `accepts[idx]` the outcome of
/// its Metropolis draw. Each link obeys the hop rule on the grid the earlier
/// moves of the same sweep left behind: the single-buffer, in-place update
/// order of the model.
pub open spec fn sweep_ok(
    g1: Seq<Vec<Hex>>,
    g2: Seq<Vec<Hex>>,
    size: int,
    disorder_millis: u64,
    grids: Seq<Seq<Vec<Hex>>>,
    draws: Seq<int>,
    accepts: Seq<bool>,
) -> bool {
    &&& grids.len() == size * size + 1
    &&& draws.len() == size * size
    &&& accepts.len() == size * size
    &&& grids[0] == g1
    &&& grids[size * size] == g2
    &&& forall|idx: int|
        0 <= idx < size * size ==> step_ok(
            grids[idx],
            grids[idx + 1],
            size,
            idx / size,
            idx % size,
            #[trigger] draws[idx],
            accepts[idx],
            disorder_millis,
        )
}

/// At zero disorder the acceptance probability of every non-positive energy
/// change is exactly one, so in any sweep every candidate hop — an occupied
/// source with an empty drawn destination — is taken: `step_ok` forces the
/// draw's outcome to be an acceptance, and an acceptance applies the hop.
pub proof fn lemma_zero_disorder_accepts(delta: i16)
    requires
        delta <= 0,
    ensures
        boltzmann_fix(0, delta) == FIX_ONE as int,
{
    assert(-(delta as int) * 0 == 0);
}

/// The lattice-gas board: a `size x size` grid of cells in offset hexagonal
/// coordinates, the seeded random source that drives the dynamics, and the
/// model parameters.
///
/// `disorder_millis` holds the disorder (inverse-temperature-like) parameter
/// in thousandths, and `fill_num / fill_den` the target fill fraction, both
/// as plain integers.
pub struct HexBoard {
    pub size: u16,
    pub rng: StdRng,
    pub disorder_millis: u64,
    pub grid: Vec<Vec<Hex>>,
    pub fill_num: u64,
    pub fill_den: u64,
}

impl HexBoard {
    /// The shape invariant: a square grid whose cells carry their own indices
    /// as coordinates, and well-formed parameters.
    pub open spec fn wf(self) -> bool {
        &&& 1 <= self.size <= 0x7fff
        &&& 1 <= self.fill_den
        &&& self.fill_num <= self.fill_den
        &&& self.grid@.len() == self.size as int
        &&& forall|x: int|
            0 <= x < self.size as int ==> (#[trigger] self.grid@[x])@.len() == self.size as int
        &&& forall|x: int, y: int|
            0 <= x < self.size as int && 0 <= y < self.size as int ==> (#[trigger] self.grid@[x]@[y]).x
                == x && self.grid@[x]@[y].y == y
    }

    /// How many cells of the whole grid are occupied.
    pub open spec fn occupied(self) -> int {
        sum_occupied(self.grid@, self.size as int, self.size as int)
    }

    /// The occupancy that `initialize` establishes and every timestep
    /// conserves: `floor(size * size * fill fraction)`.
    pub open spec fn target(self) -> int {
        (self.size as int * self.size as int * self.fill_num as int) / (self.fill_den as int)
    }

    /// True when the two boards share every model parameter; the dynamics
    /// never change any of them.
    pub open spec fn same_params(self, other: HexBoard) -> bool {
        &&& self.size == other.size
        &&& self.disorder_millis == other.disorder_millis
        &&& self.fill_num == other.fill_num
        &&& self.fill_den == other.fill_den
    }

    /// A fresh board: every cell unoccupied, coordinates fixed to the grid
    /// indices, the generator and the parameters stored verbatim.
    pub fn new(size: u16, rng: StdRng, disorder_millis: u64, fill_num: u64, fill_den: u64) -> (b:
        HexBoard)
        requires
            1 <= size <= 0x7fff,
            1 <= fill_den,
            fill_num <= fill_den,
        ensures
            b.wf(),
            b.size == size,
            b.rng == rng,
            b.disorder_millis == disorder_millis,
            b.fill_num == fill_num,
            b.fill_den == fill_den,
            forall|x: int, y: int|
                0 <= x < size as int && 0 <= y < size as int ==> !(#[trigger] b.grid@[x]@[y]).value,
            b.occupied() == 0,
    {
        let mut grid: Vec<Vec<Hex>> = Vec::new();
        let mut x: u16 = 0;
        while x < size
            invariant
                x <= size,
                size <= 0x7fff,
                grid@.len() == x as int,
                forall|i: int| 0 <= i < x as int ==> (#[trigger] grid@[i])@.len() == size as int,
                forall|i: int, j: int|
                    0 <= i < x as int && 0 <= j < size as int ==> (#[trigger] grid@[i]@[j]).x == i
                        && grid@[i]@[j].y == j && !grid@[i]@[j].value,
            decreases size as int - x as int,
        {
            let mut gridy: Vec<Hex> = Vec::new();
            let mut y: u16 = 0;
            while y < size
                invariant
                    x < size,
                    y <= size,
                    size <= 0x7fff,
                    gridy@.len() == y as int,
                    forall|j: int|
                        0 <= j < y as int ==> (#[trigger] gridy@[j]).x == x as int && gridy@[j].y
                            == j && !gridy@[j].value,
                decreases size as int - y as int,
            {
                gridy.push(Hex::new(x as i16, y as i16));
                y = y + 1;
            }
            grid.push(gridy);
            x = x + 1;
        }
        let b = HexBoard { size, rng, disorder_millis, grid, fill_num, fill_den };
        proof {
            lemma_sum_occupied_all_empty(b.grid@, size as int, size as int);
        }
        b
    }

    /// The cell at (x, y), copied out.
    pub fn get_cell(&self, x: i16, y: i16) -> (h: Hex)
        requires
            self.wf(),
            0 <= (x as int) < (self.size as int),
            0 <= (y as int) < (self.size as int),
        ensures
            h == self.grid@[x as int]@[y as int],
            h.x == x,
            h.y == y,
    {
        self.grid[x as usize][y as usize]
    }

    /// Sets the occupancy flag of the cell at (x, y), and changes nothing
    /// else: every other cell, the parameters and the generator stay as they
    /// were, and the occupied count moves by the difference the flag makes.
    pub fn set_cell(&mut self, x: i16, y: i16, value: bool)
        requires
            old(self).wf(),
            0 <= (x as int) < (old(self).size as int),
            0 <= (y as int) < (old(self).size as int),
        ensures
            final(self).wf(),
            old(self).same_params(*final(self)),
            final(self).rng == old(self).rng,
            final(self).grid@[x as int]@[y as int].x == x as int,
            final(self).grid@[x as int]@[y as int].y == y as int,
            final(self).grid@[x as int]@[y as int].value == value,
            forall|i: int, j: int|
                0 <= i < old(self).size as int && 0 <= j < old(self).size as int && (i != x as int
                    || j != y as int) ==> (#[trigger] final(self).grid@[i]@[j]) == old(
                    self,
                ).grid@[i]@[j],
            final(self).grid@[x as int]@ == old(self).grid@[x as int]@.update(
                y as int,
                final(self).grid@[x as int]@[y as int],
            ),
            final(self).grid@ == old(self).grid@.update(x as int, final(self).grid@[x as int]),
            final(self).occupied() == old(self).occupied() + (if value && !old(
                self,
            ).grid@[x as int]@[y as int].value {
                1int
            } else if !value && old(self).grid@[x as int]@[y as int].value {
                -1int
            } else {
                0int
            }),
    {
        let xi = x as usize;
        let yi = y as usize;
        self.grid[xi][yi].value = value;
        proof {
            let s = self.size as int;
            let g0 = old(self).grid@;
            let c0 = g0[x as int]@;
            let h2 = self.grid@[x as int]@[y as int];
            assert(self.grid@[x as int]@ =~= c0.update(y as int, h2));
            assert(self.grid@ =~= g0.update(x as int, self.grid@[x as int]));
            lemma_col_occupied_update(c0, y as int, h2, s);
            lemma_sum_occupied_update(g0, x as int, self.grid@[x as int], s, s);
        }
    }

    /// Periodic wrap of an x index onto the grid.
    pub fn wrapx(&self, index: i16) -> (r: u16)
        requires
            self.size >= 1,
        ensures
            r as int == wrap_x_spec(self.size as int, index as int),
            r < self.size,
    {
        if index < 0 {
            self.size - 1
        } else if index as u16 >= self.size {
            0
        } else {
            index as u16
        }
    }

    /// Periodic wrap of a y index, with period `size - 1`: the model's
    /// asymmetric counterpart of `wrapx`, kept exactly as defined.
    pub fn wrapy(&self, index: i16) -> (r: u16)
        requires
            self.size >= 1,
        ensures
            r as int == wrap_y_spec(self.size as int, index as int),
            r < self.size,
    {
        if index < 0 {
            self.size - 1
        } else if index as u16 >= self.size - 1 {
            0
        } else {
            index as u16
        }
    }

    /// The conserved occupancy, computed from the stored parameters.
    pub fn occupied_target(&self) -> (t: u64)
        requires
            self.wf(),
        ensures
            t as int == self.target(),
            t as int <= self.size as int * self.size as int,
    {
        proof {
            assert(0 <= (self.size as int) * (self.size as int) <= 0x4000_0000) by (
            nonlinear_arith)
                requires
                    0 <= self.size as int <= 0x7fff,
            ;
        }
        let cells: u128 = (self.size as u128) * (self.size as u128);
        proof {
            assert(0 <= (cells as int) * (self.fill_num as int) <= 0x4000_0000int
                * 0xffff_ffff_ffff_ffffint) by (nonlinear_arith)
                requires
                    0 <= cells as int <= 0x4000_0000,
                    0 <= self.fill_num as int <= 0xffff_ffff_ffff_ffffint,
            ;
            assert((cells as int) * (self.fill_num as int) / (self.fill_den as int) <= cells as int)
                by (nonlinear_arith)
                requires
                    0 <= cells as int,
                    0 <= self.fill_num as int <= self.fill_den as int,
                    1 <= self.fill_den as int,
            ;
        }
        let t128: u128 = cells * (self.fill_num as u128) / (self.fill_den as u128);
        t128 as u64
    }

    /// The total energy of the current state.
    pub open spec fn energy(self) -> int {
        sum_energy(self.grid@, self.size as int, self.size as int)
    }

    /// The neighbour of (x, y) one step (dx, dy) away, after periodic wrap.
    fn nbr_at(&self, x: i16, y: i16, dx: i16, dy: i16) -> (h: Hex)
        requires
            self.wf(),
            0 <= (x as int) < (self.size as int),
            0 <= (y as int) < (self.size as int),
            -1 <= dx as int <= 1,
            -1 <= dy as int <= 1,
        ensures
            h == self.grid@[wrap_x_spec(self.size as int, x as int + dx as int)]@[wrap_y_spec(
                self.size as int,
                y as int + dy as int,
            )],
    {
        let nx = self.wrapx(x + dx);
        let ny = self.wrapy(y + dy);
        self.grid[nx as usize][ny as usize]
    }

    /// The six neighbours of (x, y), copied out in the fixed direction order
    /// of the model: the parity of the row selects the direction set, and
    /// each coordinate is wrapped independently.
    pub fn get_neighbours(&self, x: i16, y: i16) -> (n: Vec<Hex>)
        requires
            self.wf(),
            0 <= (x as int) < (self.size as int),
            0 <= (y as int) < (self.size as int),
        ensures
            n@.len() == 6,
            forall|i: int|
                0 <= i < 6 ==> (#[trigger] n@[i]) == self.grid@[nbr_x(
                    self.size as int,
                    x as int,
                    y as int,
                    i,
                )]@[nbr_y(self.size as int, y as int, i)],
            forall|i: int|
                0 <= i < 6 ==> 0 <= ((#[trigger] n@[i]).x as int) && (n@[i].x as int)
                    < self.size as int && 0 <= (n@[i].y as int) && (n@[i].y as int)
                    < self.size as int,
    {
        let mut n: Vec<Hex> = Vec::new();
        n.push(self.nbr_at(x, y, 1, 0));
        n.push(self.nbr_at(x, y, -1, 0));
        n.push(self.nbr_at(x, y, 0, 1));
        n.push(self.nbr_at(x, y, 0, -1));
        if y % 2 == 0 {
            n.push(self.nbr_at(x, y, -1, 1));
            n.push(self.nbr_at(x, y, -1, -1));
        } else {
            n.push(self.nbr_at(x, y, 1, 1));
            n.push(self.nbr_at(x, y, 1, -1));
        }
        proof {
            let s = self.size as int;
            assert forall|i: int| 0 <= i < 6 implies (#[trigger] n@[i]) == self.grid@[nbr_x(
                s,
                x as int,
                y as int,
                i,
            )]@[nbr_y(s, y as int, i)] by {
                assert(n@[0] == self.grid@[nbr_x(s, x as int, y as int, 0)]@[nbr_y(s, y as int, 0)]);
                assert(n@[1] == self.grid@[nbr_x(s, x as int, y as int, 1)]@[nbr_y(s, y as int, 1)]);
                assert(n@[2] == self.grid@[nbr_x(s, x as int, y as int, 2)]@[nbr_y(s, y as int, 2)]);
                assert(n@[3] == self.grid@[nbr_x(s, x as int, y as int, 3)]@[nbr_y(s, y as int, 3)]);
                assert(n@[4] == self.grid@[nbr_x(s, x as int, y as int, 4)]@[nbr_y(s, y as int, 4)]);
                assert(n@[5] == self.grid@[nbr_x(s, x as int, y as int, 5)]@[nbr_y(s, y as int, 5)]);
            }
            assert forall|i: int| 0 <= i < 6 implies 0 <= ((#[trigger] n@[i]).x as int) && (
            n@[i].x as int) < s && 0 <= (n@[i].y as int) && (n@[i].y as int) < s by {
                let nx = nbr_x(s, x as int, y as int, i);
                let ny = nbr_y(s, y as int, i);
                assert(0 <= nx < s && 0 <= ny < s);
                assert(self.grid@[nx]@[ny].x == nx && self.grid@[nx]@[ny].y == ny);
            }
        }
        n
    }

    /// The occupied neighbours of the cell at (x, y), counted in place.
    fn energy_at(&self, x: i16, y: i16) -> (e: u8)
        requires
            self.wf(),
            0 <= (x as int) < (self.size as int),
            0 <= (y as int) < (self.size as int),
        ensures
            e as int == cell_energy(self.grid@, self.size as int, x as int, y as int),
            e <= 6,
    {
        let ne = self.get_neighbours(x, y);
        let mut count: u8 = 0;
        let mut i: usize = 0;
        while i < 6
            invariant
                self.wf(),
                0 <= (x as int) < (self.size as int),
                0 <= (y as int) < (self.size as int),
                ne@.len() == 6,
                forall|k: int|
                    0 <= k < 6 ==> (#[trigger] ne@[k]) == self.grid@[nbr_x(
                        self.size as int,
                        x as int,
                        y as int,
                        k,
                    )]@[nbr_y(self.size as int, y as int, k)],
                i <= 6,
                count as int == nbr_occ(self.grid@, self.size as int, x as int, y as int, i as int),
                count <= i,
            decreases 6 - i as int,
        {
            let h = ne[i];
            if h.value {
                count = count + 1;
            }
            i = i + 1;
        }
        count
    }

    /// The local energy of the given cell: its occupied neighbours, 0 to 6.
    /// The board itself is left exactly as it was.
    pub fn get_energy(&mut self, hex: Hex) -> (e: u8)
        requires
            old(self).wf(),
            0 <= (hex.x as int) < (old(self).size as int),
            0 <= (hex.y as int) < (old(self).size as int),
        ensures
            *final(self) == *old(self),
            e as int == cell_energy(
                old(self).grid@,
                old(self).size as int,
                hex.x as int,
                hex.y as int,
            ),
            e <= 6,
    {
        self.energy_at(hex.x, hex.y)
    }

    /// One Metropolis acceptance draw for an energy change `delta_energy`,
    /// never positive here: the hop succeeds with probability
    /// exp(delta * disorder), held in 32-bit fixed point. A certain
    /// probability costs no draw; otherwise one word of the generator
    /// decides. The grid and the parameters are untouched either way.
    pub fn accept_change(&mut self, delta_energy: i16) -> (r: bool)
        requires
            old(self).wf(),
            delta_energy <= 0,
        ensures
            final(self).wf(),
            old(self).same_params(*final(self)),
            final(self).grid == old(self).grid,
            boltzmann_fix(old(self).disorder_millis, delta_energy) == FIX_ONE as int ==> r,
            boltzmann_fix(old(self).disorder_millis, delta_energy) == 0 ==> !r,
    {
        let d: u64 = (-(delta_energy as i64)) as u64;
        let t: u64 = sat_mul(d, self.disorder_millis);
        let p: u64 = pow_fix(DECAY_PER_MILLI, t);
        if p >= FIX_ONE {
            true
        } else {
            let v: u64 = next_word(&mut self.rng);
            v < p * FIX_ONE
        }
    }

    /// One full sweep of the stochastic dynamics: every cell, in row-major
    /// order, attempts to hop its particle to one uniformly chosen neighbour.
    /// A hop needs an occupied source and an empty destination; it is taken
    /// outright when it strictly lowers the local energy, and otherwise
    /// accepted with the Boltzmann probability of the (approximated) energy
    /// change. Updates land in place, so cells visited later in the same
    /// sweep see them. The occupied-cell count is conserved exactly.
    pub fn advance_timestep_repulsive(&mut self)
        requires
            old(self).wf(),
        ensures
            final(self).wf(),
            old(self).same_params(*final(self)),
            final(self).occupied() == old(self).occupied(),
            exists|grids: Seq<Seq<Vec<Hex>>>, draws: Seq<int>, accepts: Seq<bool>|
                sweep_ok(
                    old(self).grid@,
                    final(self).grid@,
                    old(self).size as int,
                    old(self).disorder_millis,
                    grids,
                    draws,
                    accepts,
                ),
    {
        let size = self.size;
        let ghost mut grids: Seq<Seq<Vec<Hex>>> = seq![self.grid@];
        let ghost mut draws: Seq<int> = Seq::empty();
        let ghost mut accepts: Seq<bool> = Seq::empty();
        let mut x: u16 = 0;
        while x < size
            invariant
                self.wf(),
                old(self).same_params(*self),
                self.size == size,
                self.occupied() == old(self).occupied(),
                x <= size,
                grids.len() == (x as int) * (size as int) + 1,
                draws.len() == (x as int) * (size as int),
                accepts.len() == (x as int) * (size as int),
                grids[0] == old(self).grid@,
                grids[grids.len() - 1] == self.grid@,
                forall|idx: int|
                    0 <= idx < draws.len() ==> step_ok(
                        grids[idx],
                        grids[idx + 1],
                        size as int,
                        idx / (size as int),
                        idx % (size as int),
                        #[trigger] draws[idx],
                        accepts[idx],
                        old(self).disorder_millis,
                    ),
            decreases size as int - x as int,
        {
            let mut y: u16 = 0;
            while y < size
                invariant
                    self.wf(),
                    old(self).same_params(*self),
                    self.size == size,
                    self.occupied() == old(self).occupied(),
                    x < size,
                    y <= size,
                    grids.len() == (x as int) * (size as int) + (y as int) + 1,
                    draws.len() == (x as int) * (size as int) + (y as int),
                    accepts.len() == (x as int) * (size as int) + (y as int),
                    grids[0] == old(self).grid@,
                    grids[grids.len() - 1] == self.grid@,
                    forall|idx: int|
                        0 <= idx < draws.len() ==> step_ok(
                            grids[idx],
                            grids[idx + 1],
                            size as int,
                            idx / (size as int),
                            idx % (size as int),
                            #[trigger] draws[idx],
                            accepts[idx],
                            old(self).disorder_millis,
                        ),
                decreases size as int - y as int,
            {
                let ghost gpre = self.grid@;
                let hex = self.get_cell(x as i16, y as i16);
                let start_energy = self.get_energy(hex);
                let ne = self.get_neighbours(x as i16, y as i16);
                let i = sample_index(&mut self.rng, ne.len());
                let dest = ne[i];
                let ghost mut acc: bool = true;
                if dest.value == false && hex.value == true {
                    proof {
                        assert(dest == self.grid@[dest.x as int]@[dest.y as int]);
                        assert(!(dest.x as int == x as int && dest.y as int == y as int));
                    }
                    let end_energy: i16 = self.get_energy(dest) as i16 - 1;
                    if (start_energy as i16) > end_energy {
                        self.set_cell(x as i16, y as i16, false);
                        self.set_cell(dest.x, dest.y, true);
                    } else {
                        let delta: i16 = start_energy as i16 - end_energy;
                        let check: bool = self.accept_change(delta);
                        proof {
                            acc = check;
                        }
                        if check {
                            self.set_cell(x as i16, y as i16, false);
                            self.set_cell(dest.x, dest.y, true);
                        }
                    }
                }
                proof {
                    let s = size as int;
                    let xi = x as int;
                    let yi = y as int;
                    let jj = i as int;
                    let nx = nbr_x(s, xi, yi, jj);
                    let ny = nbr_y(s, yi, jj);
                    assert(dest == gpre[nx]@[ny] && hex == gpre[xi]@[yi]);
                    assert(dest.x == nx && dest.y == ny);
                    if hex.value && !dest.value {
                        assert(start_energy as int == cell_energy(gpre, s, xi, yi));
                        if step_ok(gpre, self.grid@, s, xi, yi, jj, acc, old(self).disorder_millis) {
                        } else {
                            assert(hop_applied(gpre, self.grid@, xi, yi, nx, ny));
                        }
                    }
                    assert(step_ok(gpre, self.grid@, s, xi, yi, jj, acc, old(self).disorder_millis));
                    let n = draws.len() as int;
                    grids = grids.push(self.grid@);
                    draws = draws.push(jj);
                    accepts = accepts.push(acc);
                    vstd::arithmetic::div_mod::lemma_fundamental_div_mod_converse(
                        xi * s + yi,
                        s,
                        xi,
                        yi,
                    );
                    assert forall|idx: int| 0 <= idx < draws.len() implies step_ok(
                        grids[idx],
                        grids[idx + 1],
                        s,
                        idx / s,
                        idx % s,
                        #[trigger] draws[idx],
                        accepts[idx],
                        old(self).disorder_millis,
                    ) by {
                        if idx < n {
                            assert(step_ok(
                                grids[idx],
                                grids[idx + 1],
                                s,
                                idx / s,
                                idx % s,
                                draws[idx],
                                accepts[idx],
                                old(self).disorder_millis,
                            ));
                        }
                    }
                }
                y = y + 1;
            }
            proof {
                assert((x as int) * (size as int) + (size as int) == ((x as int) + 1) * (
                size as int)) by (nonlinear_arith);
            }
            x = x + 1;
        }
        proof {
            assert((size as int) * (size as int) == (x as int) * (size as int));
            assert(sweep_ok(
                old(self).grid@,
                self.grid@,
                size as int,
                old(self).disorder_millis,
                grids,
                draws,
                accepts,
            ));
        }
    }

    /// The total energy of the system: for every occupied cell, its occupied
    /// neighbours, summed — each occupied pair of neighbours counts once from
    /// each side.
    pub fn total_energy(&self) -> (e: u16)
        requires
            self.wf(),
            6 * self.occupied() <= u16::MAX as int,
        ensures
            e as int == self.energy(),
    {
        let size = self.size;
        let mut count: u16 = 0;
        let mut x: u16 = 0;
        proof {
            lemma_sum_occupied_bounds(self.grid@, 0, size as int);
        }
        while x < size
            invariant
                self.wf(),
                self.size == size,
                6 * self.occupied() <= u16::MAX as int,
                x <= size,
                count as int == sum_energy(self.grid@, size as int, x as int),
                count as int <= 6 * sum_occupied(self.grid@, x as int, size as int),
                0 <= sum_occupied(self.grid@, x as int, size as int),
            decreases size as int - x as int,
        {
            let mut y: u16 = 0;
            while y < size
                invariant
                    self.wf(),
                    self.size == size,
                    6 * self.occupied() <= u16::MAX as int,
                    x < size,
                    y <= size,
                    count as int == sum_energy(self.grid@, size as int, x as int) + col_energy(
                        self.grid@,
                        size as int,
                        x as int,
                        y as int,
                    ),
                    count as int <= 6 * (sum_occupied(self.grid@, x as int, size as int)
                        + col_occupied(self.grid@[x as int]@, y as int)),
                    0 <= sum_occupied(self.grid@, x as int, size as int) + col_occupied(
                        self.grid@[x as int]@,
                        y as int,
                    ),
                decreases size as int - y as int,
            {
                let hex = self.get_cell(x as i16, y as i16);
                if hex.value {
                    let e = self.energy_at(x as i16, y as i16);
                    proof {
                        let g = self.grid@;
                        let s = size as int;
                        lemma_nbr_occ_bounds(g, s, x as int, y as int, 6);
                        lemma_col_occupied_monotone(g[x as int]@, y as int + 1, s);
                        assert(sum_occupied(g, x as int, s) + col_occupied(g[x as int]@, s)
                            == sum_occupied(g, x as int + 1, s));
                        lemma_sum_occupied_monotone_upto(g, x as int + 1, s, s);
                    }
                    count = count + (e as u16);
                }
                y = y + 1;
            }
            x = x + 1;
        }
        count
    }

    /// The three sublattice order numerators over the conserved occupancy:
    /// entry `c` holds how many occupied cells lie on sublattice `c`, as a
    /// fraction of `target`. With occupancy at the target, each fraction
    /// lies in [0, 1].
    pub fn get_order(&self) -> (r: Vec<Frac>)
        requires
            self.wf(),
        ensures
            r@.len() == 3,
            forall|c: int|
                0 <= c < 3 ==> (#[trigger] r@[c]).num as int == sum_class(
                    self.grid@,
                    c,
                    self.size as int,
                    self.size as int,
                ) && r@[c].den as int == self.target(),
            forall|c: int|
                0 <= c < 3 ==> (#[trigger] r@[c]).num as int <= self.size as int * self.size as int,
    {
        let size = self.size;
        let mut ca: u64 = 0;
        let mut cb: u64 = 0;
        let mut cc: u64 = 0;
        let mut x: u16 = 0;
        while x < size
            invariant
                self.wf(),
                self.size == size,
                x <= size,
                ca as int == sum_class(self.grid@, 0, x as int, size as int),
                cb as int == sum_class(self.grid@, 1, x as int, size as int),
                cc as int == sum_class(self.grid@, 2, x as int, size as int),
                0 <= ca as int,
                0 <= cb as int,
                0 <= cc as int,
                ca as int + cb as int + cc as int <= x as int * size as int,
            decreases size as int - x as int,
        {
            let mut y: u16 = 0;
            while y < size
                invariant
                    self.wf(),
                    self.size == size,
                    x < size,
                    y <= size,
                    ca as int == sum_class(self.grid@, 0, x as int, size as int) + col_class(
                        self.grid@[x as int]@,
                        x as int,
                        0,
                        y as int,
                    ),
                    cb as int == sum_class(self.grid@, 1, x as int, size as int) + col_class(
                        self.grid@[x as int]@,
                        x as int,
                        1,
                        y as int,
                    ),
                    cc as int == sum_class(self.grid@, 2, x as int, size as int) + col_class(
                        self.grid@[x as int]@,
                        x as int,
                        2,
                        y as int,
                    ),
                    0 <= ca as int,
                    0 <= cb as int,
                    0 <= cc as int,
                    ca as int + cb as int + cc as int <= x as int * size as int + y as int,
                decreases size as int - y as int,
            {
                let hex = self.get_cell(x as i16, y as i16);
                if hex.value {
                    proof {
                        assert((x as int) * (size as int) + (y as int) < 0x4000_0000) by (
                        nonlinear_arith)
                            requires
                                0 <= (x as int) && (x as int) < (size as int),
                                0 <= (y as int) && (y as int) < (size as int),
                                size as int <= 0x7fff,
                        ;
                    }
                    if y % 2 == 0 {
                        if x % 3 == 0 {
                            ca = ca + 1;
                        } else if x % 3 == 1 {
                            cb = cb + 1;
                        } else {
                            cc = cc + 1;
                        }
                    } else {
                        if x % 3 == 1 {
                            ca = ca + 1;
                        } else if x % 3 == 2 {
                            cb = cb + 1;
                        } else {
                            cc = cc + 1;
                        }
                    }
                }
                y = y + 1;
            }
            proof {
                assert(x as int * size as int + size as int == (x as int + 1) * size as int) by (
                nonlinear_arith)
                ;
            }
            x = x + 1;
        }
        proof {
            assert(size as int * size as int <= 0x4000_0000) by (nonlinear_arith)
                requires
                    0 <= size as int <= 0x7fff,
            ;
        }
        let den = self.occupied_target();
        let mut r: Vec<Frac> = Vec::new();
        r.push(Frac { num: ca, den });
        r.push(Frac { num: cb, den });
        r.push(Frac { num: cc, den });
        r
    }

    /// The three sublattice fractions folded into one scalar: the first
    /// weighted once, the second twice, the third three times, all over the
    /// same conserved denominator.
    pub fn get_order_single(&self) -> (r: Frac)
        requires
            self.wf(),
        ensures
            r.num as int == sum_class(self.grid@, 0, self.size as int, self.size as int) + 2
                * sum_class(self.grid@, 1, self.size as int, self.size as int) + 3 * sum_class(
                self.grid@,
                2,
                self.size as int,
                self.size as int,
            ),
            r.den as int == self.target(),
    {
        proof {
            assert(self.size as int * self.size as int <= 0x4000_0000) by (nonlinear_arith)
                requires
                    0 <= self.size as int <= 0x7fff,
            ;
        }
        let o = self.get_order();
        let a = o[0].num;
        let b = o[1].num;
        let c = o[2].num;
        Frac { num: a + 2 * b + 3 * c, den: o[0].den }
    }

    /// Every occupied cell, column by column and upward within a column: the
    /// snapshot that an exporter writes out.
    pub fn occupied_cells(&self) -> (r: Vec<Hex>)
        requires
            self.wf(),
        ensures
            r@ == sum_cells(self.grid@, self.size as int, self.size as int),
            r@.len() == self.occupied(),
    {
        let size = self.size;
        let mut r: Vec<Hex> = Vec::new();
        let mut x: u16 = 0;
        while x < size
            invariant
                self.wf(),
                self.size == size,
                x <= size,
                r@ == sum_cells(self.grid@, x as int, size as int),
            decreases size as int - x as int,
        {
            let mut y: u16 = 0;
            while y < size
                invariant
                    self.wf(),
                    self.size == size,
                    x < size,
                    y <= size,
                    r@ == sum_cells(self.grid@, x as int, size as int) + col_cells(
                        self.grid@[x as int]@,
                        y as int,
                    ),
                decreases size as int - y as int,
            {
                let hex = self.get_cell(x as i16, y as i16);
                if hex.value {
                    r.push(hex);
                    proof {
                        assert(r@ =~= sum_cells(self.grid@, x as int, size as int) + col_cells(
                            self.grid@[x as int]@,
                            y as int + 1,
                        ));
                    }
                } else {
                    proof {
                        assert(r@ =~= sum_cells(self.grid@, x as int, size as int) + col_cells(
                            self.grid@[x as int]@,
                            y as int + 1,
                        ));
                    }
                }
                y = y + 1;
            }
            x = x + 1;
        }
        proof {
            lemma_sum_cells_len(self.grid@, size as int, size as int);
        }
        r
    }

    /// Marks the `k`-th empty cell — counting column by column and upward,
    /// over the rows below `size - 1` only — as occupied, and changes
    /// nothing else.
    fn place_kth_empty(&mut self, k: u64)
        requires
            old(self).wf(),
            old(self).size >= 2,
            (k as int) < sum_empty(old(self).grid@, old(self).size as int, old(self).size as int - 1),
        ensures
            final(self).wf(),
            old(self).same_params(*final(self)),
            final(self).rng == old(self).rng,
            final(self).occupied() == old(self).occupied() + 1,
            sum_empty(final(self).grid@, final(self).size as int, final(self).size as int - 1)
                == sum_empty(old(self).grid@, old(self).size as int, old(self).size as int - 1) - 1,
            forall|i: int|
                0 <= i < old(self).size as int ==> (#[trigger] final(self).grid@[i]@[old(
                    self,
                ).size as int - 1]) == old(self).grid@[i]@[old(self).size as int - 1],
    {
        let size = self.size;
        let h = size - 1;
        let mut counter: u64 = 0;
        let mut x: u16 = 0;
        while x < size
            invariant
                *self == *old(self),
                self.wf(),
                self.size == size,
                h == size - 1,
                size >= 2,
                (k as int) < sum_empty(self.grid@, size as int, h as int),
                x <= size,
                counter as int == sum_empty(self.grid@, x as int, h as int),
                counter <= k,
            decreases size as int - x as int,
        {
            let mut y: u16 = 0;
            while y < h
                invariant
                    *self == *old(self),
                    self.wf(),
                    self.size == size,
                    h == size - 1,
                    size >= 2,
                    (k as int) < sum_empty(self.grid@, size as int, h as int),
                    x < size,
                    y <= h,
                    counter as int == sum_empty(self.grid@, x as int, h as int) + col_empty(
                        self.grid@[x as int]@,
                        y as int,
                    ),
                    counter <= k,
                decreases h as int - y as int,
            {
                let hex = self.get_cell(x as i16, y as i16);
                if !hex.value {
                    if counter == k {
                        let ghost g0 = self.grid@;
                        self.set_cell(x as i16, y as i16, true);
                        proof {
                            let s = size as int;
                            let c2 = self.grid@[x as int];
                            lemma_col_empty_update(
                                g0[x as int]@,
                                y as int,
                                self.grid@[x as int]@[y as int],
                                h as int,
                            );
                            lemma_sum_empty_update(g0, x as int, c2, s, h as int);
                        }
                        return ;
                    }
                    counter = counter + 1;
                }
                y = y + 1;
            }
            x = x + 1;
        }
        proof {
            assert(false);
        }
    }

    /// Fills the board to its conserved occupancy: each placement occupies
    /// one cell chosen uniformly at random among the still-empty cells of the
    /// rows below `size - 1` — the distribution that drawing random
    /// coordinates until an empty cell turns up would give, with one draw per
    /// placement. The topmost row is never sampled, so it stays empty.
    /// Call it exactly once, on a board that is still entirely empty.
    pub fn initialize(&mut self)
        requires
            old(self).wf(),
            old(self).size >= 2,
            old(self).occupied() == 0,
            old(self).target() <= (old(self).size as int) * (old(self).size as int - 1),
        ensures
            final(self).wf(),
            old(self).same_params(*final(self)),
            final(self).occupied() == old(self).target(),
            forall|i: int|
                0 <= i < old(self).size as int ==> !(#[trigger] final(self).grid@[i]@[old(
                    self,
                ).size as int - 1]).value,
    {
        let t: u64 = self.occupied_target();
        let size = self.size;
        let h = size - 1;
        proof {
            let g = self.grid@;
            assert(size as int * (size as int - 1) <= 0x4000_0000) by (nonlinear_arith)
                requires
                    1 <= size as int <= 0x7fff,
            ;
            lemma_sum_occupied_monotone_h(g, size as int, h as int, size as int);
            lemma_sum_occupied_bounds(g, size as int, h as int);
            lemma_sum_empty_complement(g, size as int, h as int);
            lemma_sum_occupied_zero_pointwise(g, size as int, size as int);
        }
        let mut placed: u64 = 0;
        while placed < t
            invariant
                self.wf(),
                old(self).same_params(*self),
                self.size == size,
                h == size - 1,
                size >= 2,
                t as int == old(self).target(),
                t as int <= size as int * (size as int - 1),
                size as int * (size as int - 1) <= 0x4000_0000,
                placed <= t,
                old(self).occupied() == 0,
                self.occupied() == placed as int,
                sum_empty(self.grid@, size as int, h as int) == size as int * (size as int - 1)
                    - placed as int,
                forall|i: int|
                    0 <= i < size as int ==> !(#[trigger] self.grid@[i]@[size as int - 1]).value,
            decreases t as int - placed as int,
        {
            let empties: u64 = (size as u64) * ((size as u64) - 1) - placed;
            let k = sample_below(&mut self.rng, empties);
            self.place_kth_empty(k);
            placed = placed + 1;
        }
    }
}

/// The `wrapx` representative is unchanged by adding a whole number of
/// periods, whenever the shifted index still lies in the one-period band
/// `[-1, size]` on which the wrap acts as a true modulus. Outside that band
/// the wrap clamps instead of reducing, and the law does not hold.
pub proof fn lemma_wrapx_period(size: int, index: int, k: int)
    requires
        1 <= size,
        -1 <= wrap_x_spec(size, index) + k * size <= size,
    ensures
        wrap_x_spec(size, wrap_x_spec(size, index) + k * size) == wrap_x_spec(size, index),
{
    let r = wrap_x_spec(size, index);
    assert(0 <= r < size);
    if k >= 1 {
        assert(size <= k * size) by (nonlinear_arith)
            requires
                1 <= k,
                1 <= size,
        ;
        assert(r + k * size == size);
        assert(k == 1 && r == 0) by (nonlinear_arith)
            requires
                r + k * size == size,
                0 <= r < size,
                k >= 1,
        ;
    } else if k <= -1 {
        assert(k * size <= -size) by (nonlinear_arith)
            requires
                k <= -1,
                1 <= size,
        ;
        assert(r + k * size == -1);
        assert(k == -1 && r == size - 1) by (nonlinear_arith)
            requires
                r + k * size == -1,
                0 <= r < size,
                k <= -1,
        ;
    }
}

/// The `wrapy` counterpart, over the model's shorter period `size - 1`. Two
/// kinds of input are left out, and the law fails on them: a negative index,
/// which `wrapy` sends to `size - 1`, one past its own period, and a shifted
/// index outside the band `[0, size - 1]` on which the wrap reduces.
pub proof fn lemma_wrapy_period(size: int, index: int, k: int)
    requires
        2 <= size,
        0 <= index,
        0 <= wrap_y_spec(size, index) + k * (size - 1) <= size - 1,
    ensures
        wrap_y_spec(size, wrap_y_spec(size, index) + k * (size - 1)) == wrap_y_spec(size, index),
{
    let p = size - 1;
    let r = wrap_y_spec(size, index);
    assert(0 <= r < p);
    if k >= 1 {
        assert(p <= k * p) by (nonlinear_arith)
            requires
                1 <= k,
                1 <= p,
        ;
        assert(r + k * p == p);
        assert(k == 1 && r == 0) by (nonlinear_arith)
            requires
                r + k * p == p,
                0 <= r < p,
                k >= 1,
        ;
    } else if k <= -1 {
        assert(k * p <= -p) by (nonlinear_arith)
            requires
                k <= -1,
                1 <= p,
        ;
        assert(false);
    }
}

/// The three sublattice counts of `get_order` partition the occupied cells:
/// with the occupancy at its conserved target, each count lies between 0 and
/// the target — so each reported fraction lies in [0, 1] — and the three sum
/// to the target itself. Together with the contracts of `get_order` and
/// `get_order_single`, the weighted combination of the three fractions, with
/// weights 1, 2 and 3, is exactly the single order value: the numerators
/// relate by that combination over one shared denominator.
pub proof fn lemma_order_partition(b: HexBoard)
    requires
        b.wf(),
        b.occupied() == b.target(),
    ensures
        forall|c: int|
            0 <= c < 3 ==> 0 <= #[trigger] sum_class(b.grid@, c, b.size as int, b.size as int)
                <= b.target(),
        sum_class(b.grid@, 0, b.size as int, b.size as int) + sum_class(
            b.grid@,
            1,
            b.size as int,
            b.size as int,
        ) + sum_class(b.grid@, 2, b.size as int, b.size as int) == b.target(),
{
    let g = b.grid@;
    let s = b.size as int;
    lemma_sum_class_partition(g, s, s);
    lemma_sum_class_nonneg(g, 0, s, s);
    lemma_sum_class_nonneg(g, 1, s, s);
    lemma_sum_class_nonneg(g, 2, s, s);
    assert forall|c: int| 0 <= c < 3 implies 0 <= #[trigger] sum_class(g, c, s, s) <= b.target() by {
        lemma_sum_class_nonneg(g, c, s, s);
    }
}

} // verus!
