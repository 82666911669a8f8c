use vstd::prelude::*;

verus! {

/// One lattice site: offset hexagonal coordinates, fixed when the grid is
/// built, and an occupancy flag, the only part that ever changes.
#[derive(Clone, Copy, PartialEq, Eq, Structural)]
pub struct Hex {
    pub x: i16,
    pub y: i16,
    pub value: bool,
}

impl Hex {
    /// A fresh, unoccupied cell at the given coordinates.
    pub fn new(x: i16, y: i16) -> (h: Hex)
        ensures
            h.x == x,
            h.y == y,
            !h.value,
    {
        let value: bool = false;
        Hex { x, y, value }
    }
}

} // verus!
