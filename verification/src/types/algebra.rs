use vstd::prelude::*;

verus! {

/// A two-dimensional grid coordinate, or a pair of extents.
#[derive(Clone, Copy, Debug, PartialEq, Eq, Structural)]
pub struct Index2 {
    pub x: usize,
    pub y: usize,
}

impl Index2 {
    /// The coordinate `(x, y)`.
    pub fn new(x: usize, y: usize) -> (r: Index2)
        ensures
            r.x == x,
            r.y == y,
    {
        Index2 { x, y }
    }

    /// The coordinate `(0, 0)`.
    pub fn zeros() -> (r: Index2)
        ensures
            r.x == 0,
            r.y == 0,
    {
        Index2 { x: 0, y: 0 }
    }

    /// The component along axis `dir`: `x` for 0, `y` for 1.
    pub open spec fn component(self, dir: int) -> usize {
        if dir == 0 {
            self.x
        } else {
            self.y
        }
    }

    /// The component along axis `dir`: `x` for 0, `y` for 1.
    pub fn get(self, dir: usize) -> (r: usize)
        requires
            dir < 2,
        ensures
            r == self.component(dir as int),
    {
        if dir == 0 {
            self.x
        } else {
            self.y
        }
    }
}

} // verus!
