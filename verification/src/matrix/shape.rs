//! The three-axis extent descriptor used by the legacy block type.
use vstd::prelude::*;

verus! {

/// Extents of a block along up to three axes; an axis that is not used
/// carries zero.
#[derive(Clone, Copy)]
pub struct Shape(pub usize, pub usize, pub usize);

impl Shape {
    pub fn new(x: usize, y: usize, z: usize) -> (s: Shape)
        ensures
            s.0 == x,
            s.1 == y,
            s.2 == z,
    {
        Shape(x, y, z)
    }

    pub fn x(&self) -> (r: usize)
        ensures
            r == self.0,
    {
        self.0
    }

    pub fn y(&self) -> (r: usize)
        ensures
            r == self.1,
    {
        self.1
    }

    pub fn z(&self) -> (r: usize)
        ensures
            r == self.2,
    {
        self.2
    }
}

} // verus!
