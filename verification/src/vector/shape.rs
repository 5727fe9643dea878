//! The orientation of a vector.
use vstd::prelude::*;

verus! {

/// Whether a vector is read as one row (1 x n) or one column (n x 1).
/// Orientation only matters to product operations; storage is the same
/// either way.
#[derive(Clone, Copy, Debug, PartialEq, Eq, Structural)]
pub enum Shape {
    Row,
    Col,
}

} // verus!
