//! How many axes a stored block of numbers spans.
use vstd::prelude::*;

verus! {

/// The rank of a stored block: a flat run of numbers, a table, or a stack of
/// tables.
#[derive(Clone, Copy, PartialEq, Eq, Structural)]
pub enum Dimension {
    OneDim,
    TwoDim,
    ThreeDim,
}

} // verus!
