//! The (rows, cols) descriptor of a dense matrix.
use vstd::prelude::*;

verus! {

/// Number of rows and columns of a matrix. A plain value type: the matrix
/// that owns it keeps `rows * cols` equal to its element count.
#[derive(Clone, Copy)]
pub struct Size {
    pub rows: usize,
    pub cols: usize,
}

impl Size {
    pub fn new(rows: usize, cols: usize) -> (s: Size)
        ensures
            s.rows == rows,
            s.cols == cols,
    {
        Size { rows, cols }
    }

    pub fn rows(&self) -> (r: usize)
        ensures
            r == self.rows,
    {
        self.rows
    }

    pub fn cols(&self) -> (c: usize)
        ensures
            c == self.cols,
    {
        self.cols
    }

    pub fn set_rows(&mut self, rows: usize)
        ensures
            final(self).rows == rows,
            final(self).cols == old(self).cols,
    {
        self.rows = rows;
    }

    pub fn set_cols(&mut self, cols: usize)
        ensures
            final(self).cols == cols,
            final(self).rows == old(self).rows,
    {
        self.cols = cols;
    }
}

} // verus!
