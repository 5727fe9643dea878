//! Algorithms over the dense containers.
pub mod gaussian_elimination;
