//! One-dimensional storage with an orientation tag.
pub mod shape;
pub mod vector;
