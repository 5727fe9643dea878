//! Dense rectangular storage and its algebra.
pub mod dimension;
pub mod matrix;
pub mod shape;
pub mod size;
