//! A small dense linear-algebra library: matrices and vectors of generic
//! numeric elements, together with a Gaussian-elimination solver.
//!
//! Every operation carries a contract that pins its result down to a
//! mathematical description of the computation, stated over sequences.
pub mod alg;
pub mod generator;
pub mod matrix;
pub mod num;
pub mod vector;
