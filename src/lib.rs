//! Dense integer matrices with naive and block-Strassen multiplication.
pub mod arith;
pub mod blocks;
pub mod error;
pub mod laws;
pub mod matrix;
pub mod model;
