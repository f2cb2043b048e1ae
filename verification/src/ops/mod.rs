//! The kernels.
pub mod activation;
pub mod attitude;
pub mod ballistic;
pub mod chain;
pub mod geometry;
pub mod half;
pub mod lanes;
pub mod matmul;
pub mod orbit;
pub mod quant;
pub mod reduce;
pub mod rope;
pub mod rows;
