//! What the kernels are for, in arithmetic without rounding.
//!
//! The laws speak of inputs and results as real numbers. They hold for every
//! [`crate::exact::Exact`] arithmetic, whatever its comparisons say.
pub mod algebra;
pub mod attitude;
pub mod flight;
pub mod geometry;
pub mod gravity;
pub mod network;
pub mod orbit;
pub mod product;
pub mod reduce;
pub mod rows;
