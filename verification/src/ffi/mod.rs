//! The C interface: status codes, sizes and checked calls.
pub mod checked;
pub mod memory;
pub mod nn;
pub mod status;
