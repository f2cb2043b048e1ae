//! Batch numeric kernels with one fixed order of operations per output.
#![allow(clippy::too_many_arguments)]

pub mod aligned;
pub mod api;
pub mod arch;
pub mod error;
pub mod exact;
pub mod ffi;
pub mod laws;
pub mod math;
pub mod ops;
pub mod parallel;
pub mod plan;
pub mod pool;
pub mod scalar;
pub mod view;

pub use crate::arch::lasx_force_lsx_thread;

use crate::ops::matmul::{is_product, matmul_along, MatmulPath};
use crate::plan::PackedKernel;
use vstd::prelude::*;

verus! {

/// The packed path, whatever the shape.
pub fn ops_bench_packed<T: PackedKernel>(
    m: usize,
    k: usize,
    n: usize,
    a: &[T],
    b: &[T],
    c: &mut [T],
)
    requires
        a@.len() == m * k,
        b@.len() == k * n,
        old(c)@.len() == m * n,
    ensures
        is_product(a@, b@, m as int, k as int, n as int, final(c)@),
{
    matmul_along(MatmulPath::Packed, m, k, n, a, b, c);
}

/// The packed path in double precision, whatever the shape.
pub fn ops_bench_packed_f64<T: PackedKernel>(
    m: usize,
    k: usize,
    n: usize,
    a: &[T],
    b: &[T],
    c: &mut [T],
)
    requires
        a@.len() == m * k,
        b@.len() == k * n,
        old(c)@.len() == m * n,
    ensures
        is_product(a@, b@, m as int, k as int, n as int, final(c)@),
{
    matmul_along(MatmulPath::Packed, m, k, n, a, b, c);
}

/// The path with blocks of columns outside, whatever the shape.
pub fn ops_bench_cols_f32<T: PackedKernel>(
    m: usize,
    k: usize,
    n: usize,
    a: &[T],
    b: &[T],
    c: &mut [T],
)
    requires
        a@.len() == m * k,
        b@.len() == k * n,
        old(c)@.len() == m * n,
    ensures
        is_product(a@, b@, m as int, k as int, n as int, final(c)@),
{
    matmul_along(MatmulPath::Columns, m, k, n, a, b, c);
}

/// The streaming path in double precision, whatever the shape.
pub fn ops_bench_stream_f64<T: PackedKernel>(
    m: usize,
    k: usize,
    n: usize,
    a: &[T],
    b: &[T],
    c: &mut [T],
)
    requires
        a@.len() == m * k,
        b@.len() == k * n,
        old(c)@.len() == m * n,
    ensures
        is_product(a@, b@, m as int, k as int, n as int, final(c)@),
{
    matmul_along(MatmulPath::Stream, m, k, n, a, b, c);
}

} // verus!
