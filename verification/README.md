# lasx_rs

Numerical kernels for the 128-bit and 256-bit vector units of LoongArch, written in
Verus: the contract of a kernel fixes, operation by operation, what it computes.

The element type is a trait (`scalar::Scalar`, with `Single` and `Double` on top), so the
contracts speak of sums, products and fused products of any arithmetic. Two code paths
that are stated to be equal are therefore equal bit for bit, whatever the rounding.

## Layout

| Path | Contents |
|------|----------|
| `src/scalar.rs`, `src/math.rs` | arithmetic as the kernels see it, integer helpers |
| `src/arch.rs` | which vector unit is used: probing, overrides, the published byte |
| `src/aligned.rs`, `src/view.rs` | cache-line aligned buffers, strided matrix views |
| `src/ops/` | the kernels: reductions, products, geometry, attitude, orbits, neural nets |
| `src/plan.rs` | packed right-hand sides, made once and used many times |
| `src/api.rs`, `src/error.rs` | shape and value checks in front of the kernels |
| `src/ffi/` | null, length and shape checks of the C interface, status codes |
| `src/pool/`, `src/parallel.rs` | how a round of work is split, claimed, counted and ended |
| `tests/` | tests on `f32` and `f64` |
| `app/` | floats, threads, C symbols and processor probing around the library |

Public proof functions named `law_*` state what holds across functions: that the paths of
a matrix product agree, that a batch may be split anywhere, that every row of a parallel
round is computed exactly once, and that a call returns only when all of its work is done.
