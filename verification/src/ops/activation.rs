//! Activation functions, all built on one exponential.
use crate::scalar::{Scalar, Single, F32_HALF, F32_ONE};
use vstd::prelude::*;

verus! {

/// Pattern of `log2(e)`.
pub const LOG2E: u64 = 0x3fb8_aa3b;

/// Pattern of `1.5·2^23`: adding and subtracting it rounds to an integer.
pub const MAGIC: u64 = 0x4b40_0000;

/// Pattern of `-104`, below which the exponential is zero.
pub const EXP_CLAMP_LO: u64 = 0xc2d0_0000;

/// Pattern of `88`, above which the exponential stays put.
pub const EXP_CLAMP_HI: u64 = 0x42b0_0000;

/// Patterns of the coefficients `ln(2)^k / k!`.
pub const EXP2_C0: u64 = 0x3f80_0000;

pub const EXP2_C1: u64 = 0x3f31_7218;

pub const EXP2_C2: u64 = 0x3e75_fdf0;

pub const EXP2_C3: u64 = 0x3d63_5847;

pub const EXP2_C4: u64 = 0x3c1d_955b;

pub const EXP2_C5: u64 = 0x3aae_c3ff;

pub const EXP2_C6: u64 = 0x3921_8489;

/// Pattern of `1.702`.
pub const GELU_QUICK_C: u64 = 0x3fd9_db23;

/// Pattern of `1/sqrt(2)`.
pub const INV_SQRT2: u64 = 0x3f35_04f3;

/// Pattern of the `p` in `1/(1 + p·z)`.
pub const ERF_P: u64 = 0x3ea7_ba05;

/// Patterns of the five coefficients of the error function.
pub const ERF_A1: u64 = 0x3e82_7906;

pub const ERF_A2: u64 = 0xbe91_a98e;

pub const ERF_A3: u64 = 0x3fb5_f0e3;

pub const ERF_A4: u64 = 0xbfba_00e3;

pub const ERF_A5: u64 = 0x3f87_dc22;

/// Exponent field of the power of two with exponent `n`, kept between 0 (which stands for
/// the value zero) and 254.
pub open spec fn exponent_field(n: int) -> int {
    if n + 127 < 0 {
        0
    } else if n + 127 > 254 {
        254
    } else {
        n + 127
    }
}

/// Computes [`exponent_field`].
fn exponent_bits(n: i32) -> (r: u64)
    ensures
        r == exponent_field(n as int),
        r <= 254,
{
    let e: i64 = n as i64 + 127;
    if e < 0 {
        0
    } else if e > 254 {
        254
    } else {
        e as u64
    }
}

/// The argument of the exponential, kept between the two clamps; a value that neither
/// compares below the one nor above the other passes through.
pub open spec fn clamped<S: Single>(x: S) -> S {
    let lo = S::of_raw_spec(EXP_CLAMP_LO);
    let hi = S::of_raw_spec(EXP_CLAMP_HI);
    if x.lt_spec(lo) {
        lo
    } else if hi.lt_spec(x) {
        hi
    } else {
        x
    }
}

/// Computes [`clamped`].
fn clamp_one<S: Single>(x: S) -> (r: S)
    ensures
        r == clamped(x),
{
    let lo: S = S::of_raw(EXP_CLAMP_LO);
    let hi: S = S::of_raw(EXP_CLAMP_HI);
    if x.lt(lo) {
        lo
    } else if hi.lt(x) {
        hi
    } else {
        x
    }
}

/// The exponential: the argument is clamped, split into a power of two and a remainder, and
/// the remainder goes through a polynomial of degree six.
pub open spec fn exp_seq<S: Single>(x: S) -> S {
    let t = clamped(x).mul_spec(S::of_raw_spec(LOG2E));
    let n = t.add_spec(S::of_raw_spec(MAGIC)).sub_spec(S::of_raw_spec(MAGIC));
    let f = t.sub_spec(n);
    let p5 = f.fma_spec(S::of_raw_spec(EXP2_C6), S::of_raw_spec(EXP2_C5));
    let p4 = f.fma_spec(p5, S::of_raw_spec(EXP2_C4));
    let p3 = f.fma_spec(p4, S::of_raw_spec(EXP2_C3));
    let p2 = f.fma_spec(p3, S::of_raw_spec(EXP2_C2));
    let p1 = f.fma_spec(p2, S::of_raw_spec(EXP2_C1));
    let p0 = f.fma_spec(p1, S::of_raw_spec(EXP2_C0));
    p0.mul_spec(S::of_raw_spec((exponent_field(n.trunc_spec() as int) * 0x80_0000) as u64))
}

/// Computes [`exp_seq`].
pub fn exp_seq_one<S: Single>(x: S) -> (r: S)
    ensures
        r == exp_seq(x),
{
    let t: S = clamp_one(x).mul(S::of_raw(LOG2E));
    let n: S = t.add(S::of_raw(MAGIC)).sub(S::of_raw(MAGIC));
    let f: S = t.sub(n);
    let p5: S = f.fma(S::of_raw(EXP2_C6), S::of_raw(EXP2_C5));
    let p4: S = f.fma(p5, S::of_raw(EXP2_C4));
    let p3: S = f.fma(p4, S::of_raw(EXP2_C3));
    let p2: S = f.fma(p3, S::of_raw(EXP2_C2));
    let p1: S = f.fma(p2, S::of_raw(EXP2_C1));
    let p0: S = f.fma(p1, S::of_raw(EXP2_C0));
    p0.mul(S::of_raw(exponent_bits(n.trunc()) * 0x80_0000))
}

/// `1 + exp(-x)`, the denominator of the logistic function.
pub open spec fn sigmoid_den<S: Single>(x: S) -> S {
    S::of_raw_spec(F32_ONE).add_spec(exp_seq(x.neg_spec()))
}

/// Computes [`sigmoid_den`].
pub fn sigmoid_den_one<S: Single>(x: S) -> (r: S)
    ensures
        r == sigmoid_den(x),
{
    S::of_raw(F32_ONE).add(exp_seq_one(x.neg()))
}

/// `x / (1 + exp(-x))`: one division, rounded once.
pub open spec fn silu<S: Single>(x: S) -> S {
    x.div_spec(sigmoid_den(x))
}

/// Computes [`silu`].
pub fn silu_one<S: Single>(x: S) -> (r: S)
    ensures
        r == silu(x),
{
    x.div(sigmoid_den_one(x))
}

/// Activations of a batch.
pub open spec fn silu_all<S: Single>(x: Seq<S>) -> Seq<S> {
    Seq::new(x.len(), |i: int| silu(x[i]))
}

/// Elements `[from, to)` of the batch; the others are left alone.
fn silu_run<S: Single>(
    x: &[S],
    out: &mut [S],
    from: usize,
    to: usize,
)
    requires
        from <= to <= x@.len(),
        old(out)@.len() == x@.len(),
    ensures
        final(out)@.len() == old(out)@.len(),
        forall|t: int|
            0 <= t < old(out)@.len() ==> #[trigger] final(out)@[t] == if from <= t < to {
                silu(x@[t])
            } else {
                old(out)@[t]
            },
{
    let ghost out0 = out@;
    let mut i: usize = from;
    while i < to
        invariant
            from <= i <= to <= x@.len(),
            out@.len() == x@.len(),
            out0.len() == out@.len(),
            forall|t: int|
                0 <= t < out0.len() ==> #[trigger] out@[t] == if from <= t < i {
                    silu(x@[t])
                } else {
                    out0[t]
                },
        decreases to - i,
    {
        out[i] = silu_one(x[i]);
        i = i + 1;
    }
}

/// `out[i] = x[i] / (1 + exp(-x[i]))`.
pub fn silu_f32<S: Single>(
    x: &[S],
    out: &mut [S],
)
    requires
        old(out)@.len() == x@.len(),
    ensures
        final(out)@ == silu_all(x@),
{
    let ghost out0 = out@;
    let n: usize = x.len();
    let width: usize = 8;
    let mut i: usize = 0;
    while width <= n - i
        invariant
            0 < width,
            i <= n,
            x@.len() == n,
            out@.len() == n,
            out0.len() == n,
            forall|t: int|
                0 <= t < n ==> #[trigger] out@[t] == if t < i {
                    silu(x@[t])
                } else {
                    out0[t]
                },
        decreases n - i,
    {
        silu_run(x, out, i, i + width);
        i = i + width;
    }
    silu_run(x, out, i, n);
    proof {
        assert(out@ =~= silu_all(x@));
    }
}

/// Law: each output depends on its own inputs alone, so a batch may be cut anywhere.
pub proof fn law_silu_f32_split<S: Single>(x: Seq<S>, from: int, to: int)
    requires
        0 <= from <= to <= x.len(),
    ensures
        silu_all(x.subrange(from, to)) == silu_all(x).subrange(from, to),
{
    assert(silu_all(x.subrange(from, to)) =~= silu_all(x).subrange(from, to));
}

/// `x / (1 + exp(-1.702·x))`.
pub open spec fn gelu_quick<S: Single>(x: S) -> S {
    x.div_spec(sigmoid_den(S::of_raw_spec(GELU_QUICK_C).mul_spec(x)))
}

/// Computes [`gelu_quick`].
pub fn gelu_quick_one<S: Single>(x: S) -> (r: S)
    ensures
        r == gelu_quick(x),
{
    x.div(sigmoid_den_one(S::of_raw(GELU_QUICK_C).mul(x)))
}

/// Activations of a batch.
pub open spec fn gelu_quick_all<S: Single>(x: Seq<S>) -> Seq<S> {
    Seq::new(x.len(), |i: int| gelu_quick(x[i]))
}

/// Elements `[from, to)` of the batch; the others are left alone.
fn gelu_quick_run<S: Single>(
    x: &[S],
    out: &mut [S],
    from: usize,
    to: usize,
)
    requires
        from <= to <= x@.len(),
        old(out)@.len() == x@.len(),
    ensures
        final(out)@.len() == old(out)@.len(),
        forall|t: int|
            0 <= t < old(out)@.len() ==> #[trigger] final(out)@[t] == if from <= t < to {
                gelu_quick(x@[t])
            } else {
                old(out)@[t]
            },
{
    let ghost out0 = out@;
    let mut i: usize = from;
    while i < to
        invariant
            from <= i <= to <= x@.len(),
            out@.len() == x@.len(),
            out0.len() == out@.len(),
            forall|t: int|
                0 <= t < out0.len() ==> #[trigger] out@[t] == if from <= t < i {
                    gelu_quick(x@[t])
                } else {
                    out0[t]
                },
        decreases to - i,
    {
        out[i] = gelu_quick_one(x[i]);
        i = i + 1;
    }
}

/// `out[i] = x[i] / (1 + exp(-1.702·x[i]))`.
pub fn gelu_quick_f32<S: Single>(
    x: &[S],
    out: &mut [S],
)
    requires
        old(out)@.len() == x@.len(),
    ensures
        final(out)@ == gelu_quick_all(x@),
{
    let ghost out0 = out@;
    let n: usize = x.len();
    let width: usize = 8;
    let mut i: usize = 0;
    while width <= n - i
        invariant
            0 < width,
            i <= n,
            x@.len() == n,
            out@.len() == n,
            out0.len() == n,
            forall|t: int|
                0 <= t < n ==> #[trigger] out@[t] == if t < i {
                    gelu_quick(x@[t])
                } else {
                    out0[t]
                },
        decreases n - i,
    {
        gelu_quick_run(x, out, i, i + width);
        i = i + width;
    }
    gelu_quick_run(x, out, i, n);
    proof {
        assert(out@ =~= gelu_quick_all(x@));
    }
}

/// Law: each output depends on its own inputs alone, so a batch may be cut anywhere.
pub proof fn law_gelu_quick_f32_split<S: Single>(x: Seq<S>, from: int, to: int)
    requires
        0 <= from <= to <= x.len(),
    ensures
        gelu_quick_all(x.subrange(from, to)) == gelu_quick_all(x).subrange(from, to),
{
    assert(gelu_quick_all(x.subrange(from, to)) =~= gelu_quick_all(x).subrange(from, to));
}

/// `x/2 + |x|/2 · erf(|x|/sqrt(2))`, the error function by a polynomial of degree five.
pub open spec fn gelu_erf<S: Single>(x: S) -> S {
    let ax = x.abs_spec();
    let z = ax.mul_spec(S::of_raw_spec(INV_SQRT2));
    let one = S::of_raw_spec(F32_ONE);
    let t = one.div_spec(S::of_raw_spec(ERF_P).fma_spec(z, one));
    let p4 = S::of_raw_spec(ERF_A5).fma_spec(t, S::of_raw_spec(ERF_A4));
    let p3 = p4.fma_spec(t, S::of_raw_spec(ERF_A3));
    let p2 = p3.fma_spec(t, S::of_raw_spec(ERF_A2));
    let p1 = p2.fma_spec(t, S::of_raw_spec(ERF_A1));
    let poly = p1.mul_spec(t);
    let e = exp_seq(z.mul_spec(z).neg_spec());
    let erf = one.sub_spec(poly.mul_spec(e));
    let half = S::of_raw_spec(F32_HALF);
    half.mul_spec(ax).fma_spec(erf, half.mul_spec(x))
}

/// Computes [`gelu_erf`].
pub fn gelu_erf_one<S: Single>(x: S) -> (r: S)
    ensures
        r == gelu_erf(x),
{
    let ax: S = x.abs();
    let z: S = ax.mul(S::of_raw(INV_SQRT2));
    let one: S = S::of_raw(F32_ONE);
    let t: S = one.div(S::of_raw(ERF_P).fma(z, one));
    let p4: S = S::of_raw(ERF_A5).fma(t, S::of_raw(ERF_A4));
    let p3: S = p4.fma(t, S::of_raw(ERF_A3));
    let p2: S = p3.fma(t, S::of_raw(ERF_A2));
    let p1: S = p2.fma(t, S::of_raw(ERF_A1));
    let poly: S = p1.mul(t);
    let e: S = exp_seq_one(z.mul(z).neg());
    let erf: S = one.sub(poly.mul(e));
    let half: S = S::of_raw(F32_HALF);
    half.mul(ax).fma(erf, half.mul(x))
}

/// Activations of a batch.
pub open spec fn gelu_erf_all<S: Single>(x: Seq<S>) -> Seq<S> {
    Seq::new(x.len(), |i: int| gelu_erf(x[i]))
}

/// Elements `[from, to)` of the batch; the others are left alone.
fn gelu_erf_run<S: Single>(
    x: &[S],
    out: &mut [S],
    from: usize,
    to: usize,
)
    requires
        from <= to <= x@.len(),
        old(out)@.len() == x@.len(),
    ensures
        final(out)@.len() == old(out)@.len(),
        forall|t: int|
            0 <= t < old(out)@.len() ==> #[trigger] final(out)@[t] == if from <= t < to {
                gelu_erf(x@[t])
            } else {
                old(out)@[t]
            },
{
    let ghost out0 = out@;
    let mut i: usize = from;
    while i < to
        invariant
            from <= i <= to <= x@.len(),
            out@.len() == x@.len(),
            out0.len() == out@.len(),
            forall|t: int|
                0 <= t < out0.len() ==> #[trigger] out@[t] == if from <= t < i {
                    gelu_erf(x@[t])
                } else {
                    out0[t]
                },
        decreases to - i,
    {
        out[i] = gelu_erf_one(x[i]);
        i = i + 1;
    }
}

/// `out[i] = x[i]/2 · (1 + erf(x[i]/sqrt(2)))`.
pub fn gelu_erf_f32<S: Single>(
    x: &[S],
    out: &mut [S],
)
    requires
        old(out)@.len() == x@.len(),
    ensures
        final(out)@ == gelu_erf_all(x@),
{
    let ghost out0 = out@;
    let n: usize = x.len();
    let width: usize = 8;
    let mut i: usize = 0;
    while width <= n - i
        invariant
            0 < width,
            i <= n,
            x@.len() == n,
            out@.len() == n,
            out0.len() == n,
            forall|t: int|
                0 <= t < n ==> #[trigger] out@[t] == if t < i {
                    gelu_erf(x@[t])
                } else {
                    out0[t]
                },
        decreases n - i,
    {
        gelu_erf_run(x, out, i, i + width);
        i = i + width;
    }
    gelu_erf_run(x, out, i, n);
    proof {
        assert(out@ =~= gelu_erf_all(x@));
    }
}

/// Law: each output depends on its own inputs alone, so a batch may be cut anywhere.
pub proof fn law_gelu_erf_f32_split<S: Single>(x: Seq<S>, from: int, to: int)
    requires
        0 <= from <= to <= x.len(),
    ensures
        gelu_erf_all(x.subrange(from, to)) == gelu_erf_all(x).subrange(from, to),
{
    assert(gelu_erf_all(x.subrange(from, to)) =~= gelu_erf_all(x).subrange(from, to));
}

} // verus!
