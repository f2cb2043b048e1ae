//! Laws of the network kernels.
use crate::exact::{is_real_root, total, Exact, ExactSingle};
use crate::laws::algebra::{lemma_quotient, lemma_swap};
use crate::laws::reduce::law_sum_of_squares;
use crate::ops::activation::{exp_seq, gelu_quick, gelu_quick_all, silu_all};
use crate::ops::rope::{roped, RopeMode};
use crate::ops::rows::{rms_row, sum_of_squares};
use crate::scalar::Scalar;
use vstd::prelude::*;

verus! {

/// Law: pair `i` of a row is turned by its angle: columns `i` and `i + n/2` in one layout,
/// `2·i` and `2·i + 1` in the other.
pub proof fn law_rope<S: ExactSingle>(
    x: Seq<S>,
    cos: Seq<S>,
    sin: Seq<S>,
    cols: int,
    half: int,
    mode: RopeMode,
    r: int,
    i: int,
)
    requires
        0 <= i < half,
    ensures
        ({
            let (a, b) = match mode {
                RopeMode::NeoX => (i, i + half),
                RopeMode::GptJ => (2 * i, 2 * i + 1),
            };
            let (p, q) = (x[r * cols + a].value(), x[r * cols + b].value());
            let (c, s) = (cos[r * half + i].value(), sin[r * half + i].value());
            &&& roped(x, cos, sin, cols, 2 * half, mode, r, a).value() == p * c - q * s
            &&& roped(x, cos, sin, cols, 2 * half, mode, r, b).value() == q * c + p * s
        }),
{
    S::no_rounding();
    assert((2 * half) / 2 == half);
    assert((2 * i) / 2 == i && (2 * i + 1) / 2 == i);
}

/// Law: columns that are not rotated stay as they are.
pub proof fn law_rope_keeps<S: ExactSingle>(
    x: Seq<S>,
    cos: Seq<S>,
    sin: Seq<S>,
    cols: int,
    n_dims: int,
    mode: RopeMode,
    r: int,
    j: int,
)
    requires
        n_dims <= j < cols,
    ensures
        roped(x, cos, sin, cols, n_dims, mode, r, j) == x[r * cols + j],
{
}

/// Law: the sigmoid-weighted unit times `1 + exp(-x)` is `x`.
pub proof fn law_silu<S: ExactSingle>(x: Seq<S>, i: int)
    requires
        0 <= i < x.len(),
        1real + exp_seq(x[i].neg_spec()).value() != 0real,
    ensures
        silu_all(x).len() == x.len(),
        silu_all(x)[i].value() * (1real + exp_seq(x[i].neg_spec()).value()) == x[i].value(),
{
    let d = 1real + exp_seq(x[i].neg_spec()).value();
    S::no_rounding();
    S::formats();
    lemma_quotient(x[i].value(), d);
}

/// Law: the quick gated unit times `1 + exp(-c·x)` is `x`, with the constant `c` of its
/// definition.
pub proof fn law_gelu_quick<S: ExactSingle>(x: Seq<S>, e: spec_fn(real) -> real, i: int)
    requires
        0 <= i < x.len(),
        forall|s: S| (#[trigger] exp_seq(s)).value() == e(s.value()),
        1real + e(-(S::of_raw_spec(0x3fd9_db23).value() * x[i].value())) != 0real,
    ensures
        gelu_quick_all(x).len() == x.len(),
        gelu_quick_all(x)[i].value() * (1real + e(
            -(S::of_raw_spec(0x3fd9_db23).value() * x[i].value()),
        )) == x[i].value(),
{
    S::no_rounding();
    S::formats();
    let d = 1real + e(-(S::of_raw_spec(0x3fd9_db23).value() * x[i].value()));
    assert(gelu_quick(x[i]).value() == x[i].value() / d);
    lemma_quotient(x[i].value(), d);
}

/// A number divided by `r` and weighted, times `r`.
proof fn lemma_divided(x: real, w: real, r: real)
    requires
        r > 0real,
    ensures
        ((x * (1real / r)) * w) * r == x * w,
{
    let i = 1real / r;
    lemma_quotient(1real, r);
    lemma_swap(x * i, w, r);
    lemma_swap(x, i, r);
    lemma_swap(x, 1real, 1real);
}

/// One element of a normalised row.
proof fn lemma_rms<S: ExactSingle>(x: Seq<S>, w: Seq<S>, eps: S, j: int, sum: real, r: real)
    requires
        0 <= j < x.len() <= i64::MAX,
        w.len() == 0 || w.len() == x.len(),
        sum_of_squares(x).value() == sum,
        r > 0real,
        is_real_root(sum / (x.len() as int as real) + eps.value(), r),
    ensures
        rms_row(x, w, eps)[j].value() == (x[j].value() * (1real / r)) * if w.len() == 0 {
            1real
        } else {
            w[j].value()
        },
{
    S::no_rounding();
    S::formats();
    let n = S::of_int_spec(x.len() as i64);
    assert(n.value() == x.len() as int as real);
    let mean = sum_of_squares(x).div_spec(n);
    assert(mean.value() == sum / (x.len() as int as real));
    S::exact_root(mean.add_spec(eps), r);
}

/// Law: a normalised element times the root of the mean square, with `eps` added to the mean,
/// is the element times its weight. The mean is over the whole row.
pub proof fn law_rms_norm<S: ExactSingle>(x: Seq<S>, w: Seq<S>, eps: S, j: int, r: real)
    requires
        0 <= j < x.len() <= i64::MAX,
        w.len() == 0 || w.len() == x.len(),
        r > 0real,
        is_real_root(
            total(|i: int| x[i].value() * x[i].value(), 0, x.len() as int) / (x.len() as int
                as real) + eps.value(),
            r,
        ),
    ensures
        rms_row(x, w, eps).len() == x.len(),
        rms_row(x, w, eps)[j].value() * r == x[j].value() * if w.len() == 0 {
            1real
        } else {
            w[j].value()
        },
{
    law_sum_of_squares(x);
    let sum = total(|i: int| x[i].value() * x[i].value(), 0, x.len() as int);
    lemma_rms(x, w, eps, j, sum, r);
    lemma_divided(
        x[j].value(),
        if w.len() == 0 {
            1real
        } else {
            w[j].value()
        },
        r,
    );
}

} // verus!
