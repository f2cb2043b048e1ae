//! Laws of the row kernel that turns scores into weights.
use crate::exact::{lemma_total_cut, lemma_total_same, total, Exact, ExactSingle};
use crate::laws::algebra::{lemma_quotient, lemma_swap};
use crate::laws::reduce::{lemma_eight_lanes, lemma_nothing};
use crate::ops::activation::exp_seq;
use crate::ops::chain::{chain, tree_max};
use crate::ops::rows::{
    max_step, padded, row_max, softmax, total_weight, vectors, weight, weight_step,
};
use crate::scalar::{zero, Scalar};
use vstd::prelude::*;

verus! {

/// The score of column `i`: scaled, with the mask added where there is one.
pub open spec fn score<S: Exact>(x: Seq<S>, mask: Seq<S>, scale: S, i: int) -> real {
    x[i].value() * scale.value() + if mask.len() == 0 {
        0real
    } else {
        mask[i].value()
    }
}

/// A chain of maxima is no less than any of its columns.
proof fn lemma_chain_max<S: ExactSingle>(
    x: Seq<S>,
    mask: Seq<S>,
    scale: S,
    init: S,
    l: int,
    count: int,
    i: int,
)
    requires
        0 <= i < count,
    ensures
        padded(x, mask, scale, l + 8 * i).value() <= chain(
            init,
            max_step(x, mask, scale),
            l,
            8,
            count,
        ).value(),
    decreases count,
{
    S::no_rounding();
    if i < count - 1 {
        lemma_chain_max(x, mask, scale, init, l, count - 1, i);
    }
}

/// The largest of eight is no less than any of them.
proof fn lemma_tree_max<S: ExactSingle>(v: Seq<S>, l: int)
    requires
        v.len() == 8,
        0 <= l < 8,
    ensures
        v[l].value() <= tree_max(v).value(),
{
    S::no_rounding();
}

/// Law: no score of a row is above its maximum.
pub proof fn law_row_max<S: ExactSingle>(x: Seq<S>, mask: Seq<S>, scale: S, i: int)
    requires
        0 <= i < x.len(),
    ensures
        score(x, mask, scale, i) <= row_max(x, mask, scale).value(),
{
    S::no_rounding();
    let count = vectors(x.len() as int);
    let init = S::of_raw_spec(0xff80_0000);
    let v = Seq::new(8, |l: int| chain(init, max_step(x, mask, scale), l, 8, count));
    lemma_chain_max(x, mask, scale, init, i % 8, count, i / 8);
    lemma_tree_max(v, i % 8);
    assert(i % 8 + 8 * (i / 8) == i);
    assert(row_max(x, mask, scale) == tree_max(v));
}

/// The weights of a row add up, those of the filling being zero.
proof fn lemma_weights<S: ExactSingle>(
    x: Seq<S>,
    mask: Seq<S>,
    scale: S,
    m: S,
    e: spec_fn(real) -> real,
)
    requires
        forall|s: S| (#[trigger] exp_seq(s)).value() == e(s.value()),
        e(S::of_raw_spec(0xf149_f2ca).value() - m.value()) == 0real,
    ensures
        total_weight(x, mask, scale, m).value() == total(
            |i: int| e(score(x, mask, scale, i) - m.value()),
            0,
            x.len() as int,
        ),
{
    S::no_rounding();
    let n = x.len() as int;
    let count = vectors(n);
    let f = |i: int| weight(x, mask, scale, m, i).value();
    let g = |i: int| e(score(x, mask, scale, i) - m.value());
    let lanes = Seq::new(8, |l: int| chain(zero::<S>(), weight_step(x, mask, scale, m), l, 8, count));
    lemma_eight_lanes(f, weight_step(x, mask, scale, m), lanes, count);
    lemma_total_cut(f, 0, n, 8 * count);
    lemma_nothing(f, n, 8 * count);
    assert forall|i: int| 0 <= i < n implies #[trigger] f(i) == g(i) by {
        assert(padded(x, mask, scale, i).value() == score(x, mask, scale, i));
    }
    lemma_total_same(f, g, 0, n);
}

/// Law: an output times the sum of the exponentials of all scores of the row is the
/// exponential of its own score, each taken below the maximum. The filling of the last vector
/// has no weight.
pub proof fn law_softmax<S: ExactSingle>(
    x: Seq<S>,
    mask: Seq<S>,
    scale: S,
    e: spec_fn(real) -> real,
    j: int,
)
    requires
        0 <= j < x.len(),
        forall|s: S| (#[trigger] exp_seq(s)).value() == e(s.value()),
        e(S::of_raw_spec(0xf149_f2ca).value() - row_max(x, mask, scale).value()) == 0real,
        total(
            |i: int| e(score(x, mask, scale, i) - row_max(x, mask, scale).value()),
            0,
            x.len() as int,
        ) != 0real,
    ensures
        softmax(x, mask, scale).len() == x.len(),
        softmax(x, mask, scale)[j].value() * total(
            |i: int| e(score(x, mask, scale, i) - row_max(x, mask, scale).value()),
            0,
            x.len() as int,
        ) == e(score(x, mask, scale, j) - row_max(x, mask, scale).value()),
{
    let m = row_max(x, mask, scale);
    lemma_weights(x, mask, scale, m, e);
    let sum = total(
        |i: int| e(score(x, mask, scale, i) - row_max(x, mask, scale).value()),
        0,
        x.len() as int,
    );
    S::no_rounding();
    S::formats();
    let w = e(score(x, mask, scale, j) - m.value());
    assert(padded(x, mask, scale, j).value() == score(x, mask, scale, j));
    assert(weight(x, mask, scale, m, j).value() == w);
    let inv = 1real / sum;
    assert(softmax(x, mask, scale)[j].value() == w * inv);
    lemma_quotient(1real, sum);
    lemma_swap(w, inv, sum);
    lemma_swap(w, 1real, 1real);
}

} // verus!
