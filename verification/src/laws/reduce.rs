//! Laws of the reductions: every term is taken exactly once.
use crate::exact::{lemma_total_cut, lemma_total_same, total, Exact, ExactDouble, ExactSingle};
use crate::ops::chain::{chain, tree_sum, TermSeq};
use crate::ops::half::single_of_half;
use crate::ops::quant::{
    byte_step, exact_dot, group_step, nibble_dot, nibble_products, q4_dot, wrap32,
};
use crate::ops::reduce::{
    axpy_of, dot_f64_of, half_dot, joined, longer, merged, merged_blocks, plain_step, reduced,
    strewn, wide_step,
};
use crate::ops::rows::{filled, square_step, sum_of_squares, vectors};
use crate::scalar::{zero, Scalar};
use vstd::prelude::*;

verus! {

/// The sum of `count` terms, `stride` apart, from index `start`.
spec fn strided(f: spec_fn(int) -> real, start: int, stride: int, count: int) -> real
    decreases count,
{
    if count <= 0 {
        0real
    } else {
        strided(f, start, stride, count - 1) + f(start + stride * (count - 1))
    }
}

/// The sum of `lanes` neighbouring strided sums.
spec fn laned(f: spec_fn(int) -> real, start: int, stride: int, lanes: int, count: int) -> real
    decreases lanes,
{
    if lanes <= 0 {
        0real
    } else {
        laned(f, start, stride, lanes - 1, count) + strided(f, start + lanes - 1, stride, count)
    }
}

/// One more round of all lanes adds one more stretch of terms.
proof fn lemma_round(f: spec_fn(int) -> real, start: int, stride: int, lanes: int, count: int)
    requires
        0 <= lanes,
        0 < count,
    ensures
        laned(f, start, stride, lanes, count) == laned(f, start, stride, lanes, count - 1) + total(
            f,
            start + stride * (count - 1),
            start + stride * (count - 1) + lanes,
        ),
    decreases lanes,
{
    if lanes > 0 {
        lemma_round(f, start, stride, lanes - 1, count);
        assert(start + lanes - 1 + stride * (count - 1) == start + stride * (count - 1) + lanes
            - 1);
    }
}

/// Lanes without rounds hold nothing.
proof fn lemma_no_round(f: spec_fn(int) -> real, start: int, stride: int, lanes: int)
    ensures
        laned(f, start, stride, lanes, 0) == 0real,
    decreases lanes,
{
    if lanes > 0 {
        lemma_no_round(f, start, stride, lanes - 1);
    }
}

/// Lanes that lie as close as they advance take every term once.
proof fn lemma_lanes_tile(f: spec_fn(int) -> real, start: int, width: int, count: int)
    requires
        0 <= width,
        0 <= count,
    ensures
        laned(f, start, width, width, count) == total(f, start, start + width * count),
    decreases count,
{
    if count == 0 {
        lemma_no_round(f, start, width, width);
        assert(width * count == 0) by (nonlinear_arith)
            requires
                count == 0,
        ;
    } else {
        lemma_lanes_tile(f, start, width, count - 1);
        lemma_round(f, start, width, width, count);
        assert(width * (count - 1) + width == width * count) by (nonlinear_arith);
        assert(0 <= width * (count - 1)) by (nonlinear_arith)
            requires
                0 <= width,
                0 <= count - 1,
        ;
        lemma_total_cut(f, start, start + width * (count - 1), start + width * count);
    }
}

/// Lanes may be counted in two groups.
proof fn lemma_lanes_join(
    f: spec_fn(int) -> real,
    start: int,
    stride: int,
    a: int,
    b: int,
    count: int,
)
    requires
        0 <= a,
        0 <= b,
    ensures
        laned(f, start, stride, a + b, count) == laned(f, start, stride, a, count) + laned(
            f,
            start + a,
            stride,
            b,
            count,
        ),
    decreases b,
{
    if b > 0 {
        lemma_lanes_join(f, start, stride, a, b - 1, count);
        assert(start + a + b - 1 == start + (a + b) - 1);
    }
}

/// A chain whose every step adds a term holds the sum of the terms.
proof fn lemma_chain_adds<X>(
    val: spec_fn(X) -> real,
    f: spec_fn(int) -> real,
    init: X,
    step: spec_fn(X, int) -> X,
    start: int,
    stride: int,
    count: int,
)
    requires
        forall|acc: X, i: int| val(#[trigger] step(acc, i)) == val(acc) + f(i),
    ensures
        val(chain(init, step, start, stride, count)) == val(init) + strided(
            f,
            start,
            stride,
            count,
        ),
    decreases count,
{
    if count > 0 {
        lemma_chain_adds(val, f, init, step, start, stride, count - 1);
    }
}

/// One lane after the other is one stretch of terms.
proof fn lemma_strided_one(f: spec_fn(int) -> real, start: int, count: int)
    requires
        0 <= count,
    ensures
        strided(f, start, 1, count) == total(f, start, start + count),
    decreases count,
{
    if count > 0 {
        lemma_strided_one(f, start, count - 1);
        assert(1 * (count - 1) == count - 1);
    }
}

/// The real numbers behind the terms of a sum.
pub open spec fn terms<S: Exact>(t: TermSeq<S>) -> spec_fn(int) -> real {
    match t {
        TermSeq::Sum(x) => |i: int| x[i].value(),
        TermSeq::Dot(a, b) => |i: int| a[i].value() * b[i].value(),
        TermSeq::Half(a, b) => |i: int| single_of_half::<S>(a[i]).value() * b[i].value(),
    }
}

/// Taking a term adds it.
proof fn lemma_taken<S: Exact>(t: TermSeq<S>)
    ensures
        forall|acc: S, i: int|
            (#[trigger] t.taken(acc, i)).value() == acc.value() + terms(t)(i),
        forall|i: int| (#[trigger] t.term(i)).value() == terms(t)(i),
{
    S::no_rounding();
}

/// A lane of chains holds its strided sum.
proof fn lemma_lane<S: Exact>(t: TermSeq<S>, start: int, stride: int, lanes: int, count: int)
    requires
        0 <= lanes,
    ensures
        t.lanes_of(start, stride, lanes, count).len() == lanes,
        forall|l: int|
            0 <= l < lanes ==> (#[trigger] t.lanes_of(start, stride, lanes, count)[l]).value()
                == strided(terms(t), start + l, stride, count),
{
    S::no_rounding();
    lemma_taken(t);
    assert forall|l: int| 0 <= l < lanes implies (#[trigger] t.lanes_of(
        start,
        stride,
        lanes,
        count,
    )[l]).value() == strided(terms(t), start + l, stride, count) by {
        lemma_chain_adds(
            |x: S| x.value(),
            terms(t),
            zero::<S>(),
            t.step(),
            start + l,
            stride,
            count,
        );
    }
}

/// The sum of four lanes, and of eight.
proof fn lemma_laned_unrolled(f: spec_fn(int) -> real, start: int, stride: int, count: int)
    ensures
        laned(f, start, stride, 4, count) == strided(f, start, stride, count) + strided(
            f,
            start + 1,
            stride,
            count,
        ) + strided(f, start + 2, stride, count) + strided(f, start + 3, stride, count),
        laned(f, start, stride, 8, count) == laned(f, start, stride, 4, count) + strided(
            f,
            start + 4,
            stride,
            count,
        ) + strided(f, start + 5, stride, count) + strided(f, start + 6, stride, count) + strided(
            f,
            start + 7,
            stride,
            count,
        ),
{
    reveal_with_fuel(laned, 9);
}

/// Law: the dot product in double precision is `Σ a[i]·b[i]`, every product taken once.
pub proof fn law_dot_f64<S: ExactDouble>(a: Seq<S>, b: Seq<S>)
    requires
        a.len() == b.len(),
    ensures
        dot_f64_of(a, b).value() == total(
            |i: int| a[i].value() * b[i].value(),
            0,
            a.len() as int,
        ),
{
    S::no_rounding();
    let t = TermSeq::Dot(a, b);
    let f = terms(t);
    let n = a.len() as int;
    let c = t.lanes_of(0, 4, 4, n / 4);
    let head = zero::<S>().add_spec(c[0]).add_spec(c[1]).add_spec(c[2]).add_spec(c[3]);
    let at = n / 4 * 4;
    lemma_taken(t);
    lemma_lane(t, 0, 4, 4, n / 4);
    lemma_laned_unrolled(f, 0, 4, n / 4);
    lemma_lanes_tile(f, 0, 4, n / 4);
    assert(head.value() == total(f, 0, at));
    lemma_chain_adds(|x: S| x.value(), f, head, plain_step(t), at, 1, n - at);
    lemma_strided_one(f, at, n - at);
    lemma_total_cut(f, 0, at, n);
    lemma_total_same(f, |i: int| a[i].value() * b[i].value(), 0, n);
}

/// The sum of the four wide lanes.
spec fn wide_sum<S: ExactSingle>(w: Seq<S::Wide>) -> real {
    S::wide_value(w[0]) + S::wide_value(w[1]) + S::wide_value(w[2]) + S::wide_value(w[3])
}

/// Merging eight chains adds all of them.
proof fn lemma_merged_sum<S: ExactSingle>(
    w: Seq<S::Wide>,
    t: TermSeq<S>,
    start: int,
    stride: int,
    count: int,
)
    requires
        w.len() == 4,
    ensures
        merged(w, t.lanes_of(start, stride, 8, count)).len() == 4,
        wide_sum::<S>(merged(w, t.lanes_of(start, stride, 8, count))) == wide_sum::<S>(w) + laned(
            terms(t),
            start,
            stride,
            8,
            count,
        ),
{
    S::formats();
    lemma_lane(t, start, stride, 8, count);
    lemma_laned_unrolled(terms(t), start, stride, count);
}

/// Whole blocks hold all of their terms.
proof fn lemma_blocks_sum<S: ExactSingle>(t: TermSeq<S>, blocks: int)
    requires
        0 <= blocks,
    ensures
        merged_blocks(t, blocks).len() == 4,
        wide_sum::<S>(merged_blocks(t, blocks)) == total(terms(t), 0, 256 * blocks),
    decreases blocks,
{
    S::formats();
    if blocks > 0 {
        let f = terms(t);
        let at = 256 * (blocks - 1);
        lemma_blocks_sum(t, blocks - 1);
        let w0 = merged_blocks(t, blocks - 1);
        lemma_merged_sum(w0, t, at, 32, 8);
        let w1 = merged(w0, t.lanes_of(at, 32, 8, 8));
        lemma_merged_sum(w1, t, at + 8, 32, 8);
        let w2 = merged(w1, t.lanes_of(at + 8, 32, 8, 8));
        lemma_merged_sum(w2, t, at + 16, 32, 8);
        let w3 = merged(w2, t.lanes_of(at + 16, 32, 8, 8));
        lemma_merged_sum(w3, t, at + 24, 32, 8);
        lemma_lanes_join(f, at, 32, 8, 24, 8);
        lemma_lanes_join(f, at + 8, 32, 8, 16, 8);
        lemma_lanes_join(f, at + 16, 32, 8, 8, 8);
        lemma_lanes_tile(f, at, 32, 8);
        lemma_total_cut(f, 0, at, 256 * blocks);
    }
}

/// A reduction holds every term once.
proof fn lemma_reduced<S: ExactSingle>(t: TermSeq<S>)
    requires
        t.wf(),
    ensures
        reduced(t).value() == total(terms(t), 0, t.count()),
{
    S::formats();
    lemma_taken(t);
    let f = terms(t);
    let n = t.count();
    let at = n / 256 * 256;
    let more = (n - at) / 8;
    let rest = at + 8 * more;
    lemma_blocks_sum(t, n / 256);
    let w0 = merged_blocks(t, n / 256);
    lemma_merged_sum(w0, t, at, 8, more);
    lemma_lanes_tile(f, at, 8, more);
    let w = merged(w0, t.lanes_of(at, 8, 8, more));
    let head = w[0].add_spec(w[1]).add_spec(w[2]).add_spec(w[3]);
    assert(S::wide_value(head) == total(f, 0, at) + total(f, at, rest));
    lemma_chain_adds(|x: S::Wide| S::wide_value(x), f, head, wide_step(t), rest, 1, n - rest);
    lemma_strided_one(f, rest, n - rest);
    lemma_total_cut(f, 0, at, rest);
    lemma_total_cut(f, 0, rest, n);
}

/// Law: the sum of an array is `Σ x[i]`.
pub proof fn law_sum<S: ExactSingle>(x: Seq<S>)
    ensures
        reduced(TermSeq::Sum(x)).value() == total(|i: int| x[i].value(), 0, x.len() as int),
{
    lemma_reduced(TermSeq::Sum(x));
    lemma_total_same(
        terms(TermSeq::Sum(x)),
        |i: int| x[i].value(),
        0,
        x.len() as int,
    );
}

/// Law: the dot product in single precision is `Σ a[i]·b[i]`.
pub proof fn law_dot<S: ExactSingle>(a: Seq<S>, b: Seq<S>)
    requires
        a.len() == b.len(),
    ensures
        reduced(TermSeq::Dot(a, b)).value() == total(
            |i: int| a[i].value() * b[i].value(),
            0,
            a.len() as int,
        ),
{
    lemma_reduced(TermSeq::Dot(a, b));
    lemma_total_same(
        terms(TermSeq::Dot(a, b)),
        |i: int| a[i].value() * b[i].value(),
        0,
        a.len() as int,
    );
}

/// Law: a scaled sum adds `alpha·x[i]` to every `y[i]`.
pub proof fn law_axpy<S: ExactSingle>(alpha: S, x: Seq<S>, y: Seq<S>, i: int)
    requires
        x.len() == y.len(),
        0 <= i < x.len(),
    ensures
        axpy_of(alpha, x, y).len() == y.len(),
        axpy_of(alpha, x, y)[i].value() == y[i].value() + alpha.value() * x[i].value(),
{
    S::no_rounding();
    assert(x[i].value() * alpha.value() == alpha.value() * x[i].value()) by (nonlinear_arith);
}

/// The sum of eight lanes.
#[verifier::opaque]
spec fn lane_total<S: Exact>(v: Seq<S>) -> real {
    v[0].value() + v[1].value() + v[2].value() + v[3].value() + v[4].value() + v[5].value()
        + v[6].value() + v[7].value()
}

/// Strewing terms over the lanes adds all of them.
proof fn lemma_strewn<S: Exact>(t: TermSeq<S>, v: Seq<S>, from: int, to: int)
    requires
        v.len() == 8,
        from <= to,
    ensures
        strewn(t, v, from, to).len() == 8,
        lane_total(strewn(t, v, from, to)) == lane_total(v) + total(terms(t), from, to),
    decreases to - from,
{
    reveal(lane_total);
    if from < to {
        lemma_strewn(t, v, from, to - 1);
        lemma_taken(t);
        S::no_rounding();
        let l = (to - 1) % 8;
        assert(l == 0 || l == 1 || l == 2 || l == 3 || l == 4 || l == 5 || l == 6 || l == 7);
    }
}

/// Eight chains hold their terms.
proof fn lemma_group<S: Exact>(t: TermSeq<S>, start: int, count: int)
    ensures
        t.lanes_of(start, 32, 8, count).len() == 8,
        lane_total(t.lanes_of(start, 32, 8, count)) == laned(terms(t), start, 32, 8, count),
{
    reveal(lane_total);
    lemma_lane(t, start, 32, 8, count);
    lemma_laned_unrolled(terms(t), start, 32, count);
}

/// One more term for each of eight chains.
proof fn lemma_longer<S: Exact>(t: TermSeq<S>, c: Seq<S>, at: int)
    requires
        c.len() == 8,
    ensures
        longer(t, c, at).len() == 8,
        lane_total(longer(t, c, at)) == lane_total(c) + total(terms(t), at, at + 8),
{
    reveal(lane_total);
    lemma_taken(t);
    reveal_with_fuel(total, 9);
}

/// Four groups of chains, added lane by lane.
proof fn lemma_joined<S: Exact>(c0: Seq<S>, c1: Seq<S>, c2: Seq<S>, c3: Seq<S>)
    ensures
        joined(c0, c1, c2, c3).len() == 8,
        lane_total(joined(c0, c1, c2, c3)) == lane_total(c0) + lane_total(c1) + lane_total(c2)
            + lane_total(c3),
{
    reveal(lane_total);
    S::no_rounding();
}

/// Eight lanes, summed pairwise.
proof fn lemma_tree_sum<S: Exact>(v: Seq<S>)
    requires
        v.len() == 8,
    ensures
        tree_sum(v).value() == lane_total(v),
{
    reveal(lane_total);
    S::no_rounding();
}

/// Law: the dot product with half-precision weights is `Σ a[i]·b[i]`, each weight converted
/// exactly.
pub proof fn law_dot_f16<S: ExactSingle>(a: Seq<u16>, b: Seq<S>)
    requires
        a.len() == b.len(),
    ensures
        half_dot(a, b).value() == total(
            |i: int| single_of_half::<S>(a[i]).value() * b[i].value(),
            0,
            a.len() as int,
        ),
{
    let t = TermSeq::Half(a, b);
    let f = terms(t);
    let n = a.len() as int;
    let rounds = n / 32;
    let at = rounds * 32;
    let (c0, c1) = (t.lanes_of(0, 32, 8, rounds), t.lanes_of(8, 32, 8, rounds));
    let (c2, c3) = (t.lanes_of(16, 32, 8, rounds), t.lanes_of(24, 32, 8, rounds));
    lemma_group(t, 0, rounds);
    lemma_group(t, 8, rounds);
    lemma_group(t, 16, rounds);
    lemma_group(t, 24, rounds);
    lemma_lanes_join(f, 0, 32, 8, 24, rounds);
    lemma_lanes_join(f, 8, 32, 8, 16, rounds);
    lemma_lanes_join(f, 16, 32, 8, 8, rounds);
    lemma_lanes_tile(f, 0, 32, rounds);
    assert(lane_total(c0) + lane_total(c1) + lane_total(c2) + lane_total(c3) == total(f, 0, at));
    lemma_longer(t, c0, at);
    lemma_longer(t, c1, at + 8);
    lemma_total_cut(f, at, at + 8, at + 16);
    let half_round = n - at >= 16;
    let (d0, d1) = if half_round {
        (longer(t, c0, at), longer(t, c1, at + 8))
    } else {
        (c0, c1)
    };
    let rest = if half_round {
        at + 16
    } else {
        at
    };
    lemma_total_cut(f, 0, at, at + 16);
    let v = joined(d0, d1, c2, c3);
    lemma_joined(d0, d1, c2, c3);
    assert(lane_total(v) == total(f, 0, rest));
    lemma_strewn(t, v, rest, n);
    lemma_tree_sum(strewn(t, v, rest, n));
    lemma_total_cut(f, 0, rest, n);
    lemma_total_same(f, |i: int| single_of_half::<S>(a[i]).value() * b[i].value(), 0, n);
}

/// What byte `j` of two arrays of scaled nibbles adds to their dot product.
pub open spec fn scaled_byte<S: Exact>(
    qa: Seq<u8>,
    sa: Seq<S>,
    qb: Seq<u8>,
    sb: Seq<S>,
    j: int,
) -> real {
    let low = (qa[j] as int % 16) * (qb[j] as int % 16);
    let high = (qa[j] as int / 16) * (qb[j] as int / 16);
    sa[j / 32].value() * sb[j / 32].value() * ((low + high) as real)
}

/// The nibble products of a stretch inside one group, scaled.
proof fn lemma_scaled_stretch<S: Exact>(
    qa: Seq<u8>,
    sa: Seq<S>,
    qb: Seq<u8>,
    sb: Seq<S>,
    g: int,
    to: int,
)
    requires
        0 <= g,
        32 * g <= to <= 32 * g + 32,
    ensures
        total(|j: int| scaled_byte(qa, sa, qb, sb, j), 32 * g, to) == sa[g].value()
            * sb[g].value() * (nibble_dot(qa, qb, 32 * g, to) as real),
        0 <= nibble_dot(qa, qb, 32 * g, to) <= 450 * (to - 32 * g),
    decreases to,
{
    let f = |j: int| scaled_byte(qa, sa, qb, sb, j);
    let s = sa[g].value() * sb[g].value();
    if to == 32 * g {
        assert(s * 0real == 0real) by (nonlinear_arith);
    } else {
        lemma_scaled_stretch(qa, sa, qb, sb, g, to - 1);
        let j = to - 1;
        assert(j / 32 == g);
        let x = nibble_products(qa[j], qb[j]);
        let rest = nibble_dot(qa, qb, 32 * g, to - 1);
        assert(0 <= x <= 450) by {
            let (a, b) = (qa[j] as int % 16, qb[j] as int % 16);
            let (c, d) = (qa[j] as int / 16, qb[j] as int / 16);
            assert(0 <= a * b <= 225 && 0 <= c * d <= 225) by (nonlinear_arith)
                requires
                    0 <= a <= 15,
                    0 <= b <= 15,
                    0 <= c <= 15,
                    0 <= d <= 15,
            ;
        }
        assert((rest + x) as real == (rest as real) + (x as real));
        assert(s * ((rest as real) + (x as real)) == s * (rest as real) + s * (x as real))
            by (nonlinear_arith);
        assert(f(j) == s * (x as real));
    }
}

/// Law: the dot product of two arrays of nibbles is the sum, over all bytes, of both nibble
/// products times the two scales of the byte's group.
pub proof fn law_dot_q4<S: ExactSingle>(qa: Seq<u8>, sa: Seq<S>, qb: Seq<u8>, sb: Seq<S>)
    requires
        qa.len() == qb.len(),
        32 * sa.len() >= qa.len(),
        32 * sb.len() >= qa.len(),
    ensures
        S::wide_value(q4_dot(qa, sa, qb, sb)) == total(
            |j: int| scaled_byte(qa, sa, qb, sb, j),
            0,
            qa.len() as int,
        ),
{
    S::no_rounding();
    S::formats();
    let f = |j: int| scaled_byte(qa, sa, qb, sb, j);
    let n = qa.len() as int;
    let groups = n / 32;
    let zero = zero::<S::Wide>();
    let head = chain(zero, group_step(qa, sa, qb, sb), 0, 1, groups);
    lemma_groups(qa, sa, qb, sb, groups);
    let from = groups * 32;
    lemma_bytes(qa, sa, qb, sb, head, from, n - from);
    lemma_total_cut(f, 0, from, n);
}

/// Whole groups hold all of their bytes.
proof fn lemma_groups<S: ExactSingle>(
    qa: Seq<u8>,
    sa: Seq<S>,
    qb: Seq<u8>,
    sb: Seq<S>,
    groups: int,
)
    requires
        0 <= groups,
    ensures
        S::wide_value(
            chain(zero::<S::Wide>(), group_step(qa, sa, qb, sb), 0, 1, groups),
        ) == total(|j: int| scaled_byte(qa, sa, qb, sb, j), 0, groups * 32),
    decreases groups,
{
    S::no_rounding();
    S::formats();
    let f = |j: int| scaled_byte(qa, sa, qb, sb, j);
    if groups > 0 {
        let g = groups - 1;
        lemma_groups(qa, sa, qb, sb, g);
        lemma_scaled_stretch(qa, sa, qb, sb, g, 32 * g + 32);
        lemma_total_cut(f, 0, g * 32, groups * 32);
        let d = nibble_dot(qa, qb, 32 * g, 32 * g + 32);
        assert(d as i64 as real == d as real);
        assert(0 + 1 * (groups - 1) == g);
    }
}

/// Bytes left over are added one by one.
proof fn lemma_bytes<S: ExactSingle>(
    qa: Seq<u8>,
    sa: Seq<S>,
    qb: Seq<u8>,
    sb: Seq<S>,
    head: S::Wide,
    from: int,
    count: int,
)
    requires
        0 <= from,
        0 <= count,
    ensures
        S::wide_value(chain(head, byte_step(qa, sa, qb, sb), from, 1, count)) == S::wide_value(
            head,
        ) + total(|j: int| scaled_byte(qa, sa, qb, sb, j), from, from + count),
    decreases count,
{
    S::no_rounding();
    S::formats();
    let f = |j: int| scaled_byte(qa, sa, qb, sb, j);
    if count > 0 {
        lemma_bytes(qa, sa, qb, sb, head, from, count - 1);
        let j = from + count - 1;
        let x = nibble_products(qa[j], qb[j]);
        let (a, b) = (qa[j] as int % 16, qb[j] as int % 16);
        let (c, d) = (qa[j] as int / 16, qb[j] as int / 16);
        assert(0 <= a * b <= 225 && 0 <= c * d <= 225) by (nonlinear_arith)
            requires
                0 <= a <= 15,
                0 <= b <= 15,
                0 <= c <= 15,
                0 <= d <= 15,
        ;
        assert(x as i64 as real == x as real);
        assert(from + 1 * (count - 1) == j);
    }
}

/// The sum of the integers `f(0), …, f(n - 1)`.
pub open spec fn int_total(f: spec_fn(int) -> int, n: int) -> int
    decreases n,
{
    if n <= 0 {
        0
    } else {
        int_total(f, n - 1) + f(n - 1)
    }
}

/// Law: what a 32-bit result keeps of an integer is congruent to it, and fits.
pub proof fn law_wrapped(x: int)
    ensures
        -0x8000_0000 <= wrap32(x) < 0x8000_0000,
        (x - wrap32(x)) % 0x1_0000_0000 == 0,
{
    let y = x + 0x8000_0000;
    vstd::arithmetic::div_mod::lemma_fundamental_div_mod(y, 0x1_0000_0000);
    vstd::arithmetic::div_mod::lemma_mod_multiples_basic(y / 0x1_0000_0000, 0x1_0000_0000);
}

/// Law: the dot product of two byte arrays is the sum of all products.
pub proof fn law_dot_i8(a: Seq<i8>, b: Seq<i8>, n: int)
    requires
        0 <= n <= a.len(),
        a.len() == b.len(),
    ensures
        exact_dot(a, b, n) == int_total(|i: int| a[i] * b[i], n),
    decreases n,
{
    if n > 0 {
        law_dot_i8(a, b, n - 1);
    }
}

/// Eight chains that add, added up, take every term once.
pub proof fn lemma_eight_lanes<S: Exact>(
    f: spec_fn(int) -> real,
    step: spec_fn(S, int) -> S,
    lanes: Seq<S>,
    count: int,
)
    requires
        0 <= count,
        forall|acc: S, i: int| (#[trigger] step(acc, i)).value() == acc.value() + f(i),
        lanes.len() == 8,
        forall|l: int| 0 <= l < 8 ==> #[trigger] lanes[l] == chain(zero::<S>(), step, l, 8, count),
    ensures
        tree_sum(lanes).value() == total(f, 0, 8 * count),
{
    S::no_rounding();
    assert forall|l: int| 0 <= l < 8 implies (#[trigger] lanes[l]).value() == strided(
        f,
        l,
        8,
        count,
    ) by {
        lemma_chain_adds(|v: S| v.value(), f, zero::<S>(), step, l, 8, count);
    }
    lemma_laned_unrolled(f, 0, 8, count);
    lemma_lanes_tile(f, 0, 8, count);
}

/// Terms that are zero add nothing.
pub proof fn lemma_nothing(f: spec_fn(int) -> real, from: int, to: int)
    requires
        forall|i: int| from <= i < to ==> #[trigger] f(i) == 0real,
    ensures
        total(f, from, to) == 0real,
    decreases to - from,
{
    if from < to {
        lemma_nothing(f, from, to - 1);
    }
}

/// Adding a square.
proof fn lemma_square_step<S: ExactSingle>(x: Seq<S>, f: spec_fn(int) -> real)
    requires
        forall|i: int| #[trigger] f(i) == filled(x, i).value() * filled(x, i).value(),
    ensures
        forall|acc: S, i: int|
            (#[trigger] square_step(x)(acc, i)).value() == acc.value() + f(i),
{
    S::no_rounding();
}

/// Law: the sum of the squares of a row is `Σ x[i]²`, every column taken once.
pub proof fn law_sum_of_squares<S: ExactSingle>(x: Seq<S>)
    ensures
        sum_of_squares(x).value() == total(
            |i: int| x[i].value() * x[i].value(),
            0,
            x.len() as int,
        ),
{
    S::no_rounding();
    let n = x.len() as int;
    let count = vectors(n);
    let f = |i: int| filled(x, i).value() * filled(x, i).value();
    lemma_square_step(x, f);
    let lanes = Seq::new(8, |l: int| chain(zero::<S>(), square_step(x), l, 8, count));
    lemma_eight_lanes(f, square_step(x), lanes, count);
    assert(tree_sum(lanes).value() == total(f, 0, 8 * count));
    lemma_total_cut(f, 0, n, 8 * count);
    assert(0real * 0real == 0real);
    lemma_nothing(f, n, 8 * count);
    lemma_total_same(f, |i: int| x[i].value() * x[i].value(), 0, n);
}

} // verus!
