//! Reductions: sums, dot products and scaled sums.
use crate::arch::SimdPath;
use crate::math::lemma_row_fits;
use crate::ops::chain::{chain, hsum, tree_sum, TermSeq, Terms};
use crate::ops::lanes::zeros;
use crate::scalar::{zero, Double, Scalar, Single};
use vstd::prelude::*;

verus! {

/// Terms of one block of the blocked reductions.
pub const BLOCK: usize = 256;

/// Which of eight lanes is the first to be widened into wide lane `q` of four: wide lanes
/// draw on two halves of four lanes each, and take the lower pair of a half first.
pub open spec fn low_lane(q: int) -> int {
    if q < 2 {
        q
    } else {
        q + 2
    }
}

/// Four wide lanes after eight narrow ones were added to them.
pub open spec fn merged<S: Single>(wide: Seq<S::Wide>, c: Seq<S>) -> Seq<S::Wide> {
    Seq::new(
        4,
        |q: int|
            wide[q].add_spec(c[low_lane(q)].widen_spec()).add_spec(
                c[low_lane(q) + 2].widen_spec(),
            ),
    )
}

/// Four wide lanes after `blocks` whole blocks: four chains per block, merged in order.
pub open spec fn merged_blocks<S: Single>(t: TermSeq<S>, blocks: int) -> Seq<S::Wide>
    decreases blocks,
{
    if blocks <= 0 {
        Seq::new(4, |q: int| zero::<S::Wide>())
    } else {
        let at = 256 * (blocks - 1);
        let w0 = merged_blocks(t, blocks - 1);
        let w1 = merged(w0, t.lanes_of(at, 32, 8, 8));
        let w2 = merged(w1, t.lanes_of(at + 8, 32, 8, 8));
        let w3 = merged(w2, t.lanes_of(at + 16, 32, 8, 8));
        merged(w3, t.lanes_of(at + 24, 32, 8, 8))
    }
}

/// How the terms left over are added to a wide sum.
pub open spec fn wide_step<S: Single>(t: TermSeq<S>) -> spec_fn(S::Wide, int) -> S::Wide {
    |acc: S::Wide, j: int| acc.add_spec(t.term(j).widen_spec())
}

/// The reduction in eight lanes: whole blocks, whole rounds of eight, then single terms.
pub open spec fn reduced<S: Single>(t: TermSeq<S>) -> S {
    let n = t.count();
    let at = n / 256 * 256;
    let more = (n - at) / 8;
    let w = merged(merged_blocks(t, n / 256), t.lanes_of(at, 8, 8, more));
    let head = w[0].add_spec(w[1]).add_spec(w[2]).add_spec(w[3]);
    let rest = at + 8 * more;
    S::narrow_spec(chain(head, wide_step(t), rest, 1, n - rest))
}

/// Two wide lanes after four narrow ones were added to them: one half of [`merged`].
pub open spec fn half_merged<S: Single>(wide: Seq<S::Wide>, c: Seq<S>) -> Seq<S::Wide> {
    Seq::new(
        2,
        |q: int| wide[q].add_spec(c[q].widen_spec()).add_spec(c[q + 2].widen_spec()),
    )
}

/// The two halves of the wide lanes draw on the two halves of the narrow ones.
proof fn lemma_halves<S: Single>(wide: Seq<S::Wide>, c: Seq<S>)
    requires
        wide.len() == 4,
        c.len() == 8,
    ensures
        merged(wide, c).subrange(0, 2) == half_merged(wide.subrange(0, 2), c.subrange(0, 4)),
        merged(wide, c).subrange(2, 4) == half_merged(wide.subrange(2, 4), c.subrange(4, 8)),
{
    assert(merged(wide, c).subrange(0, 2) =~= half_merged(
        wide.subrange(0, 2),
        c.subrange(0, 4),
    ));
    assert(merged(wide, c).subrange(2, 4) =~= half_merged(
        wide.subrange(2, 4),
        c.subrange(4, 8),
    ));
}

/// Eight neighbouring chains are four, and the four after them.
proof fn lemma_lane_halves<S: Single>(t: TermSeq<S>, start: int, stride: int, count: int)
    ensures
        t.lanes_of(start, stride, 8, count).subrange(0, 4) == t.lanes_of(start, stride, 4, count),
        t.lanes_of(start, stride, 8, count).subrange(4, 8) == t.lanes_of(
            start + 4,
            stride,
            4,
            count,
        ),
{
    let c = t.lanes_of(start, stride, 8, count);
    assert(c.subrange(0, 4) =~= t.lanes_of(start, stride, 4, count));
    assert forall|l: int| 0 <= l < 4 implies c.subrange(4, 8)[l] == t.lanes_of(
        start + 4,
        stride,
        4,
        count,
    )[l] by {
        assert(start + (l + 4) == start + 4 + l);
    }
    assert(c.subrange(4, 8) =~= t.lanes_of(start + 4, stride, 4, count));
}

/// Adds eight narrow lanes to four wide ones.
fn merge<S: Single>(wide: Vec<S::Wide>, c: &Vec<S>) -> (r: Vec<S::Wide>)
    requires
        wide@.len() == 4,
        c@.len() == 8,
    ensures
        r@ == merged(wide@, c@),
{
    let mut r: Vec<S::Wide> = Vec::new();
    r.push(wide[0].add(c[0].widen()).add(c[2].widen()));
    r.push(wide[1].add(c[1].widen()).add(c[3].widen()));
    r.push(wide[2].add(c[4].widen()).add(c[6].widen()));
    r.push(wide[3].add(c[5].widen()).add(c[7].widen()));
    proof {
        assert(r@ =~= merged(wide@, c@));
    }
    r
}

/// Adds four narrow lanes to two wide ones.
fn merge_half<S: Single>(wide: Vec<S::Wide>, c: &Vec<S>) -> (r: Vec<S::Wide>)
    requires
        wide@.len() == 2,
        c@.len() == 4,
    ensures
        r@ == half_merged(wide@, c@),
{
    let mut r: Vec<S::Wide> = Vec::new();
    r.push(wide[0].add(c[0].widen()).add(c[2].widen()));
    r.push(wide[1].add(c[1].widen()).add(c[3].widen()));
    proof {
        assert(r@ =~= half_merged(wide@, c@));
    }
    r
}

/// Eight chains of `count` terms from index `start`, run as two halves, and added to two
/// halves of the wide lanes.
fn merge_chains<S: Single>(
    t: &Terms<'_, S>,
    halves: (Vec<S::Wide>, Vec<S::Wide>),
    start: usize,
    stride: usize,
    count: usize,
    Ghost(wide): Ghost<Seq<S::Wide>>,
) -> (r: (Vec<S::Wide>, Vec<S::Wide>))
    requires
        t@.wf(),
        t@.count() <= usize::MAX,
        8 <= stride,
        start + stride * count <= t@.count() + (stride - 8),
        wide.len() == 4,
        halves.0@ == wide.subrange(0, 2),
        halves.1@ == wide.subrange(2, 4),
    ensures
        r.0@ == merged(
            wide,
            t@.lanes_of(start as int, stride as int, 8, count as int),
        ).subrange(0, 2),
        r.1@ == merged(
            wide,
            t@.lanes_of(start as int, stride as int, 8, count as int),
        ).subrange(2, 4),
{
    let a: Vec<S> = t.chains(start, stride, 4, count);
    let b: Vec<S> = if count == 0 {
        zeros(4)
    } else {
        proof {
            assert(stride * count >= stride) by (nonlinear_arith)
                requires
                    count >= 1,
            ;
        }
        t.chains(start + 4, stride, 4, count)
    };
    proof {
        assert(b@ =~= t@.lanes_of(start + 4, stride as int, 4, count as int));
        lemma_lane_halves(t@, start as int, stride as int, count as int);
        lemma_halves(wide, t@.lanes_of(start as int, stride as int, 8, count as int));
    }
    (merge_half(halves.0, &a), merge_half(halves.1, &b))
}

/// Adds terms `[from, n)` to a wide sum one by one.
fn add_rest<S: Single>(t: &Terms<'_, S>, head: S::Wide, from: usize) -> (r: S::Wide)
    requires
        t@.wf(),
        from <= t@.count(),
    ensures
        r == chain(head, wide_step(t@), from as int, 1, t@.count() - from),
{
    let n: usize = t.len();
    let mut acc: S::Wide = head;
    let mut j: usize = from;
    while j < n
        invariant
            t@.wf(),
            n == t@.count(),
            from <= j <= n,
            acc == chain(head, wide_step(t@), from as int, 1, j - from),
        decreases n - j,
    {
        acc = acc.add(t.single(j).widen());
        j = j + 1;
    }
    acc
}

/// Reduces on 256-bit vectors.
fn reduce_256<S: Single>(t: &Terms<'_, S>) -> (r: S)
    requires
        t@.wf(),
    ensures
        r == reduced(t@),
{
    let n: usize = t.len();
    let mut wide: Vec<S::Wide> = zeros(4);
    let mut i: usize = 0;
    let ghost mut b: int = 0;
    while BLOCK <= n - i
        invariant
            t@.wf(),
            n == t@.count(),
            i <= n,
            i == 256 * b,
            0 <= b,
            wide@ == merged_blocks(t@, b),
        decreases n - i,
    {
        let c0: Vec<S> = t.chains(i, 32, 8, 8);
        let c1: Vec<S> = t.chains(i + 8, 32, 8, 8);
        let c2: Vec<S> = t.chains(i + 16, 32, 8, 8);
        let c3: Vec<S> = t.chains(i + 24, 32, 8, 8);
        wide = merge(wide, &c0);
        wide = merge(wide, &c1);
        wide = merge(wide, &c2);
        wide = merge(wide, &c3);
        i = i + BLOCK;
        proof {
            b = b + 1;
        }
    }
    let more: usize = (n - i) / 8;
    let acc: Vec<S> = t.chains(i, 8, 8, more);
    wide = merge(wide, &acc);
    let head: S::Wide = wide[0].add(wide[1]).add(wide[2]).add(wide[3]);
    S::narrow(add_rest(t, head, i + 8 * more))
}

/// Reduces on 128-bit vectors: every vector of the wider path is two of these.
fn reduce_128<S: Single>(t: &Terms<'_, S>) -> (r: S)
    requires
        t@.wf(),
    ensures
        r == reduced(t@),
{
    let n: usize = t.len();
    let mut halves: (Vec<S::Wide>, Vec<S::Wide>) = (zeros(2), zeros(2));
    let mut i: usize = 0;
    let ghost mut b: int = 0;
    proof {
        assert(halves.0@ =~= merged_blocks(t@, 0).subrange(0, 2));
        assert(halves.1@ =~= merged_blocks(t@, 0).subrange(2, 4));
    }
    while BLOCK <= n - i
        invariant
            t@.wf(),
            n == t@.count(),
            i <= n,
            i == 256 * b,
            0 <= b,
            merged_blocks(t@, b).len() == 4,
            halves.0@ == merged_blocks(t@, b).subrange(0, 2),
            halves.1@ == merged_blocks(t@, b).subrange(2, 4),
        decreases n - i,
    {
        let ghost at = i as int;
        let ghost w0 = merged_blocks(t@, b);
        let ghost w1 = merged(w0, t@.lanes_of(at, 32, 8, 8));
        let ghost w2 = merged(w1, t@.lanes_of(at + 8, 32, 8, 8));
        let ghost w3 = merged(w2, t@.lanes_of(at + 16, 32, 8, 8));
        halves = merge_chains(t, halves, i, 32, 8, Ghost(w0));
        halves = merge_chains(t, halves, i + 8, 32, 8, Ghost(w1));
        halves = merge_chains(t, halves, i + 16, 32, 8, Ghost(w2));
        halves = merge_chains(t, halves, i + 24, 32, 8, Ghost(w3));
        i = i + BLOCK;
        proof {
            b = b + 1;
        }
    }
    let more: usize = (n - i) / 8;
    let ghost w = merged_blocks(t@, b);
    halves = merge_chains(t, halves, i, 8, more, Ghost(w));
    let head: S::Wide = halves.0[0].add(halves.0[1]).add(halves.1[0]).add(halves.1[1]);
    S::narrow(add_rest(t, head, i + 8 * more))
}

/// `Σ x[i]`.
pub fn sum<S: Single>(x: &[S]) -> (r: S)
    ensures
        r == reduced(TermSeq::Sum(x@)),
{
    reduce_256(&Terms::Sum(x))
}

/// `Σ a[i]·b[i]`; the same operations in the same order on either path.
pub fn dot<S: Single>(path: SimdPath, a: &[S], b: &[S]) -> (r: S)
    requires
        a@.len() == b@.len(),
    ensures
        r == reduced(TermSeq::Dot(a@, b@)),
{
    match path {
        SimdPath::Lasx => reduce_256(&Terms::Dot(a, b)),
        SimdPath::Lsx => reduce_128(&Terms::Dot(a, b)),
    }
}

/// How the terms left over are added to a sum of the same width.
pub open spec fn plain_step<S: Scalar>(t: TermSeq<S>) -> spec_fn(S, int) -> S {
    |acc: S, j: int| acc.add_spec(t.term(j))
}

/// `Σ a[i]·b[i]` in double precision: four chains, added up from the left, then the
/// products left over.
pub open spec fn dot_f64_of<D: Double>(a: Seq<D>, b: Seq<D>) -> D {
    let t = TermSeq::Dot(a, b);
    let n = a.len() as int;
    let c = t.lanes_of(0, 4, 4, n / 4);
    let head = zero::<D>().add_spec(c[0]).add_spec(c[1]).add_spec(c[2]).add_spec(c[3]);
    chain(head, plain_step(t), n / 4 * 4, 1, n - n / 4 * 4)
}

/// Computes [`dot_f64_of`].
pub fn dot_f64<D: Double>(a: &[D], b: &[D]) -> (r: D)
    requires
        a@.len() == b@.len(),
    ensures
        r == dot_f64_of(a@, b@),
{
    let t = Terms::Dot(a, b);
    let n: usize = a.len();
    let c: Vec<D> = t.chains(0, 4, 4, n / 4);
    let mut s: D = D::of_raw(0).add(c[0]).add(c[1]).add(c[2]).add(c[3]);
    let ghost head = s;
    let from: usize = n / 4 * 4;
    let mut j: usize = from;
    while j < n
        invariant
            t@ == TermSeq::Dot(a@, b@),
            a@.len() == b@.len(),
            n == a@.len(),
            from <= j <= n,
            s == chain(head, plain_step(t@), from as int, 1, j - from),
        decreases n - j,
    {
        s = s.add(a[j].mul(b[j]));
        j = j + 1;
    }
    s
}

/// `y + alpha·x`: rounded once in whole vectors of eight, twice in the elements left over.
pub open spec fn axpy_of<S: Single>(alpha: S, x: Seq<S>, y: Seq<S>) -> Seq<S> {
    Seq::new(
        y.len(),
        |i: int|
            if i < x.len() as int / 8 * 8 {
                x[i].fma_spec(alpha, y[i])
            } else {
                y[i].add_spec(alpha.mul_spec(x[i]))
            },
    )
}

/// `y[i] += alpha·x[i]`.
pub fn axpy<S: Single>(alpha: S, x: &[S], y: &mut [S])
    requires
        x@.len() == old(y)@.len(),
    ensures
        final(y)@ == axpy_of(alpha, x@, old(y)@),
{
    let ghost y0 = y@;
    let n: usize = x.len();
    let whole: usize = n / 8 * 8;
    let mut i: usize = 0;
    while i < whole
        invariant
            i <= whole <= n,
            whole == n / 8 * 8,
            x@.len() == n,
            y@.len() == n,
            y0.len() == n,
            forall|t: int|
                0 <= t < n ==> #[trigger] y@[t] == if t < i {
                    x@[t].fma_spec(alpha, y0[t])
                } else {
                    y0[t]
                },
        decreases whole - i,
    {
        y[i] = x[i].fma(alpha, y[i]);
        i = i + 1;
    }
    while i < n
        invariant
            whole <= i <= n,
            whole == n / 8 * 8,
            x@.len() == n,
            y@.len() == n,
            y0.len() == n,
            forall|t: int|
                0 <= t < n ==> #[trigger] y@[t] == if t < i {
                    axpy_of(alpha, x@, y0)[t]
                } else {
                    y0[t]
                },
        decreases n - i,
    {
        y[i] = y[i].add(alpha.mul(x[i]));
        i = i + 1;
    }
    proof {
        assert(y@ =~= axpy_of(alpha, x@, y0));
    }
}

/// Eight chains, each after one more term.
pub open spec fn longer<S: Scalar>(t: TermSeq<S>, c: Seq<S>, at: int) -> Seq<S> {
    Seq::new(c.len(), |l: int| t.taken(c[l], at + l))
}

/// Eight lanes after terms `[from, to)` were added to lane `j % 8` one by one.
pub open spec fn strewn<S: Scalar>(t: TermSeq<S>, v: Seq<S>, from: int, to: int) -> Seq<S>
    decreases to - from,
{
    if to <= from {
        v
    } else {
        let p = strewn(t, v, from, to - 1);
        let l = (to - 1) % 8;
        p.update(l, p[l].add_spec(t.term(to - 1)))
    }
}

/// Four groups of eight chains, added lane by lane.
pub open spec fn joined<S: Scalar>(c0: Seq<S>, c1: Seq<S>, c2: Seq<S>, c3: Seq<S>) -> Seq<S> {
    Seq::new(8, |l: int| c0[l].add_spec(c1[l]).add_spec(c2[l].add_spec(c3[l])))
}

/// `Σ a[i]·b[i]` of half-precision weights: four groups of eight chains that take 32 terms
/// a round, half a round for 16 terms left over, then single terms; lanes are summed
/// pairwise.
pub open spec fn half_dot<S: Single>(a: Seq<u16>, b: Seq<S>) -> S {
    let t = TermSeq::Half(a, b);
    let n = a.len() as int;
    let at = n / 32 * 32;
    let half_round = n - at >= 16;
    let c0 = t.lanes_of(0, 32, 8, n / 32);
    let c1 = t.lanes_of(8, 32, 8, n / 32);
    let c2 = t.lanes_of(16, 32, 8, n / 32);
    let c3 = t.lanes_of(24, 32, 8, n / 32);
    let d0 = if half_round {
        longer(t, c0, at)
    } else {
        c0
    };
    let d1 = if half_round {
        longer(t, c1, at + 8)
    } else {
        c1
    };
    let rest = if half_round {
        at + 16
    } else {
        at
    };
    tree_sum(strewn(t, joined(d0, d1, c2, c3), rest, n))
}

/// Computes [`half_dot`].
pub fn dot_f16<S: Single>(a: &[u16], b: &[S]) -> (r: S)
    requires
        a@.len() == b@.len(),
    ensures
        r == half_dot(a@, b@),
{
    let t = Terms::Half(a, b);
    let n: usize = a.len();
    let rounds: usize = n / 32;
    let mut c0: Vec<S> = t.chains(0, 32, 8, rounds);
    let mut c1: Vec<S> = t.chains(8, 32, 8, rounds);
    let c2: Vec<S> = t.chains(16, 32, 8, rounds);
    let c3: Vec<S> = t.chains(24, 32, 8, rounds);
    let mut i: usize = rounds * 32;
    if n - i >= 16 {
        let ghost (g0, g1) = (c0@, c1@);
        t.extend(&mut c0, i, 8, 1);
        t.extend(&mut c1, i + 8, 8, 1);
        proof {
            reveal_with_fuel(chain, 2);
            assert(c0@ =~= longer(t@, g0, i as int));
            assert(c1@ =~= longer(t@, g1, i + 8));
        }
        i = i + 16;
    }
    let mut v: Vec<S> = Vec::new();
    while v.len() < 8
        invariant
            c0@.len() == 8,
            c1@.len() == 8,
            c2@.len() == 8,
            c3@.len() == 8,
            v@.len() <= 8,
            forall|l: int|
                0 <= l < v@.len() ==> #[trigger] v@[l] == joined(c0@, c1@, c2@, c3@)[l],
        decreases 8 - v.len(),
    {
        let l: usize = v.len();
        v.push(c0[l].add(c1[l]).add(c2[l].add(c3[l])));
    }
    let ghost start = v@;
    let from: usize = i;
    proof {
        assert(start =~= joined(c0@, c1@, c2@, c3@));
    }
    while i < n
        invariant
            t@ == TermSeq::Half(a@, b@),
            a@.len() == b@.len(),
            n == a@.len(),
            from <= i <= n,
            v@.len() == 8,
            v@ == strewn(t@, start, from as int, i as int),
        decreases n - i,
    {
        let l: usize = i % 8;
        let s: S = v[l].add(t.single(i));
        v.set(l, s);
        i = i + 1;
    }
    hsum(&v)
}

/// `y[r]` is the dot product of row `r` of the half-precision matrix `a` and `x`.
pub fn gemv_f16<S: Single>(a: &[u16], x: &[S], m: usize, k: usize, y: &mut [S])
    requires
        a@.len() == m * k,
        x@.len() == k,
        old(y)@.len() == m,
    ensures
        final(y)@.len() == m,
        forall|r: int|
            0 <= r < m ==> #[trigger] final(y)@[r] == half_dot(
                a@.subrange(r * k, r * k + k),
                x@,
            ),
{
    let mut r: usize = 0;
    while r < m
        invariant
            r <= m,
            a.len() == m * k,
            x@.len() == k,
            y@.len() == m,
            forall|q: int|
                0 <= q < r ==> #[trigger] y@[q] == half_dot(a@.subrange(q * k, q * k + k), x@),
        decreases m - r,
    {
        proof {
            lemma_row_fits(r as int, m as int, k as int);
        }
        let (_, rest) = a.split_at(r * k);
        let (row, _) = rest.split_at(k);
        proof {
            assert(row@ =~= a@.subrange(r * k, r * k + k));
        }
        y[r] = dot_f16(row, x);
        r = r + 1;
    }
}

} // verus!
