//! Row-wise kernels: softmax and root-mean-square normalisation.
//!
//! A row is reduced in eight lanes: lane `l` takes the columns `j` with `j % 8 == l`, in
//! ascending order, and the lanes are merged pairwise. The last vector of a row is filled
//! up with a neutral value, so that the end of a row is computed like its middle.
use crate::math::lemma_row_fits;
use crate::ops::activation::{exp_seq, exp_seq_one};
use crate::ops::chain::{chain, hmax, hsum, tree_max, tree_sum};
use crate::ops::lanes::zeros;
use crate::ops::matmul::row;
use crate::scalar::{zero, Scalar, Single, F32_ONE};
use vstd::prelude::*;

verus! {

/// Pattern of minus infinity.
pub const NEG_INFINITY: u64 = 0xff80_0000;

/// Pattern of `-1e30`, which the exponential maps to zero.
pub const PAD: u64 = 0xf149_f2ca;

/// Vectors that a row of `cols` columns takes.
pub open spec fn vectors(cols: int) -> int {
    (cols + 7) / 8
}

/// Column `j` of a row, scaled and masked; an empty mask stands for none.
pub open spec fn scored<S: Single>(x: Seq<S>, mask: Seq<S>, scale: S, j: int) -> S {
    x[j].fma_spec(
        scale,
        if mask.len() == 0 {
            zero()
        } else {
            mask[j]
        },
    )
}

/// [`scored`], filled up to whole vectors.
pub open spec fn padded<S: Single>(x: Seq<S>, mask: Seq<S>, scale: S, j: int) -> S {
    if j < x.len() {
        scored(x, mask, scale, j)
    } else {
        S::of_raw_spec(PAD)
    }
}

/// How a lane takes the maximum with column `j`.
pub open spec fn max_step<S: Single>(x: Seq<S>, mask: Seq<S>, scale: S) -> spec_fn(S, int) -> S {
    |acc: S, j: int| acc.max_spec(padded(x, mask, scale, j))
}

/// The largest scored column.
pub open spec fn row_max<S: Single>(x: Seq<S>, mask: Seq<S>, scale: S) -> S {
    tree_max(
        Seq::new(
            8,
            |l: int|
                chain(
                    S::of_raw_spec(NEG_INFINITY),
                    max_step(x, mask, scale),
                    l,
                    8,
                    vectors(x.len() as int),
                ),
        ),
    )
}

/// The exponential of column `j` below the maximum `m`.
pub open spec fn weight<S: Single>(x: Seq<S>, mask: Seq<S>, scale: S, m: S, j: int) -> S {
    exp_seq(padded(x, mask, scale, j).sub_spec(m))
}

/// How a lane adds the weight of column `j`.
pub open spec fn weight_step<S: Single>(
    x: Seq<S>,
    mask: Seq<S>,
    scale: S,
    m: S,
) -> spec_fn(S, int) -> S {
    |acc: S, j: int| acc.add_spec(weight(x, mask, scale, m, j))
}

/// The sum of the weights.
pub open spec fn total_weight<S: Single>(x: Seq<S>, mask: Seq<S>, scale: S, m: S) -> S {
    tree_sum(
        Seq::new(
            8,
            |l: int|
                chain(
                    zero::<S>(),
                    weight_step(x, mask, scale, m),
                    l,
                    8,
                    vectors(x.len() as int),
                ),
        ),
    )
}

/// Softmax of one row: weights times the inverse of their sum.
pub open spec fn softmax<S: Single>(x: Seq<S>, mask: Seq<S>, scale: S) -> Seq<S> {
    let m = row_max(x, mask, scale);
    let inv = S::of_raw_spec(F32_ONE).div_spec(total_weight(x, mask, scale, m));
    Seq::new(x.len(), |j: int| weight(x, mask, scale, m, j).mul_spec(inv))
}

/// Computes [`padded`].
fn padded_at<S: Single>(x: &[S], mask: &[S], scale: S, j: usize) -> (r: S)
    requires
        mask@.len() == 0 || mask@.len() == x@.len(),
    ensures
        r == padded(x@, mask@, scale, j as int),
{
    if j < x.len() {
        let m: S = if mask.len() == 0 {
            S::of_raw(0)
        } else {
            mask[j]
        };
        x[j].fma(scale, m)
    } else {
        S::of_raw(PAD)
    }
}

/// Computes [`row_max`].
fn find_max<S: Single>(x: &[S], mask: &[S], scale: S, vecs: usize) -> (r: S)
    requires
        mask@.len() == 0 || mask@.len() == x@.len(),
        vecs == vectors(x@.len() as int),
        8 * vecs <= usize::MAX,
    ensures
        r == row_max(x@, mask@, scale),
{
    let ghost step = max_step(x@, mask@, scale);
    let ghost low = S::of_raw_spec(NEG_INFINITY);
    let mut v: Vec<S> = Vec::new();
    while v.len() < 8
        invariant
            v@.len() <= 8,
            low == S::of_raw_spec(NEG_INFINITY),
            forall|l: int| 0 <= l < v@.len() ==> v@[l] == low,
        decreases 8 - v.len(),
    {
        v.push(S::of_raw(NEG_INFINITY));
    }
    let mut r: usize = 0;
    while r < vecs
        invariant
            r <= vecs,
            8 * vecs <= usize::MAX,
            mask@.len() == 0 || mask@.len() == x@.len(),
            step == max_step(x@, mask@, scale),
            v@.len() == 8,
            forall|l: int| 0 <= l < 8 ==> #[trigger] v@[l] == chain(low, step, l, 8, r as int),
        decreases vecs - r,
    {
        let mut l: usize = 0;
        while l < 8
            invariant
                r < vecs,
                8 * vecs <= usize::MAX,
                l <= 8,
                mask@.len() == 0 || mask@.len() == x@.len(),
                step == max_step(x@, mask@, scale),
                v@.len() == 8,
                forall|q: int|
                    0 <= q < 8 ==> #[trigger] v@[q] == chain(
                        low,
                        step,
                        q,
                        8,
                        if q < l {
                            r + 1
                        } else {
                            r as int
                        },
                    ),
            decreases 8 - l,
        {
            let y: S = v[l].max(padded_at(x, mask, scale, 8 * r + l));
            v.set(l, y);
            l = l + 1;
        }
        r = r + 1;
    }
    proof {
        assert(v@ =~= Seq::new(8, |l: int| chain(low, step, l, 8, vecs as int)));
    }
    hmax(&v)
}

/// Writes the weights of a row and returns their sum.
fn put_weights<S: Single>(
    x: &[S],
    mask: &[S],
    scale: S,
    m: S,
    vecs: usize,
    out: &mut [S],
) -> (r: S)
    requires
        mask@.len() == 0 || mask@.len() == x@.len(),
        old(out)@.len() == x@.len(),
        vecs == vectors(x@.len() as int),
        8 * vecs <= usize::MAX,
    ensures
        r == total_weight(x@, mask@, scale, m),
        final(out)@.len() == x@.len(),
        forall|j: int|
            0 <= j < x@.len() ==> #[trigger] final(out)@[j] == weight(x@, mask@, scale, m, j),
{
    let ghost step = weight_step(x@, mask@, scale, m);
    let cols: usize = x.len();
    let mut v: Vec<S> = zeros(8);
    let mut r: usize = 0;
    while r < vecs
        invariant
            r <= vecs,
            8 * vecs <= usize::MAX,
            cols == x@.len(),
            mask@.len() == 0 || mask@.len() == x@.len(),
            out@.len() == cols,
            step == weight_step(x@, mask@, scale, m),
            v@.len() == 8,
            forall|l: int|
                0 <= l < 8 ==> #[trigger] v@[l] == chain(zero::<S>(), step, l, 8, r as int),
            forall|j: int|
                0 <= j < cols && j < 8 * r ==> #[trigger] out@[j] == weight(
                    x@,
                    mask@,
                    scale,
                    m,
                    j,
                ),
        decreases vecs - r,
    {
        let mut l: usize = 0;
        while l < 8
            invariant
                r < vecs,
                8 * vecs <= usize::MAX,
                l <= 8,
                cols == x@.len(),
                mask@.len() == 0 || mask@.len() == x@.len(),
                out@.len() == cols,
                step == weight_step(x@, mask@, scale, m),
                v@.len() == 8,
                forall|q: int|
                    0 <= q < 8 ==> #[trigger] v@[q] == chain(
                        zero::<S>(),
                        step,
                        q,
                        8,
                        if q < l {
                            r + 1
                        } else {
                            r as int
                        },
                    ),
                forall|j: int|
                    0 <= j < cols && j < 8 * r + l ==> #[trigger] out@[j] == weight(
                        x@,
                        mask@,
                        scale,
                        m,
                        j,
                    ),
            decreases 8 - l,
        {
            let j: usize = 8 * r + l;
            let e: S = exp_seq_one(padded_at(x, mask, scale, j).sub(m));
            let y: S = v[l].add(e);
            v.set(l, y);
            if j < cols {
                out[j] = e;
            }
            l = l + 1;
        }
        r = r + 1;
    }
    proof {
        assert(v@ =~= Seq::new(8, |l: int| chain(zero::<S>(), step, l, 8, vecs as int)));
    }
    hsum(&v)
}

/// Number of vectors of a row.
fn vector_count(cols: usize) -> (r: usize)
    ensures
        r == vectors(cols as int),
{
    if cols % 8 == 0 {
        cols / 8
    } else {
        cols / 8 + 1
    }
}

/// Softmax of one row.
fn softmax_row<S: Single>(x: &[S], mask: &[S], scale: S, out: &mut [S])
    requires
        mask@.len() == 0 || mask@.len() == x@.len(),
        old(out)@.len() == x@.len(),
        x@.len() + 7 <= usize::MAX,
    ensures
        final(out)@ == softmax(x@, mask@, scale),
{
    let vecs: usize = vector_count(x.len());
    let m: S = find_max(x, mask, scale, vecs);
    let total: S = put_weights(x, mask, scale, m, vecs, out);
    let inv: S = S::of_raw(F32_ONE).div(total);
    let ghost w = out@;
    let cols: usize = x.len();
    let mut j: usize = 0;
    while j < cols
        invariant
            j <= cols,
            out@.len() == cols,
            w.len() == cols,
            forall|t: int|
                0 <= t < cols ==> #[trigger] out@[t] == if t < j {
                    w[t].mul_spec(inv)
                } else {
                    w[t]
                },
        decreases cols - j,
    {
        out[j] = out[j].mul(inv);
        j = j + 1;
    }
    proof {
        assert(out@ =~= softmax(x@, mask@, scale));
    }
}

/// Row `i` of a matrix, or nothing where there is no matrix.
pub open spec fn row_or_none<S>(m: Seq<S>, cols: int, i: int) -> Seq<S> {
    if m.len() == 0 {
        m
    } else {
        row(m, cols, i)
    }
}

/// Row `i` of a matrix in memory.
fn take_row<'a, S>(m: &'a [S], rows: usize, cols: usize, i: usize) -> (r: &'a [S])
    requires
        i < rows,
        m@.len() == rows * cols,
    ensures
        r@ == row(m@, cols as int, i as int),
        r@.len() == cols,
{
    proof {
        lemma_row_fits(i as int, rows as int, cols as int);
        assert(m.len() == m@.len());
    }
    let (_, rest) = m.split_at(i * cols);
    let (r, _) = rest.split_at(cols);
    proof {
        assert(r@ =~= row(m@, cols as int, i as int));
    }
    r
}

/// After row `i` was replaced by `new`, the rows before it and after it are as they were.
proof fn lemma_row_replaced<S>(
    before: Seq<S>,
    after: Seq<S>,
    new: Seq<S>,
    rows: int,
    cols: int,
    i: int,
)
    requires
        0 <= i < rows,
        0 <= cols,
        before.len() == rows * cols,
        new.len() == cols,
        after == before.subrange(0, i * cols) + (new + before.subrange(
            i * cols + cols,
            rows * cols,
        )),
    ensures
        after.len() == before.len(),
        row(after, cols, i) == new,
        forall|q: int|
            0 <= q < rows && q != i ==> #[trigger] row(after, cols, q) == row(before, cols, q),
{
    lemma_row_fits(i, rows, cols);
    assert(row(after, cols, i) =~= new);
    assert forall|q: int| 0 <= q < rows && q != i implies #[trigger] row(after, cols, q) == row(
        before,
        cols,
        q,
    ) by {
        lemma_row_fits(q, rows, cols);
        if q < i {
            assert((q + 1) * cols <= i * cols) by (nonlinear_arith)
                requires
                    q + 1 <= i,
                    0 <= cols,
            ;
        } else {
            assert((i + 1) * cols <= q * cols) by (nonlinear_arith)
                requires
                    i + 1 <= q,
                    0 <= cols,
            ;
        }
        assert(row(after, cols, q) =~= row(before, cols, q));
    }
}

/// Softmax of every row of a `rows × cols` matrix; an empty mask stands for none.
pub fn softmax_rows<S: Single>(
    x: &[S],
    mask: &[S],
    scale: S,
    rows: usize,
    cols: usize,
    out: &mut [S],
)
    requires
        x@.len() == rows * cols,
        old(out)@.len() == rows * cols,
        mask@.len() == 0 || mask@.len() == rows * cols,
        cols + 7 <= usize::MAX,
    ensures
        final(out)@.len() == rows * cols,
        forall|i: int|
            0 <= i < rows ==> #[trigger] row(final(out)@, cols as int, i) == softmax(
                row(x@, cols as int, i),
                row_or_none(mask@, cols as int, i),
                scale,
            ),
{
    let mut i: usize = 0;
    while i < rows
        invariant
            i <= rows,
            cols + 7 <= usize::MAX,
            x@.len() == rows * cols,
            out.len() == rows * cols,
            out@.len() == rows * cols,
            mask@.len() == 0 || mask@.len() == rows * cols,
            forall|q: int|
                0 <= q < i ==> #[trigger] row(out@, cols as int, q) == softmax(
                    row(x@, cols as int, q),
                    row_or_none(mask@, cols as int, q),
                    scale,
                ),
        decreases rows - i,
    {
        let x_row = take_row(x, rows, cols, i);
        let mask_row = if mask.len() == 0 {
            mask
        } else {
            take_row(mask, rows, cols, i)
        };
        let ghost before = out@;
        proof {
            lemma_row_fits(i as int, rows as int, cols as int);
        }
        let (_, rest) = out.split_at_mut(i * cols);
        let (out_row, _) = rest.split_at_mut(cols);
        softmax_row(x_row, mask_row, scale, out_row);
        proof {
            let new = softmax(x_row@, mask_row@, scale);
            assert(out@ =~= before.subrange(0, i * cols) + (new + before.subrange(
                i * cols + cols,
                rows * cols,
            )));
            lemma_row_replaced(before, out@, new, rows as int, cols as int, i as int);
        }
        i = i + 1;
    }
}

/// Law: filling a row up by hand with columns that score [`PAD`] changes none of its
/// outputs, as long as the number of vectors stays the same.
pub proof fn law_explicit_padding<S: Single>(
    x: Seq<S>,
    mask: Seq<S>,
    x2: Seq<S>,
    mask2: Seq<S>,
    scale: S,
)
    requires
        x.len() <= x2.len(),
        vectors(x.len() as int) == vectors(x2.len() as int),
        forall|j: int|
            0 <= j < x.len() ==> #[trigger] scored(x2, mask2, scale, j) == scored(
                x,
                mask,
                scale,
                j,
            ),
        forall|j: int|
            x.len() <= j < x2.len() ==> #[trigger] scored(x2, mask2, scale, j) == S::of_raw_spec(
                PAD,
            ),
    ensures
        softmax(x2, mask2, scale).take(x.len() as int) == softmax(x, mask, scale),
{
    assert forall|j: int| 0 <= j implies #[trigger] padded(x2, mask2, scale, j) == padded(
        x,
        mask,
        scale,
        j,
    ) by {
        let v = scored(x2, mask2, scale, j);
    }
    let vecs = vectors(x.len() as int);
    let low = S::of_raw_spec(NEG_INFINITY);
    let a = Seq::new(8, |l: int| chain(low, max_step(x, mask, scale), l, 8, vecs));
    let a2 = Seq::new(8, |l: int| chain(low, max_step(x2, mask2, scale), l, 8, vecs));
    assert forall|l: int| 0 <= l < 8 implies a[l] == a2[l] by {
        lemma_chain_same(low, max_step(x, mask, scale), max_step(x2, mask2, scale), l, 8, vecs);
    }
    assert(a =~= a2);
    let m = row_max(x, mask, scale);
    assert(m == row_max(x2, mask2, scale));
    let z = zero::<S>();
    let b = Seq::new(8, |l: int| chain(z, weight_step(x, mask, scale, m), l, 8, vecs));
    let b2 = Seq::new(8, |l: int| chain(z, weight_step(x2, mask2, scale, m), l, 8, vecs));
    assert forall|l: int| 0 <= l < 8 implies b[l] == b2[l] by {
        lemma_chain_same(
            z,
            weight_step(x, mask, scale, m),
            weight_step(x2, mask2, scale, m),
            l,
            8,
            vecs,
        );
    }
    assert(b =~= b2);
    assert(softmax(x2, mask2, scale).take(x.len() as int) =~= softmax(x, mask, scale));
}

/// Chains whose steps agree from index 0 on are equal.
proof fn lemma_chain_same<S>(
    init: S,
    f: spec_fn(S, int) -> S,
    g: spec_fn(S, int) -> S,
    start: int,
    stride: int,
    count: int,
)
    requires
        0 <= start,
        0 <= stride,
        forall|acc: S, j: int| 0 <= j ==> #[trigger] f(acc, j) == g(acc, j),
    ensures
        chain(init, f, start, stride, count) == chain(init, g, start, stride, count),
    decreases count,
{
    if count > 0 {
        lemma_chain_same(init, f, g, start, stride, count - 1);
        assert(0 <= stride * (count - 1)) by (nonlinear_arith)
            requires
                0 <= stride,
                0 <= count - 1,
        ;
        let v = f(chain(init, f, start, stride, count - 1), start + stride * (count - 1));
    }
}

/// Column `j` of a row, zero past its end.
pub open spec fn filled<S: Single>(x: Seq<S>, j: int) -> S {
    if j < x.len() {
        x[j]
    } else {
        zero()
    }
}

/// How a lane adds the square of column `j`.
pub open spec fn square_step<S: Single>(x: Seq<S>) -> spec_fn(S, int) -> S {
    |acc: S, j: int| filled(x, j).fma_spec(filled(x, j), acc)
}

/// The sum of the squares of a row.
pub open spec fn sum_of_squares<S: Single>(x: Seq<S>) -> S {
    tree_sum(
        Seq::new(
            8,
            |l: int| chain(zero::<S>(), square_step(x), l, 8, vectors(x.len() as int)),
        ),
    )
}

/// One row divided by its root mean square, then weighted; an empty `w` stands for weights
/// of one.
pub open spec fn rms_row<S: Single>(x: Seq<S>, w: Seq<S>, eps: S) -> Seq<S> {
    let one = S::of_raw_spec(F32_ONE);
    let mean = sum_of_squares(x).div_spec(S::of_int_spec(x.len() as i64));
    let inv = one.div_spec(mean.add_spec(eps).sqrt_spec());
    Seq::new(
        x.len(),
        |j: int|
            x[j].mul_spec(inv).mul_spec(
                if w.len() == 0 {
                    one
                } else {
                    w[j]
                },
            ),
    )
}

/// Computes [`sum_of_squares`].
fn add_squares<S: Single>(x: &[S], vecs: usize) -> (r: S)
    requires
        vecs == vectors(x@.len() as int),
        8 * vecs <= usize::MAX,
    ensures
        r == sum_of_squares(x@),
{
    let ghost step = square_step(x@);
    let cols: usize = x.len();
    let mut v: Vec<S> = zeros(8);
    let mut r: usize = 0;
    while r < vecs
        invariant
            r <= vecs,
            8 * vecs <= usize::MAX,
            cols == x@.len(),
            step == square_step(x@),
            v@.len() == 8,
            forall|l: int|
                0 <= l < 8 ==> #[trigger] v@[l] == chain(zero::<S>(), step, l, 8, r as int),
        decreases vecs - r,
    {
        let mut l: usize = 0;
        while l < 8
            invariant
                r < vecs,
                8 * vecs <= usize::MAX,
                l <= 8,
                cols == x@.len(),
                step == square_step(x@),
                v@.len() == 8,
                forall|q: int|
                    0 <= q < 8 ==> #[trigger] v@[q] == chain(
                        zero::<S>(),
                        step,
                        q,
                        8,
                        if q < l {
                            r + 1
                        } else {
                            r as int
                        },
                    ),
            decreases 8 - l,
        {
            let j: usize = 8 * r + l;
            let e: S = if j < cols {
                x[j]
            } else {
                S::of_raw(0)
            };
            let y: S = e.fma(e, v[l]);
            v.set(l, y);
            l = l + 1;
        }
        r = r + 1;
    }
    proof {
        assert(v@ =~= Seq::new(8, |l: int| chain(zero::<S>(), step, l, 8, vecs as int)));
    }
    hsum(&v)
}

/// Normalises one row.
fn rms_norm_row<S: Single>(x: &[S], w: &[S], eps: S, out: &mut [S])
    requires
        w@.len() == 0 || w@.len() == x@.len(),
        old(out)@.len() == x@.len(),
        x@.len() <= i64::MAX,
        x@.len() + 7 <= usize::MAX,
    ensures
        final(out)@ == rms_row(x@, w@, eps),
{
    let cols: usize = x.len();
    let vecs: usize = vector_count(cols);
    let s: S = add_squares(x, vecs);
    let one: S = S::of_raw(F32_ONE);
    let inv: S = one.div(s.div(S::of_int(cols as i64)).add(eps).sqrt());
    let mut j: usize = 0;
    while j < cols
        invariant
            j <= cols,
            cols == x@.len(),
            out@.len() == cols,
            w@.len() == 0 || w@.len() == cols,
            one == S::of_raw_spec(F32_ONE),
            forall|t: int|
                0 <= t < j ==> #[trigger] out@[t] == x@[t].mul_spec(inv).mul_spec(
                    if w@.len() == 0 {
                        one
                    } else {
                        w@[t]
                    },
                ),
        decreases cols - j,
    {
        let weight: S = if w.len() == 0 {
            one
        } else {
            w[j]
        };
        out[j] = x[j].mul(inv).mul(weight);
        j = j + 1;
    }
    proof {
        assert(out@ =~= rms_row(x@, w@, eps));
    }
}

/// Divides every row of a `rows × cols` matrix by its root mean square and weights its
/// columns with `w`.
pub fn rms_norm<S: Single>(x: &[S], w: &[S], eps: S, rows: usize, cols: usize, out: &mut [S])
    requires
        x@.len() == rows * cols,
        old(out)@.len() == rows * cols,
        w@.len() == 0 || w@.len() == cols,
        cols <= i64::MAX,
        cols + 7 <= usize::MAX,
    ensures
        final(out)@.len() == rows * cols,
        forall|i: int|
            0 <= i < rows ==> #[trigger] row(final(out)@, cols as int, i) == rms_row(
                row(x@, cols as int, i),
                w@,
                eps,
            ),
{
    let mut i: usize = 0;
    while i < rows
        invariant
            i <= rows,
            cols <= i64::MAX,
            cols + 7 <= usize::MAX,
            x@.len() == rows * cols,
            out.len() == rows * cols,
            out@.len() == rows * cols,
            w@.len() == 0 || w@.len() == cols,
            forall|q: int|
                0 <= q < i ==> #[trigger] row(out@, cols as int, q) == rms_row(
                    row(x@, cols as int, q),
                    w@,
                    eps,
                ),
        decreases rows - i,
    {
        let x_row = take_row(x, rows, cols, i);
        let ghost before = out@;
        proof {
            lemma_row_fits(i as int, rows as int, cols as int);
        }
        let (_, rest) = out.split_at_mut(i * cols);
        let (out_row, _) = rest.split_at_mut(cols);
        rms_norm_row(x_row, w, eps, out_row);
        proof {
            let new = rms_row(x_row@, w@, eps);
            assert(out@ =~= before.subrange(0, i * cols) + (new + before.subrange(
                i * cols + cols,
                rows * cols,
            )));
            lemma_row_replaced(before, out@, new, rows as int, cols as int, i as int);
        }
        i = i + 1;
    }
}

} // verus!
