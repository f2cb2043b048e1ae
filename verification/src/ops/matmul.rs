//! Matrix product `C[m×n] = A[m×k] · B[k×n]`, row-major.
//!
//! Every output is one accumulator that runs along `k` in ascending order. The paths
//! below differ in which outputs they compute together, in where they read `B` from and
//! in how often they park the accumulator in `C`; none of them changes the order in
//! which a single output is accumulated, so all of them give the same bits.
use crate::math::{lemma_position_unique, lemma_round_down, lemma_row_fits, saturating_mul};
use crate::math::{max_nat, max_usize, min_nat, min_usize};
use crate::ops::lanes::{fma_lanes, load, store, zeros};
use crate::plan::PackedKernel;
use crate::scalar::{zero, Scalar};
use vstd::prelude::*;

verus! {

/// Row `i` of a matrix with rows of `k` elements.
pub open spec fn row<S>(a: Seq<S>, k: int, i: int) -> Seq<S> {
    a.subrange(i * k, i * k + k)
}

/// The columns of a row-major `k × n` matrix.
pub open spec fn columns<S>(b: Seq<S>, k: int, n: int) -> Seq<Seq<S>> {
    Seq::new(n as nat, |j: int| Seq::new(k as nat, |p: int| b[p * n + j]))
}

/// Element `(i, j)` of a row-major matrix with rows of `n` elements.
pub open spec fn at<S>(c: Seq<S>, n: int, i: int, j: int) -> S {
    c[i * n + j]
}

/// The inner product of the first `steps` elements, each step rounded once.
pub open spec fn fused<S: Scalar>(x: Seq<S>, y: Seq<S>, steps: int) -> S
    decreases steps,
{
    if steps <= 0 {
        zero()
    } else {
        y[steps - 1].fma_spec(x[steps - 1], fused(x, y, steps - 1))
    }
}

/// The inner product of the first `steps` elements, product and sum rounded apart.
pub open spec fn plain<S: Scalar>(x: Seq<S>, y: Seq<S>, steps: int) -> S
    decreases steps,
{
    if steps <= 0 {
        zero()
    } else {
        plain(x, y, steps - 1).add_spec(x[steps - 1].mul_spec(y[steps - 1]))
    }
}

/// `c1` is `c0` with the fused inner products of `steps` steps in the rectangle of rows
/// `[i0, i1)` and columns `[j0, j1)`.
pub open spec fn fused_block<S: Scalar>(
    c0: Seq<S>,
    c1: Seq<S>,
    n: int,
    a: Seq<S>,
    k: int,
    cols: Seq<Seq<S>>,
    steps: int,
    i0: int,
    i1: int,
    j0: int,
    j1: int,
) -> bool {
    &&& c1.len() == c0.len()
    &&& forall|i: int, j: int|
        #![trigger at(c1, n, i, j)]
        0 <= i && 0 <= j < n && i * n + j < c0.len() ==> at(c1, n, i, j) == if i0 <= i < i1 && j0
            <= j < j1 {
            fused(row(a, k, i), cols[j], steps)
        } else {
            at(c0, n, i, j)
        }
}

/// Lane `l` of step `p`, read from `src`, is the element of column `j + l` at step `kb0 + p`.
pub open spec fn fed<S>(
    src: Seq<S>,
    base: int,
    stride: int,
    kb0: int,
    cols: Seq<Seq<S>>,
    j: int,
    p: int,
    l: int,
) -> bool {
    &&& 0 <= base + p * stride + l < src.len()
    &&& src[base + p * stride + l] == cols[j + l][kb0 + p]
}

/// Reading `src` from `base` in steps of `stride` yields, for `kb` steps from step `kb0`,
/// the elements of the `width` columns that begin at column `j`.
pub open spec fn feeds<S>(
    src: Seq<S>,
    base: int,
    stride: int,
    width: int,
    kb0: int,
    kb: int,
    cols: Seq<Seq<S>>,
    j: int,
) -> bool {
    forall|p: int, l: int|
        0 <= p < kb && 0 <= l < width ==> #[trigger] fed(src, base, stride, kb0, cols, j, p, l)
}

/// A position lies in a stretch of one row only if it belongs to that row.
proof fn lemma_segment(n: int, i: int, j: int, width: int, i2: int, j2: int)
    requires
        0 <= j,
        j + width <= n,
        0 <= j2 < n,
    ensures
        (i * n + j <= i2 * n + j2 < i * n + j + width) <==> (i2 == i && j <= j2 < j + width),
{
    if i2 > i {
        assert(i2 * n >= i * n + n) by (nonlinear_arith)
            requires
                i2 >= i + 1,
                n > 0,
        ;
    }
    if i2 < i {
        assert(i * n >= i2 * n + n) by (nonlinear_arith)
            requires
                i >= i2 + 1,
                n > 0,
        ;
    }
}

/// Writes the run `v` into row `i` of `c`, from column `j`.
fn put_run<S: Copy>(c: &mut [S], n: usize, i: usize, j: usize, v: &Vec<S>)
    requires
        j + v@.len() <= n,
        i * n + n <= old(c)@.len(),
    ensures
        final(c)@.len() == old(c)@.len(),
        forall|i2: int, j2: int|
            #![trigger at(final(c)@, n as int, i2, j2)]
            0 <= i2 && 0 <= j2 < n && i2 * n + j2 < old(c)@.len() ==> at(
                final(c)@,
                n as int,
                i2,
                j2,
            ) == if i2 == i && j <= j2 < j + v@.len() {
                v@[j2 - j]
            } else {
                at(old(c)@, n as int, i2, j2)
            },
{
    let ghost c0 = c@;
    proof {
        lemma_row_fits(i as int, i + 1, n as int);
        assert(c.len() == c@.len());
    }
    store(c, i * n + j, v);
    proof {
        assert forall|i2: int, j2: int|
            #![trigger at(c@, n as int, i2, j2)]
            0 <= i2 && 0 <= j2 < n && i2 * n + j2 < c0.len() implies at(c@, n as int, i2, j2)
            == if i2 == i && j <= j2 < j + v@.len() {
            v@[j2 - j]
        } else {
            at(c0, n as int, i2, j2)
        } by {
            lemma_segment(n as int, i as int, j as int, v@.len() as int, i2, j2);
            assert(0 <= i2 * n) by (nonlinear_arith)
                requires
                    0 <= i2,
                    0 <= n,
            ;
        }
    }
}

/// The partial sums of row `i`, columns `[j, j + width)`, before step `kb0`: zero before
/// the `first` step, parked in `c` before every later one.
fn take_run<S: Scalar>(
    c: &[S],
    n: usize,
    i: usize,
    j: usize,
    width: usize,
    first: bool,
    Ghost(x): Ghost<Seq<S>>,
    Ghost(cols): Ghost<Seq<Seq<S>>>,
    Ghost(kb0): Ghost<int>,
) -> (acc: Vec<S>)
    requires
        j + width <= n,
        i * n + n <= c@.len(),
        first ==> kb0 == 0,
        !first ==> parked(c@, n as int, i as int, x, cols, kb0, j as int, j + width),
    ensures
        acc@.len() == width,
        forall|l: int| 0 <= l < width ==> #[trigger] acc@[l] == fused(x, cols[j + l], kb0),
{
    proof {
        lemma_row_fits(i as int, i + 1, n as int);
        assert(c.len() == c@.len());
    }
    if first {
        zeros(width)
    } else {
        let acc = load(c, i * n + j, width);
        proof {
            assert forall|l: int| 0 <= l < width implies #[trigger] acc@[l] == fused(
                x,
                cols[j + l],
                kb0,
            ) by {
                assert(at(c@, n as int, i as int, j + l) == fused(x, cols[j + l], kb0));
            }
        }
        acc
    }
}

/// Columns `[j0, j1)` of row `i` of `c` hold the partial sums after `steps` steps.
pub open spec fn parked<S: Scalar>(
    c: Seq<S>,
    n: int,
    i: int,
    x: Seq<S>,
    cols: Seq<Seq<S>>,
    steps: int,
    j0: int,
    j1: int,
) -> bool {
    forall|j: int| j0 <= j < j1 ==> #[trigger] at(c, n, i, j) == fused(x, cols[j], steps)
}

/// One step of a run: the lanes advance by step `q` of row `x`.
fn step_run<S: Scalar>(
    acc: &mut Vec<S>,
    src: &[S],
    from: usize,
    s: S,
    Ghost(x): Ghost<Seq<S>>,
    Ghost(cols): Ghost<Seq<Seq<S>>>,
    Ghost(j): Ghost<int>,
    Ghost(q): Ghost<int>,
)
    requires
        0 <= q,
        from + old(acc)@.len() <= src@.len(),
        x[q] == s,
        forall|l: int| 0 <= l < old(acc)@.len() ==> #[trigger] src@[from + l] == cols[j + l][q],
        forall|l: int|
            0 <= l < old(acc)@.len() ==> #[trigger] old(acc)@[l] == fused(x, cols[j + l], q),
    ensures
        final(acc)@.len() == old(acc)@.len(),
        forall|l: int|
            0 <= l < old(acc)@.len() ==> #[trigger] final(acc)@[l] == fused(x, cols[j + l], q + 1),
{
    let ghost before = acc@;
    fma_lanes(acc, src, from, s);
    proof {
        assert forall|l: int| 0 <= l < before.len() implies #[trigger] acc@[l] == fused(
            x,
            cols[j + l],
            q + 1,
        ) by {
            assert(src@[from + l] == cols[j + l][q]);
            assert(before[l] == fused(x, cols[j + l], q));
        }
    }
}

/// Reading position of step `p`, and what is found there.
proof fn lemma_feeds_at<S>(
    src: Seq<S>,
    base: int,
    stride: int,
    width: int,
    kb0: int,
    kb: int,
    cols: Seq<Seq<S>>,
    j: int,
    p: int,
)
    requires
        feeds(src, base, stride, width, kb0, kb, cols, j),
        0 <= p < kb,
        0 < width,
        0 <= base,
        0 <= stride,
    ensures
        0 <= p * stride <= kb * stride,
        base + p * stride + width <= src.len(),
        forall|l: int|
            0 <= l < width ==> #[trigger] src[base + p * stride + l] == cols[j + l][kb0 + p],
{
    assert(0 <= p * stride <= kb * stride) by (nonlinear_arith)
        requires
            0 <= p <= kb,
            0 <= stride,
    ;
    assert(fed(src, base, stride, kb0, cols, j, p, width - 1));
    assert forall|l: int| 0 <= l < width implies #[trigger] src[base + p * stride + l] == cols[j
        + l][kb0 + p] by {
        assert(fed(src, base, stride, kb0, cols, j, p, l));
    }
}

/// One row of a tile: `width` outputs of row `i` from column `j`, advanced by `kb` steps.
fn tile1<S: Scalar>(
    i: usize,
    j: usize,
    width: usize,
    kb0: usize,
    kb: usize,
    first: bool,
    src: &[S],
    base: usize,
    stride: usize,
    a: &[S],
    k: usize,
    c: &mut [S],
    n: usize,
    Ghost(cols): Ghost<Seq<Seq<S>>>,
)
    requires
        0 < width,
        j + width <= n,
        i * n + n <= old(c)@.len(),
        kb0 + kb <= k,
        i * k + k <= a@.len(),
        feeds(
            src@,
            base as int,
            stride as int,
            width as int,
            kb0 as int,
            kb as int,
            cols,
            j as int,
        ),
        first ==> kb0 == 0,
        !first ==> parked(
            old(c)@,
            n as int,
            i as int,
            row(a@, k as int, i as int),
            cols,
            kb0 as int,
            j as int,
            j + width,
        ),
    ensures
        fused_block(
            old(c)@,
            final(c)@,
            n as int,
            a@,
            k as int,
            cols,
            kb0 + kb,
            i as int,
            i + 1,
            j as int,
            j + width,
        ),
{
    let ghost x = row(a@, k as int, i as int);
    proof {
        lemma_row_fits(i as int, i + 1, k as int);
        assert(a.len() == a@.len());
        assert(src.len() == src@.len());
    }
    let a_at: usize = i * k + kb0;
    let mut acc: Vec<S> = take_run(
        c,
        n,
        i,
        j,
        width,
        first,
        Ghost(x),
        Ghost(cols),
        Ghost(kb0 as int),
    );
    let mut p: usize = 0;
    while p < kb
        invariant
            p <= kb,
            kb0 + kb <= k,
            0 < width,
            acc@.len() == width,
            x == row(a@, k as int, i as int),
            a_at == i * k + kb0,
            i * k + k <= a.len(),
            0 <= i * k,
            src.len() == src@.len(),
            feeds(
                src@,
                base as int,
                stride as int,
                width as int,
                kb0 as int,
                kb as int,
                cols,
                j as int,
            ),
            forall|l: int|
                0 <= l < width ==> #[trigger] acc@[l] == fused(x, cols[j + l], kb0 + p),
        decreases kb - p,
    {
        proof {
            lemma_feeds_at(
                src@,
                base as int,
                stride as int,
                width as int,
                kb0 as int,
                kb as int,
                cols,
                j as int,
                p as int,
            );
        }
        let s: S = a[a_at + p];
        step_run(
            &mut acc,
            src,
            base + p * stride,
            s,
            Ghost(x),
            Ghost(cols),
            Ghost(j as int),
            Ghost(kb0 + p),
        );
        p = p + 1;
    }
    put_run(c, n, i, j, &acc);
}

/// Four rows of a tile at once: each run of `src` that is read serves rows `i` to `i + 3`.
fn tile4<S: Scalar>(
    i: usize,
    j: usize,
    width: usize,
    kb0: usize,
    kb: usize,
    first: bool,
    src: &[S],
    base: usize,
    stride: usize,
    a: &[S],
    k: usize,
    c: &mut [S],
    n: usize,
    Ghost(cols): Ghost<Seq<Seq<S>>>,
)
    requires
        0 < width,
        j + width <= n,
        (i + 3) * n + n <= old(c)@.len(),
        kb0 + kb <= k,
        (i + 3) * k + k <= a@.len(),
        feeds(
            src@,
            base as int,
            stride as int,
            width as int,
            kb0 as int,
            kb as int,
            cols,
            j as int,
        ),
        first ==> kb0 == 0,
        !first ==> forall|r: int|
            i <= r < i + 4 ==> parked(
                old(c)@,
                n as int,
                r,
                #[trigger] row(a@, k as int, r),
                cols,
                kb0 as int,
                j as int,
                j + width,
            ),
    ensures
        fused_block(
            old(c)@,
            final(c)@,
            n as int,
            a@,
            k as int,
            cols,
            kb0 + kb,
            i as int,
            i + 4,
            j as int,
            j + width,
        ),
{
    let ghost x0 = row(a@, k as int, i as int);
    let ghost x1 = row(a@, k as int, i + 1);
    let ghost x2 = row(a@, k as int, i + 2);
    let ghost x3 = row(a@, k as int, i + 3);
    proof {
        lemma_four_rows(i as int, k as int);
        lemma_four_rows(i as int, n as int);
        assert(a.len() == a@.len());
        assert(c.len() == c@.len());
        assert(src.len() == src@.len());
        assert(i + 3 <= (i + 3) * n) by (nonlinear_arith)
            requires
                n >= 1,
                i >= 0,
        ;
    }
    let at0: usize = i * k + kb0;
    let at1: usize = (i + 1) * k + kb0;
    let at2: usize = (i + 2) * k + kb0;
    let at3: usize = (i + 3) * k + kb0;
    let mut r0 = take_run(c, n, i, j, width, first, Ghost(x0), Ghost(cols), Ghost(kb0 as int));
    let mut r1 = take_run(c, n, i + 1, j, width, first, Ghost(x1), Ghost(cols), Ghost(kb0 as int));
    let mut r2 = take_run(c, n, i + 2, j, width, first, Ghost(x2), Ghost(cols), Ghost(kb0 as int));
    let mut r3 = take_run(c, n, i + 3, j, width, first, Ghost(x3), Ghost(cols), Ghost(kb0 as int));
    let mut p: usize = 0;
    while p < kb
        invariant
            p <= kb,
            kb0 + kb <= k,
            0 < width,
            r0@.len() == width,
            r1@.len() == width,
            r2@.len() == width,
            r3@.len() == width,
            x0 == row(a@, k as int, i as int),
            x1 == row(a@, k as int, i + 1),
            x2 == row(a@, k as int, i + 2),
            x3 == row(a@, k as int, i + 3),
            at0 == i * k + kb0,
            at1 == (i + 1) * k + kb0,
            at2 == (i + 2) * k + kb0,
            at3 == (i + 3) * k + kb0,
            0 <= i * k <= (i + 1) * k <= (i + 2) * k <= (i + 3) * k,
            (i + 3) * k + k <= a.len(),
            src.len() == src@.len(),
            feeds(
                src@,
                base as int,
                stride as int,
                width as int,
                kb0 as int,
                kb as int,
                cols,
                j as int,
            ),
            forall|l: int| 0 <= l < width ==> #[trigger] r0@[l] == fused(x0, cols[j + l], kb0 + p),
            forall|l: int| 0 <= l < width ==> #[trigger] r1@[l] == fused(x1, cols[j + l], kb0 + p),
            forall|l: int| 0 <= l < width ==> #[trigger] r2@[l] == fused(x2, cols[j + l], kb0 + p),
            forall|l: int| 0 <= l < width ==> #[trigger] r3@[l] == fused(x3, cols[j + l], kb0 + p),
        decreases kb - p,
    {
        proof {
            lemma_feeds_at(
                src@,
                base as int,
                stride as int,
                width as int,
                kb0 as int,
                kb as int,
                cols,
                j as int,
                p as int,
            );
        }
        let from: usize = base + p * stride;
        let ghost jj = j as int;
        let ghost q = kb0 + p;
        step_run(&mut r0, src, from, a[at0 + p], Ghost(x0), Ghost(cols), Ghost(jj), Ghost(q));
        step_run(&mut r1, src, from, a[at1 + p], Ghost(x1), Ghost(cols), Ghost(jj), Ghost(q));
        step_run(&mut r2, src, from, a[at2 + p], Ghost(x2), Ghost(cols), Ghost(jj), Ghost(q));
        step_run(&mut r3, src, from, a[at3 + p], Ghost(x3), Ghost(cols), Ghost(jj), Ghost(q));
        p = p + 1;
    }
    put_run(c, n, i, j, &r0);
    put_run(c, n, i + 1, j, &r1);
    put_run(c, n, i + 2, j, &r2);
    put_run(c, n, i + 3, j, &r3);
}

/// Four consecutive rows end inside the same matrix as the last of them.
proof fn lemma_four_rows(i: int, k: int)
    requires
        0 <= i,
        0 <= k,
    ensures
        0 <= i * k <= (i + 1) * k <= (i + 2) * k <= (i + 3) * k,
        i * k + k == (i + 1) * k,
        (i + 1) * k + k == (i + 2) * k,
        (i + 2) * k + k == (i + 3) * k,
{
    lemma_row_fits(i, i + 1, k);
    lemma_row_fits(i + 1, i + 2, k);
    lemma_row_fits(i + 2, i + 3, k);
}

/// The value of output `(i, j)`: fused inner product left of column `lim`, plain from
/// there on. `x` is row `i` of `A`, `y` is column `j` of `B`.
pub open spec fn entry<S: Scalar>(x: Seq<S>, y: Seq<S>, k: int, j: int, lim: int) -> S {
    if j < lim {
        fused(x, y, k)
    } else {
        plain(x, y, k)
    }
}

/// `c1` is `c0` with the finished outputs in the rectangle of rows `[i0, i1)` and columns
/// `[j0, j1)`.
pub open spec fn product_block<S: Scalar>(
    c0: Seq<S>,
    c1: Seq<S>,
    n: int,
    a: Seq<S>,
    k: int,
    cols: Seq<Seq<S>>,
    lim: int,
    i0: int,
    i1: int,
    j0: int,
    j1: int,
) -> bool {
    &&& c1.len() == c0.len()
    &&& forall|i: int, j: int|
        #![trigger at(c1, n, i, j)]
        0 <= i && 0 <= j < n && i * n + j < c0.len() ==> at(c1, n, i, j) == if i0 <= i < i1 && j0
            <= j < j1 {
            entry(row(a, k, i), cols[j], k, j, lim)
        } else {
            at(c0, n, i, j)
        }
}

/// Element `p` of column `j` is found in `src`, read in rows of `stride` elements whose
/// first column is column `jt`.
pub open spec fn held<S>(
    src: Seq<S>,
    stride: int,
    jt: int,
    cols: Seq<Seq<S>>,
    p: int,
    j: int,
) -> bool {
    &&& 0 <= p * stride + (j - jt) < src.len()
    &&& src[p * stride + (j - jt)] == cols[j][p]
}

/// `src`, read in rows of `stride` elements, holds columns `[j0, j1)` of `cols`; its first
/// column is column `jt`.
pub open spec fn holds<S>(
    src: Seq<S>,
    stride: int,
    jt: int,
    cols: Seq<Seq<S>>,
    k: int,
    j0: int,
    j1: int,
) -> bool {
    forall|p: int, j: int|
        0 <= p < k && j0 <= j < j1 ==> #[trigger] held(src, stride, jt, cols, p, j)
}

proof fn lemma_holds_feeds<S>(
    src: Seq<S>,
    stride: int,
    jt: int,
    cols: Seq<Seq<S>>,
    k: int,
    j0: int,
    j1: int,
    j: int,
    width: int,
)
    requires
        holds(src, stride, jt, cols, k, j0, j1),
        j0 <= j,
        j + width <= j1,
    ensures
        feeds(src, j - jt, stride, width, 0, k, cols, j),
{
    assert forall|p: int, l: int| 0 <= p < k && 0 <= l < width implies #[trigger] fed(
        src,
        j - jt,
        stride,
        0,
        cols,
        j,
        p,
        l,
    ) by {
        assert(held(src, stride, jt, cols, p, j + l));
    }
}

/// A row-major matrix holds its own columns.
pub proof fn lemma_columns_held<S>(b: Seq<S>, k: int, n: int)
    requires
        0 <= k,
        0 <= n,
        b.len() == k * n,
    ensures
        holds(b, n, 0, columns(b, k, n), k, 0, n),
{
    let cols = columns(b, k, n);
    assert forall|p: int, j: int| 0 <= p < k && 0 <= j < n implies #[trigger] held(
        b,
        n,
        0,
        cols,
        p,
        j,
    ) by {
        lemma_row_fits(p, k, n);
    }
}

/// Columns `[j0, j1)` of row `i`: runs of `lanes` fused outputs, then plain outputs one
/// by one.
fn row_tail_range<S: Scalar>(
    i: usize,
    j0: usize,
    j1: usize,
    lanes: usize,
    src: &[S],
    jt: usize,
    stride: usize,
    a: &[S],
    k: usize,
    c: &mut [S],
    n: usize,
    Ghost(cols): Ghost<Seq<Seq<S>>>,
)
    requires
        0 < lanes,
        jt <= j0 <= j1 <= n,
        i * n + n <= old(c)@.len(),
        i * k + k <= a@.len(),
        holds(src@, stride as int, jt as int, cols, k as int, j0 as int, j1 as int),
    ensures
        product_block(
            old(c)@,
            final(c)@,
            n as int,
            a@,
            k as int,
            cols,
            j0 + (j1 - j0) / lanes as int * lanes,
            i as int,
            i + 1,
            j0 as int,
            j1 as int,
        ),
{
    let ghost c0 = c@;
    let ghost lim = j0 + (j1 - j0) / lanes as int * lanes;
    let ghost x = row(a@, k as int, i as int);
    let mut j: usize = j0;
    proof {
        lemma_round_down((j1 - j0) as int, lanes as int);
        lemma_row_fits(i as int, i + 1, k as int);
        lemma_row_fits(i as int, i + 1, n as int);
        assert(c.len() == c@.len());
        assert(a.len() == a@.len());
        assert((j - j0) % lanes as int == 0) by {
            vstd::arithmetic::div_mod::lemma_small_mod(0, lanes as nat);
        }
    }
    while lanes <= j1 - j
        invariant
            0 < lanes,
            jt <= j0 <= j <= j1 <= n,
            (j - j0) % lanes as int == 0,
            i * n + n <= c@.len(),
            i * k + k <= a@.len(),
            holds(src@, stride as int, jt as int, cols, k as int, j0 as int, j1 as int),
            fused_block(
                c0,
                c@,
                n as int,
                a@,
                k as int,
                cols,
                k as int,
                i as int,
                i + 1,
                j0 as int,
                j as int,
            ),
        decreases j1 - j,
    {
        proof {
            lemma_holds_feeds(
                src@,
                stride as int,
                jt as int,
                cols,
                k as int,
                j0 as int,
                j1 as int,
                j as int,
                lanes as int,
            );
            vstd::arithmetic::div_mod::lemma_mod_add_multiples_vanish(
                (j - j0) as int,
                lanes as int,
            );
        }
        tile1(i, j, lanes, 0, k, true, src, j - jt, stride, a, k, c, n, Ghost(cols));
        j = j + lanes;
    }
    proof {
        lemma_multiple_is_round_down((j - j0) as int, (j1 - j0) as int, lanes as int);
        assert(j == lim);
    }
    let ghost c1 = c@;
    while j < j1
        invariant
            lim <= j <= j1 <= n,
            jt <= j0 <= lim,
            i * n + n <= c.len(),
            i * k + k <= a.len(),
            0 <= i * k,
            0 <= i * n,
            c@.len() == c1.len(),
            x == row(a@, k as int, i as int),
            holds(src@, stride as int, jt as int, cols, k as int, j0 as int, j1 as int),
            forall|i2: int, j2: int|
                #![trigger at(c@, n as int, i2, j2)]
                0 <= i2 && 0 <= j2 < n && i2 * n + j2 < c1.len() ==> at(c@, n as int, i2, j2)
                    == if i2 == i && lim <= j2 < j {
                    plain(x, cols[j2], k as int)
                } else {
                    at(c1, n as int, i2, j2)
                },
        decreases j1 - j,
    {
        let mut s: S = S::of_raw(0);
        let mut p: usize = 0;
        let ghost y = cols[j as int];
        while p < k
            invariant
                p <= k,
                lim <= j < j1 <= n,
                jt <= j0 <= lim,
                i * k + k <= a.len(),
                0 <= i * k,
                x == row(a@, k as int, i as int),
                y == cols[j as int],
                holds(src@, stride as int, jt as int, cols, k as int, j0 as int, j1 as int),
                s == plain(x, y, p as int),
            decreases k - p,
        {
            proof {
                assert(held(src@, stride as int, jt as int, cols, p as int, j as int));
                assert(src.len() == src@.len());
                assert(0 <= p * stride) by (nonlinear_arith)
                    requires
                        0 <= p,
                        0 <= stride,
                ;
            }
            s = s.add(a[i * k + p].mul(src[p * stride + (j - jt)]));
            p = p + 1;
        }
        let ghost before = c@;
        c[i * n + j] = s;
        proof {
            assert forall|i2: int, j2: int|
                #![trigger at(c@, n as int, i2, j2)]
                0 <= i2 && 0 <= j2 < n && i2 * n + j2 < c1.len() implies at(c@, n as int, i2, j2)
                == if i2 == i && lim <= j2 < j + 1 {
                plain(x, cols[j2], k as int)
            } else {
                at(c1, n as int, i2, j2)
            } by {
                lemma_segment(n as int, i as int, j as int, 1, i2, j2);
                assert(0 <= i2 * n) by (nonlinear_arith)
                    requires
                        0 <= i2,
                        0 <= n,
                ;
                assert(at(before, n as int, i2, j2) == before[i2 * n + j2]);
            }
        }
        j = j + 1;
    }
    proof {
        assert forall|i2: int, j2: int|
            #![trigger at(c@, n as int, i2, j2)]
            0 <= i2 && 0 <= j2 < n && i2 * n + j2 < c0.len() implies at(c@, n as int, i2, j2)
            == if i <= i2 < i + 1 && j0 <= j2 < j1 {
            entry(row(a@, k as int, i2), cols[j2], k as int, j2, lim)
        } else {
            at(c0, n as int, i2, j2)
        } by {
            assert(at(c1, n as int, i2, j2) == c1[i2 * n + j2]);
        }
    }
}

/// The multiple of `g` within less than `g` below `total` is its rounding down.
proof fn lemma_multiple_is_round_down(x: int, total: int, g: int)
    requires
        0 < g,
        0 <= x <= total < x + g,
        x % g == 0,
    ensures
        x == total / g * g,
{
    lemma_round_down(total, g);
    let y = total / g * g;
    assert(x == y) by (nonlinear_arith)
        requires
            0 < g,
            x % g == 0,
            y % g == 0,
            x <= total < x + g,
            y <= total < y + g,
    ;
}

/// The first column that is computed one by one instead of in a vector.
pub open spec fn fused_limit<T: PackedKernel>(n: int) -> int {
    n / T::LANES as int * T::LANES
}

/// The number of columns that whole strips cover.
pub open spec fn strip_limit<T: PackedKernel>(n: int) -> int {
    n / T::STRIP as int * T::STRIP
}

/// `c` is the product of `a` (`m × k`) and the matrix with columns `cols` (`k × n`).
pub open spec fn is_product_of<T: PackedKernel>(
    a: Seq<T>,
    cols: Seq<Seq<T>>,
    m: int,
    k: int,
    n: int,
    c: Seq<T>,
) -> bool {
    &&& c.len() == m * n
    &&& forall|i: int, j: int|
        0 <= i < m && 0 <= j < n ==> #[trigger] at(c, n, i, j) == entry(
            row(a, k, i),
            cols[j],
            k,
            j,
            fused_limit::<T>(n),
        )
}

/// `c` is the product of the row-major matrices `a` (`m × k`) and `b` (`k × n`).
pub open spec fn is_product<T: PackedKernel>(
    a: Seq<T>,
    b: Seq<T>,
    m: int,
    k: int,
    n: int,
    c: Seq<T>,
) -> bool {
    is_product_of(a, columns(b, k, n), m, k, n, c)
}

/// Whole strips end at a vector boundary; counting vectors from there or from the left
/// edge comes to the same.
pub proof fn lemma_limits<T: PackedKernel>(n: int)
    requires
        0 <= n,
    ensures
        0 <= strip_limit::<T>(n) <= fused_limit::<T>(n) <= n,
        n < strip_limit::<T>(n) + T::STRIP,
        strip_limit::<T>(n) % T::STRIP as int == 0,
        strip_limit::<T>(n) % T::LANES as int == 0,
        strip_limit::<T>(n) + (n - strip_limit::<T>(n)) / T::LANES as int * T::LANES
            == fused_limit::<T>(n),
{
    T::layout();
    let strip = T::STRIP as int;
    let lanes = T::LANES as int;
    let sl = strip_limit::<T>(n);
    let fl = fused_limit::<T>(n);
    lemma_round_down(n, strip);
    lemma_round_down(n, lanes);
    lemma_multiple_of_multiple(sl, strip, lanes);
    lemma_round_down(n - sl, lanes);
    let rest = (n - sl) / lanes * lanes;
    vstd::arithmetic::div_mod::lemma_mod_adds(sl, rest, lanes);
    lemma_multiple_is_round_down(sl + rest, n, lanes);
}

proof fn lemma_multiple_of_multiple(x: int, strip: int, lanes: int)
    requires
        0 < lanes,
        0 < strip,
        strip % lanes == 0,
        x % strip == 0,
    ensures
        x % lanes == 0,
{
    let q = strip / lanes;
    let t = x / strip;
    vstd::arithmetic::div_mod::lemma_fundamental_div_mod(strip, lanes);
    vstd::arithmetic::div_mod::lemma_fundamental_div_mod(x, strip);
    assert(x == (t * q) * lanes) by (nonlinear_arith)
        requires
            strip == lanes * q,
            x == strip * t,
    ;
    vstd::arithmetic::div_mod::lemma_mod_multiples_basic(t * q, lanes);
}

/// Fused outputs left of `lim`, after all steps, are finished outputs.
proof fn lemma_fused_finished<S: Scalar>(
    c0: Seq<S>,
    c1: Seq<S>,
    n: int,
    a: Seq<S>,
    k: int,
    cols: Seq<Seq<S>>,
    lim: int,
    i0: int,
    i1: int,
    j0: int,
    j1: int,
)
    requires
        fused_block(c0, c1, n, a, k, cols, k, i0, i1, j0, j1),
        j1 <= lim,
    ensures
        product_block(c0, c1, n, a, k, cols, lim, i0, i1, j0, j1),
{
}

/// Two blocks written one after the other, the second below the first.
proof fn lemma_below<S: Scalar>(
    c0: Seq<S>,
    c1: Seq<S>,
    c2: Seq<S>,
    n: int,
    a: Seq<S>,
    k: int,
    cols: Seq<Seq<S>>,
    lim: int,
    i0: int,
    i1: int,
    i2: int,
    j0: int,
    j1: int,
)
    requires
        product_block(c0, c1, n, a, k, cols, lim, i0, i1, j0, j1),
        product_block(c1, c2, n, a, k, cols, lim, i1, i2, j0, j1),
        i0 <= i1 <= i2,
    ensures
        product_block(c0, c2, n, a, k, cols, lim, i0, i2, j0, j1),
{
    assert forall|i: int, j: int|
        #![trigger at(c2, n, i, j)]
        0 <= i && 0 <= j < n && i * n + j < c0.len() implies at(c2, n, i, j) == if i0 <= i < i2
        && j0 <= j < j1 {
        entry(row(a, k, i), cols[j], k, j, lim)
    } else {
        at(c0, n, i, j)
    } by {
        let mid = at(c1, n, i, j);
    }
}

/// Two blocks written one after the other, the second right of the first.
pub proof fn lemma_beside<S: Scalar>(
    c0: Seq<S>,
    c1: Seq<S>,
    c2: Seq<S>,
    n: int,
    a: Seq<S>,
    k: int,
    cols: Seq<Seq<S>>,
    lim: int,
    i0: int,
    i1: int,
    j0: int,
    j1: int,
    j2: int,
)
    requires
        product_block(c0, c1, n, a, k, cols, lim, i0, i1, j0, j1),
        product_block(c1, c2, n, a, k, cols, lim, i0, i1, j1, j2),
        j0 <= j1 <= j2,
    ensures
        product_block(c0, c2, n, a, k, cols, lim, i0, i1, j0, j2),
{
    assert forall|i: int, j: int|
        #![trigger at(c2, n, i, j)]
        0 <= i && 0 <= j < n && i * n + j < c0.len() implies at(c2, n, i, j) == if i0 <= i < i1
        && j0 <= j < j2 {
        entry(row(a, k, i), cols[j], k, j, lim)
    } else {
        at(c0, n, i, j)
    } by {
        let mid = at(c1, n, i, j);
    }
}

/// Columns `[j0, j1)` of row `i`, strip by strip.
fn cols_strips<T: PackedKernel>(
    i: usize,
    j0: usize,
    j1: usize,
    b: &[T],
    a: &[T],
    k: usize,
    c: &mut [T],
    n: usize,
    Ghost(cols): Ghost<Seq<Seq<T>>>,
)
    requires
        j0 <= j1 <= strip_limit::<T>(n as int),
        (j1 - j0) % T::STRIP as int == 0,
        i * n + n <= old(c)@.len(),
        i * k + k <= a@.len(),
        holds(b@, n as int, 0, cols, k as int, 0, n as int),
    ensures
        product_block(
            old(c)@,
            final(c)@,
            n as int,
            a@,
            k as int,
            cols,
            fused_limit::<T>(n as int),
            i as int,
            i + 1,
            j0 as int,
            j1 as int,
        ),
{
    let ghost c0 = c@;
    let ghost lim = fused_limit::<T>(n as int);
    proof {
        T::layout();
        lemma_limits::<T>(n as int);
    }
    let mut j: usize = j0;
    while j < j1
        invariant
            0 < T::STRIP <= 64,
            j0 <= j <= j1 <= lim <= n,
            (j1 - j) % T::STRIP as int == 0,
            i * n + n <= c@.len(),
            i * k + k <= a@.len(),
            holds(b@, n as int, 0, cols, k as int, 0, n as int),
            product_block(
                c0,
                c@,
                n as int,
                a@,
                k as int,
                cols,
                lim,
                i as int,
                i + 1,
                j0 as int,
                j as int,
            ),
        decreases j1 - j,
    {
        proof {
            lemma_whole_strip((j1 - j) as int, T::STRIP as int);
            lemma_holds_feeds(
                b@,
                n as int,
                0,
                cols,
                k as int,
                0,
                n as int,
                j as int,
                T::STRIP as int,
            );
        }
        let ghost c1 = c@;
        tile1(i, j, T::STRIP, 0, k, true, b, j, n, a, k, c, n, Ghost(cols));
        proof {
            let end = j + T::STRIP;
            lemma_fused_finished(
                c1,
                c@,
                n as int,
                a@,
                k as int,
                cols,
                lim,
                i as int,
                i + 1,
                j as int,
                end,
            );
            lemma_beside(
                c0,
                c1,
                c@,
                n as int,
                a@,
                k as int,
                cols,
                lim,
                i as int,
                i + 1,
                j0 as int,
                j as int,
                end,
            );
        }
        j = j + T::STRIP;
    }
}

/// A positive multiple of `strip` has room for one more strip.
proof fn lemma_whole_strip(rest: int, strip: int)
    requires
        0 < strip,
        0 < rest,
        rest % strip == 0,
    ensures
        strip <= rest,
        (rest - strip) % strip == 0,
{
    if rest < strip {
        vstd::arithmetic::div_mod::lemma_small_mod(rest as nat, strip as nat);
    }
    vstd::arithmetic::div_mod::lemma_mod_sub_multiples_vanish(rest, strip);
}

/// Columns `[j0, j1)` of rows `i` to `i + 3`, strip by strip.
fn rows4_strips<T: PackedKernel>(
    i: usize,
    j0: usize,
    j1: usize,
    b: &[T],
    a: &[T],
    k: usize,
    c: &mut [T],
    n: usize,
    Ghost(cols): Ghost<Seq<Seq<T>>>,
)
    requires
        j0 <= j1 <= strip_limit::<T>(n as int),
        (j1 - j0) % T::STRIP as int == 0,
        (i + 3) * n + n <= old(c)@.len(),
        (i + 3) * k + k <= a@.len(),
        holds(b@, n as int, 0, cols, k as int, 0, n as int),
    ensures
        product_block(
            old(c)@,
            final(c)@,
            n as int,
            a@,
            k as int,
            cols,
            fused_limit::<T>(n as int),
            i as int,
            i + 4,
            j0 as int,
            j1 as int,
        ),
{
    let ghost c0 = c@;
    let ghost lim = fused_limit::<T>(n as int);
    proof {
        T::layout();
        lemma_limits::<T>(n as int);
    }
    let mut j: usize = j0;
    while j < j1
        invariant
            0 < T::STRIP <= 64,
            j0 <= j <= j1 <= lim <= n,
            (j1 - j) % T::STRIP as int == 0,
            (i + 3) * n + n <= c@.len(),
            (i + 3) * k + k <= a@.len(),
            holds(b@, n as int, 0, cols, k as int, 0, n as int),
            product_block(
                c0,
                c@,
                n as int,
                a@,
                k as int,
                cols,
                lim,
                i as int,
                i + 4,
                j0 as int,
                j as int,
            ),
        decreases j1 - j,
    {
        proof {
            lemma_whole_strip((j1 - j) as int, T::STRIP as int);
            lemma_holds_feeds(
                b@,
                n as int,
                0,
                cols,
                k as int,
                0,
                n as int,
                j as int,
                T::STRIP as int,
            );
        }
        let ghost c1 = c@;
        tile4(i, j, T::STRIP, 0, k, true, b, j, n, a, k, c, n, Ghost(cols));
        proof {
            let end = j + T::STRIP;
            lemma_fused_finished(
                c1,
                c@,
                n as int,
                a@,
                k as int,
                cols,
                lim,
                i as int,
                i + 4,
                j as int,
                end,
            );
            lemma_beside(
                c0,
                c1,
                c@,
                n as int,
                a@,
                k as int,
                cols,
                lim,
                i as int,
                i + 4,
                j0 as int,
                j as int,
                end,
            );
        }
        j = j + T::STRIP;
    }
}

/// Columns `[j0, j1)` of rows `[i0, i1)` by the tail kernel.
pub(crate) fn tails<S: Scalar>(
    i0: usize,
    i1: usize,
    j0: usize,
    j1: usize,
    lanes: usize,
    src: &[S],
    jt: usize,
    stride: usize,
    a: &[S],
    k: usize,
    c: &mut [S],
    n: usize,
    Ghost(m): Ghost<int>,
    Ghost(cols): Ghost<Seq<Seq<S>>>,
)
    requires
        0 < lanes,
        jt <= j0 <= j1 <= n,
        i0 <= i1 <= m,
        old(c)@.len() == m * n,
        a@.len() == m * k,
        holds(src@, stride as int, jt as int, cols, k as int, j0 as int, j1 as int),
    ensures
        product_block(
            old(c)@,
            final(c)@,
            n as int,
            a@,
            k as int,
            cols,
            j0 + (j1 - j0) / lanes as int * lanes,
            i0 as int,
            i1 as int,
            j0 as int,
            j1 as int,
        ),
{
    let ghost c0 = c@;
    let ghost lim = j0 + (j1 - j0) / lanes as int * lanes;
    let mut i: usize = i0;
    while i < i1
        invariant
            0 < lanes,
            jt <= j0 <= j1 <= n,
            i0 <= i <= i1 <= m,
            c@.len() == m * n,
            a@.len() == m * k,
            lim == j0 + (j1 - j0) / lanes as int * lanes,
            holds(src@, stride as int, jt as int, cols, k as int, j0 as int, j1 as int),
            product_block(
                c0,
                c@,
                n as int,
                a@,
                k as int,
                cols,
                lim,
                i0 as int,
                i as int,
                j0 as int,
                j1 as int,
            ),
        decreases i1 - i,
    {
        proof {
            lemma_row_fits(i as int, m, n as int);
            lemma_row_fits(i as int, m, k as int);
        }
        let ghost c1 = c@;
        row_tail_range(i, j0, j1, lanes, src, jt, stride, a, k, c, n, Ghost(cols));
        proof {
            lemma_below(
                c0,
                c1,
                c@,
                n as int,
                a@,
                k as int,
                cols,
                lim,
                i0 as int,
                i as int,
                i + 1,
                j0 as int,
                j1 as int,
            );
        }
        i = i + 1;
    }
}

/// A full rectangle of finished outputs is the product.
pub proof fn lemma_all_blocks<T: PackedKernel>(
    c0: Seq<T>,
    c1: Seq<T>,
    m: int,
    n: int,
    a: Seq<T>,
    k: int,
    cols: Seq<Seq<T>>,
)
    requires
        0 <= m,
        0 <= n,
        c0.len() == m * n,
        product_block(c0, c1, n, a, k, cols, fused_limit::<T>(n), 0, m, 0, n),
    ensures
        is_product_of(a, cols, m, k, n, c1),
{
    assert forall|i: int, j: int| 0 <= i < m && 0 <= j < n implies #[trigger] at(c1, n, i, j)
        == entry(row(a, k, i), cols[j], k, j, fused_limit::<T>(n)) by {
        lemma_row_fits(i, m, n);
    }
}

/// Four rows before row `m4` end inside the matrix.
proof fn lemma_four_fit(i: int, m: int, n: int)
    requires
        0 <= i,
        i + 4 <= m,
        0 <= n,
    ensures
        (i + 3) * n + n <= m * n,
{
    lemma_row_fits(i + 3, m, n);
}

/// The streaming path: four rows at a time, `B` read where it lies.
pub fn matmul_stream<T: PackedKernel>(
    m: usize,
    k: usize,
    n: usize,
    a: &[T],
    b: &[T],
    c: &mut [T],
)
    requires
        a@.len() == m * k,
        b@.len() == k * n,
        old(c)@.len() == m * n,
    ensures
        is_product(a@, b@, m as int, k as int, n as int, final(c)@),
{
    let ghost cols = columns(b@, k as int, n as int);
    let ghost c0 = c@;
    let ghost lim = fused_limit::<T>(n as int);
    proof {
        T::layout();
        lemma_columns_held(b@, k as int, n as int);
        lemma_limits::<T>(n as int);
    }
    let n_strip: usize = n / T::STRIP * T::STRIP;
    let m4: usize = m / 4 * 4;
    let mut i: usize = 0;
    while i < m4
        invariant
            0 < T::LANES,
            0 < T::STRIP,
            m4 == m / 4 * 4,
            i <= m4 <= m,
            i % 4 == 0,
            m4 % 4 == 0,
            n_strip == strip_limit::<T>(n as int),
            n_strip <= n,
            n_strip as int % T::STRIP as int == 0,
            lim == fused_limit::<T>(n as int),
            lim == n_strip + (n - n_strip) / T::LANES as int * T::LANES,
            c@.len() == m * n,
            a@.len() == m * k,
            holds(b@, n as int, 0, cols, k as int, 0, n as int),
            product_block(c0, c@, n as int, a@, k as int, cols, lim, 0, i as int, 0, n as int),
        decreases m4 - i,
    {
        proof {
            lemma_four_fit(i as int, m as int, n as int);
            lemma_four_fit(i as int, m as int, k as int);
        }
        let ghost c1 = c@;
        rows4_strips(i, 0, n_strip, b, a, k, c, n, Ghost(cols));
        let ghost c2 = c@;
        tails(
            i,
            i + 4,
            n_strip,
            n,
            T::LANES,
            b,
            0,
            n,
            a,
            k,
            c,
            n,
            Ghost(m as int),
            Ghost(cols),
        );
        proof {
            let (ii, nn, kk) = (i as int, n as int, k as int);
            lemma_beside(c1, c2, c@, nn, a@, kk, cols, lim, ii, ii + 4, 0, n_strip as int, nn);
            lemma_below(c0, c1, c@, nn, a@, kk, cols, lim, 0, ii, ii + 4, 0, nn);
        }
        i = i + 4;
    }
    while i < m
        invariant
            0 < T::LANES,
            0 < T::STRIP,
            i <= m,
            n_strip == strip_limit::<T>(n as int),
            n_strip <= n,
            n_strip as int % T::STRIP as int == 0,
            lim == fused_limit::<T>(n as int),
            lim == n_strip + (n - n_strip) / T::LANES as int * T::LANES,
            c@.len() == m * n,
            a@.len() == m * k,
            holds(b@, n as int, 0, cols, k as int, 0, n as int),
            product_block(c0, c@, n as int, a@, k as int, cols, lim, 0, i as int, 0, n as int),
        decreases m - i,
    {
        proof {
            lemma_row_fits(i as int, m as int, n as int);
            lemma_row_fits(i as int, m as int, k as int);
        }
        let ghost c1 = c@;
        cols_strips(i, 0, n_strip, b, a, k, c, n, Ghost(cols));
        let ghost c2 = c@;
        row_tail_range(i, n_strip, n, T::LANES, b, 0, n, a, k, c, n, Ghost(cols));
        proof {
            let (ii, nn, kk) = (i as int, n as int, k as int);
            lemma_beside(c1, c2, c@, nn, a@, kk, cols, lim, ii, ii + 1, 0, n_strip as int, nn);
            lemma_below(c0, c1, c@, nn, a@, kk, cols, lim, 0, ii, ii + 1, 0, nn);
        }
        i = i + 1;
    }
    proof {
        lemma_all_blocks(c0, c@, m as int, n as int, a@, k as int, cols);
    }
}

/// Finished outputs left of both limits do not depend on the limit.
proof fn lemma_relimit<S: Scalar>(
    c0: Seq<S>,
    c1: Seq<S>,
    n: int,
    a: Seq<S>,
    k: int,
    cols: Seq<Seq<S>>,
    lim: int,
    lim2: int,
    i0: int,
    i1: int,
    j0: int,
    j1: int,
)
    requires
        product_block(c0, c1, n, a, k, cols, lim, i0, i1, j0, j1),
        j1 <= lim,
        j1 <= lim2,
    ensures
        product_block(c0, c1, n, a, k, cols, lim2, i0, i1, j0, j1),
{
}

/// Columns `[jc, jce)` of every row: four rows at a time, then the remaining ones.
fn strip_panel<T: PackedKernel>(
    m: usize,
    jc: usize,
    jce: usize,
    b: &[T],
    a: &[T],
    k: usize,
    c: &mut [T],
    n: usize,
    Ghost(cols): Ghost<Seq<Seq<T>>>,
)
    requires
        jc <= jce <= strip_limit::<T>(n as int),
        (jce - jc) % T::STRIP as int == 0,
        old(c)@.len() == m * n,
        a@.len() == m * k,
        holds(b@, n as int, 0, cols, k as int, 0, n as int),
    ensures
        product_block(
            old(c)@,
            final(c)@,
            n as int,
            a@,
            k as int,
            cols,
            fused_limit::<T>(n as int),
            0,
            m as int,
            jc as int,
            jce as int,
        ),
{
    let ghost c0 = c@;
    let ghost lim = fused_limit::<T>(n as int);
    let m4: usize = m / 4 * 4;
    let mut i: usize = 0;
    while i < m4
        invariant
            m4 == m / 4 * 4,
            i <= m4 <= m,
            i % 4 == 0,
            m4 % 4 == 0,
            jc <= jce <= strip_limit::<T>(n as int),
            (jce - jc) % T::STRIP as int == 0,
            lim == fused_limit::<T>(n as int),
            c@.len() == m * n,
            a@.len() == m * k,
            holds(b@, n as int, 0, cols, k as int, 0, n as int),
            product_block(
                c0,
                c@,
                n as int,
                a@,
                k as int,
                cols,
                lim,
                0,
                i as int,
                jc as int,
                jce as int,
            ),
        decreases m4 - i,
    {
        proof {
            lemma_four_fit(i as int, m as int, n as int);
            lemma_four_fit(i as int, m as int, k as int);
        }
        let ghost c1 = c@;
        rows4_strips(i, jc, jce, b, a, k, c, n, Ghost(cols));
        proof {
            let (ii, nn, kk) = (i as int, n as int, k as int);
            lemma_below(c0, c1, c@, nn, a@, kk, cols, lim, 0, ii, ii + 4, jc as int, jce as int);
        }
        i = i + 4;
    }
    while i < m
        invariant
            i <= m,
            jc <= jce <= strip_limit::<T>(n as int),
            (jce - jc) % T::STRIP as int == 0,
            lim == fused_limit::<T>(n as int),
            c@.len() == m * n,
            a@.len() == m * k,
            holds(b@, n as int, 0, cols, k as int, 0, n as int),
            product_block(
                c0,
                c@,
                n as int,
                a@,
                k as int,
                cols,
                lim,
                0,
                i as int,
                jc as int,
                jce as int,
            ),
        decreases m - i,
    {
        proof {
            lemma_row_fits(i as int, m as int, n as int);
            lemma_row_fits(i as int, m as int, k as int);
        }
        let ghost c1 = c@;
        cols_strips(i, jc, jce, b, a, k, c, n, Ghost(cols));
        proof {
            let (ii, nn, kk) = (i as int, n as int, k as int);
            lemma_below(c0, c1, c@, nn, a@, kk, cols, lim, 0, ii, ii + 1, jc as int, jce as int);
        }
        i = i + 1;
    }
}

/// The column-block path: only columns `[j0, j1)`, blocks of `col_block` columns outside,
/// rows inside, so that each panel of `B` is read once.
///
/// `j0` has to lie on a strip boundary: the columns left over after the last whole
/// vector are computed one by one, and only whole strips keep every column in the class
/// that the other paths put it in.
pub fn matmul_cols_block<T: PackedKernel>(
    m: usize,
    k: usize,
    n: usize,
    j0: usize,
    j1: usize,
    a: &[T],
    b: &[T],
    c: &mut [T],
    col_block: usize,
)
    requires
        a@.len() == m * k,
        b@.len() == k * n,
        old(c)@.len() == m * n,
        j0 <= j1 <= n,
        j0 as int % T::STRIP as int == 0,
        0 < col_block,
        col_block as int % T::STRIP as int == 0,
    ensures
        product_block(
            old(c)@,
            final(c)@,
            n as int,
            a@,
            k as int,
            columns(b@, k as int, n as int),
            fused_limit::<T>(j1 as int),
            0,
            m as int,
            j0 as int,
            j1 as int,
        ),
{
    let ghost cols = columns(b@, k as int, n as int);
    let ghost c0 = c@;
    let ghost lim = fused_limit::<T>(j1 as int);
    let ghost lim_n = fused_limit::<T>(n as int);
    let ghost strip = T::STRIP as int;
    proof {
        T::layout();
        lemma_columns_held(b@, k as int, n as int);
        lemma_limits::<T>(n as int);
        lemma_limits::<T>(j1 as int);
        lemma_strip_monotone::<T>(j0 as int, j1 as int, n as int);
    }
    let jb: usize = j1 / T::STRIP * T::STRIP;
    let mut jc: usize = j0;
    while jc < jb
        invariant
            0 < strip <= 64,
            strip == T::STRIP,
            0 < col_block,
            col_block as int % strip == 0,
            j0 <= jc,
            jc <= jb,
            jb <= lim,
            jb <= strip_limit::<T>(n as int) <= lim_n,
            lim_n == fused_limit::<T>(n as int),
            (jb - jc) % strip == 0,
            c@.len() == m * n,
            a@.len() == m * k,
            holds(b@, n as int, 0, cols, k as int, 0, n as int),
            product_block(
                c0,
                c@,
                n as int,
                a@,
                k as int,
                cols,
                lim,
                0,
                m as int,
                j0 as int,
                jc as int,
            ),
        decreases jb - jc,
    {
        let width: usize = min_usize(col_block, jb - jc);
        proof {
            lemma_step_down((jb - jc) as int, width as int, strip);
        }
        let jce: usize = jc + width;
        let ghost c1 = c@;
        strip_panel(m, jc, jce, b, a, k, c, n, Ghost(cols));
        proof {
            let (mm, nn, kk) = (m as int, n as int, k as int);
            lemma_relimit(c1, c@, nn, a@, kk, cols, lim_n, lim, 0, mm, jc as int, jce as int);
            lemma_beside(
                c0,
                c1,
                c@,
                nn,
                a@,
                kk,
                cols,
                lim,
                0,
                mm,
                j0 as int,
                jc as int,
                jce as int,
            );
        }
        jc = jce;
    }
    let ghost c1 = c@;
    tails(0, m, jb, j1, T::LANES, b, 0, n, a, k, c, n, Ghost(m as int), Ghost(cols));
    proof {
        let (mm, nn, kk) = (m as int, n as int, k as int);
        lemma_beside(c0, c1, c@, nn, a@, kk, cols, lim, 0, mm, j0 as int, jb as int, j1 as int);
    }
}

/// The last strip boundary before `j1` lies between `j0` and the last one before `n`.
proof fn lemma_strip_monotone<T: PackedKernel>(j0: int, j1: int, n: int)
    requires
        0 <= j0 <= j1 <= n,
        j0 % T::STRIP as int == 0,
    ensures
        j0 <= strip_limit::<T>(j1) <= strip_limit::<T>(n),
        (strip_limit::<T>(j1) - j0) % T::STRIP as int == 0,
{
    T::layout();
    let s = T::STRIP as int;
    lemma_round_down(j1, s);
    lemma_round_down(n, s);
    let x = strip_limit::<T>(j1);
    let y = strip_limit::<T>(n);
    vstd::arithmetic::div_mod::lemma_div_is_ordered(j1, n, s);
    assert(x <= y) by (nonlinear_arith)
        requires
            x == j1 / s * s,
            y == n / s * s,
            j1 / s <= n / s,
            s > 0,
    ;
    assert(j0 <= x) by (nonlinear_arith)
        requires
            j0 % s == 0,
            x % s == 0,
            j0 <= j1 < x + s,
            s > 0,
    ;
    lemma_mod_difference(x, j0, s);
}

proof fn lemma_mod_difference(x: int, y: int, s: int)
    requires
        0 < s,
        x % s == 0,
        y % s == 0,
    ensures
        (x - y) % s == 0,
{
    let qx = x / s;
    let qy = y / s;
    vstd::arithmetic::div_mod::lemma_fundamental_div_mod(x, s);
    vstd::arithmetic::div_mod::lemma_fundamental_div_mod(y, s);
    assert(x - y == (qx - qy) * s) by (nonlinear_arith)
        requires
            x == s * qx,
            y == s * qy,
    ;
    vstd::arithmetic::div_mod::lemma_mod_multiples_basic(qx - qy, s);
}

/// Taking a block off keeps both parts whole numbers of strips.
proof fn lemma_step_down(rest: int, width: int, strip: int)
    requires
        0 < strip,
        0 < rest,
        0 < width <= rest,
        rest % strip == 0,
        width == rest || width % strip == 0,
    ensures
        width % strip == 0,
        (rest - width) % strip == 0,
{
    lemma_mod_difference(rest, width, strip);
}

/// Where a packed panel keeps column `r` of strip `q` at step `p`: strip after strip,
/// within a strip step after step, within a step column after column.
pub open spec fn slot(k: int, strip: int, q: int, p: int, r: int) -> int {
    (q * k + p) * strip + r
}

/// `packed` holds, for column `r` of strip `q` at step `p`, the element of column
/// `jb + q * strip + r`.
pub open spec fn packed_at<S>(
    packed: Seq<S>,
    cols: Seq<Seq<S>>,
    k: int,
    strip: int,
    jb: int,
    q: int,
    p: int,
    r: int,
) -> bool {
    packed[slot(k, strip, q, p, r)] == cols[jb + q * strip + r][p]
}

/// `packed` holds `strips` whole strips of columns, from column `jb`.
pub open spec fn is_packed<S>(
    packed: Seq<S>,
    cols: Seq<Seq<S>>,
    k: int,
    strip: int,
    jb: int,
    strips: int,
) -> bool {
    &&& k * (strips * strip) <= packed.len()
    &&& forall|q: int, p: int, r: int|
        0 <= q < strips && 0 <= p < k && 0 <= r < strip ==> #[trigger] packed_at(
            packed,
            cols,
            k,
            strip,
            jb,
            q,
            p,
            r,
        )
}

/// Slots lie inside the panel.
pub proof fn lemma_slot(k: int, strip: int, strips: int, q: int, p: int, r: int)
    requires
        0 <= q < strips,
        0 <= p < k,
        0 <= r < strip,
    ensures
        0 <= slot(k, strip, q, p, r) < k * (strips * strip),
        slot(k, strip, q, p, 0) + strip <= k * (strips * strip),
        0 <= (q * k + p) * strip,
        0 <= q * k,
        q * k + p <= (q * k + p) * strip,
        slot(k, strip, q, p, r) == slot(k, strip, q, p, 0) + r,
{
    lemma_row_fits(q, strips, k);
    lemma_row_fits(q * k + p, strips * k, strip);
    assert(strips * k * strip == k * (strips * strip)) by (nonlinear_arith);
    assert(q * k + p <= (q * k + p) * strip) by (nonlinear_arith)
        requires
            0 <= q * k + p,
            1 <= strip,
    ;
}

/// Different places of a panel have different slots.
pub proof fn lemma_slot_unique(
    k: int,
    strip: int,
    q: int,
    p: int,
    r: int,
    q2: int,
    p2: int,
    r2: int,
)
    requires
        0 <= p < k,
        0 <= p2 < k,
        0 <= r < strip,
        0 <= r2 < strip,
        slot(k, strip, q, p, r) == slot(k, strip, q2, p2, r2),
    ensures
        q == q2,
        p == p2,
        r == r2,
{
    lemma_position_unique(strip, q * k + p, r, q2 * k + p2, r2);
    lemma_position_unique(k, q, p, q2, p2);
}

/// Strip `q` of a packed panel, from step `kb0` on, is read in steps of one strip.
proof fn lemma_packed_feeds<S>(
    packed: Seq<S>,
    cols: Seq<Seq<S>>,
    k: int,
    strip: int,
    jb: int,
    strips: int,
    q: int,
    kb0: int,
    kb: int,
)
    requires
        is_packed(packed, cols, k, strip, jb, strips),
        0 <= q < strips,
        0 <= kb0,
        0 < kb,
        kb0 + kb <= k,
        0 < strip,
    ensures
        feeds(packed, slot(k, strip, q, kb0, 0), strip, strip, kb0, kb, cols, jb + q * strip),
        0 <= slot(k, strip, q, kb0, 0) <= packed.len(),
{
    let base = slot(k, strip, q, kb0, 0);
    lemma_slot(k, strip, strips, q, kb0, 0);
    assert forall|p: int, l: int| 0 <= p < kb && 0 <= l < strip implies #[trigger] fed(
        packed,
        base,
        strip,
        kb0,
        cols,
        jb + q * strip,
        p,
        l,
    ) by {
        lemma_slot(k, strip, strips, q, kb0 + p, l);
        assert(packed_at(packed, cols, k, strip, jb, q, kb0 + p, l));
        assert(base + p * strip + l == slot(k, strip, q, kb0 + p, l)) by (nonlinear_arith)
            requires
                base == (q * k + kb0) * strip + 0,
                slot(k, strip, q, kb0 + p, l) == (q * k + (kb0 + p)) * strip + l,
        ;
    }
}

/// Packs columns `[jb, jb + strips * STRIP)` of a row-major matrix, so that the steps of
/// one strip lie next to each other.
pub fn pack_b<T: PackedKernel>(
    k: usize,
    n: usize,
    jb: usize,
    strips: usize,
    b: &[T],
    packed: &mut [T],
)
    requires
        b@.len() == k * n,
        jb + strips * T::STRIP <= n,
        k * (strips * T::STRIP) <= old(packed)@.len(),
    ensures
        final(packed)@.len() == old(packed)@.len(),
        is_packed(
            final(packed)@,
            columns(b@, k as int, n as int),
            k as int,
            T::STRIP as int,
            jb as int,
            strips as int,
        ),
        forall|x: int|
            k * (strips * T::STRIP) <= x < old(packed)@.len() ==> #[trigger] final(packed)@[x]
                == old(packed)@[x],
{
    let ghost packed0 = packed@;
    let ghost cols = columns(b@, k as int, n as int);
    let ghost strip = T::STRIP as int;
    let ghost len = packed@.len();
    proof {
        T::layout();
    }
    let mut p: usize = 0;
    while p < k
        invariant
            p <= k,
            0 < strip <= 64,
            strip == T::STRIP,
            b.len() == k * n,
            cols == columns(b@, k as int, n as int),
            jb + strips * T::STRIP <= n,
            packed@.len() == len,
            k * (strips * T::STRIP) <= packed.len(),
            packed0.len() == len,
            forall|x: int|
                k * (strips * T::STRIP) <= x < len ==> #[trigger] packed@[x] == packed0[x],
            forall|q2: int, p2: int, r2: int|
                0 <= q2 < strips && 0 <= p2 < p && 0 <= r2 < strip ==> #[trigger] packed_at(
                    packed@,
                    cols,
                    k as int,
                    strip,
                    jb as int,
                    q2,
                    p2,
                    r2,
                ),
        decreases k - p,
    {
        let mut q: usize = 0;
        while q < strips
            invariant
                p < k,
                q <= strips,
                0 < strip <= 64,
                strip == T::STRIP,
                b.len() == k * n,
                cols == columns(b@, k as int, n as int),
                jb + strips * T::STRIP <= n,
                packed@.len() == len,
                k * (strips * T::STRIP) <= packed.len(),
                packed0.len() == len,
                forall|x: int|
                    k * (strips * T::STRIP) <= x < len ==> #[trigger] packed@[x] == packed0[x],
                forall|q2: int, p2: int, r2: int|
                    0 <= q2 < strips && 0 <= p2 && 0 <= r2 < strip && (p2 < p || (p2 == p && q2
                        < q)) ==> #[trigger] packed_at(
                        packed@,
                        cols,
                        k as int,
                        strip,
                        jb as int,
                        q2,
                        p2,
                        r2,
                    ),
            decreases strips - q,
        {
            proof {
                lemma_slot(k as int, strip, strips as int, q as int, p as int, 0);
                lemma_row_fits(p as int, k as int, n as int);
                lemma_row_fits(q as int, strips as int, strip);
            }
            let dst: usize = (q * k + p) * T::STRIP;
            let src: usize = p * n + jb + q * T::STRIP;
            let mut r: usize = 0;
            while r < T::STRIP
                invariant
                    p < k,
                    q < strips,
                    r <= T::STRIP,
                    0 < strip <= 64,
                    strip == T::STRIP,
                    b.len() == k * n,
                    cols == columns(b@, k as int, n as int),
                    jb + strips * T::STRIP <= n,
                    q * T::STRIP + T::STRIP <= strips * T::STRIP,
                    0 <= p * n,
                    0 <= q * T::STRIP,
                    p * n + n <= k * n,
                    dst == slot(k as int, strip, q as int, p as int, 0),
                    dst + strip <= packed.len(),
                    src == p * n + jb + q * T::STRIP,
                    packed@.len() == len,
                    k * (strips * T::STRIP) <= packed.len(),
                    packed0.len() == len,
                    forall|x: int|
                        k * (strips * T::STRIP) <= x < len ==> #[trigger] packed@[x] == packed0[x],
                    forall|q2: int, p2: int, r2: int|
                        0 <= q2 < strips && 0 <= p2 && 0 <= r2 < strip && (p2 < p || (p2 == p && (q2
                            < q || (q2 == q && r2 < r)))) ==> #[trigger] packed_at(
                            packed@,
                            cols,
                            k as int,
                            strip,
                            jb as int,
                            q2,
                            p2,
                            r2,
                        ),
                decreases T::STRIP - r,
            {
                let ghost before = packed@;
                packed[dst + r] = b[src + r];
                proof {
                    lemma_slot(k as int, strip, strips as int, q as int, p as int, r as int);
                    assert forall|q2: int, p2: int, r2: int|
                        0 <= q2 < strips && 0 <= p2 && 0 <= r2 < strip && (p2 < p || (p2 == p && (q2
                            < q || (q2 == q && r2 < r + 1)))) implies #[trigger] packed_at(
                        packed@,
                        cols,
                        k as int,
                        strip,
                        jb as int,
                        q2,
                        p2,
                        r2,
                    ) by {
                        lemma_slot(k as int, strip, strips as int, q2, p2, r2);
                        lemma_slot(k as int, strip, strips as int, q as int, p as int, r as int);
                        if slot(k as int, strip, q2, p2, r2) == dst + r {
                            lemma_slot_unique(
                                k as int,
                                strip,
                                q2,
                                p2,
                                r2,
                                q as int,
                                p as int,
                                r as int,
                            );
                            assert(cols[jb + q * strip + r][p as int] == b@[p * n + (jb + q * strip
                                + r)]);
                        } else {
                            assert(packed_at(
                                before,
                                cols,
                                k as int,
                                strip,
                                jb as int,
                                q2,
                                p2,
                                r2,
                            ));
                        }
                    }
                }
                r = r + 1;
            }
            q = q + 1;
        }
        p = p + 1;
    }
}

/// First-level cache that a strip may take, in bytes.
pub const L1_BUDGET: usize = 49152;

/// Steps of one chunk of a strip that does not fit in it; other strips are read in one go.
pub const K_CHUNK: usize = 256;

/// Second-level cache that a panel may take, in bytes.
pub const L2_BUDGET: usize = 2097152;

/// Bytes of one strip of `k` steps; the largest word where that does not fit.
fn strip_bytes<T: PackedKernel>(k: usize) -> (r: usize)
    ensures
        k * T::STRIP * T::BYTES <= usize::MAX ==> r == k * T::STRIP * T::BYTES,
        k * T::STRIP * T::BYTES > usize::MAX ==> r == usize::MAX,
{
    proof {
        T::layout();
        let v = k * T::STRIP;
        if v > usize::MAX {
            assert(v * T::BYTES >= v) by (nonlinear_arith)
                requires
                    v >= 0,
                    T::BYTES >= 1,
            ;
            assert(usize::MAX * T::BYTES >= usize::MAX) by (nonlinear_arith)
                requires
                    T::BYTES >= 1,
            ;
        }
    }
    saturating_mul(saturating_mul(k, T::STRIP), T::BYTES)
}

/// `fused_block` after a later chunk replaces the earlier one.
proof fn lemma_rechunk<S: Scalar>(
    c0: Seq<S>,
    c1: Seq<S>,
    c2: Seq<S>,
    n: int,
    a: Seq<S>,
    k: int,
    cols: Seq<Seq<S>>,
    s1: int,
    s2: int,
    i0: int,
    i1: int,
    j0: int,
    j1: int,
)
    requires
        fused_block(c0, c1, n, a, k, cols, s1, i0, i1, j0, j1),
        fused_block(c1, c2, n, a, k, cols, s2, i0, i1, j0, j1),
    ensures
        fused_block(c0, c2, n, a, k, cols, s2, i0, i1, j0, j1),
{
    assert forall|i: int, j: int|
        #![trigger at(c2, n, i, j)]
        0 <= i && 0 <= j < n && i * n + j < c0.len() implies at(c2, n, i, j) == if i0 <= i < i1
        && j0 <= j < j1 {
        fused(row(a, k, i), cols[j], s2)
    } else {
        at(c0, n, i, j)
    } by {
        let mid = at(c1, n, i, j);
    }
}

/// Fused blocks written one below the other.
proof fn lemma_fused_below<S: Scalar>(
    c0: Seq<S>,
    c1: Seq<S>,
    c2: Seq<S>,
    n: int,
    a: Seq<S>,
    k: int,
    cols: Seq<Seq<S>>,
    steps: int,
    i0: int,
    i1: int,
    i2: int,
    j0: int,
    j1: int,
)
    requires
        fused_block(c0, c1, n, a, k, cols, steps, i0, i1, j0, j1),
        fused_block(c1, c2, n, a, k, cols, steps, i1, i2, j0, j1),
        i0 <= i1 <= i2,
    ensures
        fused_block(c0, c2, n, a, k, cols, steps, i0, i2, j0, j1),
{
    assert forall|i: int, j: int|
        #![trigger at(c2, n, i, j)]
        0 <= i && 0 <= j < n && i * n + j < c0.len() implies at(c2, n, i, j) == if i0 <= i < i2
        && j0 <= j < j1 {
        fused(row(a, k, i), cols[j], steps)
    } else {
        at(c0, n, i, j)
    } by {
        let mid = at(c1, n, i, j);
    }
}

/// Fused blocks written side by side.
proof fn lemma_fused_beside<S: Scalar>(
    c0: Seq<S>,
    c1: Seq<S>,
    c2: Seq<S>,
    n: int,
    a: Seq<S>,
    k: int,
    cols: Seq<Seq<S>>,
    steps: int,
    i0: int,
    i1: int,
    j0: int,
    j1: int,
    j2: int,
)
    requires
        fused_block(c0, c1, n, a, k, cols, steps, i0, i1, j0, j1),
        fused_block(c1, c2, n, a, k, cols, steps, i0, i1, j1, j2),
        j0 <= j1 <= j2,
    ensures
        fused_block(c0, c2, n, a, k, cols, steps, i0, i1, j0, j2),
{
    assert forall|i: int, j: int|
        #![trigger at(c2, n, i, j)]
        0 <= i && 0 <= j < n && i * n + j < c0.len() implies at(c2, n, i, j) == if i0 <= i < i1
        && j0 <= j < j2 {
        fused(row(a, k, i), cols[j], steps)
    } else {
        at(c0, n, i, j)
    } by {
        let mid = at(c1, n, i, j);
    }
}

/// What is parked in a rectangle stays parked where a later block was not written.
proof fn lemma_still_parked<S: Scalar>(
    c0: Seq<S>,
    c1: Seq<S>,
    n: int,
    m: int,
    a: Seq<S>,
    k: int,
    cols: Seq<Seq<S>>,
    steps: int,
    later: int,
    i: int,
    i1: int,
    j0: int,
    j1: int,
)
    requires
        0 <= i1 <= i < m,
        0 <= j0,
        j1 <= n,
        c0.len() == m * n,
        parked(c0, n, i, row(a, k, i), cols, steps, j0, j1),
        fused_block(c0, c1, n, a, k, cols, later, 0, i1, j0, j1),
    ensures
        parked(c1, n, i, row(a, k, i), cols, steps, j0, j1),
{
    assert forall|j: int| j0 <= j < j1 implies #[trigger] at(c1, n, i, j) == fused(
        row(a, k, i),
        cols[j],
        steps,
    ) by {
        lemma_row_fits(i, m, n);
        let before = at(c0, n, i, j);
    }
}

/// Advances one packed strip by `kb` steps for every row.
fn strip_chunk<T: PackedKernel>(
    m: usize,
    q: usize,
    j: usize,
    kb0: usize,
    kb: usize,
    packed: &[T],
    a: &[T],
    k: usize,
    c: &mut [T],
    n: usize,
    Ghost(cols): Ghost<Seq<Seq<T>>>,
    Ghost(jb): Ghost<int>,
    Ghost(strips): Ghost<int>,
)
    requires
        0 < kb,
        kb0 + kb <= k,
        q < strips,
        j == jb + q * T::STRIP,
        j + T::STRIP <= n,
        a@.len() == m * k,
        old(c)@.len() == m * n,
        is_packed(packed@, cols, k as int, T::STRIP as int, jb, strips),
        kb0 > 0 ==> forall|i: int|
            0 <= i < m ==> parked(
                old(c)@,
                n as int,
                i,
                #[trigger] row(a@, k as int, i),
                cols,
                kb0 as int,
                j as int,
                j + T::STRIP,
            ),
    ensures
        fused_block(
            old(c)@,
            final(c)@,
            n as int,
            a@,
            k as int,
            cols,
            kb0 + kb,
            0,
            m as int,
            j as int,
            j + T::STRIP,
        ),
{
    let ghost c0 = c@;
    let ghost strip = T::STRIP as int;
    let ghost steps = kb0 + kb;
    let ghost base_at = slot(k as int, strip, q as int, kb0 as int, 0);
    proof {
        T::layout();
        assert(packed.len() == packed@.len());
        lemma_packed_feeds(
            packed@,
            cols,
            k as int,
            strip,
            jb,
            strips,
            q as int,
            kb0 as int,
            kb as int,
        );
        lemma_slot(k as int, strip, strips, q as int, kb0 as int, 0);
    }
    let base: usize = (q * k + kb0) * T::STRIP;
    let first: bool = kb0 == 0;
    let m4: usize = m / 4 * 4;
    let mut i: usize = 0;
    while i < m4
        invariant
            0 < strip,
            strip == T::STRIP,
            m4 == m / 4 * 4,
            i <= m4 <= m,
            i % 4 == 0,
            m4 % 4 == 0,
            first == (kb0 == 0),
            steps == kb0 + kb,
            kb0 + kb <= k,
            j + T::STRIP <= n,
            a@.len() == m * k,
            c0.len() == m * n,
            c@.len() == m * n,
            feeds(packed@, base as int, strip, strip, kb0 as int, kb as int, cols, j as int),
            kb0 > 0 ==> forall|i2: int|
                0 <= i2 < m ==> parked(
                    c0,
                    n as int,
                    i2,
                    #[trigger] row(a@, k as int, i2),
                    cols,
                    kb0 as int,
                    j as int,
                    j + strip,
                ),
            fused_block(
                c0,
                c@,
                n as int,
                a@,
                k as int,
                cols,
                steps,
                0,
                i as int,
                j as int,
                j + strip,
            ),
        decreases m4 - i,
    {
        let ghost (nn, kk, ii, jj) = (n as int, k as int, i as int, j as int);
        proof {
            lemma_four_fit(ii, m as int, nn);
            lemma_four_fit(ii, m as int, kk);
            if !first {
                assert forall|r: int| i <= r < i + 4 implies parked(
                    c@,
                    nn,
                    r,
                    #[trigger] row(a@, kk, r),
                    cols,
                    kb0 as int,
                    jj,
                    jj + strip,
                ) by {
                    lemma_still_parked(
                        c0,
                        c@,
                        nn,
                        m as int,
                        a@,
                        kk,
                        cols,
                        kb0 as int,
                        steps,
                        r,
                        ii,
                        jj,
                        jj + strip,
                    );
                }
            }
        }
        let ghost c1 = c@;
        tile4(
            i,
            j,
            T::STRIP,
            kb0,
            kb,
            first,
            packed,
            base,
            T::STRIP,
            a,
            k,
            c,
            n,
            Ghost(cols),
        );
        proof {
            lemma_fused_below(c0, c1, c@, nn, a@, kk, cols, steps, 0, ii, ii + 4, jj, jj + strip);
        }
        i = i + 4;
    }
    while i < m
        invariant
            0 < strip,
            strip == T::STRIP,
            i <= m,
            first == (kb0 == 0),
            steps == kb0 + kb,
            kb0 + kb <= k,
            j + T::STRIP <= n,
            a@.len() == m * k,
            c0.len() == m * n,
            c@.len() == m * n,
            feeds(packed@, base as int, strip, strip, kb0 as int, kb as int, cols, j as int),
            kb0 > 0 ==> forall|i2: int|
                0 <= i2 < m ==> parked(
                    c0,
                    n as int,
                    i2,
                    #[trigger] row(a@, k as int, i2),
                    cols,
                    kb0 as int,
                    j as int,
                    j + strip,
                ),
            fused_block(
                c0,
                c@,
                n as int,
                a@,
                k as int,
                cols,
                steps,
                0,
                i as int,
                j as int,
                j + strip,
            ),
        decreases m - i,
    {
        let ghost (nn, kk, ii, jj) = (n as int, k as int, i as int, j as int);
        proof {
            lemma_row_fits(ii, m as int, nn);
            lemma_row_fits(ii, m as int, kk);
            if !first {
                assert(parked(c0, nn, ii, row(a@, kk, ii), cols, kb0 as int, jj, jj + strip));
                lemma_still_parked(
                    c0,
                    c@,
                    nn,
                    m as int,
                    a@,
                    kk,
                    cols,
                    kb0 as int,
                    steps,
                    ii,
                    ii,
                    jj,
                    jj + strip,
                );
            }
        }
        let ghost c1 = c@;
        tile1(
            i,
            j,
            T::STRIP,
            kb0,
            kb,
            first,
            packed,
            base,
            T::STRIP,
            a,
            k,
            c,
            n,
            Ghost(cols),
        );
        proof {
            lemma_fused_below(c0, c1, c@, nn, a@, kk, cols, steps, 0, ii, ii + 1, jj, jj + strip);
        }
        i = i + 1;
    }
}

/// A written block is parked; blocks to its left leave it so.
proof fn lemma_parked_right<S: Scalar>(
    c0: Seq<S>,
    c1: Seq<S>,
    c2: Seq<S>,
    n: int,
    m: int,
    a: Seq<S>,
    k: int,
    cols: Seq<Seq<S>>,
    steps: int,
    later: int,
    i: int,
    jb: int,
    j: int,
    width: int,
    je: int,
)
    requires
        0 <= i < m,
        0 <= jb <= j,
        0 <= width,
        j + width <= je <= n,
        c0.len() == m * n,
        fused_block(c0, c1, n, a, k, cols, steps, 0, m, jb, je),
        fused_block(c1, c2, n, a, k, cols, later, 0, m, jb, j),
    ensures
        parked(c2, n, i, row(a, k, i), cols, steps, j, j + width),
{
    assert forall|jj: int| j <= jj < j + width implies #[trigger] at(c2, n, i, jj) == fused(
        row(a, k, i),
        cols[jj],
        steps,
    ) by {
        lemma_row_fits(i, m, n);
        let mid = at(c1, n, i, jj);
    }
}

/// Every row of `a` against a packed panel of `strips` strips from column `jb`.
///
/// Chunks of steps are outside, strips and rows inside, so that a chunk of a strip is
/// reused by every row. Partial sums wait in `c` between chunks.
pub(crate) fn packed_rows<T: PackedKernel>(
    m: usize,
    k: usize,
    n: usize,
    jb: usize,
    strips: usize,
    packed: &[T],
    a: &[T],
    c: &mut [T],
    Ghost(cols): Ghost<Seq<Seq<T>>>,
)
    requires
        0 < k,
        a@.len() == m * k,
        old(c)@.len() == m * n,
        jb + strips * T::STRIP <= strip_limit::<T>(n as int),
        is_packed(packed@, cols, k as int, T::STRIP as int, jb as int, strips as int),
    ensures
        product_block(
            old(c)@,
            final(c)@,
            n as int,
            a@,
            k as int,
            cols,
            fused_limit::<T>(n as int),
            0,
            m as int,
            jb as int,
            jb + strips * T::STRIP,
        ),
{
    let ghost c0 = c@;
    let ghost strip = T::STRIP as int;
    let ghost je = jb + strips * T::STRIP;
    let ghost (mm, nn, kk) = (m as int, n as int, k as int);
    proof {
        T::layout();
        lemma_limits::<T>(n as int);
    }
    let kb_size: usize = if strip_bytes::<T>(k) <= L1_BUDGET {
        k
    } else {
        K_CHUNK
    };
    let mut kb0: usize = 0;
    while kb0 < k
        invariant
            0 < strip <= 64,
            strip == T::STRIP,
            0 < kb_size,
            kb0 <= k,
            mm == m,
            nn == n,
            kk == k,
            je == jb + strips * T::STRIP,
            je <= n,
            a@.len() == m * k,
            c0.len() == m * n,
            c@.len() == m * n,
            is_packed(packed@, cols, kk, strip, jb as int, strips as int),
            kb0 == 0 ==> c@ == c0,
            kb0 > 0 ==> fused_block(
                c0,
                c@,
                nn,
                a@,
                kk,
                cols,
                kb0 as int,
                0,
                mm,
                jb as int,
                je,
            ),
        decreases k - kb0,
    {
        let kb: usize = min_usize(kb_size, k - kb0);
        let ghost steps = kb0 + kb;
        let ghost c1 = c@;
        let mut q: usize = 0;
        while q < strips
            invariant
                0 < strip <= 64,
                strip == T::STRIP,
                0 < kb,
                kb0 + kb <= k,
                steps == kb0 + kb,
                q <= strips,
                mm == m,
                nn == n,
                kk == k,
                je == jb + strips * T::STRIP,
                je <= n,
                a@.len() == m * k,
                c0.len() == m * n,
                c1.len() == m * n,
                c@.len() == m * n,
                is_packed(packed@, cols, kk, strip, jb as int, strips as int),
                kb0 > 0 ==> fused_block(
                    c0,
                    c1,
                    nn,
                    a@,
                    kk,
                    cols,
                    kb0 as int,
                    0,
                    mm,
                    jb as int,
                    je,
                ),
                fused_block(
                    c1,
                    c@,
                    nn,
                    a@,
                    kk,
                    cols,
                    steps,
                    0,
                    mm,
                    jb as int,
                    jb + q * T::STRIP,
                ),
            decreases strips - q,
        {
            proof {
                lemma_row_fits(q as int, strips as int, strip);
            }
            let j: usize = jb + q * T::STRIP;
            proof {
                if kb0 > 0 {
                    assert forall|i: int| 0 <= i < m implies parked(
                        c@,
                        nn,
                        i,
                        #[trigger] row(a@, kk, i),
                        cols,
                        kb0 as int,
                        j as int,
                        j + strip,
                    ) by {
                        lemma_parked_right(
                            c0,
                            c1,
                            c@,
                            nn,
                            mm,
                            a@,
                            kk,
                            cols,
                            kb0 as int,
                            steps,
                            i,
                            jb as int,
                            j as int,
                            strip,
                            je,
                        );
                    }
                }
            }
            let ghost c2 = c@;
            strip_chunk(
                m,
                q,
                j,
                kb0,
                kb,
                packed,
                a,
                k,
                c,
                n,
                Ghost(cols),
                Ghost(jb as int),
                Ghost(strips as int),
            );
            proof {
                lemma_fused_beside(
                    c1,
                    c2,
                    c@,
                    nn,
                    a@,
                    kk,
                    cols,
                    steps,
                    0,
                    mm,
                    jb as int,
                    j as int,
                    j + strip,
                );
            }
            q = q + 1;
        }
        proof {
            if kb0 > 0 {
                lemma_rechunk(
                    c0,
                    c1,
                    c@,
                    nn,
                    a@,
                    kk,
                    cols,
                    kb0 as int,
                    steps,
                    0,
                    mm,
                    jb as int,
                    je,
                );
            }
        }
        kb0 = kb0 + kb;
    }
    proof {
        lemma_fused_finished(
            c0,
            c@,
            nn,
            a@,
            kk,
            cols,
            fused_limit::<T>(nn),
            0,
            mm,
            jb as int,
            je,
        );
    }
}

/// Strips of one panel, so that the panel fits in the second-level cache.
pub open spec fn strips_of_panel<T: PackedKernel>(k: int) -> int {
    let bytes = max_nat(k * T::STRIP * T::BYTES, 1);
    let fit = L2_BUDGET as int / bytes;
    max_nat(1, min_nat(fit, 256))
}

/// Strips of one panel of `k` steps.
pub fn pack_strips<T: PackedKernel>(k: usize) -> (r: usize)
    ensures
        r == strips_of_panel::<T>(k as int),
        1 <= r <= 256,
{
    let bytes: usize = max_usize(strip_bytes::<T>(k), 1);
    proof {
        T::layout();
        let exact = k * T::STRIP * T::BYTES;
        assert(0 <= exact) by (nonlinear_arith)
            requires
                exact == k * T::STRIP * T::BYTES,
                0 <= k,
                0 <= T::STRIP,
                0 <= T::BYTES,
        ;
        if exact > usize::MAX {
            vstd::arithmetic::div_mod::lemma_basic_div(L2_BUDGET as int, exact);
            vstd::arithmetic::div_mod::lemma_basic_div(L2_BUDGET as int, usize::MAX as int);
        }
    }
    max_usize(1, min_usize(L2_BUDGET / bytes, 256))
}

/// The packed path: a panel of `B` is packed once and used by every row. Without steps
/// there is nothing to pack.
pub fn matmul_packed<T: PackedKernel>(
    m: usize,
    k: usize,
    n: usize,
    a: &[T],
    b: &[T],
    c: &mut [T],
)
    requires
        a@.len() == m * k,
        b@.len() == k * n,
        old(c)@.len() == m * n,
    ensures
        is_product(a@, b@, m as int, k as int, n as int, final(c)@),
{
    if k == 0 {
        matmul_stream(m, k, n, a, b, c);
        return;
    }
    let ghost cols = columns(b@, k as int, n as int);
    let ghost c0 = c@;
    let ghost lim = fused_limit::<T>(n as int);
    let ghost (mm, nn, kk) = (m as int, n as int, k as int);
    proof {
        T::layout();
        lemma_columns_held(b@, k as int, n as int);
        lemma_limits::<T>(n as int);
    }
    let strips_total: usize = n / T::STRIP;
    let per_panel: usize = pack_strips::<T>(k);
    let mut s0: usize = 0;
    while s0 < strips_total
        invariant
            0 < k,
            0 < per_panel <= 256,
            0 < T::STRIP <= 64,
            s0 <= strips_total,
            strips_total == n as int / T::STRIP as int,
            mm == m,
            nn == n,
            kk == k,
            lim == fused_limit::<T>(nn),
            cols == columns(b@, kk, nn),
            a@.len() == m * k,
            b@.len() == k * n,
            c@.len() == m * n,
            strip_limit::<T>(nn) <= lim <= n,
            product_block(c0, c@, nn, a@, kk, cols, lim, 0, mm, 0, s0 * T::STRIP),
        decreases strips_total - s0,
    {
        let strips: usize = min_usize(per_panel, strips_total - s0);
        proof {
            lemma_panel_fits(
                s0 as int,
                strips as int,
                strips_total as int,
                T::STRIP as int,
                kk,
                nn,
            );
            assert(b.len() == b@.len());
        }
        let jb: usize = s0 * T::STRIP;
        let mut packed: Vec<T> = zeros(k * (strips * T::STRIP));
        pack_b(k, n, jb, strips, b, packed.as_mut_slice());
        let ghost c1 = c@;
        packed_rows(m, k, n, jb, strips, packed.as_slice(), a, c, Ghost(cols));
        proof {
            lemma_beside(
                c0,
                c1,
                c@,
                nn,
                a@,
                kk,
                cols,
                lim,
                0,
                mm,
                0,
                jb as int,
                (s0 + strips) * T::STRIP,
            );
        }
        s0 = s0 + strips;
    }
    let n_strip: usize = n / T::STRIP * T::STRIP;
    let ghost c1 = c@;
    tails(0, m, n_strip, n, T::LANES, b, 0, n, a, k, c, n, Ghost(mm), Ghost(cols));
    proof {
        lemma_beside(c0, c1, c@, nn, a@, kk, cols, lim, 0, mm, 0, n_strip as int, nn);
        lemma_all_blocks(c0, c@, mm, nn, a@, kk, cols);
    }
}

/// A panel of whole strips lies left of the last strip boundary and is no larger than
/// the matrix.
pub proof fn lemma_panel_fits(s0: int, strips: int, total: int, strip: int, k: int, n: int)
    requires
        0 <= s0,
        0 <= strips,
        s0 + strips <= total,
        0 < strip,
        0 <= k,
        total == n / strip,
        0 <= n,
    ensures
        0 <= s0 * strip,
        0 <= strips * strip,
        s0 * strip + strips * strip == (s0 + strips) * strip,
        s0 * strip + strips * strip <= total * strip <= n,
        0 <= k * (strips * strip) <= k * n,
{
    lemma_round_down(n, strip);
    assert(s0 * strip + strips * strip == (s0 + strips) * strip) by (nonlinear_arith);
    assert((s0 + strips) * strip <= total * strip) by (nonlinear_arith)
        requires
            s0 + strips <= total,
            0 < strip,
    ;
    assert(0 <= s0 * strip && 0 <= strips * strip) by (nonlinear_arith)
        requires
            0 <= s0,
            0 <= strips,
            0 < strip,
    ;
    assert(0 <= k * (strips * strip) <= k * n) by (nonlinear_arith)
        requires
            0 <= k,
            0 <= strips * strip <= n,
    ;
}

/// Fewest rows for which packing pays.
pub const PACK_MIN_M: usize = 32;

/// Fewest steps for which packing pays.
pub const PACK_MIN_K: usize = 64;

/// Fewest multiply-adds for which packing pays.
pub const PACK_MIN_WORK: u128 = 8_000_000;

/// Columns of one block of the column-block path.
pub const COL_BLOCK: usize = 128;

/// Most rows for which the column-block path is taken.
pub const COL_ORDER_MAX_M: usize = 128;

/// Fewest columns for which the column-block path is taken.
pub const COL_ORDER_MIN_N: usize = 1024;

/// Columns from which on few steps are better served without packing.
pub const WIDE_N_FOR_COLS: usize = 16384;

/// Steps from which on packing always pays.
pub const K_ALWAYS_PACK: usize = 192;

/// The three ways to organise a product.
#[derive(Clone, Copy, PartialEq, Eq, Structural, Debug)]
pub enum MatmulPath {
    /// `B` packed panel by panel.
    Packed,
    /// Column blocks outside, rows inside.
    Columns,
    /// Four rows at a time over the whole of `B`.
    Stream,
}

/// The path taken for a single-precision product.
pub open spec fn path_f32(m: int, k: int, n: int) -> MatmulPath {
    let cols_regime = m <= COL_ORDER_MAX_M && n >= COL_ORDER_MIN_N;
    let wide_n_small_k = cols_regime && k < K_ALWAYS_PACK && n > WIDE_N_FOR_COLS;
    if m >= PACK_MIN_M && k >= PACK_MIN_K && !wide_n_small_k && m * k * n >= PACK_MIN_WORK {
        MatmulPath::Packed
    } else if cols_regime {
        MatmulPath::Columns
    } else {
        MatmulPath::Stream
    }
}

/// The path taken for a double-precision product.
pub open spec fn path_f64(m: int, k: int, n: int) -> MatmulPath {
    if m >= PACK_MIN_M && k >= PACK_MIN_K && n >= 16 && m * k * n >= PACK_MIN_WORK {
        MatmulPath::Packed
    } else {
        MatmulPath::Stream
    }
}

/// Whether a product of this shape is large enough for packing.
pub fn enough_work(m: usize, k: usize, n: usize) -> (r: bool)
    requires
        m * k <= usize::MAX,
    ensures
        r == (m * k * n >= PACK_MIN_WORK),
{
    proof {
        assert(m * k * n <= usize::MAX * usize::MAX) by (nonlinear_arith)
            requires
                0 <= m * k <= usize::MAX,
                0 <= n <= usize::MAX,
        ;
        assert(usize::MAX * usize::MAX <= u128::MAX) by (nonlinear_arith)
            requires
                0 <= usize::MAX <= 0xffff_ffff_ffff_ffff,
        ;
    }
    (m * k) as u128 * n as u128 >= PACK_MIN_WORK
}

/// Chooses the path of a single-precision product.
pub fn choose_path_f32(m: usize, k: usize, n: usize) -> (r: MatmulPath)
    requires
        m * k <= usize::MAX,
    ensures
        r == path_f32(m as int, k as int, n as int),
{
    let cols_regime: bool = m <= COL_ORDER_MAX_M && n >= COL_ORDER_MIN_N;
    let wide_n_small_k: bool = cols_regime && k < K_ALWAYS_PACK && n > WIDE_N_FOR_COLS;
    if m >= PACK_MIN_M && k >= PACK_MIN_K && !wide_n_small_k && enough_work(m, k, n) {
        MatmulPath::Packed
    } else if cols_regime {
        MatmulPath::Columns
    } else {
        MatmulPath::Stream
    }
}

/// Chooses the path of a double-precision product.
pub fn choose_path_f64(m: usize, k: usize, n: usize) -> (r: MatmulPath)
    requires
        m * k <= usize::MAX,
    ensures
        r == path_f64(m as int, k as int, n as int),
{
    if m >= PACK_MIN_M && k >= PACK_MIN_K && n >= 16 && enough_work(m, k, n) {
        MatmulPath::Packed
    } else {
        MatmulPath::Stream
    }
}

/// The product along a given path.
pub fn matmul_along<T: PackedKernel>(
    path: MatmulPath,
    m: usize,
    k: usize,
    n: usize,
    a: &[T],
    b: &[T],
    c: &mut [T],
)
    requires
        a@.len() == m * k,
        b@.len() == k * n,
        old(c)@.len() == m * n,
    ensures
        is_product(a@, b@, m as int, k as int, n as int, final(c)@),
{
    match path {
        MatmulPath::Packed => matmul_packed(m, k, n, a, b, c),
        MatmulPath::Columns => {
            let ghost c0 = c@;
            proof {
                T::layout();
                vstd::arithmetic::div_mod::lemma_small_mod(0, T::STRIP as nat);
            }
            matmul_cols_block(m, k, n, 0, n, a, b, c, COL_BLOCK);
            proof {
                lemma_all_blocks(
                    c0,
                    c@,
                    m as int,
                    n as int,
                    a@,
                    k as int,
                    columns(b@, k as int, n as int),
                );
            }
        },
        MatmulPath::Stream => matmul_stream(m, k, n, a, b, c),
    }
}

/// `C = A · B` in single precision, along the path that suits the shape.
pub fn matmul_f32<T: PackedKernel>(m: usize, k: usize, n: usize, a: &[T], b: &[T], c: &mut [T])
    requires
        a@.len() == m * k,
        b@.len() == k * n,
        old(c)@.len() == m * n,
    ensures
        is_product(a@, b@, m as int, k as int, n as int, final(c)@),
{
    proof {
        assert(a.len() == a@.len());
    }
    let path = choose_path_f32(m, k, n);
    matmul_along(path, m, k, n, a, b, c)
}

/// `C = A · B` in double precision, along the path that suits the shape.
pub fn matmul_f64<T: PackedKernel>(m: usize, k: usize, n: usize, a: &[T], b: &[T], c: &mut [T])
    requires
        a@.len() == m * k,
        b@.len() == k * n,
        old(c)@.len() == m * n,
    ensures
        is_product(a@, b@, m as int, k as int, n as int, final(c)@),
{
    proof {
        assert(a.len() == a@.len());
    }
    let path = choose_path_f64(m, k, n);
    matmul_along(path, m, k, n, a, b, c)
}

/// Law: the product is determined to the last bit. Whatever path, panel size or chunk
/// length two computations took, they agree on every output.
pub proof fn law_paths_agree<T: PackedKernel>(
    a: Seq<T>,
    cols: Seq<Seq<T>>,
    m: int,
    k: int,
    n: int,
    c1: Seq<T>,
    c2: Seq<T>,
)
    requires
        0 <= m,
        0 <= n,
        is_product_of(a, cols, m, k, n, c1),
        is_product_of(a, cols, m, k, n, c2),
    ensures
        c1 == c2,
{
    assert forall|x: int| 0 <= x < c1.len() implies c1[x] == c2[x] by {
        let i = x / n;
        let j = x % n;
        if n == 0 {
            assert(m * n == 0) by (nonlinear_arith)
                requires
                    n == 0,
            ;
        }
        vstd::arithmetic::div_mod::lemma_fundamental_div_mod(x, n);
        assert(n * i == i * n) by (nonlinear_arith);
        assert(0 <= i < m) by (nonlinear_arith)
            requires
                0 <= x < m * n,
                0 < n,
                i == x / n,
        ;
        assert(0 <= j < n) by (nonlinear_arith)
            requires
                0 < n,
                j == x % n,
        ;
        assert(at(c1, n, i, j) == c1[x]);
        assert(at(c2, n, i, j) == c2[x]);
    }
    assert(c1 =~= c2);
}

/// Law: rows are independent. Rows `[i0, i1)` of a product are the product of rows
/// `[i0, i1)` of `A`, so that any split of the rows gives the same bits.
pub proof fn law_row_blocks<T: PackedKernel>(
    a: Seq<T>,
    cols: Seq<Seq<T>>,
    m: int,
    k: int,
    n: int,
    c: Seq<T>,
    i0: int,
    i1: int,
)
    requires
        0 <= i0 <= i1 <= m,
        0 <= k,
        0 <= n,
        a.len() == m * k,
        is_product_of(a, cols, m, k, n, c),
    ensures
        is_product_of(
            a.subrange(i0 * k, i1 * k),
            cols,
            i1 - i0,
            k,
            n,
            c.subrange(i0 * n, i1 * n),
        ),
{
    lemma_subrows(i0, i1, m, k);
    lemma_subrows(i0, i1, m, n);
    let a2 = a.subrange(i0 * k, i1 * k);
    let c2 = c.subrange(i0 * n, i1 * n);
    assert forall|i: int, j: int| 0 <= i < i1 - i0 && 0 <= j < n implies #[trigger] at(c2, n, i, j)
        == entry(row(a2, k, i), cols[j], k, j, fused_limit::<T>(n)) by {
        lemma_row_fits(i, i1 - i0, n);
        lemma_row_fits(i, i1 - i0, k);
        lemma_shift(i0, i, n);
        lemma_shift(i0, i, k);
        assert(at(c, n, i0 + i, j) == at(c2, n, i, j));
        assert(row(a2, k, i) =~= row(a, k, i0 + i));
    }
}

proof fn lemma_subrows(i0: int, i1: int, m: int, n: int)
    requires
        0 <= i0 <= i1 <= m,
        0 <= n,
    ensures
        0 <= i0 * n <= i1 * n <= m * n,
        i1 * n - i0 * n == (i1 - i0) * n,
{
    assert(i1 * n - i0 * n == (i1 - i0) * n) by (nonlinear_arith);
    assert(0 <= i0 * n <= i1 * n <= m * n) by (nonlinear_arith)
        requires
            0 <= i0 <= i1 <= m,
            0 <= n,
    ;
}

proof fn lemma_shift(i0: int, i: int, n: int)
    ensures
        (i0 + i) * n == i0 * n + i * n,
{
    assert((i0 + i) * n == i0 * n + i * n) by (nonlinear_arith);
}

/// Law: products of row blocks, put one after the other, are the product.
pub proof fn law_row_blocks_join<T: PackedKernel>(
    a: Seq<T>,
    cols: Seq<Seq<T>>,
    m: int,
    k: int,
    n: int,
    c: Seq<T>,
    i0: int,
)
    requires
        0 <= i0 <= m,
        0 <= k,
        0 <= n,
        a.len() == m * k,
        c.len() == m * n,
        is_product_of(a.subrange(0, i0 * k), cols, i0, k, n, c.subrange(0, i0 * n)),
        is_product_of(
            a.subrange(i0 * k, m * k),
            cols,
            m - i0,
            k,
            n,
            c.subrange(i0 * n, m * n),
        ),
    ensures
        is_product_of(a, cols, m, k, n, c),
{
    lemma_subrows(0, i0, m, k);
    lemma_subrows(0, i0, m, n);
    lemma_subrows(i0, m, m, k);
    lemma_subrows(i0, m, m, n);
    assert forall|i: int, j: int| 0 <= i < m && 0 <= j < n implies #[trigger] at(c, n, i, j)
        == entry(row(a, k, i), cols[j], k, j, fused_limit::<T>(n)) by {
        if i < i0 {
            let (a2, c2) = (a.subrange(0, i0 * k), c.subrange(0, i0 * n));
            lemma_row_fits(i, i0, n);
            lemma_row_fits(i, i0, k);
            assert(at(c, n, i, j) == at(c2, n, i, j));
            assert(row(a2, k, i) =~= row(a, k, i));
        } else {
            let (a2, c2) = (a.subrange(i0 * k, m * k), c.subrange(i0 * n, m * n));
            lemma_row_fits(i - i0, m - i0, n);
            lemma_row_fits(i - i0, m - i0, k);
            lemma_shift(i0, i - i0, n);
            lemma_shift(i0, i - i0, k);
            assert(at(c, n, i, j) == at(c2, n, i - i0, j));
            assert(row(a2, k, i - i0) =~= row(a, k, i));
        }
    }
}

/// Law: a block of columns that ends on a vector boundary, or at the right edge, gets the
/// very outputs that the whole product has there.
pub proof fn law_column_blocks<T: PackedKernel>(
    c0: Seq<T>,
    c1: Seq<T>,
    a: Seq<T>,
    cols: Seq<Seq<T>>,
    m: int,
    k: int,
    n: int,
    c: Seq<T>,
    j0: int,
    j1: int,
)
    requires
        0 <= m,
        0 <= j0 <= j1 <= n,
        j1 == n || j1 % T::LANES as int == 0,
        c0.len() == m * n,
        product_block(c0, c1, n, a, k, cols, fused_limit::<T>(j1), 0, m, j0, j1),
        is_product_of(a, cols, m, k, n, c),
    ensures
        forall|i: int, j: int|
            0 <= i < m && j0 <= j < j1 ==> #[trigger] at(c1, n, i, j) == at(c, n, i, j),
{
    T::layout();
    let lanes = T::LANES as int;
    lemma_round_down(j1, lanes);
    lemma_round_down(n, lanes);
    if j1 % lanes == 0 {
        lemma_multiple_is_round_down(j1, j1, lanes);
        vstd::arithmetic::div_mod::lemma_div_is_ordered(j1, n, lanes);
        assert(j1 <= fused_limit::<T>(n)) by (nonlinear_arith)
            requires
                j1 == j1 / lanes * lanes,
                j1 / lanes <= n / lanes,
                fused_limit::<T>(n) == n / lanes * lanes,
                lanes > 0,
        ;
    }
    assert forall|i: int, j: int| 0 <= i < m && j0 <= j < j1 implies #[trigger] at(c1, n, i, j)
        == at(c, n, i, j) by {
        lemma_row_fits(i, m, n);
    }
}

} // verus!
