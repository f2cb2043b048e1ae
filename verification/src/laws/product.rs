//! Laws of the matrix product: every output is the full sum of its products.
use crate::exact::{lemma_total_same, total, Exact};
use crate::math::lemma_row_fits;
use crate::ops::matmul::{at, columns, fused, is_product, plain, row};
use crate::plan::{MatmulPlan, PackedKernel};
use crate::view::MatRef;
use vstd::prelude::*;

verus! {

/// An accumulator holds the sum of its products, however it rounds.
proof fn lemma_accumulated<S: Exact>(x: Seq<S>, y: Seq<S>, steps: int)
    requires
        0 <= steps,
    ensures
        fused(x, y, steps).value() == total(|p: int| x[p].value() * y[p].value(), 0, steps),
        plain(x, y, steps).value() == total(|p: int| x[p].value() * y[p].value(), 0, steps),
    decreases steps,
{
    S::no_rounding();
    if steps > 0 {
        lemma_accumulated(x, y, steps - 1);
        let (a, b) = (x[steps - 1].value(), y[steps - 1].value());
        assert(a * b == b * a) by (nonlinear_arith);
    }
}

/// Law: output `(i, j)` of a product is the sum, over all `k` steps, of `A(i, p)·B(p, j)`,
/// for columns in whole vectors and for columns left over alike.
pub proof fn law_product<T: Exact + PackedKernel>(
    a: Seq<T>,
    b: Seq<T>,
    m: int,
    k: int,
    n: int,
    c: Seq<T>,
    i: int,
    j: int,
)
    requires
        is_product(a, b, m, k, n, c),
        a.len() == m * k,
        b.len() == k * n,
        0 <= k,
        0 <= i < m,
        0 <= j < n,
    ensures
        c.len() == m * n,
        c[i * n + j].value() == total(
            |p: int| a[i * k + p].value() * b[p * n + j].value(),
            0,
            k,
        ),
{
    let cols = columns(b, k, n);
    let x = row(a, k, i);
    let y = cols[j];
    lemma_row_fits(i, m, k);
    assert(at(c, n, i, j) == c[i * n + j]);
    lemma_accumulated(x, y, k);
    lemma_total_same(
        |p: int| a[i * k + p].value() * b[p * n + j].value(),
        |p: int| x[p].value() * y[p].value(),
        0,
        k,
    );
}

/// Law: a plan gives the same sums, whatever the layout of the matrix it was made from.
pub proof fn law_planned_product<'a, T: Exact + PackedKernel>(
    plan: MatmulPlan<T>,
    b: MatRef<'a, T>,
    a: Seq<T>,
    m: int,
    c: Seq<T>,
    i: int,
    j: int,
)
    requires
        plan.wf(),
        plan.depth() == b.height(),
        plan.width() == b.width(),
        plan.source() == b.columns(),
        a.len() == m * b.height(),
        plan.gives(a, c),
        0 <= i < m,
        0 <= j < b.width(),
    ensures
        c.len() == m * b.width(),
        c[i * b.width() + j].value() == total(
            |p: int| a[i * b.height() + p].value() * b.entry(p, j).value(),
            0,
            b.height(),
        ),
{
    let (k, n) = (b.height(), b.width());
    crate::plan::law_plan_has_rows(plan);
    vstd::arithmetic::div_mod::lemma_div_by_multiple(m, k);
    let x = row(a, k, i);
    let y = b.columns()[j];
    lemma_row_fits(i, m, k);
    assert(at(c, n, i, j) == c[i * n + j]);
    lemma_accumulated(x, y, k);
    lemma_total_same(
        |p: int| a[i * k + p].value() * b.entry(p, j).value(),
        |p: int| x[p].value() * y[p].value(),
        0,
        k,
    );
}

} // verus!
