//! Facts about products and quotients of real numbers.
use vstd::prelude::*;

verus! {

/// A quotient times its divisor.
pub proof fn lemma_quotient(a: real, b: real)
    requires
        b != 0real,
    ensures
        (a / b) * b == a,
{
    assert((a / b) * b == a) by (nonlinear_arith)
        requires
            b != 0real,
    ;
}

/// The order of three factors does not matter.
pub proof fn lemma_swap(a: real, b: real, c: real)
    ensures
        (a * b) * c == a * (b * c),
        (a * b) * c == (a * c) * b,
        a * b == b * a,
        a * 1real == a,
        a * 0real == 0real,
        0real * a == 0real,
{
    assert((a * b) * c == a * (b * c)) by (nonlinear_arith);
    assert((a * b) * c == (a * c) * b) by (nonlinear_arith);
    assert(a * b == b * a) by (nonlinear_arith);
    assert(a * 1real == a) by (nonlinear_arith);
    assert(a * 0real == 0real) by (nonlinear_arith);
    assert(0real * a == 0real) by (nonlinear_arith);
}

/// A product over a sum and a difference.
pub proof fn lemma_spread(a: real, b: real, c: real)
    ensures
        a * (b + c) == a * b + a * c,
        a * (b - c) == a * b - a * c,
        (b + c) * a == b * a + c * a,
        (b - c) * a == b * a - c * a,
{
    assert(a * (b + c) == a * b + a * c) by (nonlinear_arith);
    assert(a * (b - c) == a * b - a * c) by (nonlinear_arith);
    assert((b + c) * a == b * a + c * a) by (nonlinear_arith);
    assert((b - c) * a == b * a - c * a) by (nonlinear_arith);
}

/// The square of a product.
pub proof fn lemma_square_product(a: real, b: real)
    ensures
        (a * b) * (a * b) == (a * a) * (b * b),
{
    assert((a * b) * (a * b) == (a * a) * (b * b)) by (nonlinear_arith);
}

} // verus!
