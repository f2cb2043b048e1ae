//! Integer helpers shared by the schedulers and the blocked kernels.
use vstd::arithmetic::div_mod::{lemma_fundamental_div_mod, lemma_mod_multiples_basic};
use vstd::arithmetic::mul::{lemma_mul_inequality, lemma_mul_is_commutative};
use vstd::prelude::*;

verus! {

/// The smallest `q` with `q * b >= a`.
pub open spec fn ceil_div(a: nat, b: nat) -> nat
    recommends
        b > 0,
{
    if a % b == 0 {
        a / b
    } else {
        a / b + 1
    }
}

/// The smallest multiple of `g` that is at least `x`.
pub open spec fn round_up(x: nat, g: nat) -> nat
    recommends
        g > 0,
{
    ceil_div(x, g) * g
}

pub open spec fn min_nat(a: int, b: int) -> int {
    if a <= b {
        a
    } else {
        b
    }
}

pub open spec fn max_nat(a: int, b: int) -> int {
    if a >= b {
        a
    } else {
        b
    }
}

pub proof fn lemma_ceil_div(a: nat, b: nat)
    requires
        b > 0,
    ensures
        ceil_div(a, b) * b >= a,
        ceil_div(a, b) * b < a + b,
        a > 0 ==> ceil_div(a, b) >= 1,
        a > 0 ==> (ceil_div(a, b) - 1) * b < a,
        ceil_div(a, b) <= a,
        a <= b ==> ceil_div(a, b) <= 1,
{
    lemma_fundamental_div_mod(a as int, b as int);
    let q = a / b;
    let r = a % b;
    assert(a == b * q + r);
    assert(b * q == q * b) by (nonlinear_arith);
    assert((q + 1) * b == q * b + b) by (nonlinear_arith);
    assert((ceil_div(a, b) - 1) * b == ceil_div(a, b) * b - b) by (nonlinear_arith);
    assert(q <= q * b) by (nonlinear_arith)
        requires
            b > 0,
            q >= 0,
    ;
    if q == 0 {
        assert(q * b == 0) by (nonlinear_arith)
            requires
                q == 0,
        ;
    }
    if a <= b {
        if q >= 2 {
            assert(q * b >= 2 * b) by (nonlinear_arith)
                requires
                    q >= 2,
                    b > 0,
            ;
        }
        if q == 1 {
            assert(q * b == b);
        }
    }
}

/// `q` is at least the ceiling of `a / b` as soon as `q * b` reaches `a`.
pub proof fn lemma_ceil_div_least(a: nat, b: nat, q: nat)
    requires
        b > 0,
        q * b >= a,
    ensures
        ceil_div(a, b) <= q,
{
    lemma_ceil_div(a, b);
    if ceil_div(a, b) > q {
        assert((ceil_div(a, b) - 1) * b >= q * b) by (nonlinear_arith)
            requires
                ceil_div(a, b) - 1 >= q,
                b > 0,
        ;
        if a == 0 {
            assert(ceil_div(a, b) <= a);
        }
    }
}

pub proof fn lemma_round_up(x: nat, g: nat)
    requires
        g > 0,
    ensures
        x <= round_up(x, g) < x + g,
        round_up(x, g) % g == 0,
        x > 0 ==> round_up(x, g) >= g,
{
    lemma_ceil_div(x, g);
    lemma_mod_multiples_basic(ceil_div(x, g) as int, g as int);
    if x > 0 {
        assert(ceil_div(x, g) * g >= 1 * g) by (nonlinear_arith)
            requires
                ceil_div(x, g) >= 1,
                g > 0,
        ;
    }
}

/// A multiple of `g` is its own rounding.
pub proof fn lemma_round_up_multiple(x: nat, g: nat)
    requires
        g > 0,
        x % g == 0,
    ensures
        round_up(x, g) == x,
{
    lemma_fundamental_div_mod(x as int, g as int);
    assert(ceil_div(x, g) == x / g);
    assert(g * (x / g) == (x / g) * g) by (nonlinear_arith);
}

/// `ceil(a / b)`.
pub fn div_ceil(a: usize, b: usize) -> (r: usize)
    requires
        b > 0,
    ensures
        r == ceil_div(a as nat, b as nat),
{
    proof {
        lemma_ceil_div(a as nat, b as nat);
    }
    if a % b == 0 {
        a / b
    } else {
        a / b + 1
    }
}

/// The smallest multiple of `g` that is at least `x`.
pub fn next_multiple_of(x: usize, g: usize) -> (r: usize)
    requires
        g > 0,
        round_up(x as nat, g as nat) <= usize::MAX,
    ensures
        r == round_up(x as nat, g as nat),
{
    proof {
        lemma_round_up(x as nat, g as nat);
        lemma_fundamental_div_mod(x as int, g as int);
        assert(g * (x / g) == (x / g) * g) by (nonlinear_arith);
        assert((x / g + 1) * g == (x / g) * g + g) by (nonlinear_arith);
    }
    let r: usize = x % g;
    if r == 0 {
        x
    } else {
        x - r + g
    }
}

/// Whether the smallest multiple of `g` that is at least `x` is a machine word.
pub fn rounds_up(x: usize, g: usize) -> (r: bool)
    requires
        g > 0,
    ensures
        r == (round_up(x as nat, g as nat) <= usize::MAX),
{
    proof {
        lemma_fundamental_div_mod(x as int, g as int);
        assert(g * (x / g) == (x / g) * g) by (nonlinear_arith);
        assert((x / g + 1) * g == (x / g) * g + g) by (nonlinear_arith);
    }
    let r: usize = x % g;
    r == 0 || x - r <= usize::MAX - g
}

pub fn min_usize(a: usize, b: usize) -> (r: usize)
    ensures
        r == min_nat(a as int, b as int),
{
    if a <= b {
        a
    } else {
        b
    }
}

pub fn max_usize(a: usize, b: usize) -> (r: usize)
    ensures
        r == max_nat(a as int, b as int),
{
    if a >= b {
        a
    } else {
        b
    }
}

/// The product of two sizes; the largest word where it does not fit.
pub fn saturating_mul(a: usize, b: usize) -> (r: usize)
    ensures
        r == min_nat(a * b, usize::MAX as int),
{
    match a.checked_mul(b) {
        Some(v) => v,
        None => usize::MAX,
    }
}

/// Row `i` of an `m`-row matrix of width `n` ends inside `m * n` elements.
pub proof fn lemma_row_fits(i: int, m: int, n: int)
    requires
        0 <= i < m,
        0 <= n,
    ensures
        0 <= i * n,
        i * n + n == (i + 1) * n,
        i * n + n <= m * n,
{
    assert(i * n + n == (i + 1) * n) by (nonlinear_arith);
    assert(0 <= i * n) by (nonlinear_arith)
        requires
            0 <= i,
            0 <= n,
    ;
    lemma_mul_inequality(i + 1, m, n);
}

/// Row-major positions determine their row and column.
pub proof fn lemma_position_unique(n: int, i: int, j: int, i2: int, j2: int)
    requires
        0 <= j < n,
        0 <= j2 < n,
        i * n + j == i2 * n + j2,
    ensures
        i == i2,
        j == j2,
{
    assert(i == i2) by (nonlinear_arith)
        requires
            0 <= j < n,
            0 <= j2 < n,
            i * n + j == i2 * n + j2,
    ;
}

/// The largest multiple of `g` not above `x`.
pub proof fn lemma_round_down(x: int, g: int)
    requires
        g > 0,
        x >= 0,
    ensures
        0 <= x / g * g <= x < x / g * g + g,
        (x / g * g) % g == 0,
{
    lemma_fundamental_div_mod(x, g);
    lemma_mul_is_commutative(x / g, g);
    lemma_mod_multiples_basic(x / g, g);
    assert(0 <= x / g * g) by (nonlinear_arith)
        requires
            x >= 0,
            g > 0,
    ;
}

} // verus!
