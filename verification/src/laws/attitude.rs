//! Laws of the quaternion kernels.
use crate::exact::{is_real_root, Exact, ExactDouble};
use crate::laws::algebra::{lemma_quotient, lemma_spread, lemma_square_product, lemma_swap};
use crate::ops::attitude::{
    quat_dcm_all, quat_mul_all, quat_norm, quat_rotate_all, quat_unit, quat_unit_all,
};
use crate::scalar::Scalar;
use vstd::prelude::*;

verus! {

/// A batch of quaternions.
pub type Quats<S> = (Seq<S>, Seq<S>, Seq<S>, Seq<S>);

/// `n` is the length of quaternion `i`, and long enough for the arithmetic to see it.
pub open spec fn has_length<S: ExactDouble>(q: Quats<S>, i: int, n: real) -> bool {
    let (w, x, y, z) = (q.0[i].value(), q.1[i].value(), q.2[i].value(), q.3[i].value());
    &&& 0 <= i < q.0.len()
    &&& n > 0real
    &&& is_real_root(w * w + x * x + y * y + z * z, n)
    &&& forall|s: S|
        s.value() == n ==> !#[trigger] s.lt_spec(S::of_raw_spec(0x3cd2_03af_9ee7_5616))
}

/// One quaternion, scaled to length one.
proof fn lemma_unit<S: ExactDouble>(q: Quats<S>, i: int, n: real)
    requires
        has_length(q, i, n),
    ensures
        ({
            let u = quat_unit(q.0[i], q.1[i], q.2[i], q.3[i]);
            let inv = 1real / n;
            &&& inv * n == 1real
            &&& u.0.value() == q.0[i].value() * inv
            &&& u.1.value() == q.1[i].value() * inv
            &&& u.2.value() == q.2[i].value() * inv
            &&& u.3.value() == q.3[i].value() * inv
        }),
{
    S::no_rounding();
    S::constants();
    let (w, x, y, z) = (q.0[i], q.1[i], q.2[i], q.3[i]);
    S::exact_root(
        w.mul_spec(w).add_spec(x.mul_spec(x)).add_spec(y.mul_spec(y)).add_spec(z.mul_spec(z)),
        n,
    );
    assert(quat_norm(w, x, y, z).value() == n);
    let inv = 1real / n;
    lemma_quotient(1real, n);
}

/// A scaled component, and its square.
proof fn lemma_scale(a: real, inv: real, n: real)
    requires
        inv * n == 1real,
    ensures
        (a * inv) * n == a,
        (a * inv) * (a * inv) == (a * a) * (inv * inv),
{
    lemma_swap(a, inv, n);
    lemma_swap(a, 1real, n);
    lemma_square_product(a, inv);
}

/// Law: a normalised quaternion is the quaternion divided by its length, and has length one.
pub proof fn law_quat_normalize<S: ExactDouble>(q: Quats<S>, i: int, n: real)
    requires
        has_length(q, i, n),
    ensures
        ({
            let u = quat_unit_all(q);
            let (w, x, y, z) = (u.0[i].value(), u.1[i].value(), u.2[i].value(), u.3[i].value());
            &&& u.0.len() == q.0.len() && u.1.len() == q.0.len() && u.2.len() == q.0.len()
                && u.3.len() == q.0.len()
            &&& w * n == q.0[i].value()
            &&& x * n == q.1[i].value()
            &&& y * n == q.2[i].value()
            &&& z * n == q.3[i].value()
            &&& w * w + x * x + y * y + z * z == 1real
        }),
{
    lemma_unit(q, i, n);
    let u = quat_unit_all(q);
    let (w, x, y, z) = (u.0[i].value(), u.1[i].value(), u.2[i].value(), u.3[i].value());
    let (a, b, c, d) = (q.0[i].value(), q.1[i].value(), q.2[i].value(), q.3[i].value());
    let inv = 1real / n;
    lemma_scale(a, inv, n);
    lemma_scale(b, inv, n);
    lemma_scale(c, inv, n);
    lemma_scale(d, inv, n);
    lemma_spread(inv * inv, a * a, b * b);
    lemma_spread(inv * inv, a * a + b * b, c * c);
    lemma_spread(inv * inv, a * a + b * b + c * c, d * d);
    lemma_square_product(n, inv);
    lemma_swap(n, inv, n);
    assert(n * inv == 1real);
    assert((n * inv) * (n * inv) == 1real * 1real);
    assert(n * n == a * a + b * b + c * c + d * d);
    assert((n * n) * (inv * inv) == (a * a) * (inv * inv) + (b * b) * (inv * inv) + (c * c) * (inv
        * inv) + (d * d) * (inv * inv));
    assert(w * w == (a * a) * (inv * inv));
}

/// Law: the product of two quaternions is Hamilton's.
pub proof fn law_quat_mul<S: ExactDouble>(p: Quats<S>, q: Quats<S>, i: int)
    requires
        0 <= i < p.0.len(),
    ensures
        ({
            let (a, b, c, d) = (
                p.0[i].value(),
                p.1[i].value(),
                p.2[i].value(),
                p.3[i].value(),
            );
            let (e, f, g, h) = (
                q.0[i].value(),
                q.1[i].value(),
                q.2[i].value(),
                q.3[i].value(),
            );
            let o = quat_mul_all(p, q);
            let (w, x, y, z) = (o.0[i].value(), o.1[i].value(), o.2[i].value(), o.3[i].value());
            &&& o.0.len() == p.0.len() && o.1.len() == p.0.len() && o.2.len() == p.0.len()
                && o.3.len() == p.0.len()
            &&& w == a * e - b * f - c * g - d * h
            &&& x == a * f + b * e + c * h - d * g
            &&& y == a * g - b * h + c * e + d * f
            &&& z == a * h + b * g - c * f + d * e
        }),
{
    S::no_rounding();
}

/// The homogeneous entries of the rotation matrix of a quaternion of any length: row `r`,
/// column `c`.
pub open spec fn rotation(w: real, x: real, y: real, z: real, r: int, c: int) -> real {
    if r == 0 && c == 0 {
        w * w + x * x - y * y - z * z
    } else if r == 1 && c == 1 {
        w * w - x * x + y * y - z * z
    } else if r == 2 && c == 2 {
        w * w - x * x - y * y + z * z
    } else if r == 0 && c == 1 {
        2real * (x * y - w * z)
    } else if r == 1 && c == 0 {
        2real * (x * y + w * z)
    } else if r == 0 && c == 2 {
        2real * (x * z + w * y)
    } else if r == 2 && c == 0 {
        2real * (x * z - w * y)
    } else if r == 1 && c == 2 {
        2real * (y * z - w * x)
    } else {
        2real * (y * z + w * x)
    }
}

/// A product of two scaled components.
proof fn lemma_scaled_product(a: real, b: real, inv: real, n: real)
    requires
        inv * n == 1real,
    ensures
        (a * inv) * (b * inv) * (n * n) == a * b,
{
    assert((a * inv) * (b * inv) * (n * n) == (a * b) * ((inv * n) * (inv * n)))
        by (nonlinear_arith);
    lemma_swap(a * b, 1real, 1real);
}

/// Law: the matrix of a quaternion, times the square of its length, has the entries of the
/// rotation from the body frame to the inertial frame.
pub proof fn law_quat_to_dcm<S: ExactDouble>(q: Quats<S>, i: int, n: real)
    requires
        has_length(q, i, n),
    ensures
        ({
            let (w, x, y, z) = (
                q.0[i].value(),
                q.1[i].value(),
                q.2[i].value(),
                q.3[i].value(),
            );
            let m = quat_dcm_all(q);
            &&& m.0[i].value() * (n * n) == rotation(w, x, y, z, 0, 0)
            &&& m.1[i].value() * (n * n) == rotation(w, x, y, z, 0, 1)
            &&& m.2[i].value() * (n * n) == rotation(w, x, y, z, 0, 2)
            &&& m.3[i].value() * (n * n) == rotation(w, x, y, z, 1, 0)
            &&& m.4[i].value() * (n * n) == rotation(w, x, y, z, 1, 1)
            &&& m.5[i].value() * (n * n) == rotation(w, x, y, z, 1, 2)
            &&& m.6[i].value() * (n * n) == rotation(w, x, y, z, 2, 0)
            &&& m.7[i].value() * (n * n) == rotation(w, x, y, z, 2, 1)
            &&& m.8[i].value() * (n * n) == rotation(w, x, y, z, 2, 2)
        }),
{
    S::no_rounding();
    S::constants();
    lemma_unit(q, i, n);
    let (w, x, y, z) = (q.0[i].value(), q.1[i].value(), q.2[i].value(), q.3[i].value());
    let inv = 1real / n;
    let nn = n * n;
    let (a, b, c, d) = (w * inv, x * inv, y * inv, z * inv);
    lemma_scaled_product(x, x, inv, n);
    lemma_scaled_product(y, y, inv, n);
    lemma_scaled_product(z, z, inv, n);
    lemma_scaled_product(x, y, inv, n);
    lemma_scaled_product(x, z, inv, n);
    lemma_scaled_product(y, z, inv, n);
    lemma_scaled_product(w, x, inv, n);
    lemma_scaled_product(w, y, inv, n);
    lemma_scaled_product(w, z, inv, n);
    lemma_diagonal(c * c, d * d, nn);
    lemma_diagonal(b * b, d * d, nn);
    lemma_diagonal(b * b, c * c, nn);
    lemma_off_diagonal(b * c, a * d, nn);
    lemma_off_diagonal(b * d, a * c, nn);
    lemma_off_diagonal(c * d, a * b, nn);
    assert(nn == w * w + x * x + y * y + z * z);
}

proof fn lemma_diagonal(p: real, q: real, nn: real)
    ensures
        (1real - 2real * (p + q)) * nn == nn - 2real * (p * nn) - 2real * (q * nn),
{
    lemma_spread(nn, 1real, 2real * (p + q));
    lemma_swap(nn, 1real, 1real);
    lemma_swap(2real, p + q, nn);
    lemma_spread(nn, p, q);
    lemma_swap(1real, nn, 1real);
}

proof fn lemma_off_diagonal(p: real, q: real, nn: real)
    ensures
        (2real * (p - q)) * nn == 2real * (p * nn - q * nn),
        (2real * (p + q)) * nn == 2real * (p * nn + q * nn),
{
    lemma_swap(2real, p - q, nn);
    lemma_swap(2real, p + q, nn);
    lemma_spread(nn, p, q);
}

/// Law: a vector turned by a quaternion is its rotation matrix times the vector.
pub proof fn law_quat_rotate<S: ExactDouble>(
    q: Quats<S>,
    v: (Seq<S>, Seq<S>, Seq<S>),
    i: int,
    n: real,
)
    requires
        has_length(q, i, n),
    ensures
        ({
            let (w, x, y, z) = (
                q.0[i].value(),
                q.1[i].value(),
                q.2[i].value(),
                q.3[i].value(),
            );
            let (a, b, c) = (v.0[i].value(), v.1[i].value(), v.2[i].value());
            let o = quat_rotate_all(q, v);
            &&& o.0.len() == q.0.len() && o.1.len() == q.0.len() && o.2.len() == q.0.len()
            &&& o.0[i].value() * (n * n) == rotation(w, x, y, z, 0, 0) * a + rotation(
                w,
                x,
                y,
                z,
                0,
                1,
            ) * b + rotation(w, x, y, z, 0, 2) * c
            &&& o.1[i].value() * (n * n) == rotation(w, x, y, z, 1, 0) * a + rotation(
                w,
                x,
                y,
                z,
                1,
                1,
            ) * b + rotation(w, x, y, z, 1, 2) * c
            &&& o.2[i].value() * (n * n) == rotation(w, x, y, z, 2, 0) * a + rotation(
                w,
                x,
                y,
                z,
                2,
                1,
            ) * b + rotation(w, x, y, z, 2, 2) * c
        }),
{
    S::no_rounding();
    law_quat_to_dcm(q, i, n);
    let m = quat_dcm_all(q);
    let (a, b, c) = (v.0[i].value(), v.1[i].value(), v.2[i].value());
    let nn = n * n;
    lemma_row(m.0[i].value(), m.1[i].value(), m.2[i].value(), a, b, c, nn);
    lemma_row(m.3[i].value(), m.4[i].value(), m.5[i].value(), a, b, c, nn);
    lemma_row(m.6[i].value(), m.7[i].value(), m.8[i].value(), a, b, c, nn);
}

proof fn lemma_row(p: real, q: real, r: real, a: real, b: real, c: real, nn: real)
    ensures
        (p * a + q * b + r * c) * nn == (p * nn) * a + (q * nn) * b + (r * nn) * c,
{
    lemma_spread(nn, p * a, q * b);
    lemma_spread(nn, p * a + q * b, r * c);
    lemma_swap(p, a, nn);
    lemma_swap(q, b, nn);
    lemma_swap(r, c, nn);
}

} // verus!
