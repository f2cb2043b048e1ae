//! Laws of the geometric kernels.
use crate::exact::{is_real_root, Exact, ExactDouble, ExactSingle};
use crate::laws::algebra::{lemma_quotient, lemma_swap};
use crate::ops::geometry::{
    add_scaled_all, cross3_all, distance2d_all, mat3_mul_vec3_all, norm3, norm3_all, unitize3,
    unitize3_all,
};
use crate::scalar::Scalar;
use vstd::prelude::*;

verus! {

/// Law: the length of a vector is the number whose square is `x² + y² + z²`.
pub proof fn law_norm3<S: ExactDouble>(v: (Seq<S>, Seq<S>, Seq<S>), i: int, r: real)
    requires
        0 <= i < v.0.len(),
        is_real_root(
            v.0[i].value() * v.0[i].value() + v.1[i].value() * v.1[i].value() + v.2[i].value()
                * v.2[i].value(),
            r,
        ),
    ensures
        norm3_all(v).len() == v.0.len(),
        norm3_all(v)[i].value() == r,
{
    lemma_norm3(v.0[i], v.1[i], v.2[i], r);
}

/// The length of one vector.
pub proof fn lemma_norm3<S: ExactDouble>(x: S, y: S, z: S, r: real)
    requires
        is_real_root(
            x.value() * x.value() + y.value() * y.value() + z.value() * z.value(),
            r,
        ),
    ensures
        norm3(x, y, z).value() == r,
{
    S::no_rounding();
    S::exact_root(x.mul_spec(x).add_spec(y.mul_spec(y).add_spec(z.mul_spec(z))), r);
}

/// Law: the distance of `(x, y)` from `(px, py)` is the number whose square is
/// `(x - px)² + (y - py)²`.
pub proof fn law_distance2d<S: ExactSingle>(
    v: (Seq<S>, Seq<S>),
    px: S,
    py: S,
    i: int,
    r: real,
)
    requires
        0 <= i < v.0.len(),
        is_real_root(
            (v.0[i].value() - px.value()) * (v.0[i].value() - px.value()) + (v.1[i].value()
                - py.value()) * (v.1[i].value() - py.value()),
            r,
        ),
    ensures
        distance2d_all(v, px, py).len() == v.0.len(),
        distance2d_all(v, px, py)[i].value() == r,
{
    S::no_rounding();
    let (dx, dy) = (v.0[i].sub_spec(px), v.1[i].sub_spec(py));
    S::exact_root(dx.mul_spec(dx).add_spec(dy.mul_spec(dy)), r);
}

/// Law: a scaled sum is the first vector plus `s` times the second. Scaling by zero leaves
/// the first vector as it is.
pub proof fn law_add_scaled<S: ExactDouble>(
    a: (Seq<S>, Seq<S>, Seq<S>),
    b: (Seq<S>, Seq<S>, Seq<S>),
    s: S,
    i: int,
)
    requires
        0 <= i < a.0.len(),
    ensures
        add_scaled_all(a, b, s).0.len() == a.0.len(),
        add_scaled_all(a, b, s).1.len() == a.0.len(),
        add_scaled_all(a, b, s).2.len() == a.0.len(),
        add_scaled_all(a, b, s).0[i].value() == a.0[i].value() + s.value() * b.0[i].value(),
        add_scaled_all(a, b, s).1[i].value() == a.1[i].value() + s.value() * b.1[i].value(),
        add_scaled_all(a, b, s).2[i].value() == a.2[i].value() + s.value() * b.2[i].value(),
        s.value() == 0real ==> {
            &&& add_scaled_all(a, b, s).0[i].value() == a.0[i].value()
            &&& add_scaled_all(a, b, s).1[i].value() == a.1[i].value()
            &&& add_scaled_all(a, b, s).2[i].value() == a.2[i].value()
        },
{
    S::no_rounding();
    let (x, y, z) = (b.0[i].value(), b.1[i].value(), b.2[i].value());
    lemma_swap(x, 0real, 0real);
    lemma_swap(y, 0real, 0real);
    lemma_swap(z, 0real, 0real);
}

/// Law: the cross product, right-handed.
pub proof fn law_cross3<S: ExactDouble>(
    a: (Seq<S>, Seq<S>, Seq<S>),
    b: (Seq<S>, Seq<S>, Seq<S>),
    i: int,
)
    requires
        0 <= i < a.0.len(),
    ensures
        cross3_all(a, b).0.len() == a.0.len(),
        cross3_all(a, b).1.len() == a.0.len(),
        cross3_all(a, b).2.len() == a.0.len(),
        ({
            let (ax, ay, az) = (a.0[i].value(), a.1[i].value(), a.2[i].value());
            let (bx, by, bz) = (b.0[i].value(), b.1[i].value(), b.2[i].value());
            let o = cross3_all(a, b);
            &&& o.0[i].value() == ay * bz - az * by
            &&& o.1[i].value() == az * bx - ax * bz
            &&& o.2[i].value() == ax * by - ay * bx
        }),
{
    S::no_rounding();
}

/// Law: component `r` of a matrix times a vector is the inner product of row `r` and the
/// vector; the matrix is row-major.
pub proof fn law_mat3_mul_vec3<S: ExactDouble>(
    m: (Seq<S>, Seq<S>, Seq<S>, Seq<S>, Seq<S>, Seq<S>, Seq<S>, Seq<S>, Seq<S>),
    v: (Seq<S>, Seq<S>, Seq<S>),
    i: int,
)
    requires
        0 <= i < m.0.len(),
    ensures
        mat3_mul_vec3_all(m, v).0.len() == m.0.len(),
        mat3_mul_vec3_all(m, v).1.len() == m.0.len(),
        mat3_mul_vec3_all(m, v).2.len() == m.0.len(),
        ({
            let (x, y, z) = (v.0[i].value(), v.1[i].value(), v.2[i].value());
            let o = mat3_mul_vec3_all(m, v);
            &&& o.0[i].value() == m.0[i].value() * x + m.1[i].value() * y + m.2[i].value() * z
            &&& o.1[i].value() == m.3[i].value() * x + m.4[i].value() * y + m.5[i].value() * z
            &&& o.2[i].value() == m.6[i].value() * x + m.7[i].value() * y + m.8[i].value() * z
        }),
{
    S::no_rounding();
}

/// Each component divided by the length.
proof fn lemma_unitize3<S: ExactDouble>(x: S, y: S, z: S, r: real)
    requires
        r != 0real,
        norm3(x, y, z).value() == r,
        !norm3(x, y, z).same_spec(S::of_raw_spec(0)),
    ensures
        unitize3(x, y, z).0.value() == x.value() * (1real / r),
        unitize3(x, y, z).1.value() == y.value() * (1real / r),
        unitize3(x, y, z).2.value() == z.value() * (1real / r),
{
    S::no_rounding();
    S::constants();
}

/// A number divided by `r`, times `r`.
proof fn lemma_divided(x: real, r: real)
    requires
        r != 0real,
    ensures
        (x * (1real / r)) * r == x,
{
    lemma_quotient(1real, r);
    lemma_swap(x, 1real / r, r);
    lemma_swap(x, 1real, 1real);
}

/// Law: a unit vector times the length of the vector is the vector, wherever the arithmetic
/// tells the length from zero.
pub proof fn law_unitize3<S: ExactDouble>(v: (Seq<S>, Seq<S>, Seq<S>), i: int, r: real)
    requires
        0 <= i < v.0.len(),
        r != 0real,
        is_real_root(
            v.0[i].value() * v.0[i].value() + v.1[i].value() * v.1[i].value() + v.2[i].value()
                * v.2[i].value(),
            r,
        ),
        forall|s: S| s.value() == r ==> !#[trigger] s.same_spec(S::of_raw_spec(0)),
    ensures
        unitize3_all(v).0.len() == v.0.len(),
        unitize3_all(v).1.len() == v.0.len(),
        unitize3_all(v).2.len() == v.0.len(),
        unitize3_all(v).0[i].value() * r == v.0[i].value(),
        unitize3_all(v).1[i].value() * r == v.1[i].value(),
        unitize3_all(v).2[i].value() * r == v.2[i].value(),
{
    lemma_norm3(v.0[i], v.1[i], v.2[i], r);
    lemma_unitize3(v.0[i], v.1[i], v.2[i], r);
    lemma_divided(v.0[i].value(), r);
    lemma_divided(v.1[i].value(), r);
    lemma_divided(v.2[i].value(), r);
}

} // verus!
