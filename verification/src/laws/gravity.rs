//! The law of the attraction with the oblateness term.
use crate::exact::{is_real_root, Exact, ExactDouble};
use crate::ops::orbit::{j2_accel, j2_accel_all};
use crate::scalar::Scalar;
use vstd::prelude::*;

verus! {

/// Law: the acceleration of a position at the distance `r` is Newton's attraction towards the
/// centre, `-μ·p/r³`, plus the oblateness term `3/2·J2·μ·Re²/r⁵·p·(5·z²/r² - 1)`, in which 3
/// stands in place of 1 along the third axis. The inverse powers of the distance come of
/// `1/r²` and `r`.
pub proof fn law_j2_accel<S: ExactDouble>(
    p: (Seq<S>, Seq<S>, Seq<S>),
    mu: S,
    j2: S,
    re: S,
    i: int,
    r: real,
)
    requires
        0 <= i < p.0.len(),
        r > 0real,
        is_real_root(
            p.0[i].value() * p.0[i].value() + (p.1[i].value() * p.1[i].value() + p.2[i].value()
                * p.2[i].value()),
            r,
        ),
    ensures
        j2_accel_all(p, mu, j2, re).0.len() == p.0.len(),
        j2_accel_all(p, mu, j2, re).1.len() == p.0.len(),
        j2_accel_all(p, mu, j2, re).2.len() == p.0.len(),
        ({
            let (x, y, z) = (p.0[i].value(), p.1[i].value(), p.2[i].value());
            let a = j2_accel_all(p, mu, j2, re);
            let i2 = 1real / (x * x + (y * y + z * z));
            let i3 = i2 * (i2 * r);
            let newton = -mu.value() * i3;
            let oblate = (3real / 2real) * j2.value() * mu.value() * re.value() * re.value() * (i3
                * i2);
            let s = 5real * (z * z * i2);
            &&& a.0[i].value() == newton * x + oblate * x * (s - 1real)
            &&& a.1[i].value() == newton * y + oblate * y * (s - 1real)
            &&& a.2[i].value() == newton * z + oblate * z * (s - 3real)
        }),
{
    lemma_j2_accel(p.0[i], p.1[i], p.2[i], mu, j2, re, r);
}

/// The acceleration at one position.
proof fn lemma_j2_accel<S: ExactDouble>(x: S, y: S, z: S, mu: S, j2: S, re: S, r: real)
    requires
        r > 0real,
        is_real_root(
            x.value() * x.value() + (y.value() * y.value() + z.value() * z.value()),
            r,
        ),
    ensures
        ({
            let a = j2_accel(x, y, z, mu, j2, re);
            let i2 = 1real / (x.value() * x.value() + (y.value() * y.value() + z.value()
                * z.value()));
            let i3 = i2 * (i2 * r);
            let newton = -mu.value() * i3;
            let oblate = (3real / 2real) * j2.value() * mu.value() * re.value() * re.value() * (i3
                * i2);
            let s = 5real * (z.value() * z.value() * i2);
            &&& a.0.value() == newton * x.value() + oblate * x.value() * (s - 1real)
            &&& a.1.value() == newton * y.value() + oblate * y.value() * (s - 1real)
            &&& a.2.value() == newton * z.value() + oblate * z.value() * (s - 3real)
        }),
{
    let rm2 = x.mul_spec(x).add_spec(y.mul_spec(y).add_spec(z.mul_spec(z)));
    lemma_distance(x, y, z, r);
    let inv2 = S::of_raw_spec(0x3ff0_0000_0000_0000).div_spec(rm2);
    let inv3 = inv2.mul_spec(inv2.mul_spec(rm2.sqrt_spec()));
    let i2 = 1real / (x.value() * x.value() + (y.value() * y.value() + z.value() * z.value()));
    let i3 = i2 * (i2 * r);
    lemma_factors(inv2, inv3, rm2.sqrt_spec(), z, mu, j2, re, i2, i3, r);
    lemma_sum(
        j2_factor(mu, j2, re).mul_spec(inv3.mul_spec(inv2)),
        mu.neg_spec().mul_spec(inv3),
        five_squares(z, inv2),
        x,
        y,
        z,
    );
}

/// `3/2·J2·μ·Re²`.
pub open spec fn j2_factor<S: ExactDouble>(mu: S, j2: S, re: S) -> S {
    S::of_raw_spec(0x3ff8_0000_0000_0000).mul_spec(j2).mul_spec(mu).mul_spec(re).mul_spec(re)
}

/// `5·z²/r²`.
pub open spec fn five_squares<S: ExactDouble>(z: S, inv2: S) -> S {
    S::of_raw_spec(0x4014_0000_0000_0000).mul_spec(z.mul_spec(z).mul_spec(inv2))
}

/// The distance and the inverse of its square.
proof fn lemma_distance<S: ExactDouble>(x: S, y: S, z: S, r: real)
    requires
        r > 0real,
        is_real_root(
            x.value() * x.value() + (y.value() * y.value() + z.value() * z.value()),
            r,
        ),
    ensures
        ({
            let rm2 = x.mul_spec(x).add_spec(y.mul_spec(y).add_spec(z.mul_spec(z)));
            let q = x.value() * x.value() + (y.value() * y.value() + z.value() * z.value());
            &&& rm2.sqrt_spec().value() == r
            &&& S::of_raw_spec(0x3ff0_0000_0000_0000).div_spec(rm2).value() == 1real / q
        }),
{
    let rm2 = x.mul_spec(x).add_spec(y.mul_spec(y).add_spec(z.mul_spec(z)));
    lemma_sum_of_squares(x, y, z);
    S::exact_root(rm2, r);
    assert(r * r != 0real) by (nonlinear_arith)
        requires
            r > 0real,
    ;
    S::no_rounding();
    S::constants();
}

proof fn lemma_sum_of_squares<S: ExactDouble>(x: S, y: S, z: S)
    ensures
        x.mul_spec(x).add_spec(y.mul_spec(y).add_spec(z.mul_spec(z))).value() == x.value()
            * x.value() + (y.value() * y.value() + z.value() * z.value()),
{
    S::no_rounding();
}

/// The factors of both terms.
proof fn lemma_factors<S: ExactDouble>(
    inv2: S,
    inv3: S,
    rm: S,
    z: S,
    mu: S,
    j2: S,
    re: S,
    i2: real,
    i3: real,
    r: real,
)
    requires
        inv2.value() == i2,
        rm.value() == r,
        inv3 == inv2.mul_spec(inv2.mul_spec(rm)),
        i3 == i2 * (i2 * r),
    ensures
        j2_factor(mu, j2, re).mul_spec(inv3.mul_spec(inv2)).value() == (3real / 2real) * j2.value()
            * mu.value() * re.value() * re.value() * (i3 * i2),
        mu.neg_spec().mul_spec(inv3).value() == -mu.value() * i3,
        five_squares(z, inv2).value() == 5real * (z.value() * z.value() * i2),
{
    S::no_rounding();
    S::constants();
}

/// Both terms, added up.
proof fn lemma_sum<S: ExactDouble>(k: S, cen: S, s: S, x: S, y: S, z: S)
    ensures
        ({
            let m1 = s.sub_spec(S::of_raw_spec(0x3ff0_0000_0000_0000));
            let m3 = s.sub_spec(S::of_raw_spec(0x4008_0000_0000_0000));
            let (u, v, w) = (x.value(), y.value(), z.value());
            let (d, c, t) = (k.value(), cen.value(), s.value());
            &&& k.mul_spec(x).fma_spec(m1, cen.mul_spec(x)).value() == c * u + d * u * (t - 1real)
            &&& k.mul_spec(y).fma_spec(m1, cen.mul_spec(y)).value() == c * v + d * v * (t - 1real)
            &&& k.mul_spec(z).fma_spec(m3, cen.mul_spec(z)).value() == c * w + d * w * (t - 3real)
        }),
{
    S::no_rounding();
    S::constants();
}

} // verus!
