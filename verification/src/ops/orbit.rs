//! Batch orbit kernels: gravity with the J2 term, and its fourth-order Runge-Kutta step.
use crate::arch::SimdPath;
use crate::scalar::{
    Double, Scalar, F64_FIVE, F64_HALF, F64_ONE, F64_SIX, F64_THREE, F64_THREE_HALVES, F64_TWO,
};
use vstd::prelude::*;

verus! {

/// Coefficient of the J2 term, `1.5·J2·μ·Re²`, multiplied from the left.
pub open spec fn j2_coefficient<S: Double>(mu: S, j2: S, re: S) -> S {
    S::of_raw_spec(F64_THREE_HALVES).mul_spec(j2).mul_spec(mu).mul_spec(re).mul_spec(re)
}

/// Computes [`j2_coefficient`].
pub fn j2_coefficient_one<S: Double>(mu: S, j2: S, re: S) -> (r: S)
    ensures
        r == j2_coefficient(mu, j2, re),
{
    S::of_raw(F64_THREE_HALVES).mul(j2).mul(mu).mul(re).mul(re)
}

/// Central attraction plus the J2 term at `(x, y, z)`. One division; the other powers of the
/// inverse distance are products.
pub open spec fn gravity<S: Double>(x: S, y: S, z: S, mu: S, j2k: S) -> (S, S, S) {
    let rm2 = x.mul_spec(x).add_spec(y.mul_spec(y).add_spec(z.mul_spec(z)));
    let rm = rm2.sqrt_spec();
    let one = S::of_raw_spec(F64_ONE);
    let five = S::of_raw_spec(F64_FIVE);
    let inv2 = one.div_spec(rm2);
    let inv3 = inv2.mul_spec(inv2.mul_spec(rm));
    let inv5 = inv3.mul_spec(inv2);
    let cen = mu.neg_spec().mul_spec(inv3);
    let k = j2k.mul_spec(inv5);
    let zr2 = z.mul_spec(z).mul_spec(inv2);
    let m1 = five.mul_spec(zr2).sub_spec(one);
    let m3 = five.mul_spec(zr2).sub_spec(S::of_raw_spec(F64_THREE));
    (
        k.mul_spec(x).fma_spec(m1, cen.mul_spec(x)),
        k.mul_spec(y).fma_spec(m1, cen.mul_spec(y)),
        k.mul_spec(z).fma_spec(m3, cen.mul_spec(z)),
    )
}

/// Computes [`gravity`].
pub fn gravity_one<S: Double>(x: S, y: S, z: S, mu: S, j2k: S) -> (r: (S, S, S))
    ensures
        r == gravity(x, y, z, mu, j2k),
{
    let rm2: S = x.mul(x).add(y.mul(y).add(z.mul(z)));
    let rm: S = rm2.sqrt();
    let one: S = S::of_raw(F64_ONE);
    let five: S = S::of_raw(F64_FIVE);
    let inv2: S = one.div(rm2);
    let inv3: S = inv2.mul(inv2.mul(rm));
    let inv5: S = inv3.mul(inv2);
    let cen: S = mu.neg().mul(inv3);
    let k: S = j2k.mul(inv5);
    let zr2: S = z.mul(z).mul(inv2);
    let m1: S = five.mul(zr2).sub(one);
    let m3: S = five.mul(zr2).sub(S::of_raw(F64_THREE));
    (k.mul(x).fma(m1, cen.mul(x)), k.mul(y).fma(m1, cen.mul(y)), k.mul(z).fma(m3, cen.mul(z)))
}

/// Acceleration at `(x, y, z)`.
pub open spec fn j2_accel<S: Double>(x: S, y: S, z: S, mu: S, j2: S, re: S) -> (S, S, S) {
    gravity(x, y, z, mu, j2_coefficient(mu, j2, re))
}

/// Computes [`j2_accel`].
pub fn j2_accel_one<S: Double>(x: S, y: S, z: S, mu: S, j2: S, re: S) -> (r: (S, S, S))
    ensures
        r == j2_accel(x, y, z, mu, j2, re),
{
    gravity_one(x, y, z, mu, j2_coefficient_one(mu, j2, re))
}

/// Accelerations of a batch of positions.
pub open spec fn j2_accel_all<S: Double>(
    r: (Seq<S>, Seq<S>, Seq<S>),
    mu: S,
    j2: S,
    re: S,
) -> (Seq<S>, Seq<S>, Seq<S>) {
    (
        Seq::new(r.0.len(), |i: int| j2_accel(r.0[i], r.1[i], r.2[i], mu, j2, re).0),
        Seq::new(r.0.len(), |i: int| j2_accel(r.0[i], r.1[i], r.2[i], mu, j2, re).1),
        Seq::new(r.0.len(), |i: int| j2_accel(r.0[i], r.1[i], r.2[i], mu, j2, re).2),
    )
}

/// Elements `[from, to)` of the batch; the others are left alone.
fn j2_accel_run<S: Double>(
    rx: &[S],
    ry: &[S],
    rz: &[S],
    mu: S,
    j2: S,
    re: S,
    ax: &mut [S],
    ay: &mut [S],
    az: &mut [S],
    from: usize,
    to: usize,
)
    requires
        from <= to <= rx@.len(),
        ry@.len() == rx@.len(),
        rz@.len() == rx@.len(),
        old(ax)@.len() == rx@.len(),
        old(ay)@.len() == rx@.len(),
        old(az)@.len() == rx@.len(),
    ensures
        final(ax)@.len() == old(ax)@.len(),
        forall|t: int|
            0 <= t < old(ax)@.len() ==> #[trigger] final(ax)@[t] == if from <= t < to {
                j2_accel(rx@[t], ry@[t], rz@[t], mu, j2, re).0
            } else {
                old(ax)@[t]
            },
        final(ay)@.len() == old(ay)@.len(),
        forall|t: int|
            0 <= t < old(ay)@.len() ==> #[trigger] final(ay)@[t] == if from <= t < to {
                j2_accel(rx@[t], ry@[t], rz@[t], mu, j2, re).1
            } else {
                old(ay)@[t]
            },
        final(az)@.len() == old(az)@.len(),
        forall|t: int|
            0 <= t < old(az)@.len() ==> #[trigger] final(az)@[t] == if from <= t < to {
                j2_accel(rx@[t], ry@[t], rz@[t], mu, j2, re).2
            } else {
                old(az)@[t]
            },
{
    let ghost ax0 = ax@;
    let ghost ay0 = ay@;
    let ghost az0 = az@;
    let mut i: usize = from;
    while i < to
        invariant
            from <= i <= to <= rx@.len(),
            ry@.len() == rx@.len(),
            rz@.len() == rx@.len(),
            ax@.len() == rx@.len(),
            ay@.len() == rx@.len(),
            az@.len() == rx@.len(),
            ax0.len() == ax@.len(),
            ay0.len() == ay@.len(),
            az0.len() == az@.len(),
            forall|t: int|
                0 <= t < ax0.len() ==> #[trigger] ax@[t] == if from <= t < i {
                    j2_accel(rx@[t], ry@[t], rz@[t], mu, j2, re).0
                } else {
                    ax0[t]
                },
            forall|t: int|
                0 <= t < ay0.len() ==> #[trigger] ay@[t] == if from <= t < i {
                    j2_accel(rx@[t], ry@[t], rz@[t], mu, j2, re).1
                } else {
                    ay0[t]
                },
            forall|t: int|
                0 <= t < az0.len() ==> #[trigger] az@[t] == if from <= t < i {
                    j2_accel(rx@[t], ry@[t], rz@[t], mu, j2, re).2
                } else {
                    az0[t]
                },
        decreases to - i,
    {
        let r = j2_accel_one(rx[i], ry[i], rz[i], mu, j2, re);
        ax[i] = r.0;
        ay[i] = r.1;
        az[i] = r.2;
        i = i + 1;
    }
}

/// `a[i]` is the acceleration at `r[i]`.
///
/// Whole vectors first, then the rest; the result does not depend on the path.
pub fn j2_accel_batch<S: Double>(
    path: SimdPath,
    rx: &[S],
    ry: &[S],
    rz: &[S],
    mu: S,
    j2: S,
    re: S,
    ax: &mut [S],
    ay: &mut [S],
    az: &mut [S],
)
    requires
        ry@.len() == rx@.len(),
        rz@.len() == rx@.len(),
        old(ax)@.len() == rx@.len(),
        old(ay)@.len() == rx@.len(),
        old(az)@.len() == rx@.len(),
    ensures
        (final(ax)@, final(ay)@, final(az)@) == j2_accel_all((rx@, ry@, rz@), mu, j2, re),
{
    let ghost ax0 = ax@;
    let ghost ay0 = ay@;
    let ghost az0 = az@;
    let n: usize = rx.len();
    let width: usize = match path {
        SimdPath::Lasx => 4,
        SimdPath::Lsx => 2,
    };
    let mut i: usize = 0;
    while width <= n - i
        invariant
            0 < width,
            i <= n,
            rx@.len() == n,
            ry@.len() == n,
            rz@.len() == n,
            ax@.len() == n,
            ay@.len() == n,
            az@.len() == n,
            ax0.len() == n,
            ay0.len() == n,
            az0.len() == n,
            forall|t: int|
                0 <= t < n ==> #[trigger] ax@[t] == if t < i {
                    j2_accel(rx@[t], ry@[t], rz@[t], mu, j2, re).0
                } else {
                    ax0[t]
                },
            forall|t: int|
                0 <= t < n ==> #[trigger] ay@[t] == if t < i {
                    j2_accel(rx@[t], ry@[t], rz@[t], mu, j2, re).1
                } else {
                    ay0[t]
                },
            forall|t: int|
                0 <= t < n ==> #[trigger] az@[t] == if t < i {
                    j2_accel(rx@[t], ry@[t], rz@[t], mu, j2, re).2
                } else {
                    az0[t]
                },
        decreases n - i,
    {
        j2_accel_run(rx, ry, rz, mu, j2, re, ax, ay, az, i, i + width);
        i = i + width;
    }
    j2_accel_run(rx, ry, rz, mu, j2, re, ax, ay, az, i, n);
    proof {
        let want = j2_accel_all((rx@, ry@, rz@), mu, j2, re);
        assert(ax@ =~= want.0);
        assert(ay@ =~= want.1);
        assert(az@ =~= want.2);
    }
}

/// Law: each output depends on its own inputs alone, so a batch may be cut anywhere.
pub proof fn law_j2_accel_batch_split<S: Double>(
    r: (Seq<S>, Seq<S>, Seq<S>),
    mu: S,
    j2: S,
    re: S,
    from: int,
    to: int,
)
    requires
        0 <= from <= to <= r.0.len(),
        r.1.len() == r.0.len(),
        r.2.len() == r.0.len(),
    ensures
        j2_accel_all(
            (r.0.subrange(from, to), r.1.subrange(from, to), r.2.subrange(from, to)),
            mu,
            j2,
            re,
        ).0 == j2_accel_all(r, mu, j2, re).0.subrange(from, to),
        j2_accel_all(
            (r.0.subrange(from, to), r.1.subrange(from, to), r.2.subrange(from, to)),
            mu,
            j2,
            re,
        ).1 == j2_accel_all(r, mu, j2, re).1.subrange(from, to),
        j2_accel_all(
            (r.0.subrange(from, to), r.1.subrange(from, to), r.2.subrange(from, to)),
            mu,
            j2,
            re,
        ).2 == j2_accel_all(r, mu, j2, re).2.subrange(from, to),
{
    let part = j2_accel_all(
        (r.0.subrange(from, to), r.1.subrange(from, to), r.2.subrange(from, to)),
        mu,
        j2,
        re,
    );
    let whole = j2_accel_all(r, mu, j2, re);
    assert(part.0 =~= whole.0.subrange(from, to));
    assert(part.1 =~= whole.1.subrange(from, to));
    assert(part.2 =~= whole.2.subrange(from, to));
}

/// A position and a velocity: `(x, y, z, vx, vy, vz)`.
pub type State<S> = (S, S, S, S, S, S);

/// `a + h·b`, component by component, rounded once each.
pub open spec fn advance<S: Double>(h: S, b: (S, S, S), a: (S, S, S)) -> (S, S, S) {
    (h.fma_spec(b.0, a.0), h.fma_spec(b.1, a.1), h.fma_spec(b.2, a.2))
}

/// Computes [`advance`].
fn advance_one<S: Double>(h: S, b: (S, S, S), a: (S, S, S)) -> (r: (S, S, S))
    ensures
        r == advance(h, b, a),
{
    (h.fma(b.0, a.0), h.fma(b.1, a.1), h.fma(b.2, a.2))
}

/// `(a + 2·b) + (2·c + d)`, component by component.
pub open spec fn weigh<S: Double>(
    a: (S, S, S),
    b: (S, S, S),
    c: (S, S, S),
    d: (S, S, S),
) -> (S, S, S) {
    let two = S::of_raw_spec(F64_TWO);
    let ab = advance(two, b, a);
    let cd = advance(two, c, d);
    (ab.0.add_spec(cd.0), ab.1.add_spec(cd.1), ab.2.add_spec(cd.2))
}

/// Computes [`weigh`].
fn weigh_one<S: Double>(a: (S, S, S), b: (S, S, S), c: (S, S, S), d: (S, S, S)) -> (r: (S, S, S))
    ensures
        r == weigh(a, b, c, d),
{
    let two: S = S::of_raw(F64_TWO);
    let ab = advance_one(two, b, a);
    let cd = advance_one(two, c, d);
    (ab.0.add(cd.0), ab.1.add(cd.1), ab.2.add(cd.2))
}

/// One Runge-Kutta step of length `h`: four stages of positions `r`, velocities `v` and
/// accelerations `k`.
pub open spec fn rk4_step<S: Double>(
    x: S,
    y: S,
    z: S,
    vx: S,
    vy: S,
    vz: S,
    mu: S,
    j2: S,
    re: S,
    h: S,
) -> State<S> {
    let j2k = j2_coefficient(mu, j2, re);
    let half = S::of_raw_spec(F64_HALF).mul_spec(h);
    let sixth = h.div_spec(S::of_raw_spec(F64_SIX));
    let r1 = (x, y, z);
    let v1 = (vx, vy, vz);
    let k1 = gravity(r1.0, r1.1, r1.2, mu, j2k);
    let r2 = advance(half, v1, r1);
    let v2 = advance(half, k1, v1);
    let k2 = gravity(r2.0, r2.1, r2.2, mu, j2k);
    let r3 = advance(half, v2, r1);
    let v3 = advance(half, k2, v1);
    let k3 = gravity(r3.0, r3.1, r3.2, mu, j2k);
    let r4 = advance(h, v3, r1);
    let v4 = advance(h, k3, v1);
    let k4 = gravity(r4.0, r4.1, r4.2, mu, j2k);
    let r = advance(sixth, weigh(v1, v2, v3, v4), r1);
    let v = advance(sixth, weigh(k1, k2, k3, k4), v1);
    (r.0, r.1, r.2, v.0, v.1, v.2)
}

/// Computes [`rk4_step`].
pub fn rk4_step_one<S: Double>(
    x: S,
    y: S,
    z: S,
    vx: S,
    vy: S,
    vz: S,
    mu: S,
    j2: S,
    re: S,
    h: S,
) -> (s: State<S>)
    ensures
        s == rk4_step(x, y, z, vx, vy, vz, mu, j2, re, h),
{
    let j2k: S = j2_coefficient_one(mu, j2, re);
    let half: S = S::of_raw(F64_HALF).mul(h);
    let sixth: S = h.div(S::of_raw(F64_SIX));
    let r1 = (x, y, z);
    let v1 = (vx, vy, vz);
    let k1 = gravity_one(r1.0, r1.1, r1.2, mu, j2k);
    let r2 = advance_one(half, v1, r1);
    let v2 = advance_one(half, k1, v1);
    let k2 = gravity_one(r2.0, r2.1, r2.2, mu, j2k);
    let r3 = advance_one(half, v2, r1);
    let v3 = advance_one(half, k2, v1);
    let k3 = gravity_one(r3.0, r3.1, r3.2, mu, j2k);
    let r4 = advance_one(h, v3, r1);
    let v4 = advance_one(h, k3, v1);
    let k4 = gravity_one(r4.0, r4.1, r4.2, mu, j2k);
    let r = advance_one(sixth, weigh_one(v1, v2, v3, v4), r1);
    let v = advance_one(sixth, weigh_one(k1, k2, k3, k4), v1);
    (r.0, r.1, r.2, v.0, v.1, v.2)
}

/// A batch of states, one step later.
pub open spec fn rk4_step_all<S: Double>(
    s: (Seq<S>, Seq<S>, Seq<S>, Seq<S>, Seq<S>, Seq<S>),
    mu: S,
    j2: S,
    re: S,
    dt: S,
) -> (Seq<S>, Seq<S>, Seq<S>, Seq<S>, Seq<S>, Seq<S>) {
    (
        Seq::new(
            s.0.len(),
            |i: int| rk4_step(s.0[i], s.1[i], s.2[i], s.3[i], s.4[i], s.5[i], mu, j2, re, dt).0,
        ),
        Seq::new(
            s.0.len(),
            |i: int| rk4_step(s.0[i], s.1[i], s.2[i], s.3[i], s.4[i], s.5[i], mu, j2, re, dt).1,
        ),
        Seq::new(
            s.0.len(),
            |i: int| rk4_step(s.0[i], s.1[i], s.2[i], s.3[i], s.4[i], s.5[i], mu, j2, re, dt).2,
        ),
        Seq::new(
            s.0.len(),
            |i: int| rk4_step(s.0[i], s.1[i], s.2[i], s.3[i], s.4[i], s.5[i], mu, j2, re, dt).3,
        ),
        Seq::new(
            s.0.len(),
            |i: int| rk4_step(s.0[i], s.1[i], s.2[i], s.3[i], s.4[i], s.5[i], mu, j2, re, dt).4,
        ),
        Seq::new(
            s.0.len(),
            |i: int| rk4_step(s.0[i], s.1[i], s.2[i], s.3[i], s.4[i], s.5[i], mu, j2, re, dt).5,
        ),
    )
}

/// Elements `[from, to)` of the batch; the others are left alone.
fn rk4_step_run<S: Double>(
    rx: &mut [S],
    ry: &mut [S],
    rz: &mut [S],
    vx: &mut [S],
    vy: &mut [S],
    vz: &mut [S],
    mu: S,
    j2: S,
    re: S,
    dt: S,
    from: usize,
    to: usize,
)
    requires
        from <= to <= old(rx)@.len(),
        old(ry)@.len() == old(rx)@.len(),
        old(rz)@.len() == old(rx)@.len(),
        old(vx)@.len() == old(rx)@.len(),
        old(vy)@.len() == old(rx)@.len(),
        old(vz)@.len() == old(rx)@.len(),
    ensures
        final(rx)@.len() == old(rx)@.len(),
        forall|t: int|
            0 <= t < old(rx)@.len() ==> #[trigger] final(rx)@[t] == if from <= t < to {
                rk4_step(
                    old(rx)@[t],
                    old(ry)@[t],
                    old(rz)@[t],
                    old(vx)@[t],
                    old(vy)@[t],
                    old(vz)@[t],
                    mu,
                    j2,
                    re,
                    dt,
                ).0
            } else {
                old(rx)@[t]
            },
        final(ry)@.len() == old(ry)@.len(),
        forall|t: int|
            0 <= t < old(ry)@.len() ==> #[trigger] final(ry)@[t] == if from <= t < to {
                rk4_step(
                    old(rx)@[t],
                    old(ry)@[t],
                    old(rz)@[t],
                    old(vx)@[t],
                    old(vy)@[t],
                    old(vz)@[t],
                    mu,
                    j2,
                    re,
                    dt,
                ).1
            } else {
                old(ry)@[t]
            },
        final(rz)@.len() == old(rz)@.len(),
        forall|t: int|
            0 <= t < old(rz)@.len() ==> #[trigger] final(rz)@[t] == if from <= t < to {
                rk4_step(
                    old(rx)@[t],
                    old(ry)@[t],
                    old(rz)@[t],
                    old(vx)@[t],
                    old(vy)@[t],
                    old(vz)@[t],
                    mu,
                    j2,
                    re,
                    dt,
                ).2
            } else {
                old(rz)@[t]
            },
        final(vx)@.len() == old(vx)@.len(),
        forall|t: int|
            0 <= t < old(vx)@.len() ==> #[trigger] final(vx)@[t] == if from <= t < to {
                rk4_step(
                    old(rx)@[t],
                    old(ry)@[t],
                    old(rz)@[t],
                    old(vx)@[t],
                    old(vy)@[t],
                    old(vz)@[t],
                    mu,
                    j2,
                    re,
                    dt,
                ).3
            } else {
                old(vx)@[t]
            },
        final(vy)@.len() == old(vy)@.len(),
        forall|t: int|
            0 <= t < old(vy)@.len() ==> #[trigger] final(vy)@[t] == if from <= t < to {
                rk4_step(
                    old(rx)@[t],
                    old(ry)@[t],
                    old(rz)@[t],
                    old(vx)@[t],
                    old(vy)@[t],
                    old(vz)@[t],
                    mu,
                    j2,
                    re,
                    dt,
                ).4
            } else {
                old(vy)@[t]
            },
        final(vz)@.len() == old(vz)@.len(),
        forall|t: int|
            0 <= t < old(vz)@.len() ==> #[trigger] final(vz)@[t] == if from <= t < to {
                rk4_step(
                    old(rx)@[t],
                    old(ry)@[t],
                    old(rz)@[t],
                    old(vx)@[t],
                    old(vy)@[t],
                    old(vz)@[t],
                    mu,
                    j2,
                    re,
                    dt,
                ).5
            } else {
                old(vz)@[t]
            },
{
    let ghost rx0 = rx@;
    let ghost ry0 = ry@;
    let ghost rz0 = rz@;
    let ghost vx0 = vx@;
    let ghost vy0 = vy@;
    let ghost vz0 = vz@;
    let mut i: usize = from;
    while i < to
        invariant
            from <= i <= to <= rx@.len(),
            ry@.len() == rx@.len(),
            rz@.len() == rx@.len(),
            vx@.len() == rx@.len(),
            vy@.len() == rx@.len(),
            vz@.len() == rx@.len(),
            rx0.len() == rx@.len(),
            ry0.len() == ry@.len(),
            rz0.len() == rz@.len(),
            vx0.len() == vx@.len(),
            vy0.len() == vy@.len(),
            vz0.len() == vz@.len(),
            forall|t: int|
                0 <= t < rx0.len() ==> #[trigger] rx@[t] == if from <= t < i {
                    rk4_step(rx0[t], ry0[t], rz0[t], vx0[t], vy0[t], vz0[t], mu, j2, re, dt).0
                } else {
                    rx0[t]
                },
            forall|t: int|
                0 <= t < ry0.len() ==> #[trigger] ry@[t] == if from <= t < i {
                    rk4_step(rx0[t], ry0[t], rz0[t], vx0[t], vy0[t], vz0[t], mu, j2, re, dt).1
                } else {
                    ry0[t]
                },
            forall|t: int|
                0 <= t < rz0.len() ==> #[trigger] rz@[t] == if from <= t < i {
                    rk4_step(rx0[t], ry0[t], rz0[t], vx0[t], vy0[t], vz0[t], mu, j2, re, dt).2
                } else {
                    rz0[t]
                },
            forall|t: int|
                0 <= t < vx0.len() ==> #[trigger] vx@[t] == if from <= t < i {
                    rk4_step(rx0[t], ry0[t], rz0[t], vx0[t], vy0[t], vz0[t], mu, j2, re, dt).3
                } else {
                    vx0[t]
                },
            forall|t: int|
                0 <= t < vy0.len() ==> #[trigger] vy@[t] == if from <= t < i {
                    rk4_step(rx0[t], ry0[t], rz0[t], vx0[t], vy0[t], vz0[t], mu, j2, re, dt).4
                } else {
                    vy0[t]
                },
            forall|t: int|
                0 <= t < vz0.len() ==> #[trigger] vz@[t] == if from <= t < i {
                    rk4_step(rx0[t], ry0[t], rz0[t], vx0[t], vy0[t], vz0[t], mu, j2, re, dt).5
                } else {
                    vz0[t]
                },
        decreases to - i,
    {
        let r = rk4_step_one(rx[i], ry[i], rz[i], vx[i], vy[i], vz[i], mu, j2, re, dt);
        rx[i] = r.0;
        ry[i] = r.1;
        rz[i] = r.2;
        vx[i] = r.3;
        vy[i] = r.4;
        vz[i] = r.5;
        i = i + 1;
    }
}

/// Advances every state by one step of length `dt`, in place.
///
/// Whole vectors first, then the rest; the result does not depend on the path.
pub fn rk4_j2_step_batch<S: Double>(
    path: SimdPath,
    rx: &mut [S],
    ry: &mut [S],
    rz: &mut [S],
    vx: &mut [S],
    vy: &mut [S],
    vz: &mut [S],
    mu: S,
    j2: S,
    re: S,
    dt: S,
)
    requires
        old(ry)@.len() == old(rx)@.len(),
        old(rz)@.len() == old(rx)@.len(),
        old(vx)@.len() == old(rx)@.len(),
        old(vy)@.len() == old(rx)@.len(),
        old(vz)@.len() == old(rx)@.len(),
    ensures
        (final(rx)@, final(ry)@, final(rz)@, final(vx)@, final(vy)@, final(vz)@) == rk4_step_all(
            (old(rx)@, old(ry)@, old(rz)@, old(vx)@, old(vy)@, old(vz)@),
            mu,
            j2,
            re,
            dt,
        ),
{
    let ghost rx0 = rx@;
    let ghost ry0 = ry@;
    let ghost rz0 = rz@;
    let ghost vx0 = vx@;
    let ghost vy0 = vy@;
    let ghost vz0 = vz@;
    let n: usize = rx.len();
    let width: usize = match path {
        SimdPath::Lasx => 4,
        SimdPath::Lsx => 1,
    };
    let mut i: usize = 0;
    while width <= n - i
        invariant
            0 < width,
            i <= n,
            rx@.len() == n,
            ry@.len() == n,
            rz@.len() == n,
            vx@.len() == n,
            vy@.len() == n,
            vz@.len() == n,
            rx0.len() == n,
            ry0.len() == n,
            rz0.len() == n,
            vx0.len() == n,
            vy0.len() == n,
            vz0.len() == n,
            forall|t: int|
                0 <= t < n ==> #[trigger] rx@[t] == if t < i {
                    rk4_step(rx0[t], ry0[t], rz0[t], vx0[t], vy0[t], vz0[t], mu, j2, re, dt).0
                } else {
                    rx0[t]
                },
            forall|t: int|
                0 <= t < n ==> #[trigger] ry@[t] == if t < i {
                    rk4_step(rx0[t], ry0[t], rz0[t], vx0[t], vy0[t], vz0[t], mu, j2, re, dt).1
                } else {
                    ry0[t]
                },
            forall|t: int|
                0 <= t < n ==> #[trigger] rz@[t] == if t < i {
                    rk4_step(rx0[t], ry0[t], rz0[t], vx0[t], vy0[t], vz0[t], mu, j2, re, dt).2
                } else {
                    rz0[t]
                },
            forall|t: int|
                0 <= t < n ==> #[trigger] vx@[t] == if t < i {
                    rk4_step(rx0[t], ry0[t], rz0[t], vx0[t], vy0[t], vz0[t], mu, j2, re, dt).3
                } else {
                    vx0[t]
                },
            forall|t: int|
                0 <= t < n ==> #[trigger] vy@[t] == if t < i {
                    rk4_step(rx0[t], ry0[t], rz0[t], vx0[t], vy0[t], vz0[t], mu, j2, re, dt).4
                } else {
                    vy0[t]
                },
            forall|t: int|
                0 <= t < n ==> #[trigger] vz@[t] == if t < i {
                    rk4_step(rx0[t], ry0[t], rz0[t], vx0[t], vy0[t], vz0[t], mu, j2, re, dt).5
                } else {
                    vz0[t]
                },
        decreases n - i,
    {
        rk4_step_run(rx, ry, rz, vx, vy, vz, mu, j2, re, dt, i, i + width);
        i = i + width;
    }
    rk4_step_run(rx, ry, rz, vx, vy, vz, mu, j2, re, dt, i, n);
    proof {
        let want = rk4_step_all((rx0, ry0, rz0, vx0, vy0, vz0), mu, j2, re, dt);
        assert(rx@ =~= want.0);
        assert(ry@ =~= want.1);
        assert(rz@ =~= want.2);
        assert(vx@ =~= want.3);
        assert(vy@ =~= want.4);
        assert(vz@ =~= want.5);
    }
}

/// Law: each output depends on its own inputs alone, so a batch may be cut anywhere.
pub proof fn law_rk4_j2_step_batch_split<S: Double>(
    s: (Seq<S>, Seq<S>, Seq<S>, Seq<S>, Seq<S>, Seq<S>),
    mu: S,
    j2: S,
    re: S,
    dt: S,
    from: int,
    to: int,
)
    requires
        0 <= from <= to <= s.0.len(),
        s.1.len() == s.0.len(),
        s.2.len() == s.0.len(),
        s.3.len() == s.0.len(),
        s.4.len() == s.0.len(),
        s.5.len() == s.0.len(),
    ensures
        rk4_step_all(
            (
                s.0.subrange(from, to),
                s.1.subrange(from, to),
                s.2.subrange(from, to),
                s.3.subrange(from, to),
                s.4.subrange(from, to),
                s.5.subrange(from, to),
            ),
            mu,
            j2,
            re,
            dt,
        ).0 == rk4_step_all(s, mu, j2, re, dt).0.subrange(from, to),
        rk4_step_all(
            (
                s.0.subrange(from, to),
                s.1.subrange(from, to),
                s.2.subrange(from, to),
                s.3.subrange(from, to),
                s.4.subrange(from, to),
                s.5.subrange(from, to),
            ),
            mu,
            j2,
            re,
            dt,
        ).1 == rk4_step_all(s, mu, j2, re, dt).1.subrange(from, to),
        rk4_step_all(
            (
                s.0.subrange(from, to),
                s.1.subrange(from, to),
                s.2.subrange(from, to),
                s.3.subrange(from, to),
                s.4.subrange(from, to),
                s.5.subrange(from, to),
            ),
            mu,
            j2,
            re,
            dt,
        ).2 == rk4_step_all(s, mu, j2, re, dt).2.subrange(from, to),
        rk4_step_all(
            (
                s.0.subrange(from, to),
                s.1.subrange(from, to),
                s.2.subrange(from, to),
                s.3.subrange(from, to),
                s.4.subrange(from, to),
                s.5.subrange(from, to),
            ),
            mu,
            j2,
            re,
            dt,
        ).3 == rk4_step_all(s, mu, j2, re, dt).3.subrange(from, to),
        rk4_step_all(
            (
                s.0.subrange(from, to),
                s.1.subrange(from, to),
                s.2.subrange(from, to),
                s.3.subrange(from, to),
                s.4.subrange(from, to),
                s.5.subrange(from, to),
            ),
            mu,
            j2,
            re,
            dt,
        ).4 == rk4_step_all(s, mu, j2, re, dt).4.subrange(from, to),
        rk4_step_all(
            (
                s.0.subrange(from, to),
                s.1.subrange(from, to),
                s.2.subrange(from, to),
                s.3.subrange(from, to),
                s.4.subrange(from, to),
                s.5.subrange(from, to),
            ),
            mu,
            j2,
            re,
            dt,
        ).5 == rk4_step_all(s, mu, j2, re, dt).5.subrange(from, to),
{
    let part = rk4_step_all(
        (
            s.0.subrange(from, to),
            s.1.subrange(from, to),
            s.2.subrange(from, to),
            s.3.subrange(from, to),
            s.4.subrange(from, to),
            s.5.subrange(from, to),
        ),
        mu,
        j2,
        re,
        dt,
    );
    let whole = rk4_step_all(s, mu, j2, re, dt);
    assert(part.0 =~= whole.0.subrange(from, to));
    assert(part.1 =~= whole.1.subrange(from, to));
    assert(part.2 =~= whole.2.subrange(from, to));
    assert(part.3 =~= whole.3.subrange(from, to));
    assert(part.4 =~= whole.4.subrange(from, to));
    assert(part.5 =~= whole.5.subrange(from, to));
}

} // verus!
