//! The law of the fourth-order step.
use crate::exact::{Exact, ExactDouble};
use crate::ops::orbit::{advance, j2_accel, j2_accel_all, rk4_step, rk4_step_all, weigh};
use crate::scalar::Scalar;
use vstd::prelude::*;

verus! {

/// A point or a vector in space.
pub type Triple = (real, real, real);

/// `a + h·b`.
#[verifier::opaque]
pub open spec fn moved(a: Triple, h: real, b: Triple) -> Triple {
    (a.0 + h * b.0, a.1 + h * b.1, a.2 + h * b.2)
}

/// The real numbers that three coordinates stand for.
pub open spec fn values<S: Exact>(p: (S, S, S)) -> Triple {
    (p.0.value(), p.1.value(), p.2.value())
}

/// `a + 2·b + 2·c + d`.
#[verifier::opaque]
pub open spec fn weighed(a: Triple, b: Triple, c: Triple, d: Triple) -> Triple {
    (
        a.0 + 2real * b.0 + 2real * c.0 + d.0,
        a.1 + 2real * b.1 + 2real * c.1 + d.1,
        a.2 + 2real * b.2 + 2real * c.2 + d.2,
    )
}

/// `(r, v)` becomes `(s, w)` in one step of length `h`, where `f` is the acceleration at a
/// position: it is taken at the start, twice in the middle and at the end, and the
/// derivatives weigh one, two, two and one sixths.
pub open spec fn is_runge_kutta_step(
    f: spec_fn(Triple) -> Triple,
    h: real,
    r: Triple,
    v: Triple,
    s: Triple,
    w: Triple,
) -> bool {
    let half = (1real / 2real) * h;
    let f1 = f(r);
    let v2 = moved(v, half, f1);
    let f2 = f(moved(r, half, v));
    let v3 = moved(v, half, f2);
    let f3 = f(moved(r, half, v2));
    let v4 = moved(v, h, f3);
    let f4 = f(moved(r, h, v3));
    &&& s == moved(r, h / 6real, weighed(v, v2, v3, v4))
    &&& w == moved(v, h / 6real, weighed(f1, f2, f3, f4))
}

/// `f` is the acceleration at every position.
pub open spec fn is_field<S: ExactDouble>(
    mu: S,
    j2: S,
    re: S,
    f: spec_fn(Triple) -> Triple,
) -> bool {
    forall|p: (S, S, S)|
        #[trigger] values(pull(p, mu, j2, re)) == f(values(p))
}

proof fn lemma_advance<S: ExactDouble>(h: S, b: (S, S, S), a: (S, S, S))
    ensures
        values(advance(h, b, a)) == moved(values(a), h.value(), values(b)),
{
    reveal(moved);
    S::no_rounding();
}

proof fn lemma_weigh<S: ExactDouble>(a: (S, S, S), b: (S, S, S), c: (S, S, S), d: (S, S, S))
    ensures
        values(weigh(a, b, c, d)) == weighed(values(a), values(b), values(c), values(d)),
{
    reveal(weighed);
    S::no_rounding();
    S::constants();
}

proof fn lemma_lengths<S: ExactDouble>(h: S)
    ensures
        S::of_raw_spec(0x3fe0_0000_0000_0000).mul_spec(h).value() == (1real / 2real) * h.value(),
        h.div_spec(S::of_raw_spec(0x4018_0000_0000_0000)).value() == h.value() / 6real,
{
    S::no_rounding();
    S::constants();
}

/// The acceleration at a position.
#[verifier::opaque]
pub open spec fn pull<S: ExactDouble>(p: (S, S, S), mu: S, j2: S, re: S) -> (S, S, S) {
    j2_accel(p.0, p.1, p.2, mu, j2, re)
}

/// The four accelerations of a step, by which a state moves on.
proof fn lemma_stages<S: ExactDouble>(
    r1: (S, S, S),
    v1: (S, S, S),
    mu: S,
    j2: S,
    re: S,
    dt: S,
    k: ((S, S, S), (S, S, S), (S, S, S), (S, S, S)),
)
    requires
        ({
            let half = S::of_raw_spec(0x3fe0_0000_0000_0000).mul_spec(dt);
            &&& k.0 == pull(r1, mu, j2, re)
            &&& k.1 == pull(advance(half, v1, r1), mu, j2, re)
            &&& k.2 == pull(advance(half, advance(half, k.0, v1), r1), mu, j2, re)
            &&& k.3 == pull(advance(dt, advance(half, k.1, v1), r1), mu, j2, re)
        }),
    ensures
        ({
            let half = S::of_raw_spec(0x3fe0_0000_0000_0000).mul_spec(dt);
            let sixth = dt.div_spec(S::of_raw_spec(0x4018_0000_0000_0000));
            let v = weigh(v1, advance(half, k.0, v1), advance(half, k.1, v1), advance(dt, k.2, v1));
            let t = rk4_step(r1.0, r1.1, r1.2, v1.0, v1.1, v1.2, mu, j2, re, dt);
            &&& (t.0, t.1, t.2) == advance(sixth, v, r1)
            &&& (t.3, t.4, t.5) == advance(sixth, weigh(k.0, k.1, k.2, k.3), v1)
        }),
{
    reveal(pull);
}

/// The step of one state.
proof fn lemma_rk4_step<S: ExactDouble>(
    r1: (S, S, S),
    v1: (S, S, S),
    mu: S,
    j2: S,
    re: S,
    dt: S,
    f: spec_fn(Triple) -> Triple,
)
    requires
        is_field(mu, j2, re, f),
    ensures
        ({
            let t = rk4_step(r1.0, r1.1, r1.2, v1.0, v1.1, v1.2, mu, j2, re, dt);
            is_runge_kutta_step(
                f,
                dt.value(),
                values(r1),
                values(v1),
                values((t.0, t.1, t.2)),
                values((t.3, t.4, t.5)),
            )
        }),
{
    let half = S::of_raw_spec(0x3fe0_0000_0000_0000).mul_spec(dt);
    let sixth = dt.div_spec(S::of_raw_spec(0x4018_0000_0000_0000));
    lemma_lengths(dt);
    let k1 = pull(r1, mu, j2, re);
    let r2 = advance(half, v1, r1);
    let v2 = advance(half, k1, v1);
    let k2 = pull(r2, mu, j2, re);
    let r3 = advance(half, v2, r1);
    let v3 = advance(half, k2, v1);
    let k3 = pull(r3, mu, j2, re);
    let r4 = advance(dt, v3, r1);
    let v4 = advance(dt, k3, v1);
    let k4 = pull(r4, mu, j2, re);
    lemma_stages(r1, v1, mu, j2, re, dt, (k1, k2, k3, k4));
    assert(values(k1) == f(values(r1)));
    assert(values(k2) == f(values(r2)));
    assert(values(k3) == f(values(r3)));
    assert(values(k4) == f(values(r4)));
    lemma_advance(half, v1, r1);
    lemma_advance(half, k1, v1);
    lemma_advance(half, v2, r1);
    lemma_advance(half, k2, v1);
    lemma_advance(dt, v3, r1);
    lemma_advance(dt, k3, v1);
    lemma_weigh(v1, v2, v3, v4);
    lemma_weigh(k1, k2, k3, k4);
    lemma_advance(sixth, weigh(v1, v2, v3, v4), r1);
    lemma_advance(sixth, weigh(k1, k2, k3, k4), v1);
}

/// Law: every state of a batch makes one step of the classical fourth-order Runge-Kutta
/// method along the field of the acceleration.
pub proof fn law_rk4_step<S: ExactDouble>(
    s: (Seq<S>, Seq<S>, Seq<S>, Seq<S>, Seq<S>, Seq<S>),
    mu: S,
    j2: S,
    re: S,
    dt: S,
    f: spec_fn(Triple) -> Triple,
    i: int,
)
    requires
        0 <= i < s.0.len(),
        is_field(mu, j2, re, f),
    ensures
        ({
            let t = rk4_step_all(s, mu, j2, re, dt);
            &&& t.0.len() == s.0.len() && t.1.len() == s.0.len() && t.2.len() == s.0.len()
            &&& t.3.len() == s.0.len() && t.4.len() == s.0.len() && t.5.len() == s.0.len()
            &&& is_runge_kutta_step(
                f,
                dt.value(),
                values((s.0[i], s.1[i], s.2[i])),
                values((s.3[i], s.4[i], s.5[i])),
                values((t.0[i], t.1[i], t.2[i])),
                values((t.3[i], t.4[i], t.5[i])),
            )
        }),
{
    lemma_rk4_step((s.0[i], s.1[i], s.2[i]), (s.3[i], s.4[i], s.5[i]), mu, j2, re, dt, f);
}

/// Law: the field is what the batch kernel of the acceleration computes.
pub proof fn law_field<S: ExactDouble>(
    p: (Seq<S>, Seq<S>, Seq<S>),
    mu: S,
    j2: S,
    re: S,
    f: spec_fn(Triple) -> Triple,
    i: int,
)
    requires
        0 <= i < p.0.len(),
        is_field(mu, j2, re, f),
    ensures
        ({
            let a = j2_accel_all(p, mu, j2, re);
            values((a.0[i], a.1[i], a.2[i])) == f(values((p.0[i], p.1[i], p.2[i])))
        }),
{
    let q = (p.0[i], p.1[i], p.2[i]);
    reveal(pull);
    assert(values(pull(q, mu, j2, re)) == f(values(q)));
}

} // verus!
