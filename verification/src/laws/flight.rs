//! Laws of the ballistic step.
use crate::arch::SimdPath;
use crate::exact::{is_real_root, Exact, ExactSingle};
use crate::ops::ballistic::{stepped, Shot};
use crate::scalar::Scalar;
use vstd::prelude::*;

verus! {

/// Law: a projectile of a batch is slowed down by `k·|v|·v`, falls with `g` along the second
/// axis, and moves by its new velocity along all three, wherever in the batch it stands.
pub proof fn law_ballistic_step<S: ExactSingle>(
    path: SimdPath,
    n: int,
    i: int,
    s: Shot<S>,
    k: S,
    dt: S,
    g: S,
    speed: real,
)
    requires
        0 <= i < n,
        is_real_root(
            s.3.value() * s.3.value() + s.4.value() * s.4.value() + s.5.value() * s.5.value(),
            speed,
        ),
    ensures
        ({
            let t = stepped(path, n, i, s, k, dt, g);
            let (h, drag) = (dt.value(), k.value() * speed);
            &&& t.3.value() == s.3.value() - h * drag * s.3.value()
            &&& t.4.value() == s.4.value() - h * (drag * s.4.value() + g.value())
            &&& t.5.value() == s.5.value() - h * drag * s.5.value()
            &&& t.0.value() == s.0.value() + h * t.3.value()
            &&& t.1.value() == s.1.value() + h * t.4.value()
            &&& t.2.value() == s.2.value() + h * t.5.value()
        }),
{
    S::no_rounding();
    let (vx, vy, vz) = (s.3, s.4, s.5);
    S::exact_root(
        vx.mul_spec(vx).add_spec(vy.mul_spec(vy).add_spec(vz.mul_spec(vz))),
        speed,
    );
    S::exact_root(
        vx.mul_spec(vx).add_spec(vy.mul_spec(vy)).add_spec(vz.mul_spec(vz)),
        speed,
    );
    let t = stepped(path, n, i, s, k, dt, g);
    let (h, drag, f) = (dt.value(), k.value() * speed, g.value());
    let (a, b, c) = (vx.value(), vy.value(), vz.value());
    assert(drag * a * h == h * drag * a) by (nonlinear_arith);
    assert(drag * c * h == h * drag * c) by (nonlinear_arith);
    assert((drag * b + f) * h == h * (drag * b + f)) by (nonlinear_arith);
    assert(drag * b * h + f * h == h * (drag * b + f)) by (nonlinear_arith);
    let (p, q, r) = (t.3.value(), t.4.value(), t.5.value());
    assert(p * h == h * p && q * h == h * q && r * h == h * r) by (nonlinear_arith);
}

} // verus!
