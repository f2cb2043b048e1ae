//! Batch ballistic step: drag and gravity, explicit Euler.
//!
//! Whole vectors and single elements associate their operations differently; both orders
//! are part of the contract.
use crate::arch::SimdPath;
use crate::scalar::{Scalar, Single};
use vstd::prelude::*;

verus! {

/// A position and a velocity: `(x, y, z, vx, vy, vz)`.
pub type Shot<S> = (S, S, S, S, S, S);

/// One step of a projectile inside a whole vector: the new position is rounded once.
pub open spec fn vector_step<S: Single>(
    x: S,
    y: S,
    z: S,
    vx: S,
    vy: S,
    vz: S,
    k: S,
    dt: S,
    g: S,
) -> (S, S, S, S, S, S) {
    let speed = vx.mul_spec(vx).add_spec(vy.mul_spec(vy).add_spec(vz.mul_spec(vz))).sqrt_spec();
    let drag = k.mul_spec(speed);
    let nx = vx.sub_spec(drag.mul_spec(vx).mul_spec(dt));
    let ny = vy.sub_spec(drag.mul_spec(vy).mul_spec(dt)).sub_spec(g.mul_spec(dt));
    let nz = vz.sub_spec(drag.mul_spec(vz).mul_spec(dt));
    (nx.fma_spec(dt, x), ny.fma_spec(dt, y), nz.fma_spec(dt, z), nx, ny, nz)
}

/// Computes [`vector_step`].
pub fn vector_step_one<S: Single>(
    x: S,
    y: S,
    z: S,
    vx: S,
    vy: S,
    vz: S,
    k: S,
    dt: S,
    g: S,
) -> (r: (S, S, S, S, S, S))
    ensures
        r == vector_step(x, y, z, vx, vy, vz, k, dt, g),
{
    let speed: S = vx.mul(vx).add(vy.mul(vy).add(vz.mul(vz))).sqrt();
    let drag: S = k.mul(speed);
    let nx: S = vx.sub(drag.mul(vx).mul(dt));
    let ny: S = vy.sub(drag.mul(vy).mul(dt)).sub(g.mul(dt));
    let nz: S = vz.sub(drag.mul(vz).mul(dt));
    (nx.fma(dt, x), ny.fma(dt, y), nz.fma(dt, z), nx, ny, nz)
}

/// One step of a single projectile.
pub open spec fn euler_step<S: Single>(
    x: S,
    y: S,
    z: S,
    vx: S,
    vy: S,
    vz: S,
    k: S,
    dt: S,
    g: S,
) -> (S, S, S, S, S, S) {
    let speed = vx.mul_spec(vx).add_spec(vy.mul_spec(vy)).add_spec(vz.mul_spec(vz)).sqrt_spec();
    let drag = k.mul_spec(speed);
    let nx = vx.sub_spec(drag.mul_spec(vx).mul_spec(dt));
    let ny = vy.sub_spec(drag.mul_spec(vy).add_spec(g).mul_spec(dt));
    let nz = vz.sub_spec(drag.mul_spec(vz).mul_spec(dt));
    (
        x.add_spec(nx.mul_spec(dt)),
        y.add_spec(ny.mul_spec(dt)),
        z.add_spec(nz.mul_spec(dt)),
        nx,
        ny,
        nz,
    )
}

/// Computes [`euler_step`].
pub fn euler_step_one<S: Single>(
    x: S,
    y: S,
    z: S,
    vx: S,
    vy: S,
    vz: S,
    k: S,
    dt: S,
    g: S,
) -> (r: (S, S, S, S, S, S))
    ensures
        r == euler_step(x, y, z, vx, vy, vz, k, dt, g),
{
    let speed: S = vx.mul(vx).add(vy.mul(vy)).add(vz.mul(vz)).sqrt();
    let drag: S = k.mul(speed);
    let nx: S = vx.sub(drag.mul(vx).mul(dt));
    let ny: S = vy.sub(drag.mul(vy).add(g).mul(dt));
    let nz: S = vz.sub(drag.mul(vz).mul(dt));
    (x.add(nx.mul(dt)), y.add(ny.mul(dt)), z.add(nz.mul(dt)), nx, ny, nz)
}

/// Number of projectiles that are advanced in whole vectors.
pub open spec fn vector_part(path: SimdPath, n: int) -> int {
    match path {
        SimdPath::Lasx => n / 8 * 8,
        SimdPath::Lsx => 0,
    }
}

/// Projectile `i` of a batch of `n`, one step later.
pub open spec fn stepped<S: Single>(
    path: SimdPath,
    n: int,
    i: int,
    s: Shot<S>,
    k: S,
    dt: S,
    g: S,
) -> Shot<S> {
    if i < vector_part(path, n) {
        vector_step(s.0, s.1, s.2, s.3, s.4, s.5, k, dt, g)
    } else {
        euler_step(s.0, s.1, s.2, s.3, s.4, s.5, k, dt, g)
    }
}

/// Projectile `i` of component arrays.
pub open spec fn shot_at<S>(
    x: Seq<S>,
    y: Seq<S>,
    z: Seq<S>,
    vx: Seq<S>,
    vy: Seq<S>,
    vz: Seq<S>,
    i: int,
) -> Shot<S> {
    (x[i], y[i], z[i], vx[i], vy[i], vz[i])
}

/// Advances every projectile by one step of length `dt`, in place.
pub fn ballistic_step<S: Single>(
    path: SimdPath,
    x: &mut [S],
    y: &mut [S],
    z: &mut [S],
    vx: &mut [S],
    vy: &mut [S],
    vz: &mut [S],
    k: &[S],
    dt: S,
    g: S,
)
    requires
        old(y)@.len() == old(x)@.len(),
        old(z)@.len() == old(x)@.len(),
        old(vx)@.len() == old(x)@.len(),
        old(vy)@.len() == old(x)@.len(),
        old(vz)@.len() == old(x)@.len(),
        k@.len() == old(x)@.len(),
    ensures
        final(x)@.len() == old(x)@.len(),
        final(y)@.len() == old(x)@.len(),
        final(z)@.len() == old(x)@.len(),
        final(vx)@.len() == old(x)@.len(),
        final(vy)@.len() == old(x)@.len(),
        final(vz)@.len() == old(x)@.len(),
        forall|i: int|
            0 <= i < old(x)@.len() ==> #[trigger] shot_at(
                final(x)@,
                final(y)@,
                final(z)@,
                final(vx)@,
                final(vy)@,
                final(vz)@,
                i,
            ) == stepped(
                path,
                old(x)@.len() as int,
                i,
                shot_at(old(x)@, old(y)@, old(z)@, old(vx)@, old(vy)@, old(vz)@, i),
                k@[i],
                dt,
                g,
            ),
{
    let ghost x0 = x@;
    let ghost y0 = y@;
    let ghost z0 = z@;
    let ghost vx0 = vx@;
    let ghost vy0 = vy@;
    let ghost vz0 = vz@;
    let n: usize = x.len();
    let whole: usize = match path {
        SimdPath::Lasx => n / 8 * 8,
        SimdPath::Lsx => 0,
    };
    let mut i: usize = 0;
    while i < whole
        invariant
            i <= whole <= n,
            whole == vector_part(path, n as int),
            k@.len() == n,
            x@.len() == n,
            x0.len() == n,
            y@.len() == n,
            y0.len() == n,
            z@.len() == n,
            z0.len() == n,
            vx@.len() == n,
            vx0.len() == n,
            vy@.len() == n,
            vy0.len() == n,
            vz@.len() == n,
            vz0.len() == n,
            forall|t: int|
                0 <= t < i ==> #[trigger] shot_at(x@, y@, z@, vx@, vy@, vz@, t) == stepped(
                    path,
                    n as int,
                    t,
                    shot_at(x0, y0, z0, vx0, vy0, vz0, t),
                    k@[t],
                    dt,
                    g,
                ),
            forall|t: int| i <= t < n ==> #[trigger] shot_at(
                x@,
                y@,
                z@,
                vx@,
                vy@,
                vz@,
                t,
            ) == shot_at(x0, y0, z0, vx0, vy0, vz0, t),
        decreases whole - i,
    {
        let ghost (x1, y1, z1, vx1, vy1, vz1) = (x@, y@, z@, vx@, vy@, vz@);
        proof {
            assert(
                shot_at(x@, y@, z@, vx@, vy@, vz@, i as int) == shot_at(
                    x0,
                    y0,
                    z0,
                    vx0,
                    vy0,
                    vz0,
                    i as int,
                )
            );
        }
        let r = vector_step_one(x[i], y[i], z[i], vx[i], vy[i], vz[i], k[i], dt, g);
        x[i] = r.0;
        y[i] = r.1;
        z[i] = r.2;
        vx[i] = r.3;
        vy[i] = r.4;
        vz[i] = r.5;
        proof {
            assert forall|t: int| 0 <= t < n && t != i implies #[trigger] shot_at(
                x@,
                y@,
                z@,
                vx@,
                vy@,
                vz@,
                t,
            ) == shot_at(x1, y1, z1, vx1, vy1, vz1, t) by {
            }
        }
        i = i + 1;
    }
    while i < n
        invariant
            whole <= i <= n,
            whole == vector_part(path, n as int),
            k@.len() == n,
            x@.len() == n,
            x0.len() == n,
            y@.len() == n,
            y0.len() == n,
            z@.len() == n,
            z0.len() == n,
            vx@.len() == n,
            vx0.len() == n,
            vy@.len() == n,
            vy0.len() == n,
            vz@.len() == n,
            vz0.len() == n,
            forall|t: int|
                0 <= t < i ==> #[trigger] shot_at(x@, y@, z@, vx@, vy@, vz@, t) == stepped(
                    path,
                    n as int,
                    t,
                    shot_at(x0, y0, z0, vx0, vy0, vz0, t),
                    k@[t],
                    dt,
                    g,
                ),
            forall|t: int| i <= t < n ==> #[trigger] shot_at(
                x@,
                y@,
                z@,
                vx@,
                vy@,
                vz@,
                t,
            ) == shot_at(x0, y0, z0, vx0, vy0, vz0, t),
        decreases n - i,
    {
        let ghost (x1, y1, z1, vx1, vy1, vz1) = (x@, y@, z@, vx@, vy@, vz@);
        proof {
            assert(
                shot_at(x@, y@, z@, vx@, vy@, vz@, i as int) == shot_at(
                    x0,
                    y0,
                    z0,
                    vx0,
                    vy0,
                    vz0,
                    i as int,
                )
            );
        }
        let r = euler_step_one(x[i], y[i], z[i], vx[i], vy[i], vz[i], k[i], dt, g);
        x[i] = r.0;
        y[i] = r.1;
        z[i] = r.2;
        vx[i] = r.3;
        vy[i] = r.4;
        vz[i] = r.5;
        proof {
            assert forall|t: int| 0 <= t < n && t != i implies #[trigger] shot_at(
                x@,
                y@,
                z@,
                vx@,
                vy@,
                vz@,
                t,
            ) == shot_at(x1, y1, z1, vx1, vy1, vz1, t) by {
            }
        }
        i = i + 1;
    }
}

/// Law: a batch may be cut at a multiple of eight (anywhere without vectors): every
/// projectile takes the same step in its part as in the whole.
pub proof fn law_ballistic_split<S: Single>(
    path: SimdPath,
    n: int,
    cut: int,
    i: int,
    s: Shot<S>,
    k: S,
    dt: S,
    g: S,
)
    requires
        0 <= cut <= n,
        path == SimdPath::Lasx ==> cut % 8 == 0,
        0 <= i < n,
    ensures
        i < cut ==> stepped(path, cut, i, s, k, dt, g) == stepped(path, n, i, s, k, dt, g),
        i >= cut ==> stepped(path, n - cut, i - cut, s, k, dt, g) == stepped(
            path,
            n,
            i,
            s,
            k,
            dt,
            g,
        ),
{
}

} // verus!
