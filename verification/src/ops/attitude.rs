//! Batch attitude kernels: quaternions and rotation matrices on component arrays.
//!
//! Quaternions are scalar first, `q = w + xi + yj + zk`. Sums run from the left.
use crate::arch::SimdPath;
use crate::scalar::{Double, Scalar, F64_ONE, F64_TWO};
use vstd::prelude::*;

verus! {

/// Pattern of the length below which a quaternion counts as degenerate, `1e-15`.
pub const DEGENERATE: u64 = 0x3cd2_03af_9ee7_5616;

/// Length of a quaternion.
pub open spec fn quat_norm<S: Double>(w: S, x: S, y: S, z: S) -> S {
    let sq = w.mul_spec(w).add_spec(x.mul_spec(x)).add_spec(y.mul_spec(y)).add_spec(z.mul_spec(z));
    sq.sqrt_spec()
}

/// Computes [`quat_norm`].
pub fn quat_norm_one<S: Double>(w: S, x: S, y: S, z: S) -> (r: S)
    ensures
        r == quat_norm(w, x, y, z),
{
    let sq: S = w.mul(w).add(x.mul(x)).add(y.mul(y)).add(z.mul(z));
    sq.sqrt()
}

/// The quaternion scaled to length one; the identity for a degenerate quaternion.
///
/// The four components share one division.
pub open spec fn quat_unit<S: Double>(w: S, x: S, y: S, z: S) -> (S, S, S, S) {
    let n = quat_norm(w, x, y, z);
    if n.lt_spec(S::of_raw_spec(DEGENERATE)) {
        (S::of_raw_spec(F64_ONE), S::of_raw_spec(0), S::of_raw_spec(0), S::of_raw_spec(0))
    } else {
        let inv = S::of_raw_spec(F64_ONE).div_spec(n);
        (w.mul_spec(inv), x.mul_spec(inv), y.mul_spec(inv), z.mul_spec(inv))
    }
}

/// Computes [`quat_unit`].
pub fn quat_unit_one<S: Double>(w: S, x: S, y: S, z: S) -> (r: (S, S, S, S))
    ensures
        r == quat_unit(w, x, y, z),
{
    let n: S = quat_norm_one(w, x, y, z);
    if n.lt(S::of_raw(DEGENERATE)) {
        (S::of_raw(F64_ONE), S::of_raw(0), S::of_raw(0), S::of_raw(0))
    } else {
        let inv: S = S::of_raw(F64_ONE).div(n);
        (w.mul(inv), x.mul(inv), y.mul(inv), z.mul(inv))
    }
}

/// Unit quaternions of a batch of quaternions.
pub open spec fn quat_unit_all<S: Double>(
    q: (Seq<S>, Seq<S>, Seq<S>, Seq<S>),
) -> (Seq<S>, Seq<S>, Seq<S>, Seq<S>) {
    (
        Seq::new(q.0.len(), |i: int| quat_unit(q.0[i], q.1[i], q.2[i], q.3[i]).0),
        Seq::new(q.0.len(), |i: int| quat_unit(q.0[i], q.1[i], q.2[i], q.3[i]).1),
        Seq::new(q.0.len(), |i: int| quat_unit(q.0[i], q.1[i], q.2[i], q.3[i]).2),
        Seq::new(q.0.len(), |i: int| quat_unit(q.0[i], q.1[i], q.2[i], q.3[i]).3),
    )
}

/// Elements `[from, to)` of the batch; the others are left alone.
fn quat_unit_run<S: Double>(
    qw: &mut [S],
    qx: &mut [S],
    qy: &mut [S],
    qz: &mut [S],
    from: usize,
    to: usize,
)
    requires
        from <= to <= old(qw)@.len(),
        old(qx)@.len() == old(qw)@.len(),
        old(qy)@.len() == old(qw)@.len(),
        old(qz)@.len() == old(qw)@.len(),
    ensures
        final(qw)@.len() == old(qw)@.len(),
        forall|t: int|
            0 <= t < old(qw)@.len() ==> #[trigger] final(qw)@[t] == if from <= t < to {
                quat_unit(old(qw)@[t], old(qx)@[t], old(qy)@[t], old(qz)@[t]).0
            } else {
                old(qw)@[t]
            },
        final(qx)@.len() == old(qx)@.len(),
        forall|t: int|
            0 <= t < old(qx)@.len() ==> #[trigger] final(qx)@[t] == if from <= t < to {
                quat_unit(old(qw)@[t], old(qx)@[t], old(qy)@[t], old(qz)@[t]).1
            } else {
                old(qx)@[t]
            },
        final(qy)@.len() == old(qy)@.len(),
        forall|t: int|
            0 <= t < old(qy)@.len() ==> #[trigger] final(qy)@[t] == if from <= t < to {
                quat_unit(old(qw)@[t], old(qx)@[t], old(qy)@[t], old(qz)@[t]).2
            } else {
                old(qy)@[t]
            },
        final(qz)@.len() == old(qz)@.len(),
        forall|t: int|
            0 <= t < old(qz)@.len() ==> #[trigger] final(qz)@[t] == if from <= t < to {
                quat_unit(old(qw)@[t], old(qx)@[t], old(qy)@[t], old(qz)@[t]).3
            } else {
                old(qz)@[t]
            },
{
    let ghost qw0 = qw@;
    let ghost qx0 = qx@;
    let ghost qy0 = qy@;
    let ghost qz0 = qz@;
    let mut i: usize = from;
    while i < to
        invariant
            from <= i <= to <= qw@.len(),
            qx@.len() == qw@.len(),
            qy@.len() == qw@.len(),
            qz@.len() == qw@.len(),
            qw0.len() == qw@.len(),
            qx0.len() == qx@.len(),
            qy0.len() == qy@.len(),
            qz0.len() == qz@.len(),
            forall|t: int|
                0 <= t < qw0.len() ==> #[trigger] qw@[t] == if from <= t < i {
                    quat_unit(qw0[t], qx0[t], qy0[t], qz0[t]).0
                } else {
                    qw0[t]
                },
            forall|t: int|
                0 <= t < qx0.len() ==> #[trigger] qx@[t] == if from <= t < i {
                    quat_unit(qw0[t], qx0[t], qy0[t], qz0[t]).1
                } else {
                    qx0[t]
                },
            forall|t: int|
                0 <= t < qy0.len() ==> #[trigger] qy@[t] == if from <= t < i {
                    quat_unit(qw0[t], qx0[t], qy0[t], qz0[t]).2
                } else {
                    qy0[t]
                },
            forall|t: int|
                0 <= t < qz0.len() ==> #[trigger] qz@[t] == if from <= t < i {
                    quat_unit(qw0[t], qx0[t], qy0[t], qz0[t]).3
                } else {
                    qz0[t]
                },
        decreases to - i,
    {
        let r = quat_unit_one(qw[i], qx[i], qy[i], qz[i]);
        qw[i] = r.0;
        qx[i] = r.1;
        qy[i] = r.2;
        qz[i] = r.3;
        i = i + 1;
    }
}

/// Scales every quaternion to length one, in place.
///
/// Whole vectors first, then the rest; the result does not depend on the path.
pub fn quat_normalize_batch<S: Double>(
    path: SimdPath,
    qw: &mut [S],
    qx: &mut [S],
    qy: &mut [S],
    qz: &mut [S],
)
    requires
        old(qx)@.len() == old(qw)@.len(),
        old(qy)@.len() == old(qw)@.len(),
        old(qz)@.len() == old(qw)@.len(),
    ensures
        (final(qw)@, final(qx)@, final(qy)@, final(qz)@) == quat_unit_all(
            (old(qw)@, old(qx)@, old(qy)@, old(qz)@),
        ),
{
    let ghost qw0 = qw@;
    let ghost qx0 = qx@;
    let ghost qy0 = qy@;
    let ghost qz0 = qz@;
    let n: usize = qw.len();
    let width: usize = match path {
        SimdPath::Lasx => 4,
        SimdPath::Lsx => 2,
    };
    let mut i: usize = 0;
    while width <= n - i
        invariant
            0 < width,
            i <= n,
            qw@.len() == n,
            qx@.len() == n,
            qy@.len() == n,
            qz@.len() == n,
            qw0.len() == n,
            qx0.len() == n,
            qy0.len() == n,
            qz0.len() == n,
            forall|t: int|
                0 <= t < n ==> #[trigger] qw@[t] == if t < i {
                    quat_unit(qw0[t], qx0[t], qy0[t], qz0[t]).0
                } else {
                    qw0[t]
                },
            forall|t: int|
                0 <= t < n ==> #[trigger] qx@[t] == if t < i {
                    quat_unit(qw0[t], qx0[t], qy0[t], qz0[t]).1
                } else {
                    qx0[t]
                },
            forall|t: int|
                0 <= t < n ==> #[trigger] qy@[t] == if t < i {
                    quat_unit(qw0[t], qx0[t], qy0[t], qz0[t]).2
                } else {
                    qy0[t]
                },
            forall|t: int|
                0 <= t < n ==> #[trigger] qz@[t] == if t < i {
                    quat_unit(qw0[t], qx0[t], qy0[t], qz0[t]).3
                } else {
                    qz0[t]
                },
        decreases n - i,
    {
        quat_unit_run(qw, qx, qy, qz, i, i + width);
        i = i + width;
    }
    quat_unit_run(qw, qx, qy, qz, i, n);
    proof {
        let want = quat_unit_all((qw0, qx0, qy0, qz0));
        assert(qw@ =~= want.0);
        assert(qx@ =~= want.1);
        assert(qy@ =~= want.2);
        assert(qz@ =~= want.3);
    }
}

/// Law: each output depends on its own inputs alone, so a batch may be cut anywhere.
pub proof fn law_quat_normalize_batch_split<S: Double>(
    q: (Seq<S>, Seq<S>, Seq<S>, Seq<S>),
    from: int,
    to: int,
)
    requires
        0 <= from <= to <= q.0.len(),
        q.1.len() == q.0.len(),
        q.2.len() == q.0.len(),
        q.3.len() == q.0.len(),
    ensures
        quat_unit_all(
            (
                q.0.subrange(from, to),
                q.1.subrange(from, to),
                q.2.subrange(from, to),
                q.3.subrange(from, to),
            ),
        ).0 == quat_unit_all(q).0.subrange(from, to),
        quat_unit_all(
            (
                q.0.subrange(from, to),
                q.1.subrange(from, to),
                q.2.subrange(from, to),
                q.3.subrange(from, to),
            ),
        ).1 == quat_unit_all(q).1.subrange(from, to),
        quat_unit_all(
            (
                q.0.subrange(from, to),
                q.1.subrange(from, to),
                q.2.subrange(from, to),
                q.3.subrange(from, to),
            ),
        ).2 == quat_unit_all(q).2.subrange(from, to),
        quat_unit_all(
            (
                q.0.subrange(from, to),
                q.1.subrange(from, to),
                q.2.subrange(from, to),
                q.3.subrange(from, to),
            ),
        ).3 == quat_unit_all(q).3.subrange(from, to),
{
    let part = quat_unit_all(
        (
            q.0.subrange(from, to),
            q.1.subrange(from, to),
            q.2.subrange(from, to),
            q.3.subrange(from, to),
        ),
    );
    let whole = quat_unit_all(q);
    assert(part.0 =~= whole.0.subrange(from, to));
    assert(part.1 =~= whole.1.subrange(from, to));
    assert(part.2 =~= whole.2.subrange(from, to));
    assert(part.3 =~= whole.3.subrange(from, to));
}

/// Hamilton product `a ⊗ b`; not normalised.
pub open spec fn quat_mul<S: Double>(
    aw: S,
    ax: S,
    ay: S,
    az: S,
    bw: S,
    bx: S,
    by: S,
    bz: S,
) -> (S, S, S, S) {
    (
        aw.mul_spec(bw).sub_spec(
            ax.mul_spec(bx),
        ).sub_spec(ay.mul_spec(by)).sub_spec(az.mul_spec(bz)),
        aw.mul_spec(bx).add_spec(
            ax.mul_spec(bw),
        ).add_spec(ay.mul_spec(bz)).sub_spec(az.mul_spec(by)),
        aw.mul_spec(by).sub_spec(
            ax.mul_spec(bz),
        ).add_spec(ay.mul_spec(bw)).add_spec(az.mul_spec(bx)),
        aw.mul_spec(bz).add_spec(
            ax.mul_spec(by),
        ).sub_spec(ay.mul_spec(bx)).add_spec(az.mul_spec(bw)),
    )
}

/// Computes [`quat_mul`].
pub fn quat_mul_one<S: Double>(
    aw: S,
    ax: S,
    ay: S,
    az: S,
    bw: S,
    bx: S,
    by: S,
    bz: S,
) -> (r: (S, S, S, S))
    ensures
        r == quat_mul(aw, ax, ay, az, bw, bx, by, bz),
{
    (
        aw.mul(bw).sub(ax.mul(bx)).sub(ay.mul(by)).sub(az.mul(bz)),
        aw.mul(bx).add(ax.mul(bw)).add(ay.mul(bz)).sub(az.mul(by)),
        aw.mul(by).sub(ax.mul(bz)).add(ay.mul(bw)).add(az.mul(bx)),
        aw.mul(bz).add(ax.mul(by)).sub(ay.mul(bx)).add(az.mul(bw)),
    )
}

/// Products of a batch of quaternions.
pub open spec fn quat_mul_all<S: Double>(
    a: (Seq<S>, Seq<S>, Seq<S>, Seq<S>),
    b: (Seq<S>, Seq<S>, Seq<S>, Seq<S>),
) -> (Seq<S>, Seq<S>, Seq<S>, Seq<S>) {
    (
        Seq::new(
            a.0.len(),
            |i: int| quat_mul(a.0[i], a.1[i], a.2[i], a.3[i], b.0[i], b.1[i], b.2[i], b.3[i]).0,
        ),
        Seq::new(
            a.0.len(),
            |i: int| quat_mul(a.0[i], a.1[i], a.2[i], a.3[i], b.0[i], b.1[i], b.2[i], b.3[i]).1,
        ),
        Seq::new(
            a.0.len(),
            |i: int| quat_mul(a.0[i], a.1[i], a.2[i], a.3[i], b.0[i], b.1[i], b.2[i], b.3[i]).2,
        ),
        Seq::new(
            a.0.len(),
            |i: int| quat_mul(a.0[i], a.1[i], a.2[i], a.3[i], b.0[i], b.1[i], b.2[i], b.3[i]).3,
        ),
    )
}

/// Elements `[from, to)` of the batch; the others are left alone.
fn quat_mul_run<S: Double>(
    aw: &[S],
    ax: &[S],
    ay: &[S],
    az: &[S],
    bw: &[S],
    bx: &[S],
    by: &[S],
    bz: &[S],
    ow: &mut [S],
    ox: &mut [S],
    oy: &mut [S],
    oz: &mut [S],
    from: usize,
    to: usize,
)
    requires
        from <= to <= aw@.len(),
        ax@.len() == aw@.len(),
        ay@.len() == aw@.len(),
        az@.len() == aw@.len(),
        bw@.len() == aw@.len(),
        bx@.len() == aw@.len(),
        by@.len() == aw@.len(),
        bz@.len() == aw@.len(),
        old(ow)@.len() == aw@.len(),
        old(ox)@.len() == aw@.len(),
        old(oy)@.len() == aw@.len(),
        old(oz)@.len() == aw@.len(),
    ensures
        final(ow)@.len() == old(ow)@.len(),
        forall|t: int|
            0 <= t < old(ow)@.len() ==> #[trigger] final(ow)@[t] == if from <= t < to {
                quat_mul(aw@[t], ax@[t], ay@[t], az@[t], bw@[t], bx@[t], by@[t], bz@[t]).0
            } else {
                old(ow)@[t]
            },
        final(ox)@.len() == old(ox)@.len(),
        forall|t: int|
            0 <= t < old(ox)@.len() ==> #[trigger] final(ox)@[t] == if from <= t < to {
                quat_mul(aw@[t], ax@[t], ay@[t], az@[t], bw@[t], bx@[t], by@[t], bz@[t]).1
            } else {
                old(ox)@[t]
            },
        final(oy)@.len() == old(oy)@.len(),
        forall|t: int|
            0 <= t < old(oy)@.len() ==> #[trigger] final(oy)@[t] == if from <= t < to {
                quat_mul(aw@[t], ax@[t], ay@[t], az@[t], bw@[t], bx@[t], by@[t], bz@[t]).2
            } else {
                old(oy)@[t]
            },
        final(oz)@.len() == old(oz)@.len(),
        forall|t: int|
            0 <= t < old(oz)@.len() ==> #[trigger] final(oz)@[t] == if from <= t < to {
                quat_mul(aw@[t], ax@[t], ay@[t], az@[t], bw@[t], bx@[t], by@[t], bz@[t]).3
            } else {
                old(oz)@[t]
            },
{
    let ghost ow0 = ow@;
    let ghost ox0 = ox@;
    let ghost oy0 = oy@;
    let ghost oz0 = oz@;
    let mut i: usize = from;
    while i < to
        invariant
            from <= i <= to <= aw@.len(),
            ax@.len() == aw@.len(),
            ay@.len() == aw@.len(),
            az@.len() == aw@.len(),
            bw@.len() == aw@.len(),
            bx@.len() == aw@.len(),
            by@.len() == aw@.len(),
            bz@.len() == aw@.len(),
            ow@.len() == aw@.len(),
            ox@.len() == aw@.len(),
            oy@.len() == aw@.len(),
            oz@.len() == aw@.len(),
            ow0.len() == ow@.len(),
            ox0.len() == ox@.len(),
            oy0.len() == oy@.len(),
            oz0.len() == oz@.len(),
            forall|t: int|
                0 <= t < ow0.len() ==> #[trigger] ow@[t] == if from <= t < i {
                    quat_mul(aw@[t], ax@[t], ay@[t], az@[t], bw@[t], bx@[t], by@[t], bz@[t]).0
                } else {
                    ow0[t]
                },
            forall|t: int|
                0 <= t < ox0.len() ==> #[trigger] ox@[t] == if from <= t < i {
                    quat_mul(aw@[t], ax@[t], ay@[t], az@[t], bw@[t], bx@[t], by@[t], bz@[t]).1
                } else {
                    ox0[t]
                },
            forall|t: int|
                0 <= t < oy0.len() ==> #[trigger] oy@[t] == if from <= t < i {
                    quat_mul(aw@[t], ax@[t], ay@[t], az@[t], bw@[t], bx@[t], by@[t], bz@[t]).2
                } else {
                    oy0[t]
                },
            forall|t: int|
                0 <= t < oz0.len() ==> #[trigger] oz@[t] == if from <= t < i {
                    quat_mul(aw@[t], ax@[t], ay@[t], az@[t], bw@[t], bx@[t], by@[t], bz@[t]).3
                } else {
                    oz0[t]
                },
        decreases to - i,
    {
        let r = quat_mul_one(aw[i], ax[i], ay[i], az[i], bw[i], bx[i], by[i], bz[i]);
        ow[i] = r.0;
        ox[i] = r.1;
        oy[i] = r.2;
        oz[i] = r.3;
        i = i + 1;
    }
}

/// `o[i] = a[i] ⊗ b[i]`.
///
/// Whole vectors first, then the rest; the result does not depend on the path.
pub fn quat_mul_batch<S: Double>(
    path: SimdPath,
    aw: &[S],
    ax: &[S],
    ay: &[S],
    az: &[S],
    bw: &[S],
    bx: &[S],
    by: &[S],
    bz: &[S],
    ow: &mut [S],
    ox: &mut [S],
    oy: &mut [S],
    oz: &mut [S],
)
    requires
        ax@.len() == aw@.len(),
        ay@.len() == aw@.len(),
        az@.len() == aw@.len(),
        bw@.len() == aw@.len(),
        bx@.len() == aw@.len(),
        by@.len() == aw@.len(),
        bz@.len() == aw@.len(),
        old(ow)@.len() == aw@.len(),
        old(ox)@.len() == aw@.len(),
        old(oy)@.len() == aw@.len(),
        old(oz)@.len() == aw@.len(),
    ensures
        (final(ow)@, final(ox)@, final(oy)@, final(oz)@) == quat_mul_all(
            (aw@, ax@, ay@, az@),
            (bw@, bx@, by@, bz@),
        ),
{
    let ghost ow0 = ow@;
    let ghost ox0 = ox@;
    let ghost oy0 = oy@;
    let ghost oz0 = oz@;
    let n: usize = aw.len();
    let width: usize = match path {
        SimdPath::Lasx => 4,
        SimdPath::Lsx => 2,
    };
    let mut i: usize = 0;
    while width <= n - i
        invariant
            0 < width,
            i <= n,
            aw@.len() == n,
            ax@.len() == n,
            ay@.len() == n,
            az@.len() == n,
            bw@.len() == n,
            bx@.len() == n,
            by@.len() == n,
            bz@.len() == n,
            ow@.len() == n,
            ox@.len() == n,
            oy@.len() == n,
            oz@.len() == n,
            ow0.len() == n,
            ox0.len() == n,
            oy0.len() == n,
            oz0.len() == n,
            forall|t: int|
                0 <= t < n ==> #[trigger] ow@[t] == if t < i {
                    quat_mul(aw@[t], ax@[t], ay@[t], az@[t], bw@[t], bx@[t], by@[t], bz@[t]).0
                } else {
                    ow0[t]
                },
            forall|t: int|
                0 <= t < n ==> #[trigger] ox@[t] == if t < i {
                    quat_mul(aw@[t], ax@[t], ay@[t], az@[t], bw@[t], bx@[t], by@[t], bz@[t]).1
                } else {
                    ox0[t]
                },
            forall|t: int|
                0 <= t < n ==> #[trigger] oy@[t] == if t < i {
                    quat_mul(aw@[t], ax@[t], ay@[t], az@[t], bw@[t], bx@[t], by@[t], bz@[t]).2
                } else {
                    oy0[t]
                },
            forall|t: int|
                0 <= t < n ==> #[trigger] oz@[t] == if t < i {
                    quat_mul(aw@[t], ax@[t], ay@[t], az@[t], bw@[t], bx@[t], by@[t], bz@[t]).3
                } else {
                    oz0[t]
                },
        decreases n - i,
    {
        quat_mul_run(aw, ax, ay, az, bw, bx, by, bz, ow, ox, oy, oz, i, i + width);
        i = i + width;
    }
    quat_mul_run(aw, ax, ay, az, bw, bx, by, bz, ow, ox, oy, oz, i, n);
    proof {
        let want = quat_mul_all((aw@, ax@, ay@, az@), (bw@, bx@, by@, bz@));
        assert(ow@ =~= want.0);
        assert(ox@ =~= want.1);
        assert(oy@ =~= want.2);
        assert(oz@ =~= want.3);
    }
}

/// Law: each output depends on its own inputs alone, so a batch may be cut anywhere.
pub proof fn law_quat_mul_batch_split<S: Double>(
    a: (Seq<S>, Seq<S>, Seq<S>, Seq<S>),
    b: (Seq<S>, Seq<S>, Seq<S>, Seq<S>),
    from: int,
    to: int,
)
    requires
        0 <= from <= to <= a.0.len(),
        a.1.len() == a.0.len(),
        a.2.len() == a.0.len(),
        a.3.len() == a.0.len(),
        b.0.len() == a.0.len(),
        b.1.len() == a.0.len(),
        b.2.len() == a.0.len(),
        b.3.len() == a.0.len(),
    ensures
        quat_mul_all(
            (
                a.0.subrange(from, to),
                a.1.subrange(from, to),
                a.2.subrange(from, to),
                a.3.subrange(from, to),
            ),
            (
                b.0.subrange(from, to),
                b.1.subrange(from, to),
                b.2.subrange(from, to),
                b.3.subrange(from, to),
            ),
        ).0 == quat_mul_all(a, b).0.subrange(from, to),
        quat_mul_all(
            (
                a.0.subrange(from, to),
                a.1.subrange(from, to),
                a.2.subrange(from, to),
                a.3.subrange(from, to),
            ),
            (
                b.0.subrange(from, to),
                b.1.subrange(from, to),
                b.2.subrange(from, to),
                b.3.subrange(from, to),
            ),
        ).1 == quat_mul_all(a, b).1.subrange(from, to),
        quat_mul_all(
            (
                a.0.subrange(from, to),
                a.1.subrange(from, to),
                a.2.subrange(from, to),
                a.3.subrange(from, to),
            ),
            (
                b.0.subrange(from, to),
                b.1.subrange(from, to),
                b.2.subrange(from, to),
                b.3.subrange(from, to),
            ),
        ).2 == quat_mul_all(a, b).2.subrange(from, to),
        quat_mul_all(
            (
                a.0.subrange(from, to),
                a.1.subrange(from, to),
                a.2.subrange(from, to),
                a.3.subrange(from, to),
            ),
            (
                b.0.subrange(from, to),
                b.1.subrange(from, to),
                b.2.subrange(from, to),
                b.3.subrange(from, to),
            ),
        ).3 == quat_mul_all(a, b).3.subrange(from, to),
{
    let part = quat_mul_all(
        (
            a.0.subrange(from, to),
            a.1.subrange(from, to),
            a.2.subrange(from, to),
            a.3.subrange(from, to),
        ),
        (
            b.0.subrange(from, to),
            b.1.subrange(from, to),
            b.2.subrange(from, to),
            b.3.subrange(from, to),
        ),
    );
    let whole = quat_mul_all(a, b);
    assert(part.0 =~= whole.0.subrange(from, to));
    assert(part.1 =~= whole.1.subrange(from, to));
    assert(part.2 =~= whole.2.subrange(from, to));
    assert(part.3 =~= whole.3.subrange(from, to));
}

/// Rotation matrix of a unit quaternion, row-major, body frame to inertial frame.
pub open spec fn dcm_entries<S: Double>(w: S, x: S, y: S, z: S) -> (S, S, S, S, S, S, S, S, S) {
    let two = S::of_raw_spec(F64_TWO);
    let one = S::of_raw_spec(F64_ONE);
    (
        one.sub_spec(two.mul_spec(y.mul_spec(y).add_spec(z.mul_spec(z)))),
        two.mul_spec(x.mul_spec(y).sub_spec(w.mul_spec(z))),
        two.mul_spec(x.mul_spec(z).add_spec(w.mul_spec(y))),
        two.mul_spec(x.mul_spec(y).add_spec(w.mul_spec(z))),
        one.sub_spec(two.mul_spec(x.mul_spec(x).add_spec(z.mul_spec(z)))),
        two.mul_spec(y.mul_spec(z).sub_spec(w.mul_spec(x))),
        two.mul_spec(x.mul_spec(z).sub_spec(w.mul_spec(y))),
        two.mul_spec(y.mul_spec(z).add_spec(w.mul_spec(x))),
        one.sub_spec(two.mul_spec(x.mul_spec(x).add_spec(y.mul_spec(y)))),
    )
}

/// Computes [`dcm_entries`].
pub fn dcm_entries_one<S: Double>(w: S, x: S, y: S, z: S) -> (r: (S, S, S, S, S, S, S, S, S))
    ensures
        r == dcm_entries(w, x, y, z),
{
    let two: S = S::of_raw(F64_TWO);
    let one: S = S::of_raw(F64_ONE);
    (
        one.sub(two.mul(y.mul(y).add(z.mul(z)))),
        two.mul(x.mul(y).sub(w.mul(z))),
        two.mul(x.mul(z).add(w.mul(y))),
        two.mul(x.mul(y).add(w.mul(z))),
        one.sub(two.mul(x.mul(x).add(z.mul(z)))),
        two.mul(y.mul(z).sub(w.mul(x))),
        two.mul(x.mul(z).sub(w.mul(y))),
        two.mul(y.mul(z).add(w.mul(x))),
        one.sub(two.mul(x.mul(x).add(y.mul(y)))),
    )
}

/// Rotation matrix of a quaternion of any length.
pub open spec fn quat_dcm<S: Double>(w: S, x: S, y: S, z: S) -> (S, S, S, S, S, S, S, S, S) {
    let u = quat_unit(w, x, y, z);
    dcm_entries(u.0, u.1, u.2, u.3)
}

/// Computes [`quat_dcm`].
pub fn quat_dcm_one<S: Double>(w: S, x: S, y: S, z: S) -> (r: (S, S, S, S, S, S, S, S, S))
    ensures
        r == quat_dcm(w, x, y, z),
{
    let u = quat_unit_one(w, x, y, z);
    dcm_entries_one(u.0, u.1, u.2, u.3)
}

/// Rotation matrices of a batch of quaternions.
pub open spec fn quat_dcm_all<S: Double>(q: (Seq<S>, Seq<S>, Seq<S>, Seq<S>)) -> (
    Seq<S>,
    Seq<S>,
    Seq<S>,
    Seq<S>,
    Seq<S>,
    Seq<S>,
    Seq<S>,
    Seq<S>,
    Seq<S>,
) {
    (
        Seq::new(q.0.len(), |i: int| quat_dcm(q.0[i], q.1[i], q.2[i], q.3[i]).0),
        Seq::new(q.0.len(), |i: int| quat_dcm(q.0[i], q.1[i], q.2[i], q.3[i]).1),
        Seq::new(q.0.len(), |i: int| quat_dcm(q.0[i], q.1[i], q.2[i], q.3[i]).2),
        Seq::new(q.0.len(), |i: int| quat_dcm(q.0[i], q.1[i], q.2[i], q.3[i]).3),
        Seq::new(q.0.len(), |i: int| quat_dcm(q.0[i], q.1[i], q.2[i], q.3[i]).4),
        Seq::new(q.0.len(), |i: int| quat_dcm(q.0[i], q.1[i], q.2[i], q.3[i]).5),
        Seq::new(q.0.len(), |i: int| quat_dcm(q.0[i], q.1[i], q.2[i], q.3[i]).6),
        Seq::new(q.0.len(), |i: int| quat_dcm(q.0[i], q.1[i], q.2[i], q.3[i]).7),
        Seq::new(q.0.len(), |i: int| quat_dcm(q.0[i], q.1[i], q.2[i], q.3[i]).8),
    )
}

/// Elements `[from, to)` of the batch; the others are left alone.
fn quat_dcm_run<S: Double>(
    qw: &[S],
    qx: &[S],
    qy: &[S],
    qz: &[S],
    m0: &mut [S],
    m1: &mut [S],
    m2: &mut [S],
    m3: &mut [S],
    m4: &mut [S],
    m5: &mut [S],
    m6: &mut [S],
    m7: &mut [S],
    m8: &mut [S],
    from: usize,
    to: usize,
)
    requires
        from <= to <= qw@.len(),
        qx@.len() == qw@.len(),
        qy@.len() == qw@.len(),
        qz@.len() == qw@.len(),
        old(m0)@.len() == qw@.len(),
        old(m1)@.len() == qw@.len(),
        old(m2)@.len() == qw@.len(),
        old(m3)@.len() == qw@.len(),
        old(m4)@.len() == qw@.len(),
        old(m5)@.len() == qw@.len(),
        old(m6)@.len() == qw@.len(),
        old(m7)@.len() == qw@.len(),
        old(m8)@.len() == qw@.len(),
    ensures
        final(m0)@.len() == old(m0)@.len(),
        forall|t: int|
            0 <= t < old(m0)@.len() ==> #[trigger] final(m0)@[t] == if from <= t < to {
                quat_dcm(qw@[t], qx@[t], qy@[t], qz@[t]).0
            } else {
                old(m0)@[t]
            },
        final(m1)@.len() == old(m1)@.len(),
        forall|t: int|
            0 <= t < old(m1)@.len() ==> #[trigger] final(m1)@[t] == if from <= t < to {
                quat_dcm(qw@[t], qx@[t], qy@[t], qz@[t]).1
            } else {
                old(m1)@[t]
            },
        final(m2)@.len() == old(m2)@.len(),
        forall|t: int|
            0 <= t < old(m2)@.len() ==> #[trigger] final(m2)@[t] == if from <= t < to {
                quat_dcm(qw@[t], qx@[t], qy@[t], qz@[t]).2
            } else {
                old(m2)@[t]
            },
        final(m3)@.len() == old(m3)@.len(),
        forall|t: int|
            0 <= t < old(m3)@.len() ==> #[trigger] final(m3)@[t] == if from <= t < to {
                quat_dcm(qw@[t], qx@[t], qy@[t], qz@[t]).3
            } else {
                old(m3)@[t]
            },
        final(m4)@.len() == old(m4)@.len(),
        forall|t: int|
            0 <= t < old(m4)@.len() ==> #[trigger] final(m4)@[t] == if from <= t < to {
                quat_dcm(qw@[t], qx@[t], qy@[t], qz@[t]).4
            } else {
                old(m4)@[t]
            },
        final(m5)@.len() == old(m5)@.len(),
        forall|t: int|
            0 <= t < old(m5)@.len() ==> #[trigger] final(m5)@[t] == if from <= t < to {
                quat_dcm(qw@[t], qx@[t], qy@[t], qz@[t]).5
            } else {
                old(m5)@[t]
            },
        final(m6)@.len() == old(m6)@.len(),
        forall|t: int|
            0 <= t < old(m6)@.len() ==> #[trigger] final(m6)@[t] == if from <= t < to {
                quat_dcm(qw@[t], qx@[t], qy@[t], qz@[t]).6
            } else {
                old(m6)@[t]
            },
        final(m7)@.len() == old(m7)@.len(),
        forall|t: int|
            0 <= t < old(m7)@.len() ==> #[trigger] final(m7)@[t] == if from <= t < to {
                quat_dcm(qw@[t], qx@[t], qy@[t], qz@[t]).7
            } else {
                old(m7)@[t]
            },
        final(m8)@.len() == old(m8)@.len(),
        forall|t: int|
            0 <= t < old(m8)@.len() ==> #[trigger] final(m8)@[t] == if from <= t < to {
                quat_dcm(qw@[t], qx@[t], qy@[t], qz@[t]).8
            } else {
                old(m8)@[t]
            },
{
    let ghost m00 = m0@;
    let ghost m10 = m1@;
    let ghost m20 = m2@;
    let ghost m30 = m3@;
    let ghost m40 = m4@;
    let ghost m50 = m5@;
    let ghost m60 = m6@;
    let ghost m70 = m7@;
    let ghost m80 = m8@;
    let mut i: usize = from;
    while i < to
        invariant
            from <= i <= to <= qw@.len(),
            qx@.len() == qw@.len(),
            qy@.len() == qw@.len(),
            qz@.len() == qw@.len(),
            m0@.len() == qw@.len(),
            m1@.len() == qw@.len(),
            m2@.len() == qw@.len(),
            m3@.len() == qw@.len(),
            m4@.len() == qw@.len(),
            m5@.len() == qw@.len(),
            m6@.len() == qw@.len(),
            m7@.len() == qw@.len(),
            m8@.len() == qw@.len(),
            m00.len() == m0@.len(),
            m10.len() == m1@.len(),
            m20.len() == m2@.len(),
            m30.len() == m3@.len(),
            m40.len() == m4@.len(),
            m50.len() == m5@.len(),
            m60.len() == m6@.len(),
            m70.len() == m7@.len(),
            m80.len() == m8@.len(),
            forall|t: int|
                0 <= t < m00.len() ==> #[trigger] m0@[t] == if from <= t < i {
                    quat_dcm(qw@[t], qx@[t], qy@[t], qz@[t]).0
                } else {
                    m00[t]
                },
            forall|t: int|
                0 <= t < m10.len() ==> #[trigger] m1@[t] == if from <= t < i {
                    quat_dcm(qw@[t], qx@[t], qy@[t], qz@[t]).1
                } else {
                    m10[t]
                },
            forall|t: int|
                0 <= t < m20.len() ==> #[trigger] m2@[t] == if from <= t < i {
                    quat_dcm(qw@[t], qx@[t], qy@[t], qz@[t]).2
                } else {
                    m20[t]
                },
            forall|t: int|
                0 <= t < m30.len() ==> #[trigger] m3@[t] == if from <= t < i {
                    quat_dcm(qw@[t], qx@[t], qy@[t], qz@[t]).3
                } else {
                    m30[t]
                },
            forall|t: int|
                0 <= t < m40.len() ==> #[trigger] m4@[t] == if from <= t < i {
                    quat_dcm(qw@[t], qx@[t], qy@[t], qz@[t]).4
                } else {
                    m40[t]
                },
            forall|t: int|
                0 <= t < m50.len() ==> #[trigger] m5@[t] == if from <= t < i {
                    quat_dcm(qw@[t], qx@[t], qy@[t], qz@[t]).5
                } else {
                    m50[t]
                },
            forall|t: int|
                0 <= t < m60.len() ==> #[trigger] m6@[t] == if from <= t < i {
                    quat_dcm(qw@[t], qx@[t], qy@[t], qz@[t]).6
                } else {
                    m60[t]
                },
            forall|t: int|
                0 <= t < m70.len() ==> #[trigger] m7@[t] == if from <= t < i {
                    quat_dcm(qw@[t], qx@[t], qy@[t], qz@[t]).7
                } else {
                    m70[t]
                },
            forall|t: int|
                0 <= t < m80.len() ==> #[trigger] m8@[t] == if from <= t < i {
                    quat_dcm(qw@[t], qx@[t], qy@[t], qz@[t]).8
                } else {
                    m80[t]
                },
        decreases to - i,
    {
        let r = quat_dcm_one(qw[i], qx[i], qy[i], qz[i]);
        m0[i] = r.0;
        m1[i] = r.1;
        m2[i] = r.2;
        m3[i] = r.3;
        m4[i] = r.4;
        m5[i] = r.5;
        m6[i] = r.6;
        m7[i] = r.7;
        m8[i] = r.8;
        i = i + 1;
    }
}

/// Entry `r` of the rotation matrix of quaternion `i` goes to `m_r[i]`.
///
/// Whole vectors first, then the rest; the result does not depend on the path.
pub fn quat_to_dcm_batch<S: Double>(
    path: SimdPath,
    qw: &[S],
    qx: &[S],
    qy: &[S],
    qz: &[S],
    m0: &mut [S],
    m1: &mut [S],
    m2: &mut [S],
    m3: &mut [S],
    m4: &mut [S],
    m5: &mut [S],
    m6: &mut [S],
    m7: &mut [S],
    m8: &mut [S],
)
    requires
        qx@.len() == qw@.len(),
        qy@.len() == qw@.len(),
        qz@.len() == qw@.len(),
        old(m0)@.len() == qw@.len(),
        old(m1)@.len() == qw@.len(),
        old(m2)@.len() == qw@.len(),
        old(m3)@.len() == qw@.len(),
        old(m4)@.len() == qw@.len(),
        old(m5)@.len() == qw@.len(),
        old(m6)@.len() == qw@.len(),
        old(m7)@.len() == qw@.len(),
        old(m8)@.len() == qw@.len(),
    ensures
        (
            final(m0)@,
            final(m1)@,
            final(m2)@,
            final(m3)@,
            final(m4)@,
            final(m5)@,
            final(m6)@,
            final(m7)@,
            final(m8)@,
        ) == quat_dcm_all((qw@, qx@, qy@, qz@)),
{
    let ghost m00 = m0@;
    let ghost m10 = m1@;
    let ghost m20 = m2@;
    let ghost m30 = m3@;
    let ghost m40 = m4@;
    let ghost m50 = m5@;
    let ghost m60 = m6@;
    let ghost m70 = m7@;
    let ghost m80 = m8@;
    let n: usize = qw.len();
    let width: usize = match path {
        SimdPath::Lasx => 4,
        SimdPath::Lsx => 2,
    };
    let mut i: usize = 0;
    while width <= n - i
        invariant
            0 < width,
            i <= n,
            qw@.len() == n,
            qx@.len() == n,
            qy@.len() == n,
            qz@.len() == n,
            m0@.len() == n,
            m1@.len() == n,
            m2@.len() == n,
            m3@.len() == n,
            m4@.len() == n,
            m5@.len() == n,
            m6@.len() == n,
            m7@.len() == n,
            m8@.len() == n,
            m00.len() == n,
            m10.len() == n,
            m20.len() == n,
            m30.len() == n,
            m40.len() == n,
            m50.len() == n,
            m60.len() == n,
            m70.len() == n,
            m80.len() == n,
            forall|t: int|
                0 <= t < n ==> #[trigger] m0@[t] == if t < i {
                    quat_dcm(qw@[t], qx@[t], qy@[t], qz@[t]).0
                } else {
                    m00[t]
                },
            forall|t: int|
                0 <= t < n ==> #[trigger] m1@[t] == if t < i {
                    quat_dcm(qw@[t], qx@[t], qy@[t], qz@[t]).1
                } else {
                    m10[t]
                },
            forall|t: int|
                0 <= t < n ==> #[trigger] m2@[t] == if t < i {
                    quat_dcm(qw@[t], qx@[t], qy@[t], qz@[t]).2
                } else {
                    m20[t]
                },
            forall|t: int|
                0 <= t < n ==> #[trigger] m3@[t] == if t < i {
                    quat_dcm(qw@[t], qx@[t], qy@[t], qz@[t]).3
                } else {
                    m30[t]
                },
            forall|t: int|
                0 <= t < n ==> #[trigger] m4@[t] == if t < i {
                    quat_dcm(qw@[t], qx@[t], qy@[t], qz@[t]).4
                } else {
                    m40[t]
                },
            forall|t: int|
                0 <= t < n ==> #[trigger] m5@[t] == if t < i {
                    quat_dcm(qw@[t], qx@[t], qy@[t], qz@[t]).5
                } else {
                    m50[t]
                },
            forall|t: int|
                0 <= t < n ==> #[trigger] m6@[t] == if t < i {
                    quat_dcm(qw@[t], qx@[t], qy@[t], qz@[t]).6
                } else {
                    m60[t]
                },
            forall|t: int|
                0 <= t < n ==> #[trigger] m7@[t] == if t < i {
                    quat_dcm(qw@[t], qx@[t], qy@[t], qz@[t]).7
                } else {
                    m70[t]
                },
            forall|t: int|
                0 <= t < n ==> #[trigger] m8@[t] == if t < i {
                    quat_dcm(qw@[t], qx@[t], qy@[t], qz@[t]).8
                } else {
                    m80[t]
                },
        decreases n - i,
    {
        quat_dcm_run(qw, qx, qy, qz, m0, m1, m2, m3, m4, m5, m6, m7, m8, i, i + width);
        i = i + width;
    }
    quat_dcm_run(qw, qx, qy, qz, m0, m1, m2, m3, m4, m5, m6, m7, m8, i, n);
    proof {
        let want = quat_dcm_all((qw@, qx@, qy@, qz@));
        assert(m0@ =~= want.0);
        assert(m1@ =~= want.1);
        assert(m2@ =~= want.2);
        assert(m3@ =~= want.3);
        assert(m4@ =~= want.4);
        assert(m5@ =~= want.5);
        assert(m6@ =~= want.6);
        assert(m7@ =~= want.7);
        assert(m8@ =~= want.8);
    }
}

/// Law: each output depends on its own inputs alone, so a batch may be cut anywhere.
pub proof fn law_quat_to_dcm_batch_split<S: Double>(
    q: (Seq<S>, Seq<S>, Seq<S>, Seq<S>),
    from: int,
    to: int,
)
    requires
        0 <= from <= to <= q.0.len(),
        q.1.len() == q.0.len(),
        q.2.len() == q.0.len(),
        q.3.len() == q.0.len(),
    ensures
        quat_dcm_all(
            (
                q.0.subrange(from, to),
                q.1.subrange(from, to),
                q.2.subrange(from, to),
                q.3.subrange(from, to),
            ),
        ).0 == quat_dcm_all(q).0.subrange(from, to),
        quat_dcm_all(
            (
                q.0.subrange(from, to),
                q.1.subrange(from, to),
                q.2.subrange(from, to),
                q.3.subrange(from, to),
            ),
        ).1 == quat_dcm_all(q).1.subrange(from, to),
        quat_dcm_all(
            (
                q.0.subrange(from, to),
                q.1.subrange(from, to),
                q.2.subrange(from, to),
                q.3.subrange(from, to),
            ),
        ).2 == quat_dcm_all(q).2.subrange(from, to),
        quat_dcm_all(
            (
                q.0.subrange(from, to),
                q.1.subrange(from, to),
                q.2.subrange(from, to),
                q.3.subrange(from, to),
            ),
        ).3 == quat_dcm_all(q).3.subrange(from, to),
        quat_dcm_all(
            (
                q.0.subrange(from, to),
                q.1.subrange(from, to),
                q.2.subrange(from, to),
                q.3.subrange(from, to),
            ),
        ).4 == quat_dcm_all(q).4.subrange(from, to),
        quat_dcm_all(
            (
                q.0.subrange(from, to),
                q.1.subrange(from, to),
                q.2.subrange(from, to),
                q.3.subrange(from, to),
            ),
        ).5 == quat_dcm_all(q).5.subrange(from, to),
        quat_dcm_all(
            (
                q.0.subrange(from, to),
                q.1.subrange(from, to),
                q.2.subrange(from, to),
                q.3.subrange(from, to),
            ),
        ).6 == quat_dcm_all(q).6.subrange(from, to),
        quat_dcm_all(
            (
                q.0.subrange(from, to),
                q.1.subrange(from, to),
                q.2.subrange(from, to),
                q.3.subrange(from, to),
            ),
        ).7 == quat_dcm_all(q).7.subrange(from, to),
        quat_dcm_all(
            (
                q.0.subrange(from, to),
                q.1.subrange(from, to),
                q.2.subrange(from, to),
                q.3.subrange(from, to),
            ),
        ).8 == quat_dcm_all(q).8.subrange(from, to),
{
    let part = quat_dcm_all(
        (
            q.0.subrange(from, to),
            q.1.subrange(from, to),
            q.2.subrange(from, to),
            q.3.subrange(from, to),
        ),
    );
    let whole = quat_dcm_all(q);
    assert(part.0 =~= whole.0.subrange(from, to));
    assert(part.1 =~= whole.1.subrange(from, to));
    assert(part.2 =~= whole.2.subrange(from, to));
    assert(part.3 =~= whole.3.subrange(from, to));
    assert(part.4 =~= whole.4.subrange(from, to));
    assert(part.5 =~= whole.5.subrange(from, to));
    assert(part.6 =~= whole.6.subrange(from, to));
    assert(part.7 =~= whole.7.subrange(from, to));
    assert(part.8 =~= whole.8.subrange(from, to));
}

/// The vector `(vx, vy, vz)` turned by a quaternion of any length.
pub open spec fn quat_rotate<S: Double>(w: S, x: S, y: S, z: S, vx: S, vy: S, vz: S) -> (S, S, S) {
    let r = quat_dcm(w, x, y, z);
    (
        r.0.mul_spec(vx).add_spec(r.1.mul_spec(vy)).add_spec(r.2.mul_spec(vz)),
        r.3.mul_spec(vx).add_spec(r.4.mul_spec(vy)).add_spec(r.5.mul_spec(vz)),
        r.6.mul_spec(vx).add_spec(r.7.mul_spec(vy)).add_spec(r.8.mul_spec(vz)),
    )
}

/// Computes [`quat_rotate`].
pub fn quat_rotate_one<S: Double>(w: S, x: S, y: S, z: S, vx: S, vy: S, vz: S) -> (r: (S, S, S))
    ensures
        r == quat_rotate(w, x, y, z, vx, vy, vz),
{
    let r = quat_dcm_one(w, x, y, z);
    (
        r.0.mul(vx).add(r.1.mul(vy)).add(r.2.mul(vz)),
        r.3.mul(vx).add(r.4.mul(vy)).add(r.5.mul(vz)),
        r.6.mul(vx).add(r.7.mul(vy)).add(r.8.mul(vz)),
    )
}

/// A batch of vectors, each turned by its quaternion.
pub open spec fn quat_rotate_all<S: Double>(
    q: (Seq<S>, Seq<S>, Seq<S>, Seq<S>),
    v: (Seq<S>, Seq<S>, Seq<S>),
) -> (Seq<S>, Seq<S>, Seq<S>) {
    (
        Seq::new(
            q.0.len(),
            |i: int| quat_rotate(q.0[i], q.1[i], q.2[i], q.3[i], v.0[i], v.1[i], v.2[i]).0,
        ),
        Seq::new(
            q.0.len(),
            |i: int| quat_rotate(q.0[i], q.1[i], q.2[i], q.3[i], v.0[i], v.1[i], v.2[i]).1,
        ),
        Seq::new(
            q.0.len(),
            |i: int| quat_rotate(q.0[i], q.1[i], q.2[i], q.3[i], v.0[i], v.1[i], v.2[i]).2,
        ),
    )
}

/// Elements `[from, to)` of the batch; the others are left alone.
fn quat_rotate_run<S: Double>(
    qw: &[S],
    qx: &[S],
    qy: &[S],
    qz: &[S],
    vx: &[S],
    vy: &[S],
    vz: &[S],
    ox: &mut [S],
    oy: &mut [S],
    oz: &mut [S],
    from: usize,
    to: usize,
)
    requires
        from <= to <= qw@.len(),
        qx@.len() == qw@.len(),
        qy@.len() == qw@.len(),
        qz@.len() == qw@.len(),
        vx@.len() == qw@.len(),
        vy@.len() == qw@.len(),
        vz@.len() == qw@.len(),
        old(ox)@.len() == qw@.len(),
        old(oy)@.len() == qw@.len(),
        old(oz)@.len() == qw@.len(),
    ensures
        final(ox)@.len() == old(ox)@.len(),
        forall|t: int|
            0 <= t < old(ox)@.len() ==> #[trigger] final(ox)@[t] == if from <= t < to {
                quat_rotate(qw@[t], qx@[t], qy@[t], qz@[t], vx@[t], vy@[t], vz@[t]).0
            } else {
                old(ox)@[t]
            },
        final(oy)@.len() == old(oy)@.len(),
        forall|t: int|
            0 <= t < old(oy)@.len() ==> #[trigger] final(oy)@[t] == if from <= t < to {
                quat_rotate(qw@[t], qx@[t], qy@[t], qz@[t], vx@[t], vy@[t], vz@[t]).1
            } else {
                old(oy)@[t]
            },
        final(oz)@.len() == old(oz)@.len(),
        forall|t: int|
            0 <= t < old(oz)@.len() ==> #[trigger] final(oz)@[t] == if from <= t < to {
                quat_rotate(qw@[t], qx@[t], qy@[t], qz@[t], vx@[t], vy@[t], vz@[t]).2
            } else {
                old(oz)@[t]
            },
{
    let ghost ox0 = ox@;
    let ghost oy0 = oy@;
    let ghost oz0 = oz@;
    let mut i: usize = from;
    while i < to
        invariant
            from <= i <= to <= qw@.len(),
            qx@.len() == qw@.len(),
            qy@.len() == qw@.len(),
            qz@.len() == qw@.len(),
            vx@.len() == qw@.len(),
            vy@.len() == qw@.len(),
            vz@.len() == qw@.len(),
            ox@.len() == qw@.len(),
            oy@.len() == qw@.len(),
            oz@.len() == qw@.len(),
            ox0.len() == ox@.len(),
            oy0.len() == oy@.len(),
            oz0.len() == oz@.len(),
            forall|t: int|
                0 <= t < ox0.len() ==> #[trigger] ox@[t] == if from <= t < i {
                    quat_rotate(qw@[t], qx@[t], qy@[t], qz@[t], vx@[t], vy@[t], vz@[t]).0
                } else {
                    ox0[t]
                },
            forall|t: int|
                0 <= t < oy0.len() ==> #[trigger] oy@[t] == if from <= t < i {
                    quat_rotate(qw@[t], qx@[t], qy@[t], qz@[t], vx@[t], vy@[t], vz@[t]).1
                } else {
                    oy0[t]
                },
            forall|t: int|
                0 <= t < oz0.len() ==> #[trigger] oz@[t] == if from <= t < i {
                    quat_rotate(qw@[t], qx@[t], qy@[t], qz@[t], vx@[t], vy@[t], vz@[t]).2
                } else {
                    oz0[t]
                },
        decreases to - i,
    {
        let r = quat_rotate_one(qw[i], qx[i], qy[i], qz[i], vx[i], vy[i], vz[i]);
        ox[i] = r.0;
        oy[i] = r.1;
        oz[i] = r.2;
        i = i + 1;
    }
}

/// `o[i]` is `v[i]` turned by `q[i]`.
///
/// Whole vectors first, then the rest; the result does not depend on the path.
pub fn quat_rotate_batch<S: Double>(
    path: SimdPath,
    qw: &[S],
    qx: &[S],
    qy: &[S],
    qz: &[S],
    vx: &[S],
    vy: &[S],
    vz: &[S],
    ox: &mut [S],
    oy: &mut [S],
    oz: &mut [S],
)
    requires
        qx@.len() == qw@.len(),
        qy@.len() == qw@.len(),
        qz@.len() == qw@.len(),
        vx@.len() == qw@.len(),
        vy@.len() == qw@.len(),
        vz@.len() == qw@.len(),
        old(ox)@.len() == qw@.len(),
        old(oy)@.len() == qw@.len(),
        old(oz)@.len() == qw@.len(),
    ensures
        (final(ox)@, final(oy)@, final(oz)@) == quat_rotate_all(
            (qw@, qx@, qy@, qz@),
            (vx@, vy@, vz@),
        ),
{
    let ghost ox0 = ox@;
    let ghost oy0 = oy@;
    let ghost oz0 = oz@;
    let n: usize = qw.len();
    let width: usize = match path {
        SimdPath::Lasx => 4,
        SimdPath::Lsx => 2,
    };
    let mut i: usize = 0;
    while width <= n - i
        invariant
            0 < width,
            i <= n,
            qw@.len() == n,
            qx@.len() == n,
            qy@.len() == n,
            qz@.len() == n,
            vx@.len() == n,
            vy@.len() == n,
            vz@.len() == n,
            ox@.len() == n,
            oy@.len() == n,
            oz@.len() == n,
            ox0.len() == n,
            oy0.len() == n,
            oz0.len() == n,
            forall|t: int|
                0 <= t < n ==> #[trigger] ox@[t] == if t < i {
                    quat_rotate(qw@[t], qx@[t], qy@[t], qz@[t], vx@[t], vy@[t], vz@[t]).0
                } else {
                    ox0[t]
                },
            forall|t: int|
                0 <= t < n ==> #[trigger] oy@[t] == if t < i {
                    quat_rotate(qw@[t], qx@[t], qy@[t], qz@[t], vx@[t], vy@[t], vz@[t]).1
                } else {
                    oy0[t]
                },
            forall|t: int|
                0 <= t < n ==> #[trigger] oz@[t] == if t < i {
                    quat_rotate(qw@[t], qx@[t], qy@[t], qz@[t], vx@[t], vy@[t], vz@[t]).2
                } else {
                    oz0[t]
                },
        decreases n - i,
    {
        quat_rotate_run(qw, qx, qy, qz, vx, vy, vz, ox, oy, oz, i, i + width);
        i = i + width;
    }
    quat_rotate_run(qw, qx, qy, qz, vx, vy, vz, ox, oy, oz, i, n);
    proof {
        let want = quat_rotate_all((qw@, qx@, qy@, qz@), (vx@, vy@, vz@));
        assert(ox@ =~= want.0);
        assert(oy@ =~= want.1);
        assert(oz@ =~= want.2);
    }
}

/// Law: each output depends on its own inputs alone, so a batch may be cut anywhere.
pub proof fn law_quat_rotate_batch_split<S: Double>(
    q: (Seq<S>, Seq<S>, Seq<S>, Seq<S>),
    v: (Seq<S>, Seq<S>, Seq<S>),
    from: int,
    to: int,
)
    requires
        0 <= from <= to <= q.0.len(),
        q.1.len() == q.0.len(),
        q.2.len() == q.0.len(),
        q.3.len() == q.0.len(),
        v.0.len() == q.0.len(),
        v.1.len() == q.0.len(),
        v.2.len() == q.0.len(),
    ensures
        quat_rotate_all(
            (
                q.0.subrange(from, to),
                q.1.subrange(from, to),
                q.2.subrange(from, to),
                q.3.subrange(from, to),
            ),
            (v.0.subrange(from, to), v.1.subrange(from, to), v.2.subrange(from, to)),
        ).0 == quat_rotate_all(q, v).0.subrange(from, to),
        quat_rotate_all(
            (
                q.0.subrange(from, to),
                q.1.subrange(from, to),
                q.2.subrange(from, to),
                q.3.subrange(from, to),
            ),
            (v.0.subrange(from, to), v.1.subrange(from, to), v.2.subrange(from, to)),
        ).1 == quat_rotate_all(q, v).1.subrange(from, to),
        quat_rotate_all(
            (
                q.0.subrange(from, to),
                q.1.subrange(from, to),
                q.2.subrange(from, to),
                q.3.subrange(from, to),
            ),
            (v.0.subrange(from, to), v.1.subrange(from, to), v.2.subrange(from, to)),
        ).2 == quat_rotate_all(q, v).2.subrange(from, to),
{
    let part = quat_rotate_all(
        (
            q.0.subrange(from, to),
            q.1.subrange(from, to),
            q.2.subrange(from, to),
            q.3.subrange(from, to),
        ),
        (v.0.subrange(from, to), v.1.subrange(from, to), v.2.subrange(from, to)),
    );
    let whole = quat_rotate_all(q, v);
    assert(part.0 =~= whole.0.subrange(from, to));
    assert(part.1 =~= whole.1.subrange(from, to));
    assert(part.2 =~= whole.2.subrange(from, to));
}

/// Law: turning a vector by a quaternion is multiplying it by the quaternion's rotation
/// matrix, bit for bit.
pub proof fn law_rotate_is_dcm_product<S: Double>(w: S, x: S, y: S, z: S, vx: S, vy: S, vz: S)
    ensures
        quat_rotate(w, x, y, z, vx, vy, vz) == ({
            let r = quat_dcm(w, x, y, z);
            crate::ops::geometry::mat3_mul_vec3(
                r.0,
                r.1,
                r.2,
                r.3,
                r.4,
                r.5,
                r.6,
                r.7,
                r.8,
                vx,
                vy,
                vz,
            )
        }),
{
}

/// Law: a degenerate quaternion becomes the identity.
pub proof fn law_degenerate_is_identity<S: Double>(w: S, x: S, y: S, z: S)
    requires
        quat_norm(w, x, y, z).lt_spec(S::of_raw_spec(DEGENERATE)),
    ensures
        quat_unit(w, x, y, z) == (
            S::of_raw_spec(F64_ONE),
            S::of_raw_spec(0),
            S::of_raw_spec(0),
            S::of_raw_spec(0),
        ),
{
}

} // verus!
