//! Batch geometry on component arrays.
//!
//! Every output is one fixed string of operations on the inputs of its own index, the
//! same in every position of the batch.
use crate::arch::SimdPath;
use crate::scalar::{Double, Scalar, Single, F64_ONE};
use vstd::prelude::*;

verus! {

/// Length of the vector `(x, y, z)`: the square of `x` is added last.
pub open spec fn norm3<S: Double>(x: S, y: S, z: S) -> S {
    let sq = x.mul_spec(x).add_spec(y.mul_spec(y).add_spec(z.mul_spec(z)));
    sq.sqrt_spec()
}

/// Computes [`norm3`].
pub fn norm3_one<S: Double>(x: S, y: S, z: S) -> (r: S)
    ensures
        r == norm3(x, y, z),
{
    let sq: S = x.mul(x).add(y.mul(y).add(z.mul(z)));
    sq.sqrt()
}

/// Lengths of a batch of vectors.
pub open spec fn norm3_all<S: Double>(v: (Seq<S>, Seq<S>, Seq<S>)) -> Seq<S> {
    Seq::new(v.0.len(), |i: int| norm3(v.0[i], v.1[i], v.2[i]))
}

/// Elements `[from, to)` of the batch; the others are left alone.
fn norm3_run<S: Double>(
    xs: &[S],
    ys: &[S],
    zs: &[S],
    out: &mut [S],
    from: usize,
    to: usize,
)
    requires
        from <= to <= xs@.len(),
        ys@.len() == xs@.len(),
        zs@.len() == xs@.len(),
        old(out)@.len() == xs@.len(),
    ensures
        final(out)@.len() == old(out)@.len(),
        forall|t: int|
            0 <= t < old(out)@.len() ==> #[trigger] final(out)@[t] == if from <= t < to {
                norm3(xs@[t], ys@[t], zs@[t])
            } else {
                old(out)@[t]
            },
{
    let ghost out0 = out@;
    let mut i: usize = from;
    while i < to
        invariant
            from <= i <= to <= xs@.len(),
            ys@.len() == xs@.len(),
            zs@.len() == xs@.len(),
            out@.len() == xs@.len(),
            out0.len() == out@.len(),
            forall|t: int|
                0 <= t < out0.len() ==> #[trigger] out@[t] == if from <= t < i {
                    norm3(xs@[t], ys@[t], zs@[t])
                } else {
                    out0[t]
                },
        decreases to - i,
    {
        out[i] = norm3_one(xs[i], ys[i], zs[i]);
        i = i + 1;
    }
}

/// `out[i] = |(xs[i], ys[i], zs[i])|`.
///
/// Whole vectors first, then the rest; the result does not depend on the path.
pub fn norm3_batch<S: Double>(
    path: SimdPath,
    xs: &[S],
    ys: &[S],
    zs: &[S],
    out: &mut [S],
)
    requires
        ys@.len() == xs@.len(),
        zs@.len() == xs@.len(),
        old(out)@.len() == xs@.len(),
    ensures
        final(out)@ == norm3_all((xs@, ys@, zs@)),
{
    let ghost out0 = out@;
    let n: usize = xs.len();
    let width: usize = match path {
        SimdPath::Lasx => 4,
        SimdPath::Lsx => 2,
    };
    let mut i: usize = 0;
    while width <= n - i
        invariant
            0 < width,
            i <= n,
            xs@.len() == n,
            ys@.len() == n,
            zs@.len() == n,
            out@.len() == n,
            out0.len() == n,
            forall|t: int|
                0 <= t < n ==> #[trigger] out@[t] == if t < i {
                    norm3(xs@[t], ys@[t], zs@[t])
                } else {
                    out0[t]
                },
        decreases n - i,
    {
        norm3_run(xs, ys, zs, out, i, i + width);
        i = i + width;
    }
    norm3_run(xs, ys, zs, out, i, n);
    proof {
        assert(out@ =~= norm3_all((xs@, ys@, zs@)));
    }
}

/// Law: each output depends on its own inputs alone, so a batch may be cut anywhere.
pub proof fn law_norm3_batch_split<S: Double>(v: (Seq<S>, Seq<S>, Seq<S>), from: int, to: int)
    requires
        0 <= from <= to <= v.0.len(),
        v.1.len() == v.0.len(),
        v.2.len() == v.0.len(),
    ensures
        norm3_all(
            (v.0.subrange(from, to), v.1.subrange(from, to), v.2.subrange(from, to)),
        ) == norm3_all(v).subrange(from, to),
{
    assert(
        norm3_all(
            (v.0.subrange(from, to), v.1.subrange(from, to), v.2.subrange(from, to)),
        ) =~= norm3_all(v).subrange(from, to)
    );
}

/// Distance of the point `(x, y)` from `(px, py)`.
pub open spec fn distance2d<S: Single>(px: S, py: S, x: S, y: S) -> S {
    let dx = x.sub_spec(px);
    let dy = y.sub_spec(py);
    let sq = dx.mul_spec(dx).add_spec(dy.mul_spec(dy));
    sq.sqrt_spec()
}

/// Computes [`distance2d`].
pub fn distance2d_one<S: Single>(px: S, py: S, x: S, y: S) -> (r: S)
    ensures
        r == distance2d(px, py, x, y),
{
    let dx: S = x.sub(px);
    let dy: S = y.sub(py);
    let sq: S = dx.mul(dx).add(dy.mul(dy));
    sq.sqrt()
}

/// Distances of a batch of points.
pub open spec fn distance2d_all<S: Single>(v: (Seq<S>, Seq<S>), px: S, py: S) -> Seq<S> {
    Seq::new(v.0.len(), |i: int| distance2d(px, py, v.0[i], v.1[i]))
}

/// Elements `[from, to)` of the batch; the others are left alone.
fn distance2d_run<S: Single>(
    px: S,
    py: S,
    xs: &[S],
    ys: &[S],
    out: &mut [S],
    from: usize,
    to: usize,
)
    requires
        from <= to <= xs@.len(),
        ys@.len() == xs@.len(),
        old(out)@.len() == xs@.len(),
    ensures
        final(out)@.len() == old(out)@.len(),
        forall|t: int|
            0 <= t < old(out)@.len() ==> #[trigger] final(out)@[t] == if from <= t < to {
                distance2d(px, py, xs@[t], ys@[t])
            } else {
                old(out)@[t]
            },
{
    let ghost out0 = out@;
    let mut i: usize = from;
    while i < to
        invariant
            from <= i <= to <= xs@.len(),
            ys@.len() == xs@.len(),
            out@.len() == xs@.len(),
            out0.len() == out@.len(),
            forall|t: int|
                0 <= t < out0.len() ==> #[trigger] out@[t] == if from <= t < i {
                    distance2d(px, py, xs@[t], ys@[t])
                } else {
                    out0[t]
                },
        decreases to - i,
    {
        out[i] = distance2d_one(px, py, xs[i], ys[i]);
        i = i + 1;
    }
}

/// `out[i]` is the distance of `(xs[i], ys[i])` from `(px, py)`.
///
/// Whole vectors first, then the rest; the result does not depend on the path.
pub fn batch_distance2d<S: Single>(
    path: SimdPath,
    px: S,
    py: S,
    xs: &[S],
    ys: &[S],
    out: &mut [S],
)
    requires
        ys@.len() == xs@.len(),
        old(out)@.len() == xs@.len(),
    ensures
        final(out)@ == distance2d_all((xs@, ys@), px, py),
{
    let ghost out0 = out@;
    let n: usize = xs.len();
    let width: usize = match path {
        SimdPath::Lasx => 8,
        SimdPath::Lsx => 1,
    };
    let mut i: usize = 0;
    while width <= n - i
        invariant
            0 < width,
            i <= n,
            xs@.len() == n,
            ys@.len() == n,
            out@.len() == n,
            out0.len() == n,
            forall|t: int|
                0 <= t < n ==> #[trigger] out@[t] == if t < i {
                    distance2d(px, py, xs@[t], ys@[t])
                } else {
                    out0[t]
                },
        decreases n - i,
    {
        distance2d_run(px, py, xs, ys, out, i, i + width);
        i = i + width;
    }
    distance2d_run(px, py, xs, ys, out, i, n);
    proof {
        assert(out@ =~= distance2d_all((xs@, ys@), px, py));
    }
}

/// Law: each output depends on its own inputs alone, so a batch may be cut anywhere.
pub proof fn law_batch_distance2d_split<S: Single>(
    v: (Seq<S>, Seq<S>),
    px: S,
    py: S,
    from: int,
    to: int,
)
    requires
        0 <= from <= to <= v.0.len(),
        v.1.len() == v.0.len(),
    ensures
        distance2d_all(
            (v.0.subrange(from, to), v.1.subrange(from, to)),
            px,
            py,
        ) == distance2d_all(v, px, py).subrange(from, to),
{
    assert(
        distance2d_all(
            (v.0.subrange(from, to), v.1.subrange(from, to)),
            px,
            py,
        ) =~= distance2d_all(v, px, py).subrange(from, to)
    );
}

/// `a + s·b`, each component rounded once.
pub open spec fn add_scaled<S: Double>(
    ax: S,
    ay: S,
    az: S,
    bx: S,
    by: S,
    bz: S,
    s: S,
) -> (S, S, S) {
    (s.fma_spec(bx, ax), s.fma_spec(by, ay), s.fma_spec(bz, az))
}

/// Computes [`add_scaled`].
pub fn add_scaled_one<S: Double>(ax: S, ay: S, az: S, bx: S, by: S, bz: S, s: S) -> (r: (S, S, S))
    ensures
        r == add_scaled(ax, ay, az, bx, by, bz, s),
{
    (s.fma(bx, ax), s.fma(by, ay), s.fma(bz, az))
}

/// Scaled sums of a batch of vectors.
pub open spec fn add_scaled_all<S: Double>(
    a: (Seq<S>, Seq<S>, Seq<S>),
    b: (Seq<S>, Seq<S>, Seq<S>),
    s: S,
) -> (Seq<S>, Seq<S>, Seq<S>) {
    (
        Seq::new(
            a.0.len(),
            |i: int| add_scaled(a.0[i], a.1[i], a.2[i], b.0[i], b.1[i], b.2[i], s).0,
        ),
        Seq::new(
            a.0.len(),
            |i: int| add_scaled(a.0[i], a.1[i], a.2[i], b.0[i], b.1[i], b.2[i], s).1,
        ),
        Seq::new(
            a.0.len(),
            |i: int| add_scaled(a.0[i], a.1[i], a.2[i], b.0[i], b.1[i], b.2[i], s).2,
        ),
    )
}

/// Elements `[from, to)` of the batch; the others are left alone.
fn add_scaled_run<S: Double>(
    ax: &[S],
    ay: &[S],
    az: &[S],
    bx: &[S],
    by: &[S],
    bz: &[S],
    s: S,
    ox: &mut [S],
    oy: &mut [S],
    oz: &mut [S],
    from: usize,
    to: usize,
)
    requires
        from <= to <= ax@.len(),
        ay@.len() == ax@.len(),
        az@.len() == ax@.len(),
        bx@.len() == ax@.len(),
        by@.len() == ax@.len(),
        bz@.len() == ax@.len(),
        old(ox)@.len() == ax@.len(),
        old(oy)@.len() == ax@.len(),
        old(oz)@.len() == ax@.len(),
    ensures
        final(ox)@.len() == old(ox)@.len(),
        forall|t: int|
            0 <= t < old(ox)@.len() ==> #[trigger] final(ox)@[t] == if from <= t < to {
                add_scaled(ax@[t], ay@[t], az@[t], bx@[t], by@[t], bz@[t], s).0
            } else {
                old(ox)@[t]
            },
        final(oy)@.len() == old(oy)@.len(),
        forall|t: int|
            0 <= t < old(oy)@.len() ==> #[trigger] final(oy)@[t] == if from <= t < to {
                add_scaled(ax@[t], ay@[t], az@[t], bx@[t], by@[t], bz@[t], s).1
            } else {
                old(oy)@[t]
            },
        final(oz)@.len() == old(oz)@.len(),
        forall|t: int|
            0 <= t < old(oz)@.len() ==> #[trigger] final(oz)@[t] == if from <= t < to {
                add_scaled(ax@[t], ay@[t], az@[t], bx@[t], by@[t], bz@[t], s).2
            } else {
                old(oz)@[t]
            },
{
    let ghost ox0 = ox@;
    let ghost oy0 = oy@;
    let ghost oz0 = oz@;
    let mut i: usize = from;
    while i < to
        invariant
            from <= i <= to <= ax@.len(),
            ay@.len() == ax@.len(),
            az@.len() == ax@.len(),
            bx@.len() == ax@.len(),
            by@.len() == ax@.len(),
            bz@.len() == ax@.len(),
            ox@.len() == ax@.len(),
            oy@.len() == ax@.len(),
            oz@.len() == ax@.len(),
            ox0.len() == ox@.len(),
            oy0.len() == oy@.len(),
            oz0.len() == oz@.len(),
            forall|t: int|
                0 <= t < ox0.len() ==> #[trigger] ox@[t] == if from <= t < i {
                    add_scaled(ax@[t], ay@[t], az@[t], bx@[t], by@[t], bz@[t], s).0
                } else {
                    ox0[t]
                },
            forall|t: int|
                0 <= t < oy0.len() ==> #[trigger] oy@[t] == if from <= t < i {
                    add_scaled(ax@[t], ay@[t], az@[t], bx@[t], by@[t], bz@[t], s).1
                } else {
                    oy0[t]
                },
            forall|t: int|
                0 <= t < oz0.len() ==> #[trigger] oz@[t] == if from <= t < i {
                    add_scaled(ax@[t], ay@[t], az@[t], bx@[t], by@[t], bz@[t], s).2
                } else {
                    oz0[t]
                },
        decreases to - i,
    {
        let r = add_scaled_one(ax[i], ay[i], az[i], bx[i], by[i], bz[i], s);
        ox[i] = r.0;
        oy[i] = r.1;
        oz[i] = r.2;
        i = i + 1;
    }
}

/// `o[i] = a[i] + s·b[i]`.
///
/// Whole vectors first, then the rest; the result does not depend on the path.
pub fn vec3_add_scaled_batch<S: Double>(
    path: SimdPath,
    ax: &[S],
    ay: &[S],
    az: &[S],
    bx: &[S],
    by: &[S],
    bz: &[S],
    s: S,
    ox: &mut [S],
    oy: &mut [S],
    oz: &mut [S],
)
    requires
        ay@.len() == ax@.len(),
        az@.len() == ax@.len(),
        bx@.len() == ax@.len(),
        by@.len() == ax@.len(),
        bz@.len() == ax@.len(),
        old(ox)@.len() == ax@.len(),
        old(oy)@.len() == ax@.len(),
        old(oz)@.len() == ax@.len(),
    ensures
        (final(ox)@, final(oy)@, final(oz)@) == add_scaled_all((ax@, ay@, az@), (bx@, by@, bz@), s),
{
    let ghost ox0 = ox@;
    let ghost oy0 = oy@;
    let ghost oz0 = oz@;
    let n: usize = ax.len();
    let width: usize = match path {
        SimdPath::Lasx => 4,
        SimdPath::Lsx => 2,
    };
    let mut i: usize = 0;
    while width <= n - i
        invariant
            0 < width,
            i <= n,
            ax@.len() == n,
            ay@.len() == n,
            az@.len() == n,
            bx@.len() == n,
            by@.len() == n,
            bz@.len() == n,
            ox@.len() == n,
            oy@.len() == n,
            oz@.len() == n,
            ox0.len() == n,
            oy0.len() == n,
            oz0.len() == n,
            forall|t: int|
                0 <= t < n ==> #[trigger] ox@[t] == if t < i {
                    add_scaled(ax@[t], ay@[t], az@[t], bx@[t], by@[t], bz@[t], s).0
                } else {
                    ox0[t]
                },
            forall|t: int|
                0 <= t < n ==> #[trigger] oy@[t] == if t < i {
                    add_scaled(ax@[t], ay@[t], az@[t], bx@[t], by@[t], bz@[t], s).1
                } else {
                    oy0[t]
                },
            forall|t: int|
                0 <= t < n ==> #[trigger] oz@[t] == if t < i {
                    add_scaled(ax@[t], ay@[t], az@[t], bx@[t], by@[t], bz@[t], s).2
                } else {
                    oz0[t]
                },
        decreases n - i,
    {
        add_scaled_run(ax, ay, az, bx, by, bz, s, ox, oy, oz, i, i + width);
        i = i + width;
    }
    add_scaled_run(ax, ay, az, bx, by, bz, s, ox, oy, oz, i, n);
    proof {
        let want = add_scaled_all((ax@, ay@, az@), (bx@, by@, bz@), s);
        assert(ox@ =~= want.0);
        assert(oy@ =~= want.1);
        assert(oz@ =~= want.2);
    }
}

/// Law: each output depends on its own inputs alone, so a batch may be cut anywhere.
pub proof fn law_vec3_add_scaled_batch_split<S: Double>(
    a: (Seq<S>, Seq<S>, Seq<S>),
    b: (Seq<S>, Seq<S>, Seq<S>),
    s: S,
    from: int,
    to: int,
)
    requires
        0 <= from <= to <= a.0.len(),
        a.1.len() == a.0.len(),
        a.2.len() == a.0.len(),
        b.0.len() == a.0.len(),
        b.1.len() == a.0.len(),
        b.2.len() == a.0.len(),
    ensures
        add_scaled_all(
            (a.0.subrange(from, to), a.1.subrange(from, to), a.2.subrange(from, to)),
            (b.0.subrange(from, to), b.1.subrange(from, to), b.2.subrange(from, to)),
            s,
        ).0 == add_scaled_all(a, b, s).0.subrange(from, to),
        add_scaled_all(
            (a.0.subrange(from, to), a.1.subrange(from, to), a.2.subrange(from, to)),
            (b.0.subrange(from, to), b.1.subrange(from, to), b.2.subrange(from, to)),
            s,
        ).1 == add_scaled_all(a, b, s).1.subrange(from, to),
        add_scaled_all(
            (a.0.subrange(from, to), a.1.subrange(from, to), a.2.subrange(from, to)),
            (b.0.subrange(from, to), b.1.subrange(from, to), b.2.subrange(from, to)),
            s,
        ).2 == add_scaled_all(a, b, s).2.subrange(from, to),
{
    let part = add_scaled_all(
        (a.0.subrange(from, to), a.1.subrange(from, to), a.2.subrange(from, to)),
        (b.0.subrange(from, to), b.1.subrange(from, to), b.2.subrange(from, to)),
        s,
    );
    let whole = add_scaled_all(a, b, s);
    assert(part.0 =~= whole.0.subrange(from, to));
    assert(part.1 =~= whole.1.subrange(from, to));
    assert(part.2 =~= whole.2.subrange(from, to));
}

/// Cross product `a × b`, right-handed.
pub open spec fn cross3<S: Double>(ax: S, ay: S, az: S, bx: S, by: S, bz: S) -> (S, S, S) {
    (
        ay.mul_spec(bz).sub_spec(az.mul_spec(by)),
        az.mul_spec(bx).sub_spec(ax.mul_spec(bz)),
        ax.mul_spec(by).sub_spec(ay.mul_spec(bx)),
    )
}

/// Computes [`cross3`].
pub fn cross3_one<S: Double>(ax: S, ay: S, az: S, bx: S, by: S, bz: S) -> (r: (S, S, S))
    ensures
        r == cross3(ax, ay, az, bx, by, bz),
{
    (ay.mul(bz).sub(az.mul(by)), az.mul(bx).sub(ax.mul(bz)), ax.mul(by).sub(ay.mul(bx)))
}

/// Cross products of a batch of vectors.
pub open spec fn cross3_all<S: Double>(
    a: (Seq<S>, Seq<S>, Seq<S>),
    b: (Seq<S>, Seq<S>, Seq<S>),
) -> (Seq<S>, Seq<S>, Seq<S>) {
    (
        Seq::new(a.0.len(), |i: int| cross3(a.0[i], a.1[i], a.2[i], b.0[i], b.1[i], b.2[i]).0),
        Seq::new(a.0.len(), |i: int| cross3(a.0[i], a.1[i], a.2[i], b.0[i], b.1[i], b.2[i]).1),
        Seq::new(a.0.len(), |i: int| cross3(a.0[i], a.1[i], a.2[i], b.0[i], b.1[i], b.2[i]).2),
    )
}

/// Elements `[from, to)` of the batch; the others are left alone.
fn cross3_run<S: Double>(
    ax: &[S],
    ay: &[S],
    az: &[S],
    bx: &[S],
    by: &[S],
    bz: &[S],
    ox: &mut [S],
    oy: &mut [S],
    oz: &mut [S],
    from: usize,
    to: usize,
)
    requires
        from <= to <= ax@.len(),
        ay@.len() == ax@.len(),
        az@.len() == ax@.len(),
        bx@.len() == ax@.len(),
        by@.len() == ax@.len(),
        bz@.len() == ax@.len(),
        old(ox)@.len() == ax@.len(),
        old(oy)@.len() == ax@.len(),
        old(oz)@.len() == ax@.len(),
    ensures
        final(ox)@.len() == old(ox)@.len(),
        forall|t: int|
            0 <= t < old(ox)@.len() ==> #[trigger] final(ox)@[t] == if from <= t < to {
                cross3(ax@[t], ay@[t], az@[t], bx@[t], by@[t], bz@[t]).0
            } else {
                old(ox)@[t]
            },
        final(oy)@.len() == old(oy)@.len(),
        forall|t: int|
            0 <= t < old(oy)@.len() ==> #[trigger] final(oy)@[t] == if from <= t < to {
                cross3(ax@[t], ay@[t], az@[t], bx@[t], by@[t], bz@[t]).1
            } else {
                old(oy)@[t]
            },
        final(oz)@.len() == old(oz)@.len(),
        forall|t: int|
            0 <= t < old(oz)@.len() ==> #[trigger] final(oz)@[t] == if from <= t < to {
                cross3(ax@[t], ay@[t], az@[t], bx@[t], by@[t], bz@[t]).2
            } else {
                old(oz)@[t]
            },
{
    let ghost ox0 = ox@;
    let ghost oy0 = oy@;
    let ghost oz0 = oz@;
    let mut i: usize = from;
    while i < to
        invariant
            from <= i <= to <= ax@.len(),
            ay@.len() == ax@.len(),
            az@.len() == ax@.len(),
            bx@.len() == ax@.len(),
            by@.len() == ax@.len(),
            bz@.len() == ax@.len(),
            ox@.len() == ax@.len(),
            oy@.len() == ax@.len(),
            oz@.len() == ax@.len(),
            ox0.len() == ox@.len(),
            oy0.len() == oy@.len(),
            oz0.len() == oz@.len(),
            forall|t: int|
                0 <= t < ox0.len() ==> #[trigger] ox@[t] == if from <= t < i {
                    cross3(ax@[t], ay@[t], az@[t], bx@[t], by@[t], bz@[t]).0
                } else {
                    ox0[t]
                },
            forall|t: int|
                0 <= t < oy0.len() ==> #[trigger] oy@[t] == if from <= t < i {
                    cross3(ax@[t], ay@[t], az@[t], bx@[t], by@[t], bz@[t]).1
                } else {
                    oy0[t]
                },
            forall|t: int|
                0 <= t < oz0.len() ==> #[trigger] oz@[t] == if from <= t < i {
                    cross3(ax@[t], ay@[t], az@[t], bx@[t], by@[t], bz@[t]).2
                } else {
                    oz0[t]
                },
        decreases to - i,
    {
        let r = cross3_one(ax[i], ay[i], az[i], bx[i], by[i], bz[i]);
        ox[i] = r.0;
        oy[i] = r.1;
        oz[i] = r.2;
        i = i + 1;
    }
}

/// `o[i] = a[i] × b[i]`.
///
/// Whole vectors first, then the rest; the result does not depend on the path.
pub fn cross3_batch<S: Double>(
    path: SimdPath,
    ax: &[S],
    ay: &[S],
    az: &[S],
    bx: &[S],
    by: &[S],
    bz: &[S],
    ox: &mut [S],
    oy: &mut [S],
    oz: &mut [S],
)
    requires
        ay@.len() == ax@.len(),
        az@.len() == ax@.len(),
        bx@.len() == ax@.len(),
        by@.len() == ax@.len(),
        bz@.len() == ax@.len(),
        old(ox)@.len() == ax@.len(),
        old(oy)@.len() == ax@.len(),
        old(oz)@.len() == ax@.len(),
    ensures
        (final(ox)@, final(oy)@, final(oz)@) == cross3_all((ax@, ay@, az@), (bx@, by@, bz@)),
{
    let ghost ox0 = ox@;
    let ghost oy0 = oy@;
    let ghost oz0 = oz@;
    let n: usize = ax.len();
    let width: usize = match path {
        SimdPath::Lasx => 4,
        SimdPath::Lsx => 2,
    };
    let mut i: usize = 0;
    while width <= n - i
        invariant
            0 < width,
            i <= n,
            ax@.len() == n,
            ay@.len() == n,
            az@.len() == n,
            bx@.len() == n,
            by@.len() == n,
            bz@.len() == n,
            ox@.len() == n,
            oy@.len() == n,
            oz@.len() == n,
            ox0.len() == n,
            oy0.len() == n,
            oz0.len() == n,
            forall|t: int|
                0 <= t < n ==> #[trigger] ox@[t] == if t < i {
                    cross3(ax@[t], ay@[t], az@[t], bx@[t], by@[t], bz@[t]).0
                } else {
                    ox0[t]
                },
            forall|t: int|
                0 <= t < n ==> #[trigger] oy@[t] == if t < i {
                    cross3(ax@[t], ay@[t], az@[t], bx@[t], by@[t], bz@[t]).1
                } else {
                    oy0[t]
                },
            forall|t: int|
                0 <= t < n ==> #[trigger] oz@[t] == if t < i {
                    cross3(ax@[t], ay@[t], az@[t], bx@[t], by@[t], bz@[t]).2
                } else {
                    oz0[t]
                },
        decreases n - i,
    {
        cross3_run(ax, ay, az, bx, by, bz, ox, oy, oz, i, i + width);
        i = i + width;
    }
    cross3_run(ax, ay, az, bx, by, bz, ox, oy, oz, i, n);
    proof {
        let want = cross3_all((ax@, ay@, az@), (bx@, by@, bz@));
        assert(ox@ =~= want.0);
        assert(oy@ =~= want.1);
        assert(oz@ =~= want.2);
    }
}

/// Law: each output depends on its own inputs alone, so a batch may be cut anywhere.
pub proof fn law_cross3_batch_split<S: Double>(
    a: (Seq<S>, Seq<S>, Seq<S>),
    b: (Seq<S>, Seq<S>, Seq<S>),
    from: int,
    to: int,
)
    requires
        0 <= from <= to <= a.0.len(),
        a.1.len() == a.0.len(),
        a.2.len() == a.0.len(),
        b.0.len() == a.0.len(),
        b.1.len() == a.0.len(),
        b.2.len() == a.0.len(),
    ensures
        cross3_all(
            (a.0.subrange(from, to), a.1.subrange(from, to), a.2.subrange(from, to)),
            (b.0.subrange(from, to), b.1.subrange(from, to), b.2.subrange(from, to)),
        ).0 == cross3_all(a, b).0.subrange(from, to),
        cross3_all(
            (a.0.subrange(from, to), a.1.subrange(from, to), a.2.subrange(from, to)),
            (b.0.subrange(from, to), b.1.subrange(from, to), b.2.subrange(from, to)),
        ).1 == cross3_all(a, b).1.subrange(from, to),
        cross3_all(
            (a.0.subrange(from, to), a.1.subrange(from, to), a.2.subrange(from, to)),
            (b.0.subrange(from, to), b.1.subrange(from, to), b.2.subrange(from, to)),
        ).2 == cross3_all(a, b).2.subrange(from, to),
{
    let part = cross3_all(
        (a.0.subrange(from, to), a.1.subrange(from, to), a.2.subrange(from, to)),
        (b.0.subrange(from, to), b.1.subrange(from, to), b.2.subrange(from, to)),
    );
    let whole = cross3_all(a, b);
    assert(part.0 =~= whole.0.subrange(from, to));
    assert(part.1 =~= whole.1.subrange(from, to));
    assert(part.2 =~= whole.2.subrange(from, to));
}

/// `M · (x, y, z)` for a row-major 3×3 matrix, sums from the left.
pub open spec fn mat3_mul_vec3<S: Double>(
    m0: S,
    m1: S,
    m2: S,
    m3: S,
    m4: S,
    m5: S,
    m6: S,
    m7: S,
    m8: S,
    x: S,
    y: S,
    z: S,
) -> (S, S, S) {
    (
        m0.mul_spec(x).add_spec(m1.mul_spec(y)).add_spec(m2.mul_spec(z)),
        m3.mul_spec(x).add_spec(m4.mul_spec(y)).add_spec(m5.mul_spec(z)),
        m6.mul_spec(x).add_spec(m7.mul_spec(y)).add_spec(m8.mul_spec(z)),
    )
}

/// Computes [`mat3_mul_vec3`].
pub fn mat3_mul_vec3_one<S: Double>(
    m0: S,
    m1: S,
    m2: S,
    m3: S,
    m4: S,
    m5: S,
    m6: S,
    m7: S,
    m8: S,
    x: S,
    y: S,
    z: S,
) -> (r: (S, S, S))
    ensures
        r == mat3_mul_vec3(m0, m1, m2, m3, m4, m5, m6, m7, m8, x, y, z),
{
    (
        m0.mul(x).add(m1.mul(y)).add(m2.mul(z)),
        m3.mul(x).add(m4.mul(y)).add(m5.mul(z)),
        m6.mul(x).add(m7.mul(y)).add(m8.mul(z)),
    )
}

/// Products of a batch of matrices and vectors.
pub open spec fn mat3_mul_vec3_all<S: Double>(
    m: (Seq<S>, Seq<S>, Seq<S>, Seq<S>, Seq<S>, Seq<S>, Seq<S>, Seq<S>, Seq<S>),
    v: (Seq<S>, Seq<S>, Seq<S>),
) -> (Seq<S>, Seq<S>, Seq<S>) {
    (
        Seq::new(
            m.0.len(),
            |i: int| mat3_mul_vec3(
                m.0[i],
                m.1[i],
                m.2[i],
                m.3[i],
                m.4[i],
                m.5[i],
                m.6[i],
                m.7[i],
                m.8[i],
                v.0[i],
                v.1[i],
                v.2[i],
            ).0,
        ),
        Seq::new(
            m.0.len(),
            |i: int| mat3_mul_vec3(
                m.0[i],
                m.1[i],
                m.2[i],
                m.3[i],
                m.4[i],
                m.5[i],
                m.6[i],
                m.7[i],
                m.8[i],
                v.0[i],
                v.1[i],
                v.2[i],
            ).1,
        ),
        Seq::new(
            m.0.len(),
            |i: int| mat3_mul_vec3(
                m.0[i],
                m.1[i],
                m.2[i],
                m.3[i],
                m.4[i],
                m.5[i],
                m.6[i],
                m.7[i],
                m.8[i],
                v.0[i],
                v.1[i],
                v.2[i],
            ).2,
        ),
    )
}

/// Elements `[from, to)` of the batch; the others are left alone.
fn mat3_mul_vec3_run<S: Double>(
    m0: &[S],
    m1: &[S],
    m2: &[S],
    m3: &[S],
    m4: &[S],
    m5: &[S],
    m6: &[S],
    m7: &[S],
    m8: &[S],
    x: &[S],
    y: &[S],
    z: &[S],
    ox: &mut [S],
    oy: &mut [S],
    oz: &mut [S],
    from: usize,
    to: usize,
)
    requires
        from <= to <= m0@.len(),
        m1@.len() == m0@.len(),
        m2@.len() == m0@.len(),
        m3@.len() == m0@.len(),
        m4@.len() == m0@.len(),
        m5@.len() == m0@.len(),
        m6@.len() == m0@.len(),
        m7@.len() == m0@.len(),
        m8@.len() == m0@.len(),
        x@.len() == m0@.len(),
        y@.len() == m0@.len(),
        z@.len() == m0@.len(),
        old(ox)@.len() == m0@.len(),
        old(oy)@.len() == m0@.len(),
        old(oz)@.len() == m0@.len(),
    ensures
        final(ox)@.len() == old(ox)@.len(),
        forall|t: int|
            0 <= t < old(ox)@.len() ==> #[trigger] final(ox)@[t] == if from <= t < to {
                mat3_mul_vec3(
                    m0@[t],
                    m1@[t],
                    m2@[t],
                    m3@[t],
                    m4@[t],
                    m5@[t],
                    m6@[t],
                    m7@[t],
                    m8@[t],
                    x@[t],
                    y@[t],
                    z@[t],
                ).0
            } else {
                old(ox)@[t]
            },
        final(oy)@.len() == old(oy)@.len(),
        forall|t: int|
            0 <= t < old(oy)@.len() ==> #[trigger] final(oy)@[t] == if from <= t < to {
                mat3_mul_vec3(
                    m0@[t],
                    m1@[t],
                    m2@[t],
                    m3@[t],
                    m4@[t],
                    m5@[t],
                    m6@[t],
                    m7@[t],
                    m8@[t],
                    x@[t],
                    y@[t],
                    z@[t],
                ).1
            } else {
                old(oy)@[t]
            },
        final(oz)@.len() == old(oz)@.len(),
        forall|t: int|
            0 <= t < old(oz)@.len() ==> #[trigger] final(oz)@[t] == if from <= t < to {
                mat3_mul_vec3(
                    m0@[t],
                    m1@[t],
                    m2@[t],
                    m3@[t],
                    m4@[t],
                    m5@[t],
                    m6@[t],
                    m7@[t],
                    m8@[t],
                    x@[t],
                    y@[t],
                    z@[t],
                ).2
            } else {
                old(oz)@[t]
            },
{
    let ghost ox0 = ox@;
    let ghost oy0 = oy@;
    let ghost oz0 = oz@;
    let mut i: usize = from;
    while i < to
        invariant
            from <= i <= to <= m0@.len(),
            m1@.len() == m0@.len(),
            m2@.len() == m0@.len(),
            m3@.len() == m0@.len(),
            m4@.len() == m0@.len(),
            m5@.len() == m0@.len(),
            m6@.len() == m0@.len(),
            m7@.len() == m0@.len(),
            m8@.len() == m0@.len(),
            x@.len() == m0@.len(),
            y@.len() == m0@.len(),
            z@.len() == m0@.len(),
            ox@.len() == m0@.len(),
            oy@.len() == m0@.len(),
            oz@.len() == m0@.len(),
            ox0.len() == ox@.len(),
            oy0.len() == oy@.len(),
            oz0.len() == oz@.len(),
            forall|t: int|
                0 <= t < ox0.len() ==> #[trigger] ox@[t] == if from <= t < i {
                    mat3_mul_vec3(
                        m0@[t],
                        m1@[t],
                        m2@[t],
                        m3@[t],
                        m4@[t],
                        m5@[t],
                        m6@[t],
                        m7@[t],
                        m8@[t],
                        x@[t],
                        y@[t],
                        z@[t],
                    ).0
                } else {
                    ox0[t]
                },
            forall|t: int|
                0 <= t < oy0.len() ==> #[trigger] oy@[t] == if from <= t < i {
                    mat3_mul_vec3(
                        m0@[t],
                        m1@[t],
                        m2@[t],
                        m3@[t],
                        m4@[t],
                        m5@[t],
                        m6@[t],
                        m7@[t],
                        m8@[t],
                        x@[t],
                        y@[t],
                        z@[t],
                    ).1
                } else {
                    oy0[t]
                },
            forall|t: int|
                0 <= t < oz0.len() ==> #[trigger] oz@[t] == if from <= t < i {
                    mat3_mul_vec3(
                        m0@[t],
                        m1@[t],
                        m2@[t],
                        m3@[t],
                        m4@[t],
                        m5@[t],
                        m6@[t],
                        m7@[t],
                        m8@[t],
                        x@[t],
                        y@[t],
                        z@[t],
                    ).2
                } else {
                    oz0[t]
                },
        decreases to - i,
    {
        let r = mat3_mul_vec3_one(
            m0[i],
            m1[i],
            m2[i],
            m3[i],
            m4[i],
            m5[i],
            m6[i],
            m7[i],
            m8[i],
            x[i],
            y[i],
            z[i],
        );
        ox[i] = r.0;
        oy[i] = r.1;
        oz[i] = r.2;
        i = i + 1;
    }
}

/// `o[i] = M[i] · v[i]`.
///
/// Whole vectors first, then the rest; the result does not depend on the path.
pub fn mat3_mul_vec3_batch<S: Double>(
    path: SimdPath,
    m0: &[S],
    m1: &[S],
    m2: &[S],
    m3: &[S],
    m4: &[S],
    m5: &[S],
    m6: &[S],
    m7: &[S],
    m8: &[S],
    x: &[S],
    y: &[S],
    z: &[S],
    ox: &mut [S],
    oy: &mut [S],
    oz: &mut [S],
)
    requires
        m1@.len() == m0@.len(),
        m2@.len() == m0@.len(),
        m3@.len() == m0@.len(),
        m4@.len() == m0@.len(),
        m5@.len() == m0@.len(),
        m6@.len() == m0@.len(),
        m7@.len() == m0@.len(),
        m8@.len() == m0@.len(),
        x@.len() == m0@.len(),
        y@.len() == m0@.len(),
        z@.len() == m0@.len(),
        old(ox)@.len() == m0@.len(),
        old(oy)@.len() == m0@.len(),
        old(oz)@.len() == m0@.len(),
    ensures
        (final(ox)@, final(oy)@, final(oz)@) == mat3_mul_vec3_all(
            (m0@, m1@, m2@, m3@, m4@, m5@, m6@, m7@, m8@),
            (x@, y@, z@),
        ),
{
    let ghost ox0 = ox@;
    let ghost oy0 = oy@;
    let ghost oz0 = oz@;
    let n: usize = m0.len();
    let width: usize = match path {
        SimdPath::Lasx => 4,
        SimdPath::Lsx => 2,
    };
    let mut i: usize = 0;
    while width <= n - i
        invariant
            0 < width,
            i <= n,
            m0@.len() == n,
            m1@.len() == n,
            m2@.len() == n,
            m3@.len() == n,
            m4@.len() == n,
            m5@.len() == n,
            m6@.len() == n,
            m7@.len() == n,
            m8@.len() == n,
            x@.len() == n,
            y@.len() == n,
            z@.len() == n,
            ox@.len() == n,
            oy@.len() == n,
            oz@.len() == n,
            ox0.len() == n,
            oy0.len() == n,
            oz0.len() == n,
            forall|t: int|
                0 <= t < n ==> #[trigger] ox@[t] == if t < i {
                    mat3_mul_vec3(
                        m0@[t],
                        m1@[t],
                        m2@[t],
                        m3@[t],
                        m4@[t],
                        m5@[t],
                        m6@[t],
                        m7@[t],
                        m8@[t],
                        x@[t],
                        y@[t],
                        z@[t],
                    ).0
                } else {
                    ox0[t]
                },
            forall|t: int|
                0 <= t < n ==> #[trigger] oy@[t] == if t < i {
                    mat3_mul_vec3(
                        m0@[t],
                        m1@[t],
                        m2@[t],
                        m3@[t],
                        m4@[t],
                        m5@[t],
                        m6@[t],
                        m7@[t],
                        m8@[t],
                        x@[t],
                        y@[t],
                        z@[t],
                    ).1
                } else {
                    oy0[t]
                },
            forall|t: int|
                0 <= t < n ==> #[trigger] oz@[t] == if t < i {
                    mat3_mul_vec3(
                        m0@[t],
                        m1@[t],
                        m2@[t],
                        m3@[t],
                        m4@[t],
                        m5@[t],
                        m6@[t],
                        m7@[t],
                        m8@[t],
                        x@[t],
                        y@[t],
                        z@[t],
                    ).2
                } else {
                    oz0[t]
                },
        decreases n - i,
    {
        mat3_mul_vec3_run(m0, m1, m2, m3, m4, m5, m6, m7, m8, x, y, z, ox, oy, oz, i, i + width);
        i = i + width;
    }
    mat3_mul_vec3_run(m0, m1, m2, m3, m4, m5, m6, m7, m8, x, y, z, ox, oy, oz, i, n);
    proof {
        let want = mat3_mul_vec3_all((m0@, m1@, m2@, m3@, m4@, m5@, m6@, m7@, m8@), (x@, y@, z@));
        assert(ox@ =~= want.0);
        assert(oy@ =~= want.1);
        assert(oz@ =~= want.2);
    }
}

/// Law: each output depends on its own inputs alone, so a batch may be cut anywhere.
pub proof fn law_mat3_mul_vec3_batch_split<S: Double>(
    m: (Seq<S>, Seq<S>, Seq<S>, Seq<S>, Seq<S>, Seq<S>, Seq<S>, Seq<S>, Seq<S>),
    v: (Seq<S>, Seq<S>, Seq<S>),
    from: int,
    to: int,
)
    requires
        0 <= from <= to <= m.0.len(),
        m.1.len() == m.0.len(),
        m.2.len() == m.0.len(),
        m.3.len() == m.0.len(),
        m.4.len() == m.0.len(),
        m.5.len() == m.0.len(),
        m.6.len() == m.0.len(),
        m.7.len() == m.0.len(),
        m.8.len() == m.0.len(),
        v.0.len() == m.0.len(),
        v.1.len() == m.0.len(),
        v.2.len() == m.0.len(),
    ensures
        mat3_mul_vec3_all(
            (
                m.0.subrange(from, to),
                m.1.subrange(from, to),
                m.2.subrange(from, to),
                m.3.subrange(from, to),
                m.4.subrange(from, to),
                m.5.subrange(from, to),
                m.6.subrange(from, to),
                m.7.subrange(from, to),
                m.8.subrange(from, to),
            ),
            (v.0.subrange(from, to), v.1.subrange(from, to), v.2.subrange(from, to)),
        ).0 == mat3_mul_vec3_all(m, v).0.subrange(from, to),
        mat3_mul_vec3_all(
            (
                m.0.subrange(from, to),
                m.1.subrange(from, to),
                m.2.subrange(from, to),
                m.3.subrange(from, to),
                m.4.subrange(from, to),
                m.5.subrange(from, to),
                m.6.subrange(from, to),
                m.7.subrange(from, to),
                m.8.subrange(from, to),
            ),
            (v.0.subrange(from, to), v.1.subrange(from, to), v.2.subrange(from, to)),
        ).1 == mat3_mul_vec3_all(m, v).1.subrange(from, to),
        mat3_mul_vec3_all(
            (
                m.0.subrange(from, to),
                m.1.subrange(from, to),
                m.2.subrange(from, to),
                m.3.subrange(from, to),
                m.4.subrange(from, to),
                m.5.subrange(from, to),
                m.6.subrange(from, to),
                m.7.subrange(from, to),
                m.8.subrange(from, to),
            ),
            (v.0.subrange(from, to), v.1.subrange(from, to), v.2.subrange(from, to)),
        ).2 == mat3_mul_vec3_all(m, v).2.subrange(from, to),
{
    let part = mat3_mul_vec3_all(
        (
            m.0.subrange(from, to),
            m.1.subrange(from, to),
            m.2.subrange(from, to),
            m.3.subrange(from, to),
            m.4.subrange(from, to),
            m.5.subrange(from, to),
            m.6.subrange(from, to),
            m.7.subrange(from, to),
            m.8.subrange(from, to),
        ),
        (v.0.subrange(from, to), v.1.subrange(from, to), v.2.subrange(from, to)),
    );
    let whole = mat3_mul_vec3_all(m, v);
    assert(part.0 =~= whole.0.subrange(from, to));
    assert(part.1 =~= whole.1.subrange(from, to));
    assert(part.2 =~= whole.2.subrange(from, to));
}

/// The vector `(x, y, z)` divided by its length; the zero vector stays zero.
pub open spec fn unitize3<S: Double>(x: S, y: S, z: S) -> (S, S, S) {
    let mag = norm3(x, y, z);
    let inv = if mag.same_spec(S::of_raw_spec(0)) {
        S::of_raw_spec(0)
    } else {
        S::of_raw_spec(F64_ONE).div_spec(mag)
    };
    (x.mul_spec(inv), y.mul_spec(inv), z.mul_spec(inv))
}

/// Computes [`unitize3`].
pub fn unitize3_one<S: Double>(x: S, y: S, z: S) -> (r: (S, S, S))
    ensures
        r == unitize3(x, y, z),
{
    let mag: S = norm3_one(x, y, z);
    let inv: S = if mag.same(S::of_raw(0)) {
        S::of_raw(0)
    } else {
        S::of_raw(F64_ONE).div(mag)
    };
    (x.mul(inv), y.mul(inv), z.mul(inv))
}

/// Unit vectors of a batch of vectors.
pub open spec fn unitize3_all<S: Double>(v: (Seq<S>, Seq<S>, Seq<S>)) -> (Seq<S>, Seq<S>, Seq<S>) {
    (
        Seq::new(v.0.len(), |i: int| unitize3(v.0[i], v.1[i], v.2[i]).0),
        Seq::new(v.0.len(), |i: int| unitize3(v.0[i], v.1[i], v.2[i]).1),
        Seq::new(v.0.len(), |i: int| unitize3(v.0[i], v.1[i], v.2[i]).2),
    )
}

/// Elements `[from, to)` of the batch; the others are left alone.
fn unitize3_run<S: Double>(
    x: &[S],
    y: &[S],
    z: &[S],
    ox: &mut [S],
    oy: &mut [S],
    oz: &mut [S],
    from: usize,
    to: usize,
)
    requires
        from <= to <= x@.len(),
        y@.len() == x@.len(),
        z@.len() == x@.len(),
        old(ox)@.len() == x@.len(),
        old(oy)@.len() == x@.len(),
        old(oz)@.len() == x@.len(),
    ensures
        final(ox)@.len() == old(ox)@.len(),
        forall|t: int|
            0 <= t < old(ox)@.len() ==> #[trigger] final(ox)@[t] == if from <= t < to {
                unitize3(x@[t], y@[t], z@[t]).0
            } else {
                old(ox)@[t]
            },
        final(oy)@.len() == old(oy)@.len(),
        forall|t: int|
            0 <= t < old(oy)@.len() ==> #[trigger] final(oy)@[t] == if from <= t < to {
                unitize3(x@[t], y@[t], z@[t]).1
            } else {
                old(oy)@[t]
            },
        final(oz)@.len() == old(oz)@.len(),
        forall|t: int|
            0 <= t < old(oz)@.len() ==> #[trigger] final(oz)@[t] == if from <= t < to {
                unitize3(x@[t], y@[t], z@[t]).2
            } else {
                old(oz)@[t]
            },
{
    let ghost ox0 = ox@;
    let ghost oy0 = oy@;
    let ghost oz0 = oz@;
    let mut i: usize = from;
    while i < to
        invariant
            from <= i <= to <= x@.len(),
            y@.len() == x@.len(),
            z@.len() == x@.len(),
            ox@.len() == x@.len(),
            oy@.len() == x@.len(),
            oz@.len() == x@.len(),
            ox0.len() == ox@.len(),
            oy0.len() == oy@.len(),
            oz0.len() == oz@.len(),
            forall|t: int|
                0 <= t < ox0.len() ==> #[trigger] ox@[t] == if from <= t < i {
                    unitize3(x@[t], y@[t], z@[t]).0
                } else {
                    ox0[t]
                },
            forall|t: int|
                0 <= t < oy0.len() ==> #[trigger] oy@[t] == if from <= t < i {
                    unitize3(x@[t], y@[t], z@[t]).1
                } else {
                    oy0[t]
                },
            forall|t: int|
                0 <= t < oz0.len() ==> #[trigger] oz@[t] == if from <= t < i {
                    unitize3(x@[t], y@[t], z@[t]).2
                } else {
                    oz0[t]
                },
        decreases to - i,
    {
        let r = unitize3_one(x[i], y[i], z[i]);
        ox[i] = r.0;
        oy[i] = r.1;
        oz[i] = r.2;
        i = i + 1;
    }
}

/// `o[i] = v[i] / |v[i]|`, zero for a zero vector.
///
/// Whole vectors first, then the rest; the result does not depend on the path.
pub fn unitize3_batch<S: Double>(
    path: SimdPath,
    x: &[S],
    y: &[S],
    z: &[S],
    ox: &mut [S],
    oy: &mut [S],
    oz: &mut [S],
)
    requires
        y@.len() == x@.len(),
        z@.len() == x@.len(),
        old(ox)@.len() == x@.len(),
        old(oy)@.len() == x@.len(),
        old(oz)@.len() == x@.len(),
    ensures
        (final(ox)@, final(oy)@, final(oz)@) == unitize3_all((x@, y@, z@)),
{
    let ghost ox0 = ox@;
    let ghost oy0 = oy@;
    let ghost oz0 = oz@;
    let n: usize = x.len();
    let width: usize = match path {
        SimdPath::Lasx => 4,
        SimdPath::Lsx => 2,
    };
    let mut i: usize = 0;
    while width <= n - i
        invariant
            0 < width,
            i <= n,
            x@.len() == n,
            y@.len() == n,
            z@.len() == n,
            ox@.len() == n,
            oy@.len() == n,
            oz@.len() == n,
            ox0.len() == n,
            oy0.len() == n,
            oz0.len() == n,
            forall|t: int|
                0 <= t < n ==> #[trigger] ox@[t] == if t < i {
                    unitize3(x@[t], y@[t], z@[t]).0
                } else {
                    ox0[t]
                },
            forall|t: int|
                0 <= t < n ==> #[trigger] oy@[t] == if t < i {
                    unitize3(x@[t], y@[t], z@[t]).1
                } else {
                    oy0[t]
                },
            forall|t: int|
                0 <= t < n ==> #[trigger] oz@[t] == if t < i {
                    unitize3(x@[t], y@[t], z@[t]).2
                } else {
                    oz0[t]
                },
        decreases n - i,
    {
        unitize3_run(x, y, z, ox, oy, oz, i, i + width);
        i = i + width;
    }
    unitize3_run(x, y, z, ox, oy, oz, i, n);
    proof {
        let want = unitize3_all((x@, y@, z@));
        assert(ox@ =~= want.0);
        assert(oy@ =~= want.1);
        assert(oz@ =~= want.2);
    }
}

/// Law: each output depends on its own inputs alone, so a batch may be cut anywhere.
pub proof fn law_unitize3_batch_split<S: Double>(v: (Seq<S>, Seq<S>, Seq<S>), from: int, to: int)
    requires
        0 <= from <= to <= v.0.len(),
        v.1.len() == v.0.len(),
        v.2.len() == v.0.len(),
    ensures
        unitize3_all(
            (v.0.subrange(from, to), v.1.subrange(from, to), v.2.subrange(from, to)),
        ).0 == unitize3_all(v).0.subrange(from, to),
        unitize3_all(
            (v.0.subrange(from, to), v.1.subrange(from, to), v.2.subrange(from, to)),
        ).1 == unitize3_all(v).1.subrange(from, to),
        unitize3_all(
            (v.0.subrange(from, to), v.1.subrange(from, to), v.2.subrange(from, to)),
        ).2 == unitize3_all(v).2.subrange(from, to),
{
    let part = unitize3_all(
        (v.0.subrange(from, to), v.1.subrange(from, to), v.2.subrange(from, to)),
    );
    let whole = unitize3_all(v);
    assert(part.0 =~= whole.0.subrange(from, to));
    assert(part.1 =~= whole.1.subrange(from, to));
    assert(part.2 =~= whole.2.subrange(from, to));
}

} // verus!
