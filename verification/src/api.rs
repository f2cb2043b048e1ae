//! Slices in, checked shapes, aligned results.
//!
//! Every function checks its arguments in a fixed order, reports the first that does not
//! fit, and otherwise runs one kernel. A refused call leaves its outputs untouched.
use crate::aligned::AlignedVec;
use crate::arch::SimdPath;
use crate::error::{
    checked_mul, expect_at_least, expect_finite, expect_len, expect_positive, expect_same_len,
    finite_result, first_odd, len_result, positive_result, same_len_result,
};
use crate::math::{ceil_div, div_ceil};
use crate::ops::attitude::{quat_dcm_all, quat_mul_all, quat_rotate_all, quat_unit_all};
use crate::ops::ballistic::{shot_at, stepped};
use crate::ops::geometry::{
    add_scaled_all, cross3_all, distance2d_all, mat3_mul_vec3_all, norm3_all, unitize3_all,
};
use crate::ops::matmul::{is_product, matmul_packed};
use crate::ops::orbit::{j2_accel_all, rk4_step_all};
use crate::ops::quant::{exact_dot, q4_dot, wrap32};
use crate::ops::reduce::{axpy_of, dot_f64_of, reduced};
use crate::ops::chain::TermSeq;
use crate::plan::PackedKernel;
use crate::scalar::{Double, Single};
use vstd::prelude::*;

pub use crate::error::Error;

verus! {

/// `Σ x[i]`; zero for an empty slice.
pub fn sum<S: Single>(x: &[S]) -> (r: S)
    ensures
        r == reduced(TermSeq::Sum(x@)),
{
    crate::ops::reduce::sum(x)
}

/// `Σ a[i]·b[i]`; the arrays have to be equally long.
pub fn dot<S: Single>(path: SimdPath, a: &[S], b: &[S]) -> (r: Result<S, Error>)
    ensures
        r == (match len_result("dot", "b", b@.len(), a@.len()) {
            Ok(_) => Ok::<S, Error>(reduced(TermSeq::Dot(a@, b@))),
            Err(e) => Err(e),
        }),
{
    match expect_len("dot", "b", b.len(), a.len()) {
        Ok(_) => Ok(crate::ops::reduce::dot(path, a, b)),
        Err(e) => Err(e),
    }
}

/// `Σ a[i]·b[i]` in double precision; the arrays have to be equally long.
pub fn dot_f64<D: Double>(a: &[D], b: &[D]) -> (r: Result<D, Error>)
    ensures
        r == (match len_result("dot_f64", "b", b@.len(), a@.len()) {
            Ok(_) => Ok::<D, Error>(dot_f64_of(a@, b@)),
            Err(e) => Err(e),
        }),
{
    match expect_len("dot_f64", "b", b.len(), a.len()) {
        Ok(_) => Ok(crate::ops::reduce::dot_f64(a, b)),
        Err(e) => Err(e),
    }
}

/// Dot product of two byte arrays, which have to be equally long.
pub fn dot_i8(a: &[i8], b: &[i8]) -> (r: Result<i32, Error>)
    ensures
        match len_result("dot_i8", "b", b@.len(), a@.len()) {
            Ok(_) => r is Ok && r->Ok_0 == wrap32(exact_dot(a@, b@, a@.len() as int)),
            Err(e) => r == Err::<i32, Error>(e),
        },
{
    match expect_len("dot_i8", "b", b.len(), a.len()) {
        Ok(_) => Ok(crate::ops::quant::dot_i8(a, b)),
        Err(e) => Err(e),
    }
}

/// What [`dot_q4`] checks: equally long bytes, and at least one scale per 32 of them.
pub open spec fn q4_shape(qa: nat, sa: nat, qb: nat, sb: nat) -> Result<(), Error> {
    let groups = ceil_div(qa, 32);
    if qb != qa {
        Err(
            Error::Shape {
                op: "dot_q4",
                what: "qb",
                expected: qa as usize,
                got: qb as usize,
            },
        )
    } else if sa < groups {
        Err(
            Error::Shape {
                op: "dot_q4",
                what: "sa",
                expected: groups as usize,
                got: sa as usize,
            },
        )
    } else if sb < groups {
        Err(
            Error::Shape {
                op: "dot_q4",
                what: "sb",
                expected: groups as usize,
                got: sb as usize,
            },
        )
    } else {
        Ok(())
    }
}

/// Dot product of two arrays of nibbles with one scale per 32 bytes.
pub fn dot_q4<S: Single>(qa: &[u8], sa: &[S], qb: &[u8], sb: &[S]) -> (r: Result<S::Wide, Error>)
    ensures
        r == (match q4_shape(qa@.len(), sa@.len(), qb@.len(), sb@.len()) {
            Ok(_) => Ok::<S::Wide, Error>(q4_dot(qa@, sa@, qb@, sb@)),
            Err(e) => Err(e),
        }),
{
    let groups: usize = div_ceil(qa.len(), 32);
    match expect_len("dot_q4", "qb", qb.len(), qa.len()) {
        Ok(_) => (),
        Err(e) => return Err(e),
    }
    match expect_at_least("dot_q4", "sa", sa.len(), groups) {
        Ok(_) => (),
        Err(e) => return Err(e),
    }
    match expect_at_least("dot_q4", "sb", sb.len(), groups) {
        Ok(_) => (),
        Err(e) => return Err(e),
    }
    Ok(crate::ops::quant::dot_q4(qa, sa, qb, sb))
}

/// `y[i] += alpha·x[i]`; the arrays have to be equally long.
pub fn axpy<S: Single>(alpha: S, x: &[S], y: &mut [S]) -> (r: Result<(), Error>)
    ensures
        r == len_result("axpy", "y", old(y)@.len(), x@.len()),
        final(y)@ == (if r is Ok {
            axpy_of(alpha, x@, old(y)@)
        } else {
            old(y)@
        }),
{
    match expect_len("axpy", "y", y.len(), x.len()) {
        Ok(_) => {
            crate::ops::reduce::axpy(alpha, x, y);
            Ok(())
        },
        Err(e) => Err(e),
    }
}

/// What the products check: `a` is `m × k`, `b` is `k × n`, and `m·n` fits in `usize`.
pub open spec fn product_shape(
    op: &'static str,
    m: int,
    k: int,
    n: int,
    a: nat,
    b: nat,
) -> Result<(), Error> {
    if m * k > usize::MAX {
        Err(Error::Overflow { op, what: "m×k" })
    } else if a != m * k {
        Err(Error::Shape { op, what: "a", expected: (m * k) as usize, got: a as usize })
    } else if k * n > usize::MAX {
        Err(Error::Overflow { op, what: "k×n" })
    } else if b != k * n {
        Err(Error::Shape { op, what: "b", expected: (k * n) as usize, got: b as usize })
    } else if m * n > usize::MAX {
        Err(Error::Overflow { op, what: "m×n" })
    } else {
        Ok(())
    }
}

/// Checks [`product_shape`] and returns `m·n`.
pub(crate) fn product_len(op: &'static str, m: usize, k: usize, n: usize, a: usize, b: usize) -> (r: Result<
    usize,
    Error,
>)
    ensures
        r == (match product_shape(op, m as int, k as int, n as int, a as nat, b as nat) {
            Ok(_) => Ok::<usize, Error>((m * n) as usize),
            Err(e) => Err(e),
        }),
{
    let mk: usize = match checked_mul(op, "m×k", m, k) {
        Ok(v) => v,
        Err(e) => return Err(e),
    };
    match expect_len(op, "a", a, mk) {
        Ok(_) => (),
        Err(e) => return Err(e),
    }
    let kn: usize = match checked_mul(op, "k×n", k, n) {
        Ok(v) => v,
        Err(e) => return Err(e),
    };
    match expect_len(op, "b", b, kn) {
        Ok(_) => (),
        Err(e) => return Err(e),
    }
    checked_mul(op, "m×n", m, n)
}

/// `C[m×n] = A[m×k] · B[k×n]`, row by row, along the path that suits the shape.
pub fn matmul<T: PackedKernel>(m: usize, k: usize, n: usize, a: &[T], b: &[T]) -> (r: Result<
    AlignedVec<T>,
    Error,
>)
    ensures
        match product_shape("matmul", m as int, k as int, n as int, a@.len(), b@.len()) {
            Ok(_) => r is Ok && r->Ok_0.wf() && is_product(
                a@,
                b@,
                m as int,
                k as int,
                n as int,
                r->Ok_0@,
            ),
            Err(e) => r is Err && r->Err_0 == e,
        },
{
    let len: usize = match product_len("matmul", m, k, n, a.len(), b.len()) {
        Ok(v) => v,
        Err(e) => return Err(e),
    };
    let mut c = AlignedVec::new(len);
    crate::ops::matmul::matmul_f32(m, k, n, a, b, c.as_mut_slice());
    Ok(c)
}

/// [`matmul`], always with packed panels; the same result to the last bit.
pub fn matmul_f32_packed<T: PackedKernel>(
    m: usize,
    k: usize,
    n: usize,
    a: &[T],
    b: &[T],
) -> (r: Result<
    AlignedVec<T>,
    Error,
>)
    ensures
        match product_shape("matmul_f32_packed", m as int, k as int, n as int, a@.len(), b@.len()) {
            Ok(_) => r is Ok && r->Ok_0.wf() && is_product(
                a@,
                b@,
                m as int,
                k as int,
                n as int,
                r->Ok_0@,
            ),
            Err(e) => r is Err && r->Err_0 == e,
        },
{
    let len: usize = match product_len("matmul_f32_packed", m, k, n, a.len(), b.len()) {
        Ok(v) => v,
        Err(e) => return Err(e),
    };
    let mut c = AlignedVec::new(len);
    matmul_packed(m, k, n, a, b, c.as_mut_slice());
    Ok(c)
}

/// [`matmul`] in double precision.
pub fn matmul_f64<T: PackedKernel>(m: usize, k: usize, n: usize, a: &[T], b: &[T]) -> (r: Result<
    AlignedVec<T>,
    Error,
>)
    ensures
        match product_shape("matmul_f64", m as int, k as int, n as int, a@.len(), b@.len()) {
            Ok(_) => r is Ok && r->Ok_0.wf() && is_product(
                a@,
                b@,
                m as int,
                k as int,
                n as int,
                r->Ok_0@,
            ),
            Err(e) => r is Err && r->Err_0 == e,
        },
{
    let len: usize = match product_len("matmul_f64", m, k, n, a.len(), b.len()) {
        Ok(v) => v,
        Err(e) => return Err(e),
    };
    let mut c = AlignedVec::new(len);
    crate::ops::matmul::matmul_f64(m, k, n, a, b, c.as_mut_slice());
    Ok(c)
}

/// What [`j2_accel_batch`] checks: constants first, then lengths.
pub open spec fn accel_check<S: Double>(
    mu: S,
    re: S,
    j2: S,
    lens: Seq<(&'static str, usize)>,
) -> Result<usize, Error> {
    let op = "j2_accel_batch";
    match positive_result(op, "mu", mu) {
        Err(e) => Err(e),
        Ok(_) => match positive_result(op, "re", re) {
            Err(e) => Err(e),
            Ok(_) => match finite_result(op, "j2", j2) {
                Err(e) => Err(e),
                Ok(_) => same_len_result(op, lens),
            },
        },
    }
}

/// What [`rk4_j2_step_batch`] checks: constants first, then lengths.
pub open spec fn step_check<S: Double>(
    mu: S,
    re: S,
    j2: S,
    dt: S,
    lens: Seq<(&'static str, usize)>,
) -> Result<usize, Error> {
    let op = "rk4_j2_step_batch";
    match positive_result(op, "mu", mu) {
        Err(e) => Err(e),
        Ok(_) => match positive_result(op, "re", re) {
            Err(e) => Err(e),
            Ok(_) => match finite_result(op, "j2", j2) {
                Err(e) => Err(e),
                Ok(_) => match finite_result(op, "dt", dt) {
                    Err(e) => Err(e),
                    Ok(_) => same_len_result(op, lens),
                },
            },
        },
    }
}

/// Arrays that pass the check are all as long as the first.
pub proof fn lemma_same_len(lens: Seq<(&'static str, usize)>)
    ensures
        first_odd(lens, 1) >= lens.len() ==> forall|i: int|
            1 <= i < lens.len() ==> (#[trigger] lens[i]).1 == lens[0].1,
{
    lemma_same_len_from(lens, 1);
}

/// [`lemma_same_len`] from array `from` on.
proof fn lemma_same_len_from(lens: Seq<(&'static str, usize)>, from: int)
    ensures
        first_odd(lens, from) >= lens.len() ==> forall|i: int|
            from <= i < lens.len() ==> (#[trigger] lens[i]).1 == lens[0].1,
    decreases lens.len() - from,
{
    if from < lens.len() {
        lemma_same_len_from(lens, from + 1);
    }
}

/// Lengths of the vectors `(xs[i], ys[i], zs[i])`.
pub fn norm3_batch<S: Double>(
    path: SimdPath,
    xs: &[S],
    ys: &[S],
    zs: &[S],
) -> (r: Result<AlignedVec<S>, Error>)
    ensures
        match same_len_result(
            "norm3_batch",
            seq![
                ("xs", xs@.len() as usize),
                ("ys", ys@.len() as usize),
                ("zs", zs@.len() as usize),
            ],
        ) {
            Err(e) => r is Err && r->Err_0 == e,
            Ok(_) => {
                &&& r is Ok
                &&& r->Ok_0.wf()
                &&& r->Ok_0@ == norm3_all((xs@, ys@, zs@))
            },
        },
{
    let lens = [("xs", xs.len()), ("ys", ys.len()), ("zs", zs.len())];
    proof {
        assert(
            lens@ =~= seq![
                ("xs", xs@.len() as usize),
                ("ys", ys@.len() as usize),
                ("zs", zs@.len() as usize),
            ]
        );
        lemma_same_len(lens@);
    }
    let n: usize = match expect_same_len("norm3_batch", &lens) {
        Ok(v) => v,
        Err(e) => return Err(e),
    };
    assert(lens@[1].1 == lens@[0].1);
    assert(lens@[2].1 == lens@[0].1);
    let mut out = AlignedVec::new(n);
    crate::ops::geometry::norm3_batch(path, xs, ys, zs, out.as_mut_slice());
    Ok(out)
}

/// Distances of the points `(xs[i], ys[i])` from `(px, py)`.
pub fn batch_distance2d<S: Single>(
    path: SimdPath,
    px: S,
    py: S,
    xs: &[S],
    ys: &[S],
) -> (r: Result<AlignedVec<S>, Error>)
    ensures
        match same_len_result(
            "batch_distance2d",
            seq![("xs", xs@.len() as usize), ("ys", ys@.len() as usize)],
        ) {
            Err(e) => r is Err && r->Err_0 == e,
            Ok(_) => {
                &&& r is Ok
                &&& r->Ok_0.wf()
                &&& r->Ok_0@ == distance2d_all((xs@, ys@), px, py)
            },
        },
{
    let lens = [("xs", xs.len()), ("ys", ys.len())];
    proof {
        assert(lens@ =~= seq![("xs", xs@.len() as usize), ("ys", ys@.len() as usize)]);
        lemma_same_len(lens@);
    }
    let n: usize = match expect_same_len("batch_distance2d", &lens) {
        Ok(v) => v,
        Err(e) => return Err(e),
    };
    assert(lens@[1].1 == lens@[0].1);
    let mut out = AlignedVec::new(n);
    crate::ops::geometry::batch_distance2d(path, px, py, xs, ys, out.as_mut_slice());
    Ok(out)
}

/// `a + s·b`, component by component.
pub fn vec3_add_scaled_batch<S: Double>(
    path: SimdPath,
    ax: &[S],
    ay: &[S],
    az: &[S],
    bx: &[S],
    by: &[S],
    bz: &[S],
    s: S,
) -> (r: Result<[AlignedVec<S>; 3], Error>)
    ensures
        match same_len_result(
            "vec3_add_scaled_batch",
            seq![
                ("ax", ax@.len() as usize),
                ("ay", ay@.len() as usize),
                ("az", az@.len() as usize),
                ("bx", bx@.len() as usize),
                ("by", by@.len() as usize),
                ("bz", bz@.len() as usize),
            ],
        ) {
            Err(e) => r is Err && r->Err_0 == e,
            Ok(_) => {
                &&& r is Ok
                &&& r->Ok_0@[0].wf()
                &&& r->Ok_0@[1].wf()
                &&& r->Ok_0@[2].wf()
                &&& (r->Ok_0@[0]@, r->Ok_0@[1]@, r->Ok_0@[2]@) == add_scaled_all(
                    (ax@, ay@, az@),
                    (bx@, by@, bz@),
                    s,
                )
            },
        },
{
    let lens = [
        ("ax", ax.len()),
        ("ay", ay.len()),
        ("az", az.len()),
        ("bx", bx.len()),
        ("by", by.len()),
        ("bz", bz.len()),
    ];
    proof {
        assert(
            lens@ =~= seq![
                ("ax", ax@.len() as usize),
                ("ay", ay@.len() as usize),
                ("az", az@.len() as usize),
                ("bx", bx@.len() as usize),
                ("by", by@.len() as usize),
                ("bz", bz@.len() as usize),
            ]
        );
        lemma_same_len(lens@);
    }
    let n: usize = match expect_same_len("vec3_add_scaled_batch", &lens) {
        Ok(v) => v,
        Err(e) => return Err(e),
    };
    assert(lens@[1].1 == lens@[0].1);
    assert(lens@[2].1 == lens@[0].1);
    assert(lens@[3].1 == lens@[0].1);
    assert(lens@[4].1 == lens@[0].1);
    assert(lens@[5].1 == lens@[0].1);
    let mut ox = AlignedVec::new(n);
    let mut oy = AlignedVec::new(n);
    let mut oz = AlignedVec::new(n);
    crate::ops::geometry::vec3_add_scaled_batch(
        path,
        ax,
        ay,
        az,
        bx,
        by,
        bz,
        s,
        ox.as_mut_slice(),
        oy.as_mut_slice(),
        oz.as_mut_slice(),
    );
    Ok([ox, oy, oz])
}

/// Acceleration by the central body and its oblateness; constants are checked first.
pub fn j2_accel_batch<S: Double>(
    path: SimdPath,
    rx: &[S],
    ry: &[S],
    rz: &[S],
    mu: S,
    j2: S,
    re: S,
) -> (r: Result<[AlignedVec<S>; 3], Error>)
    ensures
        match accel_check(
            mu,
            re,
            j2,
            seq![
                ("rx", rx@.len() as usize),
                ("ry", ry@.len() as usize),
                ("rz", rz@.len() as usize),
            ],
        ) {
            Err(e) => r is Err && r->Err_0 == e,
            Ok(_) => {
                &&& r is Ok
                &&& r->Ok_0@[0].wf()
                &&& r->Ok_0@[1].wf()
                &&& r->Ok_0@[2].wf()
                &&& (
                    r->Ok_0@[0]@,
                    r->Ok_0@[1]@,
                    r->Ok_0@[2]@,
                ) == j2_accel_all((rx@, ry@, rz@), mu, j2, re)
            },
        },
{
    match expect_positive("j2_accel_batch", "mu", mu) {
        Ok(_) => (),
        Err(e) => return Err(e),
    }
    match expect_positive("j2_accel_batch", "re", re) {
        Ok(_) => (),
        Err(e) => return Err(e),
    }
    match expect_finite("j2_accel_batch", "j2", j2) {
        Ok(_) => (),
        Err(e) => return Err(e),
    }
    let lens = [("rx", rx.len()), ("ry", ry.len()), ("rz", rz.len())];
    proof {
        assert(
            lens@ =~= seq![
                ("rx", rx@.len() as usize),
                ("ry", ry@.len() as usize),
                ("rz", rz@.len() as usize),
            ]
        );
        lemma_same_len(lens@);
    }
    let n: usize = match expect_same_len("j2_accel_batch", &lens) {
        Ok(v) => v,
        Err(e) => return Err(e),
    };
    assert(lens@[1].1 == lens@[0].1);
    assert(lens@[2].1 == lens@[0].1);
    let mut ax = AlignedVec::new(n);
    let mut ay = AlignedVec::new(n);
    let mut az = AlignedVec::new(n);
    crate::ops::orbit::j2_accel_batch(
        path,
        rx,
        ry,
        rz,
        mu,
        j2,
        re,
        ax.as_mut_slice(),
        ay.as_mut_slice(),
        az.as_mut_slice(),
    );
    Ok([ax, ay, az])
}

/// Advances every projectile by one step, in place; the constants are not checked.
pub fn ballistic_step<S: Single>(
    path: SimdPath,
    x: &mut [S],
    y: &mut [S],
    z: &mut [S],
    vx: &mut [S],
    vy: &mut [S],
    vz: &mut [S],
    k: &[S],
    dt: S,
    g: S,
) -> (r: Result<(), Error>)
    ensures
        match same_len_result(
            "ballistic_step",
            seq![
                ("x", old(x)@.len() as usize),
                ("y", old(y)@.len() as usize),
                ("z", old(z)@.len() as usize),
                ("vx", old(vx)@.len() as usize),
                ("vy", old(vy)@.len() as usize),
                ("vz", old(vz)@.len() as usize),
                ("k", k@.len() as usize),
            ],
        ) {
            Err(e) => {
                &&& r is Err && r->Err_0 == e
                &&& final(x)@ == old(x)@
                &&& final(y)@ == old(y)@
                &&& final(z)@ == old(z)@
                &&& final(vx)@ == old(vx)@
                &&& final(vy)@ == old(vy)@
                &&& final(vz)@ == old(vz)@
            },
            Ok(_) => {
                &&& r is Ok
                &&& final(x)@.len() == old(x)@.len()
                &&& final(y)@.len() == old(x)@.len()
                &&& final(z)@.len() == old(x)@.len()
                &&& final(vx)@.len() == old(x)@.len()
                &&& final(vy)@.len() == old(x)@.len()
                &&& final(vz)@.len() == old(x)@.len()
                &&& forall|i: int|
                    0 <= i < old(x)@.len() ==> #[trigger] shot_at(
                        final(x)@, final(y)@, final(z)@, final(vx)@, final(vy)@, final(vz)@,
                        i,
                    ) == stepped(
                        path,
                        old(x)@.len() as int,
                        i,
                        shot_at(old(x)@, old(y)@, old(z)@, old(vx)@, old(vy)@, old(vz)@, i),
                        k@[i],
                        dt,
                        g,
                    )
            },
        },
{
    let lens = [
        ("x", x.len()),
        ("y", y.len()),
        ("z", z.len()),
        ("vx", vx.len()),
        ("vy", vy.len()),
        ("vz", vz.len()),
        ("k", k.len()),
    ];
    proof {
        assert(
            lens@ =~= seq![
                ("x", old(x)@.len() as usize),
                ("y", old(y)@.len() as usize),
                ("z", old(z)@.len() as usize),
                ("vx", old(vx)@.len() as usize),
                ("vy", old(vy)@.len() as usize),
                ("vz", old(vz)@.len() as usize),
                ("k", k@.len() as usize),
            ]
        );
        lemma_same_len(lens@);
    }
    let _n: usize = match expect_same_len("ballistic_step", &lens) {
        Ok(v) => v,
        Err(e) => return Err(e),
    };
    assert(lens@[1].1 == lens@[0].1);
    assert(lens@[2].1 == lens@[0].1);
    assert(lens@[3].1 == lens@[0].1);
    assert(lens@[4].1 == lens@[0].1);
    assert(lens@[5].1 == lens@[0].1);
    assert(lens@[6].1 == lens@[0].1);
    crate::ops::ballistic::ballistic_step(path, x, y, z, vx, vy, vz, k, dt, g);
    Ok(())
}

/// Advances every orbit by one step, in place; constants are checked first.
pub fn rk4_j2_step_batch<S: Double>(
    path: SimdPath,
    rx: &mut [S],
    ry: &mut [S],
    rz: &mut [S],
    vx: &mut [S],
    vy: &mut [S],
    vz: &mut [S],
    mu: S,
    j2: S,
    re: S,
    dt: S,
) -> (r: Result<(), Error>)
    ensures
        match step_check(
            mu,
            re,
            j2,
            dt,
            seq![
                ("rx", old(rx)@.len() as usize),
                ("ry", old(ry)@.len() as usize),
                ("rz", old(rz)@.len() as usize),
                ("vx", old(vx)@.len() as usize),
                ("vy", old(vy)@.len() as usize),
                ("vz", old(vz)@.len() as usize),
            ],
        ) {
            Err(e) => {
                &&& r is Err && r->Err_0 == e
                &&& final(rx)@ == old(rx)@
                &&& final(ry)@ == old(ry)@
                &&& final(rz)@ == old(rz)@
                &&& final(vx)@ == old(vx)@
                &&& final(vy)@ == old(vy)@
                &&& final(vz)@ == old(vz)@
            },
            Ok(_) => {
                &&& r is Ok
                &&& (final(rx)@, final(ry)@, final(rz)@, final(vx)@, final(vy)@, final(vz)@)
                    == rk4_step_all(
                    (old(rx)@, old(ry)@, old(rz)@, old(vx)@, old(vy)@, old(vz)@),
                    mu,
                    j2,
                    re,
                    dt,
                )
            },
        },
{
    match expect_positive("rk4_j2_step_batch", "mu", mu) {
        Ok(_) => (),
        Err(e) => return Err(e),
    }
    match expect_positive("rk4_j2_step_batch", "re", re) {
        Ok(_) => (),
        Err(e) => return Err(e),
    }
    match expect_finite("rk4_j2_step_batch", "j2", j2) {
        Ok(_) => (),
        Err(e) => return Err(e),
    }
    match expect_finite("rk4_j2_step_batch", "dt", dt) {
        Ok(_) => (),
        Err(e) => return Err(e),
    }
    let lens = [
        ("rx", rx.len()),
        ("ry", ry.len()),
        ("rz", rz.len()),
        ("vx", vx.len()),
        ("vy", vy.len()),
        ("vz", vz.len()),
    ];
    proof {
        assert(
            lens@ =~= seq![
                ("rx", old(rx)@.len() as usize),
                ("ry", old(ry)@.len() as usize),
                ("rz", old(rz)@.len() as usize),
                ("vx", old(vx)@.len() as usize),
                ("vy", old(vy)@.len() as usize),
                ("vz", old(vz)@.len() as usize),
            ]
        );
        lemma_same_len(lens@);
    }
    let _n: usize = match expect_same_len("rk4_j2_step_batch", &lens) {
        Ok(v) => v,
        Err(e) => return Err(e),
    };
    assert(lens@[1].1 == lens@[0].1);
    assert(lens@[2].1 == lens@[0].1);
    assert(lens@[3].1 == lens@[0].1);
    assert(lens@[4].1 == lens@[0].1);
    assert(lens@[5].1 == lens@[0].1);
    crate::ops::orbit::rk4_j2_step_batch(path, rx, ry, rz, vx, vy, vz, mu, j2, re, dt);
    Ok(())
}

/// Cross products `a × b`.
pub fn cross3_batch<S: Double>(
    path: SimdPath,
    ax: &[S],
    ay: &[S],
    az: &[S],
    bx: &[S],
    by: &[S],
    bz: &[S],
) -> (r: Result<[AlignedVec<S>; 3], Error>)
    ensures
        match same_len_result(
            "cross3_batch",
            seq![
                ("ax", ax@.len() as usize),
                ("ay", ay@.len() as usize),
                ("az", az@.len() as usize),
                ("bx", bx@.len() as usize),
                ("by", by@.len() as usize),
                ("bz", bz@.len() as usize),
            ],
        ) {
            Err(e) => r is Err && r->Err_0 == e,
            Ok(_) => {
                &&& r is Ok
                &&& r->Ok_0@[0].wf()
                &&& r->Ok_0@[1].wf()
                &&& r->Ok_0@[2].wf()
                &&& (r->Ok_0@[0]@, r->Ok_0@[1]@, r->Ok_0@[2]@) == cross3_all(
                    (ax@, ay@, az@),
                    (bx@, by@, bz@),
                )
            },
        },
{
    let lens = [
        ("ax", ax.len()),
        ("ay", ay.len()),
        ("az", az.len()),
        ("bx", bx.len()),
        ("by", by.len()),
        ("bz", bz.len()),
    ];
    proof {
        assert(
            lens@ =~= seq![
                ("ax", ax@.len() as usize),
                ("ay", ay@.len() as usize),
                ("az", az@.len() as usize),
                ("bx", bx@.len() as usize),
                ("by", by@.len() as usize),
                ("bz", bz@.len() as usize),
            ]
        );
        lemma_same_len(lens@);
    }
    let n: usize = match expect_same_len("cross3_batch", &lens) {
        Ok(v) => v,
        Err(e) => return Err(e),
    };
    assert(lens@[1].1 == lens@[0].1);
    assert(lens@[2].1 == lens@[0].1);
    assert(lens@[3].1 == lens@[0].1);
    assert(lens@[4].1 == lens@[0].1);
    assert(lens@[5].1 == lens@[0].1);
    let mut ox = AlignedVec::new(n);
    let mut oy = AlignedVec::new(n);
    let mut oz = AlignedVec::new(n);
    crate::ops::geometry::cross3_batch(
        path,
        ax,
        ay,
        az,
        bx,
        by,
        bz,
        ox.as_mut_slice(),
        oy.as_mut_slice(),
        oz.as_mut_slice(),
    );
    Ok([ox, oy, oz])
}

/// Vectors divided by their lengths; zero vectors stay zero.
pub fn unitize3_batch<S: Double>(
    path: SimdPath,
    x: &[S],
    y: &[S],
    z: &[S],
) -> (r: Result<[AlignedVec<S>; 3], Error>)
    ensures
        match same_len_result(
            "unitize3_batch",
            seq![("x", x@.len() as usize), ("y", y@.len() as usize), ("z", z@.len() as usize)],
        ) {
            Err(e) => r is Err && r->Err_0 == e,
            Ok(_) => {
                &&& r is Ok
                &&& r->Ok_0@[0].wf()
                &&& r->Ok_0@[1].wf()
                &&& r->Ok_0@[2].wf()
                &&& (r->Ok_0@[0]@, r->Ok_0@[1]@, r->Ok_0@[2]@) == unitize3_all((x@, y@, z@))
            },
        },
{
    let lens = [("x", x.len()), ("y", y.len()), ("z", z.len())];
    proof {
        assert(
            lens@ =~= seq![
                ("x", x@.len() as usize),
                ("y", y@.len() as usize),
                ("z", z@.len() as usize),
            ]
        );
        lemma_same_len(lens@);
    }
    let n: usize = match expect_same_len("unitize3_batch", &lens) {
        Ok(v) => v,
        Err(e) => return Err(e),
    };
    assert(lens@[1].1 == lens@[0].1);
    assert(lens@[2].1 == lens@[0].1);
    let mut ox = AlignedVec::new(n);
    let mut oy = AlignedVec::new(n);
    let mut oz = AlignedVec::new(n);
    crate::ops::geometry::unitize3_batch(
        path,
        x,
        y,
        z,
        ox.as_mut_slice(),
        oy.as_mut_slice(),
        oz.as_mut_slice(),
    );
    Ok([ox, oy, oz])
}

/// Products `M·v`; `m[3·i + j]` holds the entries in row `i` and column `j`.
pub fn mat3_mul_vec3_batch<S: Double>(
    path: SimdPath,
    m: [&[S]; 9],
    x: &[S],
    y: &[S],
    z: &[S],
) -> (r: Result<[AlignedVec<S>; 3], Error>)
    ensures
        match same_len_result(
            "mat3_mul_vec3_batch",
            seq![
                ("m0", m@[0]@.len() as usize),
                ("m1", m@[1]@.len() as usize),
                ("m2", m@[2]@.len() as usize),
                ("m3", m@[3]@.len() as usize),
                ("m4", m@[4]@.len() as usize),
                ("m5", m@[5]@.len() as usize),
                ("m6", m@[6]@.len() as usize),
                ("m7", m@[7]@.len() as usize),
                ("m8", m@[8]@.len() as usize),
                ("x", x@.len() as usize),
                ("y", y@.len() as usize),
                ("z", z@.len() as usize),
            ],
        ) {
            Err(e) => r is Err && r->Err_0 == e,
            Ok(_) => {
                &&& r is Ok
                &&& r->Ok_0@[0].wf()
                &&& r->Ok_0@[1].wf()
                &&& r->Ok_0@[2].wf()
                &&& (r->Ok_0@[0]@, r->Ok_0@[1]@, r->Ok_0@[2]@) == mat3_mul_vec3_all(
                    (m@[0]@, m@[1]@, m@[2]@, m@[3]@, m@[4]@, m@[5]@, m@[6]@, m@[7]@, m@[8]@),
                    (x@, y@, z@),
                )
            },
        },
{
    let lens = [
        ("m0", m[0].len()),
        ("m1", m[1].len()),
        ("m2", m[2].len()),
        ("m3", m[3].len()),
        ("m4", m[4].len()),
        ("m5", m[5].len()),
        ("m6", m[6].len()),
        ("m7", m[7].len()),
        ("m8", m[8].len()),
        ("x", x.len()),
        ("y", y.len()),
        ("z", z.len()),
    ];
    proof {
        assert(
            lens@ =~= seq![
                ("m0", m@[0]@.len() as usize),
                ("m1", m@[1]@.len() as usize),
                ("m2", m@[2]@.len() as usize),
                ("m3", m@[3]@.len() as usize),
                ("m4", m@[4]@.len() as usize),
                ("m5", m@[5]@.len() as usize),
                ("m6", m@[6]@.len() as usize),
                ("m7", m@[7]@.len() as usize),
                ("m8", m@[8]@.len() as usize),
                ("x", x@.len() as usize),
                ("y", y@.len() as usize),
                ("z", z@.len() as usize),
            ]
        );
        lemma_same_len(lens@);
    }
    let n: usize = match expect_same_len("mat3_mul_vec3_batch", &lens) {
        Ok(v) => v,
        Err(e) => return Err(e),
    };
    assert(lens@[1].1 == lens@[0].1);
    assert(lens@[2].1 == lens@[0].1);
    assert(lens@[3].1 == lens@[0].1);
    assert(lens@[4].1 == lens@[0].1);
    assert(lens@[5].1 == lens@[0].1);
    assert(lens@[6].1 == lens@[0].1);
    assert(lens@[7].1 == lens@[0].1);
    assert(lens@[8].1 == lens@[0].1);
    assert(lens@[9].1 == lens@[0].1);
    assert(lens@[10].1 == lens@[0].1);
    assert(lens@[11].1 == lens@[0].1);
    let mut ox = AlignedVec::new(n);
    let mut oy = AlignedVec::new(n);
    let mut oz = AlignedVec::new(n);
    crate::ops::geometry::mat3_mul_vec3_batch(
        path,
        m[0],
        m[1],
        m[2],
        m[3],
        m[4],
        m[5],
        m[6],
        m[7],
        m[8],
        x,
        y,
        z,
        ox.as_mut_slice(),
        oy.as_mut_slice(),
        oz.as_mut_slice(),
    );
    Ok([ox, oy, oz])
}

/// An aligned copy of a slice.
fn copy_of<S: Double>(src: &[S]) -> (r: AlignedVec<S>)
    ensures
        r.wf(),
        r@ == src@,
{
    let mut v = AlignedVec::new(src.len());
    let dst: &mut [S] = v.as_mut_slice();
    let mut i: usize = 0;
    while i < src.len()
        invariant
            i <= src@.len(),
            dst@.len() == src@.len(),
            forall|j: int| 0 <= j < i ==> #[trigger] dst@[j] == src@[j],
        decreases src@.len() - i,
    {
        dst[i] = src[i];
        i = i + 1;
    }
    proof {
        assert(dst@ =~= src@);
    }
    v
}

/// Quaternions scaled to length one; degenerate ones become the identity.
pub fn quat_normalize_batch<S: Double>(
    path: SimdPath,
    qw: &[S],
    qx: &[S],
    qy: &[S],
    qz: &[S],
) -> (r: Result<[AlignedVec<S>; 4], Error>)
    ensures
        match same_len_result(
            "quat_normalize_batch",
            seq![
                ("qw", qw@.len() as usize),
                ("qx", qx@.len() as usize),
                ("qy", qy@.len() as usize),
                ("qz", qz@.len() as usize),
            ],
        ) {
            Err(e) => r is Err && r->Err_0 == e,
            Ok(_) => {
                &&& r is Ok
                &&& r->Ok_0@[0].wf()
                &&& r->Ok_0@[1].wf()
                &&& r->Ok_0@[2].wf()
                &&& r->Ok_0@[3].wf()
                &&& (
                    r->Ok_0@[0]@,
                    r->Ok_0@[1]@,
                    r->Ok_0@[2]@,
                    r->Ok_0@[3]@,
                ) == quat_unit_all((qw@, qx@, qy@, qz@))
            },
        },
{
    let lens = [("qw", qw.len()), ("qx", qx.len()), ("qy", qy.len()), ("qz", qz.len())];
    proof {
        assert(
            lens@ =~= seq![
                ("qw", qw@.len() as usize),
                ("qx", qx@.len() as usize),
                ("qy", qy@.len() as usize),
                ("qz", qz@.len() as usize),
            ]
        );
        lemma_same_len(lens@);
    }
    let _n: usize = match expect_same_len("quat_normalize_batch", &lens) {
        Ok(v) => v,
        Err(e) => return Err(e),
    };
    assert(lens@[1].1 == lens@[0].1);
    assert(lens@[2].1 == lens@[0].1);
    assert(lens@[3].1 == lens@[0].1);
    let mut q0 = copy_of(qw);
    let mut q1 = copy_of(qx);
    let mut q2 = copy_of(qy);
    let mut q3 = copy_of(qz);
    crate::ops::attitude::quat_normalize_batch(
        path,
        q0.as_mut_slice(),
        q1.as_mut_slice(),
        q2.as_mut_slice(),
        q3.as_mut_slice(),
    );
    Ok([q0, q1, q2, q3])
}

/// Products `a ⊗ b` of quaternions, scalar part first.
pub fn quat_mul_batch<S: Double>(
    path: SimdPath,
    a: [&[S]; 4],
    b: [&[S]; 4],
) -> (r: Result<[AlignedVec<S>; 4], Error>)
    ensures
        match same_len_result(
            "quat_mul_batch",
            seq![
                ("aw", a@[0]@.len() as usize),
                ("ax", a@[1]@.len() as usize),
                ("ay", a@[2]@.len() as usize),
                ("az", a@[3]@.len() as usize),
                ("bw", b@[0]@.len() as usize),
                ("bx", b@[1]@.len() as usize),
                ("by", b@[2]@.len() as usize),
                ("bz", b@[3]@.len() as usize),
            ],
        ) {
            Err(e) => r is Err && r->Err_0 == e,
            Ok(_) => {
                &&& r is Ok
                &&& r->Ok_0@[0].wf()
                &&& r->Ok_0@[1].wf()
                &&& r->Ok_0@[2].wf()
                &&& r->Ok_0@[3].wf()
                &&& (r->Ok_0@[0]@, r->Ok_0@[1]@, r->Ok_0@[2]@, r->Ok_0@[3]@) == quat_mul_all(
                    (a@[0]@, a@[1]@, a@[2]@, a@[3]@),
                    (b@[0]@, b@[1]@, b@[2]@, b@[3]@),
                )
            },
        },
{
    let lens = [
        ("aw", a[0].len()),
        ("ax", a[1].len()),
        ("ay", a[2].len()),
        ("az", a[3].len()),
        ("bw", b[0].len()),
        ("bx", b[1].len()),
        ("by", b[2].len()),
        ("bz", b[3].len()),
    ];
    proof {
        assert(
            lens@ =~= seq![
                ("aw", a@[0]@.len() as usize),
                ("ax", a@[1]@.len() as usize),
                ("ay", a@[2]@.len() as usize),
                ("az", a@[3]@.len() as usize),
                ("bw", b@[0]@.len() as usize),
                ("bx", b@[1]@.len() as usize),
                ("by", b@[2]@.len() as usize),
                ("bz", b@[3]@.len() as usize),
            ]
        );
        lemma_same_len(lens@);
    }
    let n: usize = match expect_same_len("quat_mul_batch", &lens) {
        Ok(v) => v,
        Err(e) => return Err(e),
    };
    assert(lens@[1].1 == lens@[0].1);
    assert(lens@[2].1 == lens@[0].1);
    assert(lens@[3].1 == lens@[0].1);
    assert(lens@[4].1 == lens@[0].1);
    assert(lens@[5].1 == lens@[0].1);
    assert(lens@[6].1 == lens@[0].1);
    assert(lens@[7].1 == lens@[0].1);
    let mut ow = AlignedVec::new(n);
    let mut ox = AlignedVec::new(n);
    let mut oy = AlignedVec::new(n);
    let mut oz = AlignedVec::new(n);
    crate::ops::attitude::quat_mul_batch(
        path,
        a[0],
        a[1],
        a[2],
        a[3],
        b[0],
        b[1],
        b[2],
        b[3],
        ow.as_mut_slice(),
        ox.as_mut_slice(),
        oy.as_mut_slice(),
        oz.as_mut_slice(),
    );
    Ok([ow, ox, oy, oz])
}

/// Vectors turned by quaternions, which are scaled to length one first.
pub fn quat_rotate_batch<S: Double>(
    path: SimdPath,
    q: [&[S]; 4],
    v: [&[S]; 3],
) -> (r: Result<[AlignedVec<S>; 3], Error>)
    ensures
        match same_len_result(
            "quat_rotate_batch",
            seq![
                ("qw", q@[0]@.len() as usize),
                ("qx", q@[1]@.len() as usize),
                ("qy", q@[2]@.len() as usize),
                ("qz", q@[3]@.len() as usize),
                ("vx", v@[0]@.len() as usize),
                ("vy", v@[1]@.len() as usize),
                ("vz", v@[2]@.len() as usize),
            ],
        ) {
            Err(e) => r is Err && r->Err_0 == e,
            Ok(_) => {
                &&& r is Ok
                &&& r->Ok_0@[0].wf()
                &&& r->Ok_0@[1].wf()
                &&& r->Ok_0@[2].wf()
                &&& (r->Ok_0@[0]@, r->Ok_0@[1]@, r->Ok_0@[2]@) == quat_rotate_all(
                    (q@[0]@, q@[1]@, q@[2]@, q@[3]@),
                    (v@[0]@, v@[1]@, v@[2]@),
                )
            },
        },
{
    let lens = [
        ("qw", q[0].len()),
        ("qx", q[1].len()),
        ("qy", q[2].len()),
        ("qz", q[3].len()),
        ("vx", v[0].len()),
        ("vy", v[1].len()),
        ("vz", v[2].len()),
    ];
    proof {
        assert(
            lens@ =~= seq![
                ("qw", q@[0]@.len() as usize),
                ("qx", q@[1]@.len() as usize),
                ("qy", q@[2]@.len() as usize),
                ("qz", q@[3]@.len() as usize),
                ("vx", v@[0]@.len() as usize),
                ("vy", v@[1]@.len() as usize),
                ("vz", v@[2]@.len() as usize),
            ]
        );
        lemma_same_len(lens@);
    }
    let n: usize = match expect_same_len("quat_rotate_batch", &lens) {
        Ok(v) => v,
        Err(e) => return Err(e),
    };
    assert(lens@[1].1 == lens@[0].1);
    assert(lens@[2].1 == lens@[0].1);
    assert(lens@[3].1 == lens@[0].1);
    assert(lens@[4].1 == lens@[0].1);
    assert(lens@[5].1 == lens@[0].1);
    assert(lens@[6].1 == lens@[0].1);
    let mut ox = AlignedVec::new(n);
    let mut oy = AlignedVec::new(n);
    let mut oz = AlignedVec::new(n);
    crate::ops::attitude::quat_rotate_batch(
        path,
        q[0],
        q[1],
        q[2],
        q[3],
        v[0],
        v[1],
        v[2],
        ox.as_mut_slice(),
        oy.as_mut_slice(),
        oz.as_mut_slice(),
    );
    Ok([ox, oy, oz])
}

/// Rotation matrices of quaternions, row by row.
pub fn quat_to_dcm_batch<S: Double>(
    path: SimdPath,
    q: [&[S]; 4],
) -> (r: Result<[AlignedVec<S>; 9], Error>)
    ensures
        match same_len_result(
            "quat_to_dcm_batch",
            seq![
                ("qw", q@[0]@.len() as usize),
                ("qx", q@[1]@.len() as usize),
                ("qy", q@[2]@.len() as usize),
                ("qz", q@[3]@.len() as usize),
            ],
        ) {
            Err(e) => r is Err && r->Err_0 == e,
            Ok(_) => {
                &&& r is Ok
                &&& r->Ok_0@[0].wf()
                &&& r->Ok_0@[1].wf()
                &&& r->Ok_0@[2].wf()
                &&& r->Ok_0@[3].wf()
                &&& r->Ok_0@[4].wf()
                &&& r->Ok_0@[5].wf()
                &&& r->Ok_0@[6].wf()
                &&& r->Ok_0@[7].wf()
                &&& r->Ok_0@[8].wf()
                &&& (
                    r->Ok_0@[0]@,
                    r->Ok_0@[1]@,
                    r->Ok_0@[2]@,
                    r->Ok_0@[3]@,
                    r->Ok_0@[4]@,
                    r->Ok_0@[5]@,
                    r->Ok_0@[6]@,
                    r->Ok_0@[7]@,
                    r->Ok_0@[8]@,
                ) == quat_dcm_all(
                    (q@[0]@, q@[1]@, q@[2]@, q@[3]@),
                )
            },
        },
{
    let lens = [("qw", q[0].len()), ("qx", q[1].len()), ("qy", q[2].len()), ("qz", q[3].len())];
    proof {
        assert(
            lens@ =~= seq![
                ("qw", q@[0]@.len() as usize),
                ("qx", q@[1]@.len() as usize),
                ("qy", q@[2]@.len() as usize),
                ("qz", q@[3]@.len() as usize),
            ]
        );
        lemma_same_len(lens@);
    }
    let n: usize = match expect_same_len("quat_to_dcm_batch", &lens) {
        Ok(v) => v,
        Err(e) => return Err(e),
    };
    assert(lens@[1].1 == lens@[0].1);
    assert(lens@[2].1 == lens@[0].1);
    assert(lens@[3].1 == lens@[0].1);
    let mut m0 = AlignedVec::new(n);
    let mut m1 = AlignedVec::new(n);
    let mut m2 = AlignedVec::new(n);
    let mut m3 = AlignedVec::new(n);
    let mut m4 = AlignedVec::new(n);
    let mut m5 = AlignedVec::new(n);
    let mut m6 = AlignedVec::new(n);
    let mut m7 = AlignedVec::new(n);
    let mut m8 = AlignedVec::new(n);
    crate::ops::attitude::quat_to_dcm_batch(
        path,
        q[0],
        q[1],
        q[2],
        q[3],
        m0.as_mut_slice(),
        m1.as_mut_slice(),
        m2.as_mut_slice(),
        m3.as_mut_slice(),
        m4.as_mut_slice(),
        m5.as_mut_slice(),
        m6.as_mut_slice(),
        m7.as_mut_slice(),
        m8.as_mut_slice(),
    );
    Ok([m0, m1, m2, m3, m4, m5, m6, m7, m8])
}

} // verus!
