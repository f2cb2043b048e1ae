//! Calls with a status channel: arguments as they come from C, checked before use.
//!
//! A pointer that may be null is an `Option`; `None` stands for null. Checks run in a fixed
//! order: lengths, constants, products of sizes, pointers. A call that fails a check stores
//! the status, returns zero and writes nothing else. Null stands for an empty array.
use crate::arch::SimdPath;
use crate::ffi::status::{
    checked_finite, checked_len, checked_mul, checked_positive, finite_status, positive_status,
    LasxStatus,
};
use crate::math::ceil_div;
use crate::ops::attitude::{quat_dcm_all, quat_mul_all, quat_rotate_all, quat_unit_all};
use crate::ops::ballistic::{shot_at, stepped};
use crate::ops::chain::TermSeq;
use crate::ops::geometry::{
    add_scaled_all, cross3_all, distance2d_all, mat3_mul_vec3_all, norm3_all, unitize3_all,
};
use crate::ops::matmul::{is_product, row};
use crate::ops::orbit::{j2_accel_all, rk4_step_all};
use crate::ops::quant::{exact_dot, q4_dot, wrap32};
use crate::ops::reduce::{axpy_of, dot_f64_of, reduced};
use crate::ops::rows::{row_or_none, softmax};
use crate::plan::PackedKernel;
use crate::scalar::{zero, Double, Scalar, Single};
use vstd::prelude::*;

verus! {

/// What an array that may be null holds.
pub open spec fn seen<T>(x: Option<&[T]>) -> Seq<T> {
    match x {
        Some(s) => s@,
        None => Seq::empty(),
    }
}

/// An array that is there has `len` elements.
pub open spec fn sized<T>(x: Option<&[T]>, len: int) -> bool {
    x matches Some(s) ==> s@.len() == len
}

/// The status of a length: negative ones are refused.
pub open spec fn length_status(n: i32) -> LasxStatus {
    if n < 0 {
        LasxStatus::NegativeLength
    } else {
        LasxStatus::Success
    }
}

/// The status of pointers to `n` elements each, given which of them are there.
pub open spec fn pointer_status(n: int, present: Seq<bool>) -> LasxStatus {
    if n > 0 && exists|i: int| 0 <= i < present.len() && !#[trigger] present[i] {
        LasxStatus::NullPointer
    } else {
        LasxStatus::Success
    }
}

/// The first of two checks that failed.
pub open spec fn first_of(a: LasxStatus, b: LasxStatus) -> LasxStatus {
    if a == LasxStatus::Success {
        b
    } else {
        a
    }
}

/// The status that a check comes to.
pub open spec fn status_of<V>(r: Result<V, LasxStatus>) -> LasxStatus {
    match r {
        Ok(_) => LasxStatus::Success,
        Err(e) => e,
    }
}

/// The status of a call on arrays of `n` elements.
pub open spec fn call_status(n: i32, present: Seq<bool>) -> LasxStatus {
    first_of(length_status(n), pointer_status(n as int, present))
}

/// The status of an acceleration call: length, constants, pointers.
pub open spec fn accel_status<S: Double>(
    n: i32,
    mu: S,
    re: S,
    j2: S,
    present: Seq<bool>,
) -> LasxStatus {
    first_of(
        length_status(n),
        first_of(
            status_of(positive_status(mu)),
            first_of(
                status_of(positive_status(re)),
                first_of(status_of(finite_status(j2)), pointer_status(n as int, present)),
            ),
        ),
    )
}

/// The status of an orbit step: length, constants, pointers.
pub open spec fn step_status<S: Double>(
    n: i32,
    mu: S,
    re: S,
    j2: S,
    dt: S,
    present: Seq<bool>,
) -> LasxStatus {
    first_of(
        length_status(n),
        first_of(
            status_of(positive_status(mu)),
            first_of(
                status_of(positive_status(re)),
                first_of(
                    status_of(finite_status(j2)),
                    first_of(
                        status_of(finite_status(dt)),
                        pointer_status(n as int, present),
                    ),
                ),
            ),
        ),
    )
}

/// Computes [`pointer_status`].
fn check_pointers(n: usize, present: &[bool]) -> (r: LasxStatus)
    ensures
        r == pointer_status(n as int, present@),
{
    let mut i: usize = 0;
    while i < present.len()
        invariant
            i <= present@.len(),
            forall|j: int| 0 <= j < i ==> n == 0 || #[trigger] present@[j],
        decreases present@.len() - i,
    {
        if !present[i] && n > 0 {
            return LasxStatus::NullPointer;
        }
        i = i + 1;
    }
    LasxStatus::Success
}

/// Computes [`call_status`].
fn check_call(n: i32, present: &[bool]) -> (r: LasxStatus)
    ensures
        r == call_status(n, present@),
{
    match checked_len(n) {
        Ok(len) => check_pointers(len, present),
        Err(e) => e,
    }
}

/// The array, or an empty one for null.
fn or_empty<'a, T>(x: Option<&'a [T]>) -> (r: &'a [T])
    ensures
        r@ == seen(x),
{
    match x {
        Some(s) => s,
        None => {
            let r: &'a [T] = &[];
            proof {
                assert(r@ =~= Seq::<T>::empty());
            }
            r
        },
    }
}

/// `Σ a[i]·b[i]`.
pub fn lasx_dot_checked<S: Single>(
    path: SimdPath,
    a: Option<&[S]>,
    b: Option<&[S]>,
    n: i32,
    status: Option<&mut i32>,
) -> (r: S)
    requires
        0 <= n ==> sized(a, n as int),
        0 <= n ==> sized(b, n as int),
    ensures
        ({
            let st = call_status(n, seq![a is Some, b is Some]);
            &&& status matches Some(s) ==> *final(s) == st.code()
            &&& r == (if st == LasxStatus::Success {
                reduced(TermSeq::Dot(seen(a), seen(b)))
            } else {
                zero()
            })
        }),
{
    let present = [a.is_some(), b.is_some()];
    proof {
        assert(present@ =~= seq![a is Some, b is Some]);
    }
    let st: LasxStatus = check_call(n, &present);
    st.write(status);
    if !st.is_ok() {
        return S::of_raw(0);
    }
    let a = or_empty(a);
    let b = or_empty(b);
    crate::ops::reduce::dot(path, a, b)
}

/// `Σ x[i]`.
pub fn lasx_sum_checked<S: Single>(
    x: Option<&[S]>,
    n: i32,
    status: Option<&mut i32>,
) -> (r: S)
    requires
        0 <= n ==> sized(x, n as int),
    ensures
        ({
            let st = call_status(n, seq![x is Some]);
            &&& status matches Some(s) ==> *final(s) == st.code()
            &&& r == (if st == LasxStatus::Success {
                reduced(TermSeq::Sum(seen(x)))
            } else {
                zero()
            })
        }),
{
    let present = [x.is_some()];
    proof {
        assert(present@ =~= seq![x is Some]);
    }
    let st: LasxStatus = check_call(n, &present);
    st.write(status);
    if !st.is_ok() {
        return S::of_raw(0);
    }
    let x = or_empty(x);
    crate::ops::reduce::sum(x)
}

/// `Σ a[i]·b[i]` in double precision.
pub fn lasx_dot_f64_checked<D: Double>(
    a: Option<&[D]>,
    b: Option<&[D]>,
    n: i32,
    status: Option<&mut i32>,
) -> (r: D)
    requires
        0 <= n ==> sized(a, n as int),
        0 <= n ==> sized(b, n as int),
    ensures
        ({
            let st = call_status(n, seq![a is Some, b is Some]);
            &&& status matches Some(s) ==> *final(s) == st.code()
            &&& r == (if st == LasxStatus::Success {
                dot_f64_of(seen(a), seen(b))
            } else {
                zero()
            })
        }),
{
    let present = [a.is_some(), b.is_some()];
    proof {
        assert(present@ =~= seq![a is Some, b is Some]);
    }
    let st: LasxStatus = check_call(n, &present);
    st.write(status);
    if !st.is_ok() {
        return D::of_raw(0);
    }
    let a = or_empty(a);
    let b = or_empty(b);
    crate::ops::reduce::dot_f64(a, b)
}

/// Dot product of two byte arrays.
pub fn lasx_dot_i8_checked(
    a: Option<&[i8]>,
    b: Option<&[i8]>,
    n: i32,
    status: Option<&mut i32>,
) -> (r: i32)
    requires
        0 <= n ==> sized(a, n as int),
        0 <= n ==> sized(b, n as int),
    ensures
        ({
            let st = call_status(n, seq![a is Some, b is Some]);
            &&& status matches Some(s) ==> *final(s) == st.code()
            &&& r == (if st == LasxStatus::Success {
                wrap32(exact_dot(seen(a), seen(b), n as int))
            } else {
                0
            })
        }),
{
    let present = [a.is_some(), b.is_some()];
    proof {
        assert(present@ =~= seq![a is Some, b is Some]);
    }
    let st: LasxStatus = check_call(n, &present);
    st.write(status);
    if !st.is_ok() {
        return 0;
    }
    let a = or_empty(a);
    let b = or_empty(b);
    crate::ops::quant::dot_i8(a, b)
}

/// Dot product of two arrays of nibbles with one scale per 32 bytes.
pub fn lasx_dot_q4_checked<S: Single>(
    qa: Option<&[u8]>,
    sa: Option<&[S]>,
    qb: Option<&[u8]>,
    sb: Option<&[S]>,
    n_bytes: i32,
    status: Option<&mut i32>,
) -> (r: S::Wide)
    requires
        0 <= n_bytes ==> sized(qa, n_bytes as int),
        0 <= n_bytes ==> sized(sa, ceil_div(n_bytes as nat, 32) as int),
        0 <= n_bytes ==> sized(qb, n_bytes as int),
        0 <= n_bytes ==> sized(sb, ceil_div(n_bytes as nat, 32) as int),
    ensures
        ({
            let st = call_status(n_bytes, seq![qa is Some, sa is Some, qb is Some, sb is Some]);
            &&& status matches Some(s) ==> *final(s) == st.code()
            &&& r == (if st == LasxStatus::Success {
                q4_dot(seen(qa), seen(sa), seen(qb), seen(sb))
            } else {
                zero()
            })
        }),
{
    let present = [qa.is_some(), sa.is_some(), qb.is_some(), sb.is_some()];
    proof {
        assert(present@ =~= seq![qa is Some, sa is Some, qb is Some, sb is Some]);
    }
    let st: LasxStatus = check_call(n_bytes, &present);
    st.write(status);
    if !st.is_ok() {
        return S::Wide::of_raw(0);
    }
    let qa = or_empty(qa);
    let sa = or_empty(sa);
    let qb = or_empty(qb);
    let sb = or_empty(sb);
    crate::ops::quant::dot_q4(qa, sa, qb, sb)
}

/// `y[i] += alpha·x[i]`.
pub fn lasx_axpy_checked<S: Single>(
    alpha: S,
    x: Option<&[S]>,
    y: Option<&mut [S]>,
    n: i32,
    status: Option<&mut i32>,
)
    requires
        0 <= n ==> sized(x, n as int),
        0 <= n ==> (y matches Some(o) ==> o@.len() == n),
    ensures
        ({
            let st = call_status(n, seq![x is Some, y is Some]);
            &&& status matches Some(s) ==> *final(s) == st.code()
            &&& st == LasxStatus::Success && n > 0 ==> final(y->0)@ == axpy_of(
                alpha,
                seen(x),
                y->0@,
            )
            &&& st != LasxStatus::Success || n == 0 ==> {
                &&& y matches Some(o) ==> final(o)@ == o@
            }
        }),
{
    let present = [x.is_some(), y.is_some()];
    proof {
        assert(present@ =~= seq![x is Some, y is Some]);
    }
    let st: LasxStatus = check_call(n, &present);
    st.write(status);
    if st.is_ok() {
        if let (Some(x), Some(y)) = (x, y) {
            crate::ops::reduce::axpy(alpha, x, y);
        }
    }
}

/// Lengths of vectors.
pub fn lasx_norm3_batch_checked<S: Double>(
    path: SimdPath,
    xs: Option<&[S]>,
    ys: Option<&[S]>,
    zs: Option<&[S]>,
    out: Option<&mut [S]>,
    n: i32,
    status: Option<&mut i32>,
)
    requires
        0 <= n ==> sized(xs, n as int),
        0 <= n ==> sized(ys, n as int),
        0 <= n ==> sized(zs, n as int),
        0 <= n ==> (out matches Some(o) ==> o@.len() == n),
    ensures
        ({
            let st = call_status(n, seq![xs is Some, ys is Some, zs is Some, out is Some]);
            &&& status matches Some(s) ==> *final(s) == st.code()
            &&& st == LasxStatus::Success && n > 0 ==> final(out->0)@ == norm3_all(
                (seen(xs), seen(ys), seen(zs)),
            )
            &&& st != LasxStatus::Success || n == 0 ==> {
                &&& out matches Some(o) ==> final(o)@ == o@
            }
        }),
{
    let present = [xs.is_some(), ys.is_some(), zs.is_some(), out.is_some()];
    proof {
        assert(present@ =~= seq![xs is Some, ys is Some, zs is Some, out is Some]);
    }
    let st: LasxStatus = check_call(n, &present);
    st.write(status);
    if st.is_ok() {
        if let (Some(xs), Some(ys), Some(zs), Some(out)) = (xs, ys, zs, out) {
            crate::ops::geometry::norm3_batch(path, xs, ys, zs, out);
        }
    }
}

/// `a + s·b`, component by component.
pub fn lasx_vec3_add_scaled_batch_checked<S: Double>(
    path: SimdPath,
    ax: Option<&[S]>,
    ay: Option<&[S]>,
    az: Option<&[S]>,
    bx: Option<&[S]>,
    by: Option<&[S]>,
    bz: Option<&[S]>,
    s: S,
    ox: Option<&mut [S]>,
    oy: Option<&mut [S]>,
    oz: Option<&mut [S]>,
    n: i32,
    status: Option<&mut i32>,
)
    requires
        0 <= n ==> sized(ax, n as int),
        0 <= n ==> sized(ay, n as int),
        0 <= n ==> sized(az, n as int),
        0 <= n ==> sized(bx, n as int),
        0 <= n ==> sized(by, n as int),
        0 <= n ==> sized(bz, n as int),
        0 <= n ==> (ox matches Some(o) ==> o@.len() == n),
        0 <= n ==> (oy matches Some(o) ==> o@.len() == n),
        0 <= n ==> (oz matches Some(o) ==> o@.len() == n),
    ensures
        ({
            let st = call_status(
                n,
                seq![
                    ax is Some,
                    ay is Some,
                    az is Some,
                    bx is Some,
                    by is Some,
                    bz is Some,
                    ox is Some,
                    oy is Some,
                    oz is Some,
                ],
            );
            &&& status matches Some(s) ==> *final(s) == st.code()
            &&& st == LasxStatus::Success && n > 0 ==> (
                final(ox->0)@,
                final(oy->0)@,
                final(oz->0)@,
            ) == add_scaled_all(
                (seen(ax), seen(ay), seen(az)),
                (seen(bx), seen(by), seen(bz)),
                s,
            )
            &&& st != LasxStatus::Success || n == 0 ==> {
                &&& ox matches Some(o) ==> final(o)@ == o@
                &&& oy matches Some(o) ==> final(o)@ == o@
                &&& oz matches Some(o) ==> final(o)@ == o@
            }
        }),
{
    let present = [
        ax.is_some(),
        ay.is_some(),
        az.is_some(),
        bx.is_some(),
        by.is_some(),
        bz.is_some(),
        ox.is_some(),
        oy.is_some(),
        oz.is_some(),
    ];
    proof {
        assert(
            present@ =~= seq![
                ax is Some,
                ay is Some,
                az is Some,
                bx is Some,
                by is Some,
                bz is Some,
                ox is Some,
                oy is Some,
                oz is Some,
            ]
        );
    }
    let st: LasxStatus = check_call(n, &present);
    st.write(status);
    if st.is_ok() {
        if let (
            Some(ax),
            Some(ay),
            Some(az),
            Some(bx),
            Some(by),
            Some(bz),
            Some(ox),
            Some(oy),
            Some(oz),
        ) = (ax, ay, az, bx, by, bz, ox, oy, oz) {
            crate::ops::geometry::vec3_add_scaled_batch(
                path,
                ax,
                ay,
                az,
                bx,
                by,
                bz,
                s,
                ox,
                oy,
                oz,
            );
        }
    }
}

/// Distances from `(px, py)`.
pub fn lasx_batch_distance2d_checked<S: Single>(
    path: SimdPath,
    px: S,
    py: S,
    xs: Option<&[S]>,
    ys: Option<&[S]>,
    out: Option<&mut [S]>,
    n: i32,
    status: Option<&mut i32>,
)
    requires
        0 <= n ==> sized(xs, n as int),
        0 <= n ==> sized(ys, n as int),
        0 <= n ==> (out matches Some(o) ==> o@.len() == n),
    ensures
        ({
            let st = call_status(n, seq![xs is Some, ys is Some, out is Some]);
            &&& status matches Some(s) ==> *final(s) == st.code()
            &&& st == LasxStatus::Success && n > 0 ==> final(out->0)@ == distance2d_all(
                (seen(xs), seen(ys)),
                px,
                py,
            )
            &&& st != LasxStatus::Success || n == 0 ==> {
                &&& out matches Some(o) ==> final(o)@ == o@
            }
        }),
{
    let present = [xs.is_some(), ys.is_some(), out.is_some()];
    proof {
        assert(present@ =~= seq![xs is Some, ys is Some, out is Some]);
    }
    let st: LasxStatus = check_call(n, &present);
    st.write(status);
    if st.is_ok() {
        if let (Some(xs), Some(ys), Some(out)) = (xs, ys, out) {
            crate::ops::geometry::batch_distance2d(path, px, py, xs, ys, out);
        }
    }
}

/// Advances every projectile by one step, in place.
pub fn lasx_ballistic_step_checked<S: Single>(
    path: SimdPath,
    x: Option<&mut [S]>,
    y: Option<&mut [S]>,
    z: Option<&mut [S]>,
    vx: Option<&mut [S]>,
    vy: Option<&mut [S]>,
    vz: Option<&mut [S]>,
    k: Option<&[S]>,
    n: i32,
    dt: S,
    g: S,
    status: Option<&mut i32>,
)
    requires
        0 <= n ==> (x matches Some(o) ==> o@.len() == n),
        0 <= n ==> (y matches Some(o) ==> o@.len() == n),
        0 <= n ==> (z matches Some(o) ==> o@.len() == n),
        0 <= n ==> (vx matches Some(o) ==> o@.len() == n),
        0 <= n ==> (vy matches Some(o) ==> o@.len() == n),
        0 <= n ==> (vz matches Some(o) ==> o@.len() == n),
        0 <= n ==> sized(k, n as int),
    ensures
        ({
            let st = call_status(
                n,
                seq![
                    x is Some,
                    y is Some,
                    z is Some,
                    vx is Some,
                    vy is Some,
                    vz is Some,
                    k is Some,
                ],
            );
            &&& status matches Some(s) ==> *final(s) == st.code()
            &&& st == LasxStatus::Success && n > 0 ==> {
                &&& final(x->0)@.len() == n
                &&& final(y->0)@.len() == n
                &&& final(z->0)@.len() == n
                &&& final(vx->0)@.len() == n
                &&& final(vy->0)@.len() == n
                &&& final(vz->0)@.len() == n
                &&& forall|i: int|
                    0 <= i < n ==> #[trigger] shot_at(
                        final(x->0)@,
                        final(y->0)@,
                        final(z->0)@,
                        final(vx->0)@,
                        final(vy->0)@,
                        final(vz->0)@,
                        i,
                    ) == stepped(
                        path,
                        n as int,
                        i,
                        shot_at(x->0@, y->0@, z->0@, vx->0@, vy->0@, vz->0@, i),
                        seen(k)[i],
                        dt,
                        g,
                    )
            }
            &&& st != LasxStatus::Success || n == 0 ==> {
                &&& x matches Some(o) ==> final(o)@ == o@
                &&& y matches Some(o) ==> final(o)@ == o@
                &&& z matches Some(o) ==> final(o)@ == o@
                &&& vx matches Some(o) ==> final(o)@ == o@
                &&& vy matches Some(o) ==> final(o)@ == o@
                &&& vz matches Some(o) ==> final(o)@ == o@
            }
        }),
{
    let present = [
        x.is_some(),
        y.is_some(),
        z.is_some(),
        vx.is_some(),
        vy.is_some(),
        vz.is_some(),
        k.is_some(),
    ];
    proof {
        assert(
            present@ =~= seq![
                x is Some,
                y is Some,
                z is Some,
                vx is Some,
                vy is Some,
                vz is Some,
                k is Some,
            ]
        );
    }
    let st: LasxStatus = check_call(n, &present);
    st.write(status);
    if st.is_ok() {
        if let (
            Some(x),
            Some(y),
            Some(z),
            Some(vx),
            Some(vy),
            Some(vz),
            Some(k),
        ) = (x, y, z, vx, vy, vz, k) {
            crate::ops::ballistic::ballistic_step(path, x, y, z, vx, vy, vz, k, dt, g);
        }
    }
}

/// Acceleration by the central body and its oblateness.
pub fn lasx_j2_accel_batch_checked<S: Double>(
    path: SimdPath,
    rx: Option<&[S]>,
    ry: Option<&[S]>,
    rz: Option<&[S]>,
    mu: S,
    j2: S,
    re: S,
    ax: Option<&mut [S]>,
    ay: Option<&mut [S]>,
    az: Option<&mut [S]>,
    n: i32,
    status: Option<&mut i32>,
)
    requires
        0 <= n ==> sized(rx, n as int),
        0 <= n ==> sized(ry, n as int),
        0 <= n ==> sized(rz, n as int),
        0 <= n ==> (ax matches Some(o) ==> o@.len() == n),
        0 <= n ==> (ay matches Some(o) ==> o@.len() == n),
        0 <= n ==> (az matches Some(o) ==> o@.len() == n),
    ensures
        ({
            let st = accel_status(
                n,
                mu,
                re,
                j2,
                seq![rx is Some, ry is Some, rz is Some, ax is Some, ay is Some, az is Some],
            );
            &&& status matches Some(s) ==> *final(s) == st.code()
            &&& st == LasxStatus::Success && n > 0 ==> (
                final(ax->0)@,
                final(ay->0)@,
                final(az->0)@,
            ) == j2_accel_all(
                (seen(rx), seen(ry), seen(rz)),
                mu,
                j2,
                re,
            )
            &&& st != LasxStatus::Success || n == 0 ==> {
                &&& ax matches Some(o) ==> final(o)@ == o@
                &&& ay matches Some(o) ==> final(o)@ == o@
                &&& az matches Some(o) ==> final(o)@ == o@
            }
        }),
{
    let present = [
        rx.is_some(),
        ry.is_some(),
        rz.is_some(),
        ax.is_some(),
        ay.is_some(),
        az.is_some(),
    ];
    proof {
        assert(
            present@ =~= seq![
                rx is Some,
                ry is Some,
                rz is Some,
                ax is Some,
                ay is Some,
                az is Some,
            ]
        );
    }
    let st: LasxStatus = match checked_len(n) {
        Err(e) => e,
        Ok(len) => {
            match checked_positive(mu) {
                Err(e) => e,
                Ok(_) => match checked_positive(re) {
                    Err(e) => e,
                    Ok(_) => match checked_finite(j2) {
                        Err(e) => e,
                        Ok(_) => check_pointers(len, &present),
                    },
                },
            }
        },
    };
    st.write(status);
    if st.is_ok() {
        if let (
            Some(rx),
            Some(ry),
            Some(rz),
            Some(ax),
            Some(ay),
            Some(az),
        ) = (rx, ry, rz, ax, ay, az) {
            crate::ops::orbit::j2_accel_batch(path, rx, ry, rz, mu, j2, re, ax, ay, az);
        }
    }
}

/// Advances every orbit by one step, in place.
pub fn lasx_rk4_j2_step_batch_checked<S: Double>(
    path: SimdPath,
    rx: Option<&mut [S]>,
    ry: Option<&mut [S]>,
    rz: Option<&mut [S]>,
    vx: Option<&mut [S]>,
    vy: Option<&mut [S]>,
    vz: Option<&mut [S]>,
    mu: S,
    j2: S,
    re: S,
    dt: S,
    n: i32,
    status: Option<&mut i32>,
)
    requires
        0 <= n ==> (rx matches Some(o) ==> o@.len() == n),
        0 <= n ==> (ry matches Some(o) ==> o@.len() == n),
        0 <= n ==> (rz matches Some(o) ==> o@.len() == n),
        0 <= n ==> (vx matches Some(o) ==> o@.len() == n),
        0 <= n ==> (vy matches Some(o) ==> o@.len() == n),
        0 <= n ==> (vz matches Some(o) ==> o@.len() == n),
    ensures
        ({
            let st = step_status(
                n,
                mu,
                re,
                j2,
                dt,
                seq![rx is Some, ry is Some, rz is Some, vx is Some, vy is Some, vz is Some],
            );
            &&& status matches Some(s) ==> *final(s) == st.code()
            &&& st == LasxStatus::Success && n > 0 ==> (
                final(rx->0)@,
                final(ry->0)@,
                final(rz->0)@,
                final(vx->0)@,
                final(vy->0)@,
                final(vz->0)@,
            ) == rk4_step_all(
                (rx->0@, ry->0@, rz->0@, vx->0@, vy->0@, vz->0@),
                mu,
                j2,
                re,
                dt,
            )
            &&& st != LasxStatus::Success || n == 0 ==> {
                &&& rx matches Some(o) ==> final(o)@ == o@
                &&& ry matches Some(o) ==> final(o)@ == o@
                &&& rz matches Some(o) ==> final(o)@ == o@
                &&& vx matches Some(o) ==> final(o)@ == o@
                &&& vy matches Some(o) ==> final(o)@ == o@
                &&& vz matches Some(o) ==> final(o)@ == o@
            }
        }),
{
    let present = [
        rx.is_some(),
        ry.is_some(),
        rz.is_some(),
        vx.is_some(),
        vy.is_some(),
        vz.is_some(),
    ];
    proof {
        assert(
            present@ =~= seq![
                rx is Some,
                ry is Some,
                rz is Some,
                vx is Some,
                vy is Some,
                vz is Some,
            ]
        );
    }
    let st: LasxStatus = match checked_len(n) {
        Err(e) => e,
        Ok(len) => {
            match checked_positive(mu) {
                Err(e) => e,
                Ok(_) => match checked_positive(re) {
                    Err(e) => e,
                    Ok(_) => match checked_finite(j2) {
                        Err(e) => e,
                        Ok(_) => match checked_finite(dt) {
                            Err(e) => e,
                            Ok(_) => check_pointers(len, &present),
                        },
                    },
                },
            }
        },
    };
    st.write(status);
    if st.is_ok() {
        if let (
            Some(rx),
            Some(ry),
            Some(rz),
            Some(vx),
            Some(vy),
            Some(vz),
        ) = (rx, ry, rz, vx, vy, vz) {
            crate::ops::orbit::rk4_j2_step_batch(path, rx, ry, rz, vx, vy, vz, mu, j2, re, dt);
        }
    }
}

/// Cross products.
pub fn lasx_cross3_batch_checked<S: Double>(
    path: SimdPath,
    ax: Option<&[S]>,
    ay: Option<&[S]>,
    az: Option<&[S]>,
    bx: Option<&[S]>,
    by: Option<&[S]>,
    bz: Option<&[S]>,
    ox: Option<&mut [S]>,
    oy: Option<&mut [S]>,
    oz: Option<&mut [S]>,
    n: i32,
    status: Option<&mut i32>,
)
    requires
        0 <= n ==> sized(ax, n as int),
        0 <= n ==> sized(ay, n as int),
        0 <= n ==> sized(az, n as int),
        0 <= n ==> sized(bx, n as int),
        0 <= n ==> sized(by, n as int),
        0 <= n ==> sized(bz, n as int),
        0 <= n ==> (ox matches Some(o) ==> o@.len() == n),
        0 <= n ==> (oy matches Some(o) ==> o@.len() == n),
        0 <= n ==> (oz matches Some(o) ==> o@.len() == n),
    ensures
        ({
            let st = call_status(
                n,
                seq![
                    ax is Some,
                    ay is Some,
                    az is Some,
                    bx is Some,
                    by is Some,
                    bz is Some,
                    ox is Some,
                    oy is Some,
                    oz is Some,
                ],
            );
            &&& status matches Some(s) ==> *final(s) == st.code()
            &&& st == LasxStatus::Success && n > 0 ==> (
                final(ox->0)@,
                final(oy->0)@,
                final(oz->0)@,
            ) == cross3_all(
                (seen(ax), seen(ay), seen(az)),
                (seen(bx), seen(by), seen(bz)),
            )
            &&& st != LasxStatus::Success || n == 0 ==> {
                &&& ox matches Some(o) ==> final(o)@ == o@
                &&& oy matches Some(o) ==> final(o)@ == o@
                &&& oz matches Some(o) ==> final(o)@ == o@
            }
        }),
{
    let present = [
        ax.is_some(),
        ay.is_some(),
        az.is_some(),
        bx.is_some(),
        by.is_some(),
        bz.is_some(),
        ox.is_some(),
        oy.is_some(),
        oz.is_some(),
    ];
    proof {
        assert(
            present@ =~= seq![
                ax is Some,
                ay is Some,
                az is Some,
                bx is Some,
                by is Some,
                bz is Some,
                ox is Some,
                oy is Some,
                oz is Some,
            ]
        );
    }
    let st: LasxStatus = check_call(n, &present);
    st.write(status);
    if st.is_ok() {
        if let (
            Some(ax),
            Some(ay),
            Some(az),
            Some(bx),
            Some(by),
            Some(bz),
            Some(ox),
            Some(oy),
            Some(oz),
        ) = (ax, ay, az, bx, by, bz, ox, oy, oz) {
            crate::ops::geometry::cross3_batch(path, ax, ay, az, bx, by, bz, ox, oy, oz);
        }
    }
}

/// Vectors divided by their lengths.
pub fn lasx_unitize3_batch_checked<S: Double>(
    path: SimdPath,
    x: Option<&[S]>,
    y: Option<&[S]>,
    z: Option<&[S]>,
    ox: Option<&mut [S]>,
    oy: Option<&mut [S]>,
    oz: Option<&mut [S]>,
    n: i32,
    status: Option<&mut i32>,
)
    requires
        0 <= n ==> sized(x, n as int),
        0 <= n ==> sized(y, n as int),
        0 <= n ==> sized(z, n as int),
        0 <= n ==> (ox matches Some(o) ==> o@.len() == n),
        0 <= n ==> (oy matches Some(o) ==> o@.len() == n),
        0 <= n ==> (oz matches Some(o) ==> o@.len() == n),
    ensures
        ({
            let st = call_status(
                n,
                seq![x is Some, y is Some, z is Some, ox is Some, oy is Some, oz is Some],
            );
            &&& status matches Some(s) ==> *final(s) == st.code()
            &&& st == LasxStatus::Success && n > 0 ==> (
                final(ox->0)@,
                final(oy->0)@,
                final(oz->0)@,
            ) == unitize3_all((seen(x), seen(y), seen(z)))
            &&& st != LasxStatus::Success || n == 0 ==> {
                &&& ox matches Some(o) ==> final(o)@ == o@
                &&& oy matches Some(o) ==> final(o)@ == o@
                &&& oz matches Some(o) ==> final(o)@ == o@
            }
        }),
{
    let present = [x.is_some(), y.is_some(), z.is_some(), ox.is_some(), oy.is_some(), oz.is_some()];
    proof {
        assert(
            present@ =~= seq![x is Some, y is Some, z is Some, ox is Some, oy is Some, oz is Some]
        );
    }
    let st: LasxStatus = check_call(n, &present);
    st.write(status);
    if st.is_ok() {
        if let (Some(x), Some(y), Some(z), Some(ox), Some(oy), Some(oz)) = (x, y, z, ox, oy, oz) {
            crate::ops::geometry::unitize3_batch(path, x, y, z, ox, oy, oz);
        }
    }
}

/// Products `M·v`.
#[verifier::rlimit(60)]
pub fn lasx_mat3_mul_vec3_batch_checked<S: Double>(
    path: SimdPath,
    m0: Option<&[S]>,
    m1: Option<&[S]>,
    m2: Option<&[S]>,
    m3: Option<&[S]>,
    m4: Option<&[S]>,
    m5: Option<&[S]>,
    m6: Option<&[S]>,
    m7: Option<&[S]>,
    m8: Option<&[S]>,
    x: Option<&[S]>,
    y: Option<&[S]>,
    z: Option<&[S]>,
    ox: Option<&mut [S]>,
    oy: Option<&mut [S]>,
    oz: Option<&mut [S]>,
    n: i32,
    status: Option<&mut i32>,
)
    requires
        0 <= n ==> sized(m0, n as int),
        0 <= n ==> sized(m1, n as int),
        0 <= n ==> sized(m2, n as int),
        0 <= n ==> sized(m3, n as int),
        0 <= n ==> sized(m4, n as int),
        0 <= n ==> sized(m5, n as int),
        0 <= n ==> sized(m6, n as int),
        0 <= n ==> sized(m7, n as int),
        0 <= n ==> sized(m8, n as int),
        0 <= n ==> sized(x, n as int),
        0 <= n ==> sized(y, n as int),
        0 <= n ==> sized(z, n as int),
        0 <= n ==> (ox matches Some(o) ==> o@.len() == n),
        0 <= n ==> (oy matches Some(o) ==> o@.len() == n),
        0 <= n ==> (oz matches Some(o) ==> o@.len() == n),
    ensures
        ({
            let st = call_status(
                n,
                seq![
                    m0 is Some,
                    m1 is Some,
                    m2 is Some,
                    m3 is Some,
                    m4 is Some,
                    m5 is Some,
                    m6 is Some,
                    m7 is Some,
                    m8 is Some,
                    x is Some,
                    y is Some,
                    z is Some,
                    ox is Some,
                    oy is Some,
                    oz is Some,
                ],
            );
            &&& status matches Some(s) ==> *final(s) == st.code()
            &&& st == LasxStatus::Success && n > 0 ==> (
                final(ox->0)@,
                final(oy->0)@,
                final(oz->0)@,
            ) == mat3_mul_vec3_all(
                (
                    seen(m0),
                    seen(m1),
                    seen(m2),
                    seen(m3),
                    seen(m4),
                    seen(m5),
                    seen(m6),
                    seen(m7),
                    seen(m8),
                ),
                (seen(x), seen(y), seen(z)),
            )
            &&& st != LasxStatus::Success || n == 0 ==> {
                &&& ox matches Some(o) ==> final(o)@ == o@
                &&& oy matches Some(o) ==> final(o)@ == o@
                &&& oz matches Some(o) ==> final(o)@ == o@
            }
        }),
{
    let present = [
        m0.is_some(),
        m1.is_some(),
        m2.is_some(),
        m3.is_some(),
        m4.is_some(),
        m5.is_some(),
        m6.is_some(),
        m7.is_some(),
        m8.is_some(),
        x.is_some(),
        y.is_some(),
        z.is_some(),
        ox.is_some(),
        oy.is_some(),
        oz.is_some(),
    ];
    proof {
        assert(
            present@ =~= seq![
                m0 is Some,
                m1 is Some,
                m2 is Some,
                m3 is Some,
                m4 is Some,
                m5 is Some,
                m6 is Some,
                m7 is Some,
                m8 is Some,
                x is Some,
                y is Some,
                z is Some,
                ox is Some,
                oy is Some,
                oz is Some,
            ]
        );
    }
    let st: LasxStatus = check_call(n, &present);
    st.write(status);
    if st.is_ok() {
        if let (
            Some(m0),
            Some(m1),
            Some(m2),
            Some(m3),
            Some(m4),
            Some(m5),
            Some(m6),
        ) = (m0, m1, m2, m3, m4, m5, m6) {
            if let (
                Some(m7),
                Some(m8),
                Some(x),
                Some(y),
                Some(z),
                Some(ox),
                Some(oy),
                Some(oz),
            ) = (m7, m8, x, y, z, ox, oy, oz) {
                crate::ops::geometry::mat3_mul_vec3_batch(
                    path,
                    m0,
                    m1,
                    m2,
                    m3,
                    m4,
                    m5,
                    m6,
                    m7,
                    m8,
                    x,
                    y,
                    z,
                    ox,
                    oy,
                    oz,
                );
            }
        }
    }
}

/// Scales every quaternion to length one, in place.
pub fn lasx_quat_normalize_batch_checked<S: Double>(
    path: SimdPath,
    qw: Option<&mut [S]>,
    qx: Option<&mut [S]>,
    qy: Option<&mut [S]>,
    qz: Option<&mut [S]>,
    n: i32,
    status: Option<&mut i32>,
)
    requires
        0 <= n ==> (qw matches Some(o) ==> o@.len() == n),
        0 <= n ==> (qx matches Some(o) ==> o@.len() == n),
        0 <= n ==> (qy matches Some(o) ==> o@.len() == n),
        0 <= n ==> (qz matches Some(o) ==> o@.len() == n),
    ensures
        ({
            let st = call_status(n, seq![qw is Some, qx is Some, qy is Some, qz is Some]);
            &&& status matches Some(s) ==> *final(s) == st.code()
            &&& st == LasxStatus::Success && n > 0 ==> (
                final(qw->0)@,
                final(qx->0)@,
                final(qy->0)@,
                final(qz->0)@,
            ) == quat_unit_all(
                (qw->0@, qx->0@, qy->0@, qz->0@),
            )
            &&& st != LasxStatus::Success || n == 0 ==> {
                &&& qw matches Some(o) ==> final(o)@ == o@
                &&& qx matches Some(o) ==> final(o)@ == o@
                &&& qy matches Some(o) ==> final(o)@ == o@
                &&& qz matches Some(o) ==> final(o)@ == o@
            }
        }),
{
    let present = [qw.is_some(), qx.is_some(), qy.is_some(), qz.is_some()];
    proof {
        assert(present@ =~= seq![qw is Some, qx is Some, qy is Some, qz is Some]);
    }
    let st: LasxStatus = check_call(n, &present);
    st.write(status);
    if st.is_ok() {
        if let (Some(qw), Some(qx), Some(qy), Some(qz)) = (qw, qx, qy, qz) {
            crate::ops::attitude::quat_normalize_batch(path, qw, qx, qy, qz);
        }
    }
}

/// Products of quaternions.
pub fn lasx_quat_mul_batch_checked<S: Double>(
    path: SimdPath,
    aw: Option<&[S]>,
    ax: Option<&[S]>,
    ay: Option<&[S]>,
    az: Option<&[S]>,
    bw: Option<&[S]>,
    bx: Option<&[S]>,
    by: Option<&[S]>,
    bz: Option<&[S]>,
    ow: Option<&mut [S]>,
    ox: Option<&mut [S]>,
    oy: Option<&mut [S]>,
    oz: Option<&mut [S]>,
    n: i32,
    status: Option<&mut i32>,
)
    requires
        0 <= n ==> sized(aw, n as int),
        0 <= n ==> sized(ax, n as int),
        0 <= n ==> sized(ay, n as int),
        0 <= n ==> sized(az, n as int),
        0 <= n ==> sized(bw, n as int),
        0 <= n ==> sized(bx, n as int),
        0 <= n ==> sized(by, n as int),
        0 <= n ==> sized(bz, n as int),
        0 <= n ==> (ow matches Some(o) ==> o@.len() == n),
        0 <= n ==> (ox matches Some(o) ==> o@.len() == n),
        0 <= n ==> (oy matches Some(o) ==> o@.len() == n),
        0 <= n ==> (oz matches Some(o) ==> o@.len() == n),
    ensures
        ({
            let st = call_status(
                n,
                seq![
                    aw is Some,
                    ax is Some,
                    ay is Some,
                    az is Some,
                    bw is Some,
                    bx is Some,
                    by is Some,
                    bz is Some,
                    ow is Some,
                    ox is Some,
                    oy is Some,
                    oz is Some,
                ],
            );
            &&& status matches Some(s) ==> *final(s) == st.code()
            &&& st == LasxStatus::Success && n > 0 ==> (
                final(ow->0)@,
                final(ox->0)@,
                final(oy->0)@,
                final(oz->0)@,
            ) == quat_mul_all(
                (seen(aw), seen(ax), seen(ay), seen(az)),
                (seen(bw), seen(bx), seen(by), seen(bz)),
            )
            &&& st != LasxStatus::Success || n == 0 ==> {
                &&& ow matches Some(o) ==> final(o)@ == o@
                &&& ox matches Some(o) ==> final(o)@ == o@
                &&& oy matches Some(o) ==> final(o)@ == o@
                &&& oz matches Some(o) ==> final(o)@ == o@
            }
        }),
{
    let present = [
        aw.is_some(),
        ax.is_some(),
        ay.is_some(),
        az.is_some(),
        bw.is_some(),
        bx.is_some(),
        by.is_some(),
        bz.is_some(),
        ow.is_some(),
        ox.is_some(),
        oy.is_some(),
        oz.is_some(),
    ];
    proof {
        assert(
            present@ =~= seq![
                aw is Some,
                ax is Some,
                ay is Some,
                az is Some,
                bw is Some,
                bx is Some,
                by is Some,
                bz is Some,
                ow is Some,
                ox is Some,
                oy is Some,
                oz is Some,
            ]
        );
    }
    let st: LasxStatus = check_call(n, &present);
    st.write(status);
    if st.is_ok() {
        if let (
            Some(aw),
            Some(ax),
            Some(ay),
            Some(az),
            Some(bw),
            Some(bx),
            Some(by),
            Some(bz),
            Some(ow),
            Some(ox),
            Some(oy),
            Some(oz),
        ) = (aw, ax, ay, az, bw, bx, by, bz, ow, ox, oy, oz) {
            crate::ops::attitude::quat_mul_batch(
                path,
                aw,
                ax,
                ay,
                az,
                bw,
                bx,
                by,
                bz,
                ow,
                ox,
                oy,
                oz,
            );
        }
    }
}

/// Vectors turned by quaternions.
pub fn lasx_quat_rotate_batch_checked<S: Double>(
    path: SimdPath,
    qw: Option<&[S]>,
    qx: Option<&[S]>,
    qy: Option<&[S]>,
    qz: Option<&[S]>,
    vx: Option<&[S]>,
    vy: Option<&[S]>,
    vz: Option<&[S]>,
    ox: Option<&mut [S]>,
    oy: Option<&mut [S]>,
    oz: Option<&mut [S]>,
    n: i32,
    status: Option<&mut i32>,
)
    requires
        0 <= n ==> sized(qw, n as int),
        0 <= n ==> sized(qx, n as int),
        0 <= n ==> sized(qy, n as int),
        0 <= n ==> sized(qz, n as int),
        0 <= n ==> sized(vx, n as int),
        0 <= n ==> sized(vy, n as int),
        0 <= n ==> sized(vz, n as int),
        0 <= n ==> (ox matches Some(o) ==> o@.len() == n),
        0 <= n ==> (oy matches Some(o) ==> o@.len() == n),
        0 <= n ==> (oz matches Some(o) ==> o@.len() == n),
    ensures
        ({
            let st = call_status(
                n,
                seq![
                    qw is Some,
                    qx is Some,
                    qy is Some,
                    qz is Some,
                    vx is Some,
                    vy is Some,
                    vz is Some,
                    ox is Some,
                    oy is Some,
                    oz is Some,
                ],
            );
            &&& status matches Some(s) ==> *final(s) == st.code()
            &&& st == LasxStatus::Success && n > 0 ==> (
                final(ox->0)@,
                final(oy->0)@,
                final(oz->0)@,
            ) == quat_rotate_all(
                (seen(qw), seen(qx), seen(qy), seen(qz)),
                (seen(vx), seen(vy), seen(vz)),
            )
            &&& st != LasxStatus::Success || n == 0 ==> {
                &&& ox matches Some(o) ==> final(o)@ == o@
                &&& oy matches Some(o) ==> final(o)@ == o@
                &&& oz matches Some(o) ==> final(o)@ == o@
            }
        }),
{
    let present = [
        qw.is_some(),
        qx.is_some(),
        qy.is_some(),
        qz.is_some(),
        vx.is_some(),
        vy.is_some(),
        vz.is_some(),
        ox.is_some(),
        oy.is_some(),
        oz.is_some(),
    ];
    proof {
        assert(
            present@ =~= seq![
                qw is Some,
                qx is Some,
                qy is Some,
                qz is Some,
                vx is Some,
                vy is Some,
                vz is Some,
                ox is Some,
                oy is Some,
                oz is Some,
            ]
        );
    }
    let st: LasxStatus = check_call(n, &present);
    st.write(status);
    if st.is_ok() {
        if let (
            Some(qw),
            Some(qx),
            Some(qy),
            Some(qz),
            Some(vx),
            Some(vy),
            Some(vz),
            Some(ox),
            Some(oy),
            Some(oz),
        ) = (qw, qx, qy, qz, vx, vy, vz, ox, oy, oz) {
            crate::ops::attitude::quat_rotate_batch(path, qw, qx, qy, qz, vx, vy, vz, ox, oy, oz);
        }
    }
}

/// Rotation matrices of quaternions.
#[verifier::rlimit(60)]
pub fn lasx_quat_to_dcm_batch_checked<S: Double>(
    path: SimdPath,
    qw: Option<&[S]>,
    qx: Option<&[S]>,
    qy: Option<&[S]>,
    qz: Option<&[S]>,
    m0: Option<&mut [S]>,
    m1: Option<&mut [S]>,
    m2: Option<&mut [S]>,
    m3: Option<&mut [S]>,
    m4: Option<&mut [S]>,
    m5: Option<&mut [S]>,
    m6: Option<&mut [S]>,
    m7: Option<&mut [S]>,
    m8: Option<&mut [S]>,
    n: i32,
    status: Option<&mut i32>,
)
    requires
        0 <= n ==> sized(qw, n as int),
        0 <= n ==> sized(qx, n as int),
        0 <= n ==> sized(qy, n as int),
        0 <= n ==> sized(qz, n as int),
        0 <= n ==> (m0 matches Some(o) ==> o@.len() == n),
        0 <= n ==> (m1 matches Some(o) ==> o@.len() == n),
        0 <= n ==> (m2 matches Some(o) ==> o@.len() == n),
        0 <= n ==> (m3 matches Some(o) ==> o@.len() == n),
        0 <= n ==> (m4 matches Some(o) ==> o@.len() == n),
        0 <= n ==> (m5 matches Some(o) ==> o@.len() == n),
        0 <= n ==> (m6 matches Some(o) ==> o@.len() == n),
        0 <= n ==> (m7 matches Some(o) ==> o@.len() == n),
        0 <= n ==> (m8 matches Some(o) ==> o@.len() == n),
    ensures
        ({
            let st = call_status(
                n,
                seq![
                    qw is Some,
                    qx is Some,
                    qy is Some,
                    qz is Some,
                    m0 is Some,
                    m1 is Some,
                    m2 is Some,
                    m3 is Some,
                    m4 is Some,
                    m5 is Some,
                    m6 is Some,
                    m7 is Some,
                    m8 is Some,
                ],
            );
            &&& status matches Some(s) ==> *final(s) == st.code()
            &&& st == LasxStatus::Success && n > 0 ==> (
                final(m0->0)@,
                final(m1->0)@,
                final(m2->0)@,
                final(m3->0)@,
                final(m4->0)@,
                final(m5->0)@,
                final(m6->0)@,
                final(m7->0)@,
                final(m8->0)@,
            ) == quat_dcm_all(
                (seen(qw), seen(qx), seen(qy), seen(qz)),
            )
            &&& st != LasxStatus::Success || n == 0 ==> {
                &&& m0 matches Some(o) ==> final(o)@ == o@
                &&& m1 matches Some(o) ==> final(o)@ == o@
                &&& m2 matches Some(o) ==> final(o)@ == o@
                &&& m3 matches Some(o) ==> final(o)@ == o@
                &&& m4 matches Some(o) ==> final(o)@ == o@
                &&& m5 matches Some(o) ==> final(o)@ == o@
                &&& m6 matches Some(o) ==> final(o)@ == o@
                &&& m7 matches Some(o) ==> final(o)@ == o@
                &&& m8 matches Some(o) ==> final(o)@ == o@
            }
        }),
{
    let present = [
        qw.is_some(),
        qx.is_some(),
        qy.is_some(),
        qz.is_some(),
        m0.is_some(),
        m1.is_some(),
        m2.is_some(),
        m3.is_some(),
        m4.is_some(),
        m5.is_some(),
        m6.is_some(),
        m7.is_some(),
        m8.is_some(),
    ];
    proof {
        assert(
            present@ =~= seq![
                qw is Some,
                qx is Some,
                qy is Some,
                qz is Some,
                m0 is Some,
                m1 is Some,
                m2 is Some,
                m3 is Some,
                m4 is Some,
                m5 is Some,
                m6 is Some,
                m7 is Some,
                m8 is Some,
            ]
        );
    }
    let st: LasxStatus = check_call(n, &present);
    st.write(status);
    if st.is_ok() {
        if let (
            Some(qw),
            Some(qx),
            Some(qy),
            Some(qz),
            Some(m0),
            Some(m1),
            Some(m2),
        ) = (qw, qx, qy, qz, m0, m1, m2) {
            if let (
                Some(m3),
                Some(m4),
                Some(m5),
                Some(m6),
                Some(m7),
                Some(m8),
            ) = (m3, m4, m5, m6, m7, m8) {
                crate::ops::attitude::quat_to_dcm_batch(
                    path,
                    qw,
                    qx,
                    qy,
                    qz,
                    m0,
                    m1,
                    m2,
                    m3,
                    m4,
                    m5,
                    m6,
                    m7,
                    m8,
                );
            }
        }
    }
}

/// The lengths of the three matrices, or the first check that failed.
pub open spec fn product_sizes(
    m: i32,
    k: i32,
    n: i32,
) -> Result<(usize, usize, usize), LasxStatus> {
    if m < 0 || k < 0 || n < 0 {
        Err(LasxStatus::NegativeLength)
    } else if m * k > usize::MAX || k * n > usize::MAX || m * n > usize::MAX {
        Err(LasxStatus::SizeOverflow)
    } else {
        Ok(((m * k) as usize, (k * n) as usize, (m * n) as usize))
    }
}

/// Computes [`product_sizes`].
pub fn matmul_sizes(m: i32, k: i32, n: i32) -> (r: Result<(usize, usize, usize), LasxStatus>)
    ensures
        r == product_sizes(m, k, n),
{
    let (mu, ku, nu): (usize, usize, usize) = match (
        checked_len(m),
        checked_len(k),
        checked_len(n),
    ) {
        (Ok(mu), Ok(ku), Ok(nu)) => (mu, ku, nu),
        _ => return Err(LasxStatus::NegativeLength),
    };
    match (checked_mul(mu, ku), checked_mul(ku, nu), checked_mul(mu, nu)) {
        (Ok(la), Ok(lb), Ok(lc)) => Ok((la, lb, lc)),
        _ => Err(LasxStatus::SizeOverflow),
    }
}

/// The status of a product, given which matrices are there.
pub open spec fn product_status(
    m: i32,
    k: i32,
    n: i32,
    a: bool,
    b: bool,
    c: bool,
) -> LasxStatus {
    match product_sizes(m, k, n) {
        Err(e) => e,
        Ok((la, lb, lc)) => if (la > 0 && !a) || (lb > 0 && !b) || (lc > 0 && !c) {
            LasxStatus::NullPointer
        } else {
            LasxStatus::Success
        },
    }
}

/// `C[m×n] = A[m×k] · B[k×n]`.
pub fn lasx_matmul_checked<T: PackedKernel>(
    m: i32,
    k: i32,
    n: i32,
    a: Option<&[T]>,
    b: Option<&[T]>,
    c: Option<&mut [T]>,
    status: Option<&mut i32>,
)
    requires
        product_sizes(m, k, n) matches Ok((la, lb, lc)) ==> {
            &&& sized(a, la as int)
            &&& sized(b, lb as int)
            &&& c matches Some(o) ==> o@.len() == lc
        },
    ensures
        status matches Some(s) ==> *final(s) == product_status(
            m,
            k,
            n,
            a is Some,
            b is Some,
            c is Some,
        ).code(),
        product_status(
            m,
            k,
            n,
            a is Some,
            b is Some,
            c is Some,
        ) == LasxStatus::Success && m * n > 0 ==> is_product(
            seen(a),
            seen(b),
            m as int,
            k as int,
            n as int,
            final(c->0)@,
        ),
        product_status(
            m,
            k,
            n,
            a is Some,
            b is Some,
            c is Some,
        ) != LasxStatus::Success || m * n == 0 ==> (
            c matches Some(o) ==> final(o)@ == o@
        ),
{
    let (la, lb, lc): (usize, usize, usize) = match matmul_sizes(m, k, n) {
        Ok(v) => v,
        Err(e) => {
            e.write(status);
            return;
        },
    };
    if (la > 0 && a.is_none()) || (lb > 0 && b.is_none()) || (lc > 0 && c.is_none()) {
        LasxStatus::NullPointer.write(status);
        return;
    }
    LasxStatus::Success.write(status);
    let a = or_empty(a);
    let b = or_empty(b);
    if let Some(c) = c {
        let ghost c0 = c@;
        crate::ops::matmul::matmul_f32(m as usize, k as usize, n as usize, a, b, c);
        proof {
            if m * n == 0 {
                assert(c@ =~= c0);
            }
        }
    }
}

/// `C[m×n] = A[m×k] · B[k×n]` in double precision.
pub fn lasx_matmul_f64_checked<T: PackedKernel>(
    m: i32,
    k: i32,
    n: i32,
    a: Option<&[T]>,
    b: Option<&[T]>,
    c: Option<&mut [T]>,
    status: Option<&mut i32>,
)
    requires
        product_sizes(m, k, n) matches Ok((la, lb, lc)) ==> {
            &&& sized(a, la as int)
            &&& sized(b, lb as int)
            &&& c matches Some(o) ==> o@.len() == lc
        },
    ensures
        status matches Some(s) ==> *final(s) == product_status(
            m,
            k,
            n,
            a is Some,
            b is Some,
            c is Some,
        ).code(),
        product_status(
            m,
            k,
            n,
            a is Some,
            b is Some,
            c is Some,
        ) == LasxStatus::Success && m * n > 0 ==> is_product(
            seen(a),
            seen(b),
            m as int,
            k as int,
            n as int,
            final(c->0)@,
        ),
        product_status(
            m,
            k,
            n,
            a is Some,
            b is Some,
            c is Some,
        ) != LasxStatus::Success || m * n == 0 ==> (
            c matches Some(o) ==> final(o)@ == o@
        ),
{
    let (la, lb, lc): (usize, usize, usize) = match matmul_sizes(m, k, n) {
        Ok(v) => v,
        Err(e) => {
            e.write(status);
            return;
        },
    };
    if (la > 0 && a.is_none()) || (lb > 0 && b.is_none()) || (lc > 0 && c.is_none()) {
        LasxStatus::NullPointer.write(status);
        return;
    }
    LasxStatus::Success.write(status);
    let a = or_empty(a);
    let b = or_empty(b);
    if let Some(c) = c {
        let ghost c0 = c@;
        crate::ops::matmul::matmul_f64(m as usize, k as usize, n as usize, a, b, c);
        proof {
            if m * n == 0 {
                assert(c@ =~= c0);
            }
        }
    }
}

/// The status of a softmax over `n_rows` rows, given which arrays are there.
pub open spec fn softmax_status(n_rows: i32, n_cols: i32, x: bool, out: bool) -> LasxStatus {
    if n_rows < 0 || n_cols < 0 {
        LasxStatus::NegativeLength
    } else if n_rows * n_cols > usize::MAX {
        LasxStatus::SizeOverflow
    } else if n_rows * n_cols > 0 && (!x || !out) {
        LasxStatus::NullPointer
    } else {
        LasxStatus::Success
    }
}

/// Softmax of every row; null stands for no mask.
pub fn lasx_softmax_rows_checked<S: Single>(
    x: Option<&[S]>,
    mask: Option<&[S]>,
    out: Option<&mut [S]>,
    n_rows: i32,
    n_cols: i32,
    scale: S,
    status: Option<&mut i32>,
)
    requires
        0 <= n_rows && 0 <= n_cols && n_rows * n_cols <= usize::MAX ==> {
            &&& sized(x, n_rows * n_cols)
            &&& sized(mask, n_rows * n_cols)
            &&& out matches Some(o) ==> o@.len() == n_rows * n_cols
        },
    ensures
        status matches Some(s) ==> *final(s) == softmax_status(
            n_rows,
            n_cols,
            x is Some,
            out is Some,
        ).code(),
        softmax_status(n_rows, n_cols, x is Some, out is Some) == LasxStatus::Success && n_rows
            * n_cols > 0 ==> {
            &&& final(out->0)@.len() == n_rows * n_cols
            &&& forall|i: int|
                0 <= i < n_rows ==> #[trigger] row(final(out->0)@, n_cols as int, i) == softmax(
                    row(seen(x), n_cols as int, i),
                    row_or_none(seen(mask), n_cols as int, i),
                    scale,
                )
        },
        softmax_status(n_rows, n_cols, x is Some, out is Some) != LasxStatus::Success || n_rows
            * n_cols == 0 ==> (out matches Some(o) ==> final(o)@ == o@),
{
    if n_rows < 0 || n_cols < 0 {
        LasxStatus::NegativeLength.write(status);
        return;
    }
    let (rows, cols): (usize, usize) = (n_rows as usize, n_cols as usize);
    let len: usize = match checked_mul(rows, cols) {
        Ok(v) => v,
        Err(e) => {
            e.write(status);
            return;
        },
    };
    if len > 0 && (x.is_none() || out.is_none()) {
        LasxStatus::NullPointer.write(status);
        return;
    }
    LasxStatus::Success.write(status);
    let x = or_empty(x);
    let mask = or_empty(mask);
    if let Some(out) = out {
        let ghost before = out@;
        crate::ops::rows::softmax_rows(x, mask, scale, rows, cols, out);
        proof {
            if n_rows * n_cols == 0 {
                assert(out@ =~= before);
            }
        }
    }
}

/// Law: a call that fails a check returns zero and says so; a call that passes them all
/// reports success. The status tells the two apart.
pub proof fn law_status_decides(n: i32, present: Seq<bool>)
    ensures
        call_status(n, present) == LasxStatus::Success <==> n == 0 || (n > 0 && forall|i: int|
            0 <= i < present.len() ==> #[trigger] present[i]),
        call_status(n, present) == LasxStatus::NegativeLength <==> n < 0,
        call_status(n, present) == LasxStatus::NullPointer <==> n > 0 && exists|i: int|
            0 <= i < present.len() && !#[trigger] present[i],
{
}

} // verus!
