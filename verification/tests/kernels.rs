//! Reductions, geometry, attitude, orbits and ballistics against independent formulas.
#![allow(dead_code)]

use lasx_rs::arch::SimdPath;
use lasx_rs::ops::attitude::{
    quat_mul_batch, quat_normalize_batch, quat_rotate_batch, quat_to_dcm_batch,
};
use lasx_rs::ops::ballistic::ballistic_step;
use lasx_rs::ops::geometry::{
    batch_distance2d, cross3_batch, mat3_mul_vec3_batch, norm3_batch, unitize3_batch,
    vec3_add_scaled_batch,
};
use lasx_rs::ops::orbit::{j2_accel_batch, rk4_j2_step_batch, rk4_step_one};
use lasx_rs::ops::quant::{dot_i8, dot_q4};
use lasx_rs::ops::reduce::{axpy, dot, dot_f64, sum};
use lasx_rs::scalar::{Double, Scalar, Single};

#[derive(Clone, Copy, Default, Debug, PartialEq)]
struct F32(f32);

#[derive(Clone, Copy, Default, Debug, PartialEq)]
struct F64(f64);

impl Scalar for F32 {
    fn of_raw(raw: u64) -> Self {
        F32(f32::from_bits(raw as u32))
    }
    fn raw(self) -> u64 {
        self.0.to_bits() as u64
    }
    fn of_int(v: i64) -> Self {
        F32(v as f32)
    }
    fn trunc(self) -> i32 {
        self.0 as i32
    }
    fn add(self, o: Self) -> Self {
        F32(self.0 + o.0)
    }
    fn sub(self, o: Self) -> Self {
        F32(self.0 - o.0)
    }
    fn mul(self, o: Self) -> Self {
        F32(self.0 * o.0)
    }
    fn div(self, o: Self) -> Self {
        F32(self.0 / o.0)
    }
    fn fma(self, b: Self, c: Self) -> Self {
        F32(self.0.mul_add(b.0, c.0))
    }
    fn neg(self) -> Self {
        F32(-self.0)
    }
    fn abs(self) -> Self {
        F32(self.0.abs())
    }
    fn sqrt(self) -> Self {
        F32(self.0.sqrt())
    }
    fn max(self, o: Self) -> Self {
        F32(self.0.max(o.0))
    }
    fn lt(self, o: Self) -> bool {
        self.0 < o.0
    }
    fn same(self, o: Self) -> bool {
        self.0 == o.0
    }
    fn finite(self) -> bool {
        self.0.is_finite()
    }
    fn of_raw_spec(raw: u64) -> Self {
        Self::of_raw(raw)
    }
    fn raw_spec(self) -> u64 {
        Scalar::raw(self)
    }
    fn of_int_spec(v: i64) -> Self {
        Self::of_int(v)
    }
    fn trunc_spec(self) -> i32 {
        Scalar::trunc(self)
    }
    fn fma_spec(self, b: Self, c: Self) -> Self {
        Scalar::fma(self, b, c)
    }
    fn finite_spec(self) -> bool {
        Scalar::finite(self)
    }
    fn neg_spec(self) -> Self {
        Scalar::neg(self)
    }
    fn abs_spec(self) -> Self {
        Scalar::abs(self)
    }
    fn sqrt_spec(self) -> Self {
        Scalar::sqrt(self)
    }
    fn add_spec(self, o: Self) -> Self {
        Scalar::add(self, o)
    }
    fn sub_spec(self, o: Self) -> Self {
        Scalar::sub(self, o)
    }
    fn mul_spec(self, o: Self) -> Self {
        Scalar::mul(self, o)
    }
    fn div_spec(self, o: Self) -> Self {
        Scalar::div(self, o)
    }
    fn max_spec(self, o: Self) -> Self {
        Scalar::max(self, o)
    }
    fn lt_spec(self, o: Self) -> bool {
        Scalar::lt(self, o)
    }
    fn same_spec(self, o: Self) -> bool {
        Scalar::same(self, o)
    }
}

impl Scalar for F64 {
    fn of_raw(raw: u64) -> Self {
        F64(f64::from_bits(raw))
    }
    fn raw(self) -> u64 {
        self.0.to_bits()
    }
    fn of_int(v: i64) -> Self {
        F64(v as f64)
    }
    fn trunc(self) -> i32 {
        self.0 as i32
    }
    fn add(self, o: Self) -> Self {
        F64(self.0 + o.0)
    }
    fn sub(self, o: Self) -> Self {
        F64(self.0 - o.0)
    }
    fn mul(self, o: Self) -> Self {
        F64(self.0 * o.0)
    }
    fn div(self, o: Self) -> Self {
        F64(self.0 / o.0)
    }
    fn fma(self, b: Self, c: Self) -> Self {
        F64(self.0.mul_add(b.0, c.0))
    }
    fn neg(self) -> Self {
        F64(-self.0)
    }
    fn abs(self) -> Self {
        F64(self.0.abs())
    }
    fn sqrt(self) -> Self {
        F64(self.0.sqrt())
    }
    fn max(self, o: Self) -> Self {
        F64(self.0.max(o.0))
    }
    fn lt(self, o: Self) -> bool {
        self.0 < o.0
    }
    fn same(self, o: Self) -> bool {
        self.0 == o.0
    }
    fn finite(self) -> bool {
        self.0.is_finite()
    }
    fn of_raw_spec(raw: u64) -> Self {
        Self::of_raw(raw)
    }
    fn raw_spec(self) -> u64 {
        Scalar::raw(self)
    }
    fn of_int_spec(v: i64) -> Self {
        Self::of_int(v)
    }
    fn trunc_spec(self) -> i32 {
        Scalar::trunc(self)
    }
    fn fma_spec(self, b: Self, c: Self) -> Self {
        Scalar::fma(self, b, c)
    }
    fn finite_spec(self) -> bool {
        Scalar::finite(self)
    }
    fn neg_spec(self) -> Self {
        Scalar::neg(self)
    }
    fn abs_spec(self) -> Self {
        Scalar::abs(self)
    }
    fn sqrt_spec(self) -> Self {
        Scalar::sqrt(self)
    }
    fn add_spec(self, o: Self) -> Self {
        Scalar::add(self, o)
    }
    fn sub_spec(self, o: Self) -> Self {
        Scalar::sub(self, o)
    }
    fn mul_spec(self, o: Self) -> Self {
        Scalar::mul(self, o)
    }
    fn div_spec(self, o: Self) -> Self {
        Scalar::div(self, o)
    }
    fn max_spec(self, o: Self) -> Self {
        Scalar::max(self, o)
    }
    fn lt_spec(self, o: Self) -> bool {
        Scalar::lt(self, o)
    }
    fn same_spec(self, o: Self) -> bool {
        Scalar::same(self, o)
    }
}

impl Double for F64 {}

impl Single for F32 {
    type Wide = F64;
    fn widen(self) -> F64 {
        F64(self.0 as f64)
    }
    fn narrow(w: F64) -> Self {
        F32(w.0 as f32)
    }
    fn widen_spec(self) -> Self::Wide {
        Single::widen(self)
    }
    fn narrow_spec(w: Self::Wide) -> Self {
        Self::narrow(w)
    }
}

fn w32(x: &[f32]) -> Vec<F32> {
    x.iter().map(|&v| F32(v)).collect()
}

fn w64(x: &[f64]) -> Vec<F64> {
    x.iter().map(|&v| F64(v)).collect()
}

fn put32(dst: &mut [f32], src: &[F32]) {
    for (d, s) in dst.iter_mut().zip(src) {
        *d = s.0;
    }
}

fn put64(dst: &mut [f64], src: &[F64]) {
    for (d, s) in dst.iter_mut().zip(src) {
        *d = s.0;
    }
}

fn states(n: usize) -> (Vec<f64>, Vec<f64>, Vec<f64>) {
    let mut x = Vec::with_capacity(n);
    let mut y = Vec::with_capacity(n);
    let mut z = Vec::with_capacity(n);
    for i in 0..n {
        let a = 6.8e6 + (i as f64) * 1.7e6;
        let e = 0.05 + 0.3 * (i as f64) / n as f64;
        let th = (i as f64) * 2.39996;
        let r = a * (1.0 - e * e) / (1.0 + e * (th * 1.7).cos());
        let ph = (i as f64) * 1.131;
        x.push(r * th.cos() * ph.cos());
        y.push(r * th.sin() * ph.cos());
        z.push(r * ph.sin());
    }
    (x, y, z)
}

fn rel_err(a: f64, b: f64) -> f64 {
    (a - b).abs() / b.abs().max(1.0)
}

fn rel(got: f64, want: f64) -> f64 {
    (got - want).abs() / want.abs().max(1.0)
}

struct Lcg(u64);

impl Lcg {
    fn f64(&mut self) -> f64 {
        self.0 = self
            .0
            .wrapping_mul(6364136223846793005)
            .wrapping_add(1442695040888963407);
        ((self.0 >> 33) as f64 / (1u64 << 31) as f64) * 2.0 - 1.0
    }
}

const NS: &[usize] = &[
    0, 1, 2, 3, 7, 8, 9, 15, 16, 17, 31, 32, 33, 63, 64, 65, 127, 128, 129, 255, 256, 257, 511,
    512, 1000, 4095, 4096, 65536,
];

fn data(n: usize) -> (Vec<f32>, Vec<f32>) {
    let mut s = 0x243f_6a88_85a3_08d3u64;
    let mut next = move || {
        s = s
            .wrapping_mul(6364136223846793005)
            .wrapping_add(1442695040888963407);
        ((s >> 33) as f64 / (1u64 << 31) as f64) as f32 * 2.0 - 1.0
    };
    let a: Vec<f32> = (0..n).map(|_| next()).collect();
    let b: Vec<f32> = (0..n).map(|_| next()).collect();
    (a, b)
}

#[allow(clippy::too_many_arguments)]
fn lasx_norm3_batch_on(path: SimdPath, xs: &[f64], ys: &[f64], zs: &[f64], out: &mut [f64]) {
    let mut out_w = w64(out);
    norm3_batch(path, &w64(xs), &w64(ys), &w64(zs), &mut out_w);
    put64(out, &out_w);
}

#[allow(clippy::too_many_arguments)]
fn lasx_norm3_batch(xs: &[f64], ys: &[f64], zs: &[f64], out: &mut [f64]) {
    lasx_norm3_batch_on(SimdPath::Lasx, xs, ys, zs, out);
}

#[allow(clippy::too_many_arguments)]
fn lasx_vec3_add_scaled_batch_on(
    path: SimdPath,
    ax: &[f64],
    ay: &[f64],
    az: &[f64],
    bx: &[f64],
    by: &[f64],
    bz: &[f64],
    s: f64,
    ox: &mut [f64],
    oy: &mut [f64],
    oz: &mut [f64],
) {
    let mut ox_w = w64(ox);
    let mut oy_w = w64(oy);
    let mut oz_w = w64(oz);
    vec3_add_scaled_batch(
        path,
        &w64(ax),
        &w64(ay),
        &w64(az),
        &w64(bx),
        &w64(by),
        &w64(bz),
        F64(s),
        &mut ox_w,
        &mut oy_w,
        &mut oz_w,
    );
    put64(ox, &ox_w);
    put64(oy, &oy_w);
    put64(oz, &oz_w);
}

#[allow(clippy::too_many_arguments)]
fn lasx_vec3_add_scaled_batch(
    ax: &[f64],
    ay: &[f64],
    az: &[f64],
    bx: &[f64],
    by: &[f64],
    bz: &[f64],
    s: f64,
    ox: &mut [f64],
    oy: &mut [f64],
    oz: &mut [f64],
) {
    lasx_vec3_add_scaled_batch_on(SimdPath::Lasx, ax, ay, az, bx, by, bz, s, ox, oy, oz);
}

#[allow(clippy::too_many_arguments)]
fn lasx_batch_distance2d_on(
    path: SimdPath,
    px: f32,
    py: f32,
    xs: &[f32],
    ys: &[f32],
    out: &mut [f32],
) {
    let mut out_w = w32(out);
    batch_distance2d(path, F32(px), F32(py), &w32(xs), &w32(ys), &mut out_w);
    put32(out, &out_w);
}

#[allow(clippy::too_many_arguments)]
fn lasx_batch_distance2d(px: f32, py: f32, xs: &[f32], ys: &[f32], out: &mut [f32]) {
    lasx_batch_distance2d_on(SimdPath::Lasx, px, py, xs, ys, out);
}

#[allow(clippy::too_many_arguments)]
fn lasx_cross3_batch_on(
    path: SimdPath,
    ax: &[f64],
    ay: &[f64],
    az: &[f64],
    bx: &[f64],
    by: &[f64],
    bz: &[f64],
    ox: &mut [f64],
    oy: &mut [f64],
    oz: &mut [f64],
) {
    let mut ox_w = w64(ox);
    let mut oy_w = w64(oy);
    let mut oz_w = w64(oz);
    cross3_batch(
        path,
        &w64(ax),
        &w64(ay),
        &w64(az),
        &w64(bx),
        &w64(by),
        &w64(bz),
        &mut ox_w,
        &mut oy_w,
        &mut oz_w,
    );
    put64(ox, &ox_w);
    put64(oy, &oy_w);
    put64(oz, &oz_w);
}

#[allow(clippy::too_many_arguments)]
fn lasx_cross3_batch(
    ax: &[f64],
    ay: &[f64],
    az: &[f64],
    bx: &[f64],
    by: &[f64],
    bz: &[f64],
    ox: &mut [f64],
    oy: &mut [f64],
    oz: &mut [f64],
) {
    lasx_cross3_batch_on(SimdPath::Lasx, ax, ay, az, bx, by, bz, ox, oy, oz);
}

#[allow(clippy::too_many_arguments)]
fn lasx_unitize3_batch_on(
    path: SimdPath,
    x: &[f64],
    y: &[f64],
    z: &[f64],
    ox: &mut [f64],
    oy: &mut [f64],
    oz: &mut [f64],
) {
    let mut ox_w = w64(ox);
    let mut oy_w = w64(oy);
    let mut oz_w = w64(oz);
    unitize3_batch(path, &w64(x), &w64(y), &w64(z), &mut ox_w, &mut oy_w, &mut oz_w);
    put64(ox, &ox_w);
    put64(oy, &oy_w);
    put64(oz, &oz_w);
}

#[allow(clippy::too_many_arguments)]
fn lasx_unitize3_batch(
    x: &[f64],
    y: &[f64],
    z: &[f64],
    ox: &mut [f64],
    oy: &mut [f64],
    oz: &mut [f64],
) {
    lasx_unitize3_batch_on(SimdPath::Lasx, x, y, z, ox, oy, oz);
}

#[allow(clippy::too_many_arguments)]
fn lasx_mat3_mul_vec3_batch_on(
    path: SimdPath,
    m0: &[f64],
    m1: &[f64],
    m2: &[f64],
    m3: &[f64],
    m4: &[f64],
    m5: &[f64],
    m6: &[f64],
    m7: &[f64],
    m8: &[f64],
    x: &[f64],
    y: &[f64],
    z: &[f64],
    ox: &mut [f64],
    oy: &mut [f64],
    oz: &mut [f64],
) {
    let mut ox_w = w64(ox);
    let mut oy_w = w64(oy);
    let mut oz_w = w64(oz);
    mat3_mul_vec3_batch(
        path,
        &w64(m0),
        &w64(m1),
        &w64(m2),
        &w64(m3),
        &w64(m4),
        &w64(m5),
        &w64(m6),
        &w64(m7),
        &w64(m8),
        &w64(x),
        &w64(y),
        &w64(z),
        &mut ox_w,
        &mut oy_w,
        &mut oz_w,
    );
    put64(ox, &ox_w);
    put64(oy, &oy_w);
    put64(oz, &oz_w);
}

#[allow(clippy::too_many_arguments)]
fn lasx_mat3_mul_vec3_batch(
    m0: &[f64],
    m1: &[f64],
    m2: &[f64],
    m3: &[f64],
    m4: &[f64],
    m5: &[f64],
    m6: &[f64],
    m7: &[f64],
    m8: &[f64],
    x: &[f64],
    y: &[f64],
    z: &[f64],
    ox: &mut [f64],
    oy: &mut [f64],
    oz: &mut [f64],
) {
    lasx_mat3_mul_vec3_batch_on(
        SimdPath::Lasx,
        m0,
        m1,
        m2,
        m3,
        m4,
        m5,
        m6,
        m7,
        m8,
        x,
        y,
        z,
        ox,
        oy,
        oz,
    );
}

#[allow(clippy::too_many_arguments)]
fn lasx_quat_normalize_batch_on(
    path: SimdPath,
    qw: &mut [f64],
    qx: &mut [f64],
    qy: &mut [f64],
    qz: &mut [f64],
) {
    let mut qw_w = w64(qw);
    let mut qx_w = w64(qx);
    let mut qy_w = w64(qy);
    let mut qz_w = w64(qz);
    quat_normalize_batch(path, &mut qw_w, &mut qx_w, &mut qy_w, &mut qz_w);
    put64(qw, &qw_w);
    put64(qx, &qx_w);
    put64(qy, &qy_w);
    put64(qz, &qz_w);
}

#[allow(clippy::too_many_arguments)]
fn lasx_quat_normalize_batch(qw: &mut [f64], qx: &mut [f64], qy: &mut [f64], qz: &mut [f64]) {
    lasx_quat_normalize_batch_on(SimdPath::Lasx, qw, qx, qy, qz);
}

#[allow(clippy::too_many_arguments)]
fn lasx_quat_mul_batch_on(
    path: SimdPath,
    aw: &[f64],
    ax: &[f64],
    ay: &[f64],
    az: &[f64],
    bw: &[f64],
    bx: &[f64],
    by: &[f64],
    bz: &[f64],
    ow: &mut [f64],
    ox: &mut [f64],
    oy: &mut [f64],
    oz: &mut [f64],
) {
    let mut ow_w = w64(ow);
    let mut ox_w = w64(ox);
    let mut oy_w = w64(oy);
    let mut oz_w = w64(oz);
    quat_mul_batch(
        path,
        &w64(aw),
        &w64(ax),
        &w64(ay),
        &w64(az),
        &w64(bw),
        &w64(bx),
        &w64(by),
        &w64(bz),
        &mut ow_w,
        &mut ox_w,
        &mut oy_w,
        &mut oz_w,
    );
    put64(ow, &ow_w);
    put64(ox, &ox_w);
    put64(oy, &oy_w);
    put64(oz, &oz_w);
}

#[allow(clippy::too_many_arguments)]
fn lasx_quat_mul_batch(
    aw: &[f64],
    ax: &[f64],
    ay: &[f64],
    az: &[f64],
    bw: &[f64],
    bx: &[f64],
    by: &[f64],
    bz: &[f64],
    ow: &mut [f64],
    ox: &mut [f64],
    oy: &mut [f64],
    oz: &mut [f64],
) {
    lasx_quat_mul_batch_on(SimdPath::Lasx, aw, ax, ay, az, bw, bx, by, bz, ow, ox, oy, oz);
}

#[allow(clippy::too_many_arguments)]
fn lasx_quat_rotate_batch_on(
    path: SimdPath,
    qw: &[f64],
    qx: &[f64],
    qy: &[f64],
    qz: &[f64],
    vx: &[f64],
    vy: &[f64],
    vz: &[f64],
    ox: &mut [f64],
    oy: &mut [f64],
    oz: &mut [f64],
) {
    let mut ox_w = w64(ox);
    let mut oy_w = w64(oy);
    let mut oz_w = w64(oz);
    quat_rotate_batch(
        path,
        &w64(qw),
        &w64(qx),
        &w64(qy),
        &w64(qz),
        &w64(vx),
        &w64(vy),
        &w64(vz),
        &mut ox_w,
        &mut oy_w,
        &mut oz_w,
    );
    put64(ox, &ox_w);
    put64(oy, &oy_w);
    put64(oz, &oz_w);
}

#[allow(clippy::too_many_arguments)]
fn lasx_quat_rotate_batch(
    qw: &[f64],
    qx: &[f64],
    qy: &[f64],
    qz: &[f64],
    vx: &[f64],
    vy: &[f64],
    vz: &[f64],
    ox: &mut [f64],
    oy: &mut [f64],
    oz: &mut [f64],
) {
    lasx_quat_rotate_batch_on(SimdPath::Lasx, qw, qx, qy, qz, vx, vy, vz, ox, oy, oz);
}

#[allow(clippy::too_many_arguments)]
fn lasx_quat_to_dcm_batch_on(
    path: SimdPath,
    qw: &[f64],
    qx: &[f64],
    qy: &[f64],
    qz: &[f64],
    m0: &mut [f64],
    m1: &mut [f64],
    m2: &mut [f64],
    m3: &mut [f64],
    m4: &mut [f64],
    m5: &mut [f64],
    m6: &mut [f64],
    m7: &mut [f64],
    m8: &mut [f64],
) {
    let mut m0_w = w64(m0);
    let mut m1_w = w64(m1);
    let mut m2_w = w64(m2);
    let mut m3_w = w64(m3);
    let mut m4_w = w64(m4);
    let mut m5_w = w64(m5);
    let mut m6_w = w64(m6);
    let mut m7_w = w64(m7);
    let mut m8_w = w64(m8);
    quat_to_dcm_batch(
        path,
        &w64(qw),
        &w64(qx),
        &w64(qy),
        &w64(qz),
        &mut m0_w,
        &mut m1_w,
        &mut m2_w,
        &mut m3_w,
        &mut m4_w,
        &mut m5_w,
        &mut m6_w,
        &mut m7_w,
        &mut m8_w,
    );
    put64(m0, &m0_w);
    put64(m1, &m1_w);
    put64(m2, &m2_w);
    put64(m3, &m3_w);
    put64(m4, &m4_w);
    put64(m5, &m5_w);
    put64(m6, &m6_w);
    put64(m7, &m7_w);
    put64(m8, &m8_w);
}

#[allow(clippy::too_many_arguments)]
fn lasx_quat_to_dcm_batch(
    qw: &[f64],
    qx: &[f64],
    qy: &[f64],
    qz: &[f64],
    m0: &mut [f64],
    m1: &mut [f64],
    m2: &mut [f64],
    m3: &mut [f64],
    m4: &mut [f64],
    m5: &mut [f64],
    m6: &mut [f64],
    m7: &mut [f64],
    m8: &mut [f64],
) {
    lasx_quat_to_dcm_batch_on(SimdPath::Lasx, qw, qx, qy, qz, m0, m1, m2, m3, m4, m5, m6, m7, m8);
}

#[allow(clippy::too_many_arguments)]
fn lasx_j2_accel_batch_on(
    path: SimdPath,
    rx: &[f64],
    ry: &[f64],
    rz: &[f64],
    mu: f64,
    j2: f64,
    re: f64,
    ax: &mut [f64],
    ay: &mut [f64],
    az: &mut [f64],
) {
    let mut ax_w = w64(ax);
    let mut ay_w = w64(ay);
    let mut az_w = w64(az);
    j2_accel_batch(
        path,
        &w64(rx),
        &w64(ry),
        &w64(rz),
        F64(mu),
        F64(j2),
        F64(re),
        &mut ax_w,
        &mut ay_w,
        &mut az_w,
    );
    put64(ax, &ax_w);
    put64(ay, &ay_w);
    put64(az, &az_w);
}

#[allow(clippy::too_many_arguments)]
fn lasx_j2_accel_batch(
    rx: &[f64],
    ry: &[f64],
    rz: &[f64],
    mu: f64,
    j2: f64,
    re: f64,
    ax: &mut [f64],
    ay: &mut [f64],
    az: &mut [f64],
) {
    lasx_j2_accel_batch_on(SimdPath::Lasx, rx, ry, rz, mu, j2, re, ax, ay, az);
}

#[allow(clippy::too_many_arguments)]
fn lasx_rk4_j2_step_batch_on(
    path: SimdPath,
    rx: &mut [f64],
    ry: &mut [f64],
    rz: &mut [f64],
    vx: &mut [f64],
    vy: &mut [f64],
    vz: &mut [f64],
    mu: f64,
    j2: f64,
    re: f64,
    dt: f64,
) {
    let mut rx_w = w64(rx);
    let mut ry_w = w64(ry);
    let mut rz_w = w64(rz);
    let mut vx_w = w64(vx);
    let mut vy_w = w64(vy);
    let mut vz_w = w64(vz);
    rk4_j2_step_batch(
        path,
        &mut rx_w,
        &mut ry_w,
        &mut rz_w,
        &mut vx_w,
        &mut vy_w,
        &mut vz_w,
        F64(mu),
        F64(j2),
        F64(re),
        F64(dt),
    );
    put64(rx, &rx_w);
    put64(ry, &ry_w);
    put64(rz, &rz_w);
    put64(vx, &vx_w);
    put64(vy, &vy_w);
    put64(vz, &vz_w);
}

#[allow(clippy::too_many_arguments)]
fn lasx_rk4_j2_step_batch(
    rx: &mut [f64],
    ry: &mut [f64],
    rz: &mut [f64],
    vx: &mut [f64],
    vy: &mut [f64],
    vz: &mut [f64],
    mu: f64,
    j2: f64,
    re: f64,
    dt: f64,
) {
    lasx_rk4_j2_step_batch_on(SimdPath::Lasx, rx, ry, rz, vx, vy, vz, mu, j2, re, dt);
}

#[allow(clippy::too_many_arguments)]
fn lasx_ballistic_step_on(
    path: SimdPath,
    x: &mut [f32],
    y: &mut [f32],
    z: &mut [f32],
    vx: &mut [f32],
    vy: &mut [f32],
    vz: &mut [f32],
    k: &[f32],
    dt: f32,
    g: f32,
) {
    let mut x_w = w32(x);
    let mut y_w = w32(y);
    let mut z_w = w32(z);
    let mut vx_w = w32(vx);
    let mut vy_w = w32(vy);
    let mut vz_w = w32(vz);
    ballistic_step(
        path,
        &mut x_w,
        &mut y_w,
        &mut z_w,
        &mut vx_w,
        &mut vy_w,
        &mut vz_w,
        &w32(k),
        F32(dt),
        F32(g),
    );
    put32(x, &x_w);
    put32(y, &y_w);
    put32(z, &z_w);
    put32(vx, &vx_w);
    put32(vy, &vy_w);
    put32(vz, &vz_w);
}

#[allow(clippy::too_many_arguments)]
fn lasx_ballistic_step(
    x: &mut [f32],
    y: &mut [f32],
    z: &mut [f32],
    vx: &mut [f32],
    vy: &mut [f32],
    vz: &mut [f32],
    k: &[f32],
    dt: f32,
    g: f32,
) {
    lasx_ballistic_step_on(SimdPath::Lasx, x, y, z, vx, vy, vz, k, dt, g);
}

#[allow(clippy::too_many_arguments)]
fn rk4_j2_step_scalar(
    rx: &mut f64,
    ry: &mut f64,
    rz: &mut f64,
    vx: &mut f64,
    vy: &mut f64,
    vz: &mut f64,
    mu: f64,
    j2: f64,
    re: f64,
    h: f64,
) {
    let r = rk4_step_one(
        F64(*rx),
        F64(*ry),
        F64(*rz),
        F64(*vx),
        F64(*vy),
        F64(*vz),
        F64(mu),
        F64(j2),
        F64(re),
        F64(h),
    );
    (*rx, *ry, *rz) = (r.0 .0, r.1 .0, r.2 .0);
    (*vx, *vy, *vz) = (r.3 .0, r.4 .0, r.5 .0);
}

#[test]
fn test_dot_matches_f64_reference() {
    for &n in NS {
        let (a, b) = data(n);
        let want: f64 = a.iter().zip(&b).map(|(&x, &y)| x as f64 * y as f64).sum();
        let (wa, wb) = (w32(&a), w32(&b));
        let lasx = dot(SimdPath::Lasx, &wa, &wb).0 as f64;
        let lsx = dot(SimdPath::Lsx, &wa, &wb).0 as f64;
        assert!(rel(lasx, want) < 1e-5, "n={n} LASX: {lasx} vs {want}");
        assert!(rel(lsx, want) < 1e-5, "n={n} LSX: {lsx} vs {want}");
    }
}

/// Both paths of the dot product run the same operations in the same order.
#[test]
fn dot_paths_bit_exact() {
    let a = w32(&[1.0, -1.0, 0.0, 0.0, 2f32.powi(-30), 0.0, 0.0, 0.0]);
    let b = w32(&[1.0; 8]);
    assert_eq!(dot(SimdPath::Lasx, &a, &b).0, 2f32.powi(-30));
    assert_eq!(dot(SimdPath::Lsx, &a, &b).0, 2f32.powi(-30));
    let mut rng = Lcg(0x0d07_2c1b);
    for n in (0..40).chain([255, 256, 257, 260, 263, 511, 512, 777, 1031]) {
        let a: Vec<F32> = (0..n).map(|_| F32(rng.f64() as f32)).collect();
        let b: Vec<F32> = (0..n).map(|_| F32(rng.f64() as f32)).collect();
        let wide = dot(SimdPath::Lasx, &a, &b).0;
        let narrow = dot(SimdPath::Lsx, &a, &b).0;
        assert_eq!(wide.to_bits(), narrow.to_bits(), "n={n}");
    }
}

#[test]
fn test_sum_matches_f64_reference() {
    for &n in NS {
        let (a, _) = data(n);
        let want: f64 = a.iter().map(|&x| x as f64).sum();
        let lasx = sum(&w32(&a)).0 as f64;
        assert!(rel(lasx, want) < 1e-5, "n={n} LASX: {lasx} vs {want}");
    }
}

#[test]
fn test_ballistic_step_batch_matches_scalar() {
    let n = 64usize;
    let x = vec![0.0f32; n];
    let y = vec![0.0f32; n];
    let z = vec![0.0f32; n];
    let mut vx = vec![300.0f32; n];
    let mut vy = vec![40.0f32; n];
    let vz = vec![0.0f32; n];
    for i in 0..n {
        vx[i] = 300.0 + i as f32 * 10.0;
        vy[i] = 40.0 - i as f32 * 2.0;
    }
    let (mut xv, mut yv, mut zv) = (x.clone(), y.clone(), z.clone());
    let (mut vxv, mut vyv, mut vzv) = (vx.clone(), vy.clone(), vz.clone());
    let k = vec![1.0e-5f32; n];
    lasx_ballistic_step(
        &mut xv,
        &mut yv,
        &mut zv,
        &mut vxv,
        &mut vyv,
        &mut vzv,
        &k,
        0.005,
        9.81,
    );
    let mut xs = x.clone();
    let mut ys = y.clone();
    let mut zs = z.clone();
    let mut vxs = vx.clone();
    let mut vys = vy.clone();
    let mut vzs = vz.clone();
    for i in 0..n {
        let v = (vxs[i] * vxs[i] + vys[i] * vys[i] + vzs[i] * vzs[i]).sqrt();
        let drag = 1.0e-5 * v;
        vxs[i] -= drag * vxs[i] * 0.005;
        vys[i] -= (drag * vys[i] + 9.81) * 0.005;
        vzs[i] -= drag * vzs[i] * 0.005;
        xs[i] += vxs[i] * 0.005;
        ys[i] += vys[i] * 0.005;
        zs[i] += vzs[i] * 0.005;
    }
    for i in 0..n {
        assert!(
            (vxv[i] - vxs[i]).abs() < 1e-3,
            "vx[{i}]: {} vs {}",
            vxv[i],
            vxs[i]
        );
        assert!(
            (vyv[i] - vys[i]).abs() < 1e-3,
            "vy[{i}]: {} vs {}",
            vyv[i],
            vys[i]
        );
        assert!(
            (xv[i] - xs[i]).abs() < 1e-2,
            "x[{i}]: {} vs {}",
            xv[i],
            xs[i]
        );
    }
}

type Six = (Vec<f64>, Vec<f64>, Vec<f64>, Vec<f64>, Vec<f64>, Vec<f64>);

fn six_arrays(n: usize) -> Six {
    let mut rng = Lcg(0x0c05_5a11);
    let mk = |rng: &mut Lcg| (0..n).map(|_| rng.f64() * 100.0).collect::<Vec<f64>>();
    let (a, b, c) = (mk(&mut rng), mk(&mut rng), mk(&mut rng));
    let (d, e, f) = (mk(&mut rng), mk(&mut rng), mk(&mut rng));
    (a, b, c, d, e, f)
}

#[test]
fn test_cross3_batch_bit_exact() {
    for n in [0usize, 1, 2, 3, 4, 5, 7, 8, 9, 33, 64, 65] {
        let (ax, ay, az, bx, by, bz) = six_arrays(n);
        let (mut ox, mut oy, mut oz) = (vec![0.0; n], vec![0.0; n], vec![0.0; n]);
        lasx_cross3_batch(
            &ax,
            &ay,
            &az,
            &bx,
            &by,
            &bz,
            &mut ox,
            &mut oy,
            &mut oz,
);
        for i in 0..n {
            let (wx, wy, wz) = (
                ay[i] * bz[i] - az[i] * by[i],
                az[i] * bx[i] - ax[i] * bz[i],
                ax[i] * by[i] - ay[i] * bx[i],
            );
            assert_eq!(ox[i].to_bits(), wx.to_bits(), "n={n} i={i} ox");
            assert_eq!(oy[i].to_bits(), wy.to_bits(), "n={n} i={i} oy");
            assert_eq!(oz[i].to_bits(), wz.to_bits(), "n={n} i={i} oz");
        }
    }
}
#[test]
fn test_cross3_properties() {
    let n = 37;
    let (ax, ay, az, bx, by, bz) = six_arrays(n);
    let (mut ox, mut oy, mut oz) = (vec![0.0; n], vec![0.0; n], vec![0.0; n]);
    lasx_cross3_batch(
        &ax,
        &ay,
        &az,
        &ax,
        &ay,
        &az,
        &mut ox,
        &mut oy,
        &mut oz,
);
    assert!(ox.iter().all(|&v| v == 0.0) && oy.iter().all(|&v| v == 0.0));
    let (mut sx, mut sy, mut sz) = (vec![0.0; n], vec![0.0; n], vec![0.0; n]);
    lasx_cross3_batch(
        &ax,
        &ay,
        &az,
        &bx,
        &by,
        &bz,
        &mut sx,
        &mut sy,
        &mut sz,
);
    let (mut cx, mut cy, mut cz) = (bx.clone(), by.clone(), bz.clone());
    lasx_cross3_batch(
        &ax,
        &ay,
        &az,
        &bx,
        &by,
        &bz,
        &mut cx,
        &mut cy,
        &mut cz,
);
    assert_eq!(cx, sx, "输出缓冲的旧内容影响了 ox");
    assert_eq!(cy, sy, "输出缓冲的旧内容影响了 oy");
    assert_eq!(cz, sz, "输出缓冲的旧内容影响了 oz");
}

fn exact_i64(a: &[i8], b: &[i8]) -> i32 {
    a.iter()
        .zip(b)
        .map(|(&x, &y)| x as i64 * y as i64)
        .sum::<i64>() as i32
}
#[test]
fn test_dot_i8_matches_exact_i64_reference() {
    let mut s = 0x1234_5678_9abc_def0u64;
    let mut rnd = move || {
        s = s
            .wrapping_mul(6364136223846793005)
            .wrapping_add(1442695040888963407);
        (s >> 33) as i32 as i8
    };

    for &n in &[
        0usize, 1, 2, 3, 4, 5, 7, 8, 15, 16, 17, 31, 32, 33, 63, 64, 65, 127, 128, 1023, 1024,
        1025, 1055, 2047, 4095,
    ] {
        let a: Vec<i8> = (0..n).map(|_| rnd()).collect();
        let b: Vec<i8> = (0..n).map(|_| rnd()).collect();
        assert_eq!(
            dot_i8(&a, &b),
            exact_i64(&a, &b),
            "n={n} 随机"
        );
        for &fill in &[-128i8, 127, -1, 0, 1] {
            let a = vec![fill; n];
            let b = vec![fill; n];
            assert_eq!(
                dot_i8(&a, &b),
                exact_i64(&a, &b),
                "n={n} fill={fill}"
            );
        }
        let a: Vec<i8> = (0..n)
            .map(|k| if k % 2 == 0 { -128 } else { 127 })
            .collect();
        let b: Vec<i8> = (0..n)
            .map(|k| if k % 3 == 0 { -128 } else { 127 })
            .collect();
        assert_eq!(
            dot_i8(&a, &b),
            exact_i64(&a, &b),
            "n={n} 交替极值"
        );
    }
    let n = 300_000usize;
    let a = vec![-128i8; n];
    let b = vec![-128i8; n];
    assert_eq!(
        dot_i8(&a, &b),
        exact_i64(&a, &b),
        "n={n} 全 −128（i32 回绕）"
    );
}

fn q4_reference(qa: &[u8], sa: &[f32], qb: &[u8], sb: &[f32]) -> f64 {
    let n = qa.len();
    let mut acc = 0f64;
    let mut b = 0;
    while b + 32 <= n {
        let mut dot = 0i64;
        for j in b..b + 32 {
            let la = (qa[j] & 0x0f) as i64;
            let ha = ((qa[j] >> 4) & 0x0f) as i64;
            let lb = (qb[j] & 0x0f) as i64;
            let hb = ((qb[j] >> 4) & 0x0f) as i64;
            dot += la * lb + ha * hb;
        }
        acc += ((sa[b / 32] * sb[b / 32]) as f64) * (dot as f64);
        b += 32;
    }
    for j in b..n {
        let la = (qa[j] & 0x0f) as i64;
        let ha = ((qa[j] >> 4) & 0x0f) as i64;
        let lb = (qb[j] & 0x0f) as i64;
        let hb = ((qb[j] >> 4) & 0x0f) as i64;
        acc += ((sa[j / 32] * sb[j / 32]) as f64) * ((la * lb + ha * hb) as f64);
    }
    acc
}
#[test]
fn test_dot_q4_matches_exact_reference() {
    let mut rng = Lcg(0x0404_0404);
    for &n in &[0usize, 1, 31, 32, 33, 63, 64, 65, 96, 127, 128, 1024, 4096] {
        let groups = n.div_ceil(32);
        for case in 0..3 {
            let (qa, qb): (Vec<u8>, Vec<u8>) = match case {
                0 => (
                    (0..n).map(|_| (rng.f64().abs() * 255.0) as u8).collect(),
                    (0..n).map(|_| (rng.f64().abs() * 255.0) as u8).collect(),
                ),
                1 => (vec![0xFFu8; n], vec![0xFFu8; n]),
                _ => (vec![0u8; n], vec![0xFFu8; n]),
            };
            let sa: Vec<f32> = (0..groups).map(|i| 0.01 + i as f32 * 1e-5).collect();
            let sb: Vec<f32> = (0..groups).map(|i| 0.02 - i as f32 * 1e-6).collect();
            let want = q4_reference(&qa, &sa, &qb, &sb);
            let got = dot_q4(&qa, &w32(&sa), &qb, &w32(&sb)).0;
            let err = (got - want).abs() / want.abs().max(1.0);
            assert!(
                err < 1e-12,
                "n={n} case={case}: got {got} want {want} rel={err}"
            );
        }
    }
}

fn scalar_j2(
    rx: &[f64],
    ry: &[f64],
    rz: &[f64],
    mu: f64,
    j2: f64,
    re: f64,
) -> (Vec<f64>, Vec<f64>, Vec<f64>) {
    let n = rx.len();
    let (mut ax, mut ay, mut az) = (vec![0.0; n], vec![0.0; n], vec![0.0; n]);
    let j2k = 1.5 * j2 * mu * re * re;
    for i in 0..n {
        let rm = (rx[i] * rx[i] + ry[i] * ry[i] + rz[i] * rz[i]).sqrt();
        let rm3 = rm * rm * rm;
        let rm5 = rm3 * rm * rm;
        let zr2 = (rz[i] / rm) * (rz[i] / rm);
        let k = j2k / rm5;
        ax[i] = -mu * rx[i] / rm3 + k * rx[i] * (5.0 * zr2 - 1.0);
        ay[i] = -mu * ry[i] / rm3 + k * ry[i] * (5.0 * zr2 - 1.0);
        az[i] = -mu * rz[i] / rm3 + k * rz[i] * (5.0 * zr2 - 3.0);
    }
    (ax, ay, az)
}
#[test]
fn j2_accel_batch_reciprocal_derivation_precision() {
    let mut worst3 = 0f64;
    let mut worst5 = 0f64;
    let mut worst_zr2 = 0f64;
    for i in 0..4096 {
        let rm2 = 1.0 + 9.0 * (i as f64) / 4096.0;
        let rm = rm2.sqrt();
        let inv2 = 1.0 / rm2;
        let invrm = inv2 * rm;
        let inv3 = inv2 * invrm;
        let inv5 = inv3 * inv2;
        let e3 = 1.0 / (rm2 * rm);
        let e5 = 1.0 / (rm2 * rm2 * rm);
        worst3 = worst3.max(((inv3 - e3) / e3).abs());
        worst5 = worst5.max(((inv5 - e5) / e5).abs());
        let z = 0.37 * rm;
        let zr2 = (z * z) * inv2;
        let exact = (z * z) / rm2;
        worst_zr2 = worst_zr2.max(((zr2 - exact) / exact).abs());
    }
    println!("最坏相对偏差：1/|r|³={worst3:e} 1/|r|⁵={worst5:e} zr2={worst_zr2:e}");
    let bound = 8.0 * f64::EPSILON;
    assert!(worst3 < bound, "1/|r|³ {worst3:e}");
    assert!(worst5 < bound, "1/|r|⁵ {worst5:e}");
    assert!(worst_zr2 < bound, "zr2 {worst_zr2:e}");
}
#[test]
fn vector_and_tail_bit_exact() {
    const MU: f64 = 3.986004418e14;
    const J2: f64 = 1.08262668e-3;
    const RE: f64 = 6.378137e6;
    for k in [1usize, 8, 64] {
        let nv = 4 * k;
        let (x, y, z) = states(nv + 3);
        let (mut ax1, mut ay1, mut az1) = (vec![0.0; nv], vec![0.0; nv], vec![0.0; nv]);
        let (mut ax2, mut ay2, mut az2) =
            (vec![0.0; nv + 3], vec![0.0; nv + 3], vec![0.0; nv + 3]);
        lasx_j2_accel_batch(
            &x[..nv],
            &y[..nv],
            &z[..nv],
            MU,
            J2,
            RE,
            &mut ax1,
            &mut ay1,
            &mut az1,
);
        lasx_j2_accel_batch(
            &x,
            &y,
            &z,
            MU,
            J2,
            RE,
            &mut ax2,
            &mut ay2,
            &mut az2,
);
        for i in 0..nv {
            assert_eq!(ax1[i].to_bits(), ax2[i].to_bits(), "ax @ {i} (k={k})");
            assert_eq!(ay1[i].to_bits(), ay2[i].to_bits(), "ay @ {i} (k={k})");
            assert_eq!(az1[i].to_bits(), az2[i].to_bits(), "az @ {i} (k={k})");
        }
    }
}
#[test]
fn lasx_vs_lsx_bit_exact() {
    const MU: f64 = 3.986004418e14;
    const J2: f64 = 1.08262668e-3;
    const RE: f64 = 6.378137e6;
    let n = 257usize;
    let (x, y, z) = states(n);
    let (mut ax1, mut ay1, mut az1) = (vec![0.0; n], vec![0.0; n], vec![0.0; n]);
    let (mut ax2, mut ay2, mut az2) = (vec![0.0; n], vec![0.0; n], vec![0.0; n]);
    lasx_j2_accel_batch(
        &x,
        &y,
        &z,
        MU,
        J2,
        RE,
        &mut ax1,
        &mut ay1,
        &mut az1,
);
    lasx_j2_accel_batch_on(
        SimdPath::Lsx,
        &x,
        &y,
        &z,
        MU,
        J2,
        RE,
        &mut ax2,
        &mut ay2,
        &mut az2,
);
    for i in 0..n {
        assert_eq!(ax1[i].to_bits(), ax2[i].to_bits(), "ax @ {i}");
        assert_eq!(ay1[i].to_bits(), ay2[i].to_bits(), "ay @ {i}");
        assert_eq!(az1[i].to_bits(), az2[i].to_bits(), "az @ {i}");
    }
}

#[test]
fn test_j2_accel_batch_matches_scalar() {
    for n in [0usize, 1, 2, 4, 9, 20] {
        let (x, y, z) = states(n);
        let (mut ax, mut ay, mut az) = (vec![0.0; n], vec![0.0; n], vec![0.0; n]);
        lasx_j2_accel_batch(
            &x,
            &y,
            &z,
            3.986004418e14,
            1.08262668e-3,
            6.378137e6,
            &mut ax,
            &mut ay,
            &mut az,
);
        let (wx, wy, wz) = scalar_j2(&x, &y, &z, 3.986004418e14, 1.08262668e-3, 6.378137e6);
        for i in 0..n {
            assert!(
                rel_err(ax[i], wx[i]) < 1e-9
                    && rel_err(ay[i], wy[i]) < 1e-9
                    && rel_err(az[i], wz[i]) < 1e-9,
                "n={n} i={i}: ({},{},{}) vs ({},{},{})",
                ax[i],
                ay[i],
                az[i],
                wx[i],
                wy[i],
                wz[i]
            );
        }
    }
}

#[test]
fn test_mat3_mul_vec3_batch_bit_exact() {
    let mut rng = Lcg(0x3a3a_1234);
    for n in [0usize, 1, 2, 3, 5, 8, 9, 33] {
        let m: Vec<Vec<f64>> = (0..9)
            .map(|_| (0..n).map(|_| rng.f64() * 3.0).collect())
            .collect();
        let x: Vec<f64> = (0..n).map(|_| rng.f64()).collect();
        let y: Vec<f64> = (0..n).map(|_| rng.f64()).collect();
        let z: Vec<f64> = (0..n).map(|_| rng.f64()).collect();
        let (mut ox, mut oy, mut oz) = (vec![0.0; n], vec![0.0; n], vec![0.0; n]);
        lasx_mat3_mul_vec3_batch(
            &m[0],
            &m[1],
            &m[2],
            &m[3],
            &m[4],
            &m[5],
            &m[6],
            &m[7],
            &m[8],
            &x,
            &y,
            &z,
            &mut ox,
            &mut oy,
            &mut oz,
);
        for i in 0..n {
            for (r, got) in [&ox, &oy, &oz].into_iter().enumerate() {
                let want =
                    (m[r * 3][i] * x[i] + m[r * 3 + 1][i] * y[i]) + m[r * 3 + 2][i] * z[i];
                assert_eq!(got[i].to_bits(), want.to_bits(), "n={n} i={i} r={r}");
            }
        }
    }
}
#[test]
fn test_mat3_identity() {
    let n = 7;
    let mut rng = Lcg(0x99);
    let x: Vec<f64> = (0..n).map(|_| rng.f64()).collect();
    let y: Vec<f64> = (0..n).map(|_| rng.f64()).collect();
    let z: Vec<f64> = (0..n).map(|_| rng.f64()).collect();
    let eye: [Vec<f64>; 9] = [
        vec![1.0; n],
        vec![0.0; n],
        vec![0.0; n],
        vec![0.0; n],
        vec![1.0; n],
        vec![0.0; n],
        vec![0.0; n],
        vec![0.0; n],
        vec![1.0; n],
    ];
    let (mut ox, mut oy, mut oz) = (vec![0.0; n], vec![0.0; n], vec![0.0; n]);
    lasx_mat3_mul_vec3_batch(
        &eye[0],
        &eye[1],
        &eye[2],
        &eye[3],
        &eye[4],
        &eye[5],
        &eye[6],
        &eye[7],
        &eye[8],
        &x,
        &y,
        &z,
        &mut ox,
        &mut oy,
        &mut oz,
);
    assert_eq!(ox, x);
    assert_eq!(oy, y);
    assert_eq!(oz, z);
}

fn scalar_norm3(x: &[f64], y: &[f64], z: &[f64]) -> Vec<f64> {
    (0..x.len())
        .map(|i| (x[i] * x[i] + y[i] * y[i] + z[i] * z[i]).sqrt())
        .collect()
}
#[test]
fn test_norm3_batch_matches_scalar() {
    for n in [0usize, 1, 2, 3, 4, 5, 7, 8, 16, 33] {
        let (x, y, z) = states(n);
        let mut out = vec![0.0; n];
        lasx_norm3_batch(
            &x,
            &y,
            &z,
            &mut out,
);
        let want = scalar_norm3(&x, &y, &z);
        for i in 0..n {
            assert!(
                rel_err(out[i], want[i]) < 1e-9,
                "n={n} i={i}: {} vs {}",
                out[i],
                want[i]
            );
        }
    }
}

#[test]
fn test_quat_mul_batch_bit_exact() {
    let mut rng = Lcg(0x1111_2222);
    for n in [0usize, 1, 2, 3, 4, 5, 8, 9, 33] {
        let (aw, ax, ay, az) = (
            (0..n).map(|_| rng.f64()).collect::<Vec<f64>>(),
            (0..n).map(|_| rng.f64()).collect::<Vec<f64>>(),
            (0..n).map(|_| rng.f64()).collect::<Vec<f64>>(),
            (0..n).map(|_| rng.f64()).collect::<Vec<f64>>(),
        );
        let (bw, bx, by, bz) = (
            (0..n).map(|_| rng.f64()).collect::<Vec<f64>>(),
            (0..n).map(|_| rng.f64()).collect::<Vec<f64>>(),
            (0..n).map(|_| rng.f64()).collect::<Vec<f64>>(),
            (0..n).map(|_| rng.f64()).collect::<Vec<f64>>(),
        );
        let (mut ow, mut ox, mut oy, mut oz) =
            (vec![0.0; n], vec![0.0; n], vec![0.0; n], vec![0.0; n]);
        lasx_quat_mul_batch(
            &aw,
            &ax,
            &ay,
            &az,
            &bw,
            &bx,
            &by,
            &bz,
            &mut ow,
            &mut ox,
            &mut oy,
            &mut oz,
);
        for i in 0..n {
            let rw = aw[i] * bw[i] - ax[i] * bx[i] - ay[i] * by[i] - az[i] * bz[i];
            let rx = aw[i] * bx[i] + ax[i] * bw[i] + ay[i] * bz[i] - az[i] * by[i];
            let ry = aw[i] * by[i] - ax[i] * bz[i] + ay[i] * bw[i] + az[i] * bx[i];
            let rz = aw[i] * bz[i] + ax[i] * by[i] - ay[i] * bx[i] + az[i] * bw[i];
            assert_eq!(ow[i].to_bits(), rw.to_bits(), "n={n} i={i} w");
            assert_eq!(ox[i].to_bits(), rx.to_bits(), "n={n} i={i} x");
            assert_eq!(oy[i].to_bits(), ry.to_bits(), "n={n} i={i} y");
            assert_eq!(oz[i].to_bits(), rz.to_bits(), "n={n} i={i} z");
        }
    }
}
#[test]
fn test_quat_mul_identity_and_conjugate() {
    let n = 9;
    let mut rng = Lcg(0x777);
    let aw: Vec<f64> = (0..n).map(|_| rng.f64()).collect();
    let ax: Vec<f64> = (0..n).map(|_| rng.f64()).collect();
    let az: Vec<f64> = (0..n).map(|_| rng.f64()).collect();
    let ay: Vec<f64> = (0..n).map(|_| rng.f64()).collect();
    let (one, zero) = (vec![1.0; n], vec![0.0; n]);
    let (mut ow, mut ox, mut oy, mut oz) =
        (vec![0.0; n], vec![0.0; n], vec![0.0; n], vec![0.0; n]);
    lasx_quat_mul_batch(
        &aw,
        &ax,
        &ay,
        &az,
        &one,
        &zero,
        &zero,
        &zero,
        &mut ow,
        &mut ox,
        &mut oy,
        &mut oz,
);
    assert_eq!(ow, aw);
    assert_eq!(ox, ax);
    assert_eq!(oy, ay);
    assert_eq!(oz, az);
}

#[test]
fn test_quat_normalize_batch_matches_reference() {
    let mut rng = Lcg(0x4a11_0c05);
    for n in [0usize, 1, 2, 3, 4, 5, 8, 9, 33] {
        let (mut w, mut x, mut y, mut z) = (
            (0..n).map(|_| rng.f64() * 2.0).collect::<Vec<f64>>(),
            (0..n).map(|_| rng.f64()).collect::<Vec<f64>>(),
            (0..n).map(|_| rng.f64()).collect::<Vec<f64>>(),
            (0..n).map(|_| rng.f64()).collect::<Vec<f64>>(),
        );
        let want: Vec<(f64, f64, f64, f64)> = (0..n)
            .map(|i| {
                let nn = ((w[i] * w[i] + x[i] * x[i]) + y[i] * y[i]) + z[i] * z[i];
                let nn = nn.sqrt();
                if nn < 1e-15 {
                    (1.0, 0.0, 0.0, 0.0)
                } else {
                    (w[i] / nn, x[i] / nn, y[i] / nn, z[i] / nn)
                }
            })
            .collect();
        lasx_quat_normalize_batch(
            &mut w,
            &mut x,
            &mut y,
            &mut z,
);
        for i in 0..n {
            for (got, want_v, name) in [
                (w[i], want[i].0, "w"),
                (x[i], want[i].1, "x"),
                (y[i], want[i].2, "y"),
                (z[i], want[i].3, "z"),
            ] {
                assert!(
                    rel_err(got, want_v) < 1e-15,
                    "n={n} i={i} {name}: {got} vs {want_v}"
                );
            }
        }
    }
}
#[test]
fn test_quat_normalize_degenerate_is_identity() {
    let mut w = vec![0.0f64, 1e-20, 3.0, 0.0];
    let mut x = vec![0.0f64, 0.0, 4.0, 0.0];
    let mut y = vec![0.0f64, 1e-20, 0.0, 0.0];
    let mut z = vec![0.0f64, 0.0, 0.0, -0.0];
    lasx_quat_normalize_batch(
        &mut w,
        &mut x,
        &mut y,
        &mut z,
);
    for i in [0usize, 1] {
        assert_eq!(
            (w[i], x[i], y[i], z[i]),
            (1.0, 0.0, 0.0, 0.0),
            "退化样本 {i} 应为单位四元数"
        );
    }
    for i in 2..4 {
        let m = ((w[i] * w[i] + x[i] * x[i]) + y[i] * y[i]) + z[i] * z[i];
        assert!((m.sqrt() - 1.0).abs() < 1e-15, "i={i} 模长 {}", m.sqrt());
    }
}
#[test]
fn quat_normalize_batch_paths_bit_exact() {
    let mut rng = Lcg(0x9e37_1a2b);
    let n = 261usize;
    let src: Vec<[f64; 4]> = (0..n)
        .map(|_| [rng.f64(), rng.f64(), rng.f64(), rng.f64()])
        .collect();
    let run = |force_lsx: bool, count: usize| -> Vec<[f64; 4]> {
        let (mut w, mut x, mut y, mut z) = (
            src.iter().map(|v| v[0]).collect::<Vec<_>>(),
            src.iter().map(|v| v[1]).collect::<Vec<_>>(),
            src.iter().map(|v| v[2]).collect::<Vec<_>>(),
            src.iter().map(|v| v[3]).collect::<Vec<_>>(),
        );
        lasx_quat_normalize_batch_on(
            if force_lsx { SimdPath::Lsx } else { SimdPath::Lasx },
            &mut w[..count],
            &mut x[..count],
            &mut y[..count],
            &mut z[..count],
        );
        (0..count).map(|i| [w[i], x[i], y[i], z[i]]).collect()
    };
    let lasx = run(false, n);
    let lsx = run(true, n);
    for i in 0..n {
        for k in 0..4 {
            assert_eq!(
                lasx[i][k].to_bits(),
                lsx[i][k].to_bits(),
                "LASX/LSX i={i} k={k}"
            );
        }
    }
    let body = run(false, 256);
    for i in 0..256 {
        for k in 0..4 {
            assert_eq!(
                body[i][k].to_bits(),
                lasx[i][k].to_bits(),
                "体/尾 i={i} k={k}"
            );
        }
    }
}
#[test]
fn quat_normalize_batch_reciprocal_derivation_precision() {
    let mut worst = 0f64;
    for i in 0..4096 {
        let t = 0.5 + 3.5 * (i as f64) / 4096.0;
        let n = t;
        let w = 0.371 * t;
        let inv = 1.0 / n;
        let got = w * inv;
        let exact = w / n;
        worst = worst.max(((got - exact) / exact).abs());
        assert!(got.to_bits() != 0 || exact.to_bits() != 0);
    }
    println!("单位化最坏相对偏差：{worst:e}");
    assert!(worst < 4.0 * f64::EPSILON, "{worst:e}");
}

#[test]
fn test_quat_rotate_batch_bit_exact() {
    let mut rng = Lcg(0x5150_5150);
    for n in [0usize, 1, 2, 3, 4, 5, 8, 9, 33] {
        let mk = |rng: &mut Lcg| (0..n).map(|_| rng.f64()).collect::<Vec<f64>>();
        let (qw, qx, qy, qz) = (mk(&mut rng), mk(&mut rng), mk(&mut rng), mk(&mut rng));
        let (vx, vy, vz) = (mk(&mut rng), mk(&mut rng), mk(&mut rng));
        let (mut ox, mut oy, mut oz) = (vec![0.0; n], vec![0.0; n], vec![0.0; n]);
        lasx_quat_rotate_batch(
            &qw,
            &qx,
            &qy,
            &qz,
            &vx,
            &vy,
            &vz,
            &mut ox,
            &mut oy,
            &mut oz,
);
        for i in 0..n {
            let nn = (((qw[i] * qw[i] + qx[i] * qx[i]) + qy[i] * qy[i]) + qz[i] * qz[i]).sqrt();
            let (w, x, y, z) = if nn < 1e-15 {
                (1.0, 0.0, 0.0, 0.0)
            } else {
                {
                    let inv = 1.0 / nn;
                    (qw[i] * inv, qx[i] * inv, qy[i] * inv, qz[i] * inv)
                }
            };
            let r = [
                1.0 - 2.0 * (y * y + z * z),
                2.0 * (x * y - w * z),
                2.0 * (x * z + w * y),
                2.0 * (x * y + w * z),
                1.0 - 2.0 * (x * x + z * z),
                2.0 * (y * z - w * x),
                2.0 * (x * z - w * y),
                2.0 * (y * z + w * x),
                1.0 - 2.0 * (x * x + y * y),
            ];
            let wx = (r[0] * vx[i] + r[1] * vy[i]) + r[2] * vz[i];
            let wy = (r[3] * vx[i] + r[4] * vy[i]) + r[5] * vz[i];
            let wz = (r[6] * vx[i] + r[7] * vy[i]) + r[8] * vz[i];
            assert_eq!(ox[i].to_bits(), wx.to_bits(), "n={n} i={i} ox");
            assert_eq!(oy[i].to_bits(), wy.to_bits(), "n={n} i={i} oy");
            assert_eq!(oz[i].to_bits(), wz.to_bits(), "n={n} i={i} oz");
        }
    }
}
#[test]
fn test_quat_rotate_geometry() {
    let n = 5;
    let s = (std::f64::consts::FRAC_PI_4).sin();
    let c = (std::f64::consts::FRAC_PI_4).cos();
    let qw = vec![c; n];
    let qx = vec![0.0; n];
    let qy = vec![0.0; n];
    let qz = vec![s; n];
    let (vx, vy, vz) = (vec![1.0; n], vec![0.0; n], vec![0.0; n]);
    let (mut ox, mut oy, mut oz) = (vec![0.0; n], vec![0.0; n], vec![0.0; n]);
    lasx_quat_rotate_batch(
        &qw,
        &qx,
        &qy,
        &qz,
        &vx,
        &vy,
        &vz,
        &mut ox,
        &mut oy,
        &mut oz,
);
    for i in 0..n {
        assert!(rel_err(ox[i], 0.0) < 1e-15 && rel_err(oy[i], 1.0) < 1e-15 && oz[i] == 0.0);
        let m = (vx[i] * vx[i] + vy[i] * vy[i] + vz[i] * vz[i]).sqrt();
        let mo = (ox[i] * ox[i] + (oy[i] * oy[i] + oz[i] * oz[i])).sqrt();
        assert!(rel_err(mo, m) < 1e-15, "旋转应保长：{mo} vs {m}");
    }
}
#[test]
fn quat_rotate_batch_paths_bit_exact() {
    const N: usize = 261;
    let mut rng = Lcg(0x517e_2b3c);
    let q: Vec<[f64; 4]> = (0..N)
        .map(|_| [rng.f64(), rng.f64(), rng.f64(), rng.f64()])
        .collect();
    let v: Vec<[f64; 3]> = (0..N).map(|_| [rng.f64(), rng.f64(), rng.f64()]).collect();
    let run = |force_lsx: bool, count: usize| -> Vec<[f64; 3]> {
        let (qw, qx, qy, qz) = (
            q.iter().map(|v| v[0]).collect::<Vec<_>>(),
            q.iter().map(|v| v[1]).collect::<Vec<_>>(),
            q.iter().map(|v| v[2]).collect::<Vec<_>>(),
            q.iter().map(|v| v[3]).collect::<Vec<_>>(),
        );
        let (vx, vy, vz) = (
            v.iter().map(|v| v[0]).collect::<Vec<_>>(),
            v.iter().map(|v| v[1]).collect::<Vec<_>>(),
            v.iter().map(|v| v[2]).collect::<Vec<_>>(),
        );
        let (mut ox, mut oy, mut oz) = (vec![0.0; count], vec![0.0; count], vec![0.0; count]);
        lasx_quat_rotate_batch_on(
            if force_lsx { SimdPath::Lsx } else { SimdPath::Lasx },
            &qw[..count],
            &qx[..count],
            &qy[..count],
            &qz[..count],
            &vx[..count],
            &vy[..count],
            &vz[..count],
            &mut ox,
            &mut oy,
            &mut oz,
);
        (0..count).map(|i| [ox[i], oy[i], oz[i]]).collect()
    };
    let lasx = run(false, N);
    let lsx = run(true, N);
    for i in 0..N {
        for k in 0..3 {
            assert_eq!(
                lasx[i][k].to_bits(),
                lsx[i][k].to_bits(),
                "LASX/LSX i={i} k={k}"
            );
        }
    }
    let body = run(false, 256);
    for i in 0..256 {
        for k in 0..3 {
            assert_eq!(
                body[i][k].to_bits(),
                lasx[i][k].to_bits(),
                "体/尾 i={i} k={k}"
            );
        }
    }
}

#[test]
fn test_quat_to_dcm_matches_rotation_formula() {
    let n = 21;
    let (rx, ry, rz) = states(n);
    let qw: Vec<f64> = (0..n).map(|i| 0.3 + 0.001 * i as f64).collect();
    let mut m: Vec<Vec<f64>> = (0..9).map(|_| vec![0.0; n]).collect();
    let [m0, m1, m2, m3, m4, m5, m6, m7, m8] = &mut m[..] else {
        unreachable!();
    };
    lasx_quat_to_dcm_batch(&qw, &rx, &ry, &rz, m0, m1, m2, m3, m4, m5, m6, m7, m8);
    for i in 0..n {
        let nn = ((qw[i] * qw[i] + rx[i] * rx[i]) + ry[i] * ry[i]) + rz[i] * rz[i];
        let nn = nn.sqrt();
        let (w, x, y, z) = if nn < 1e-15 {
            (1.0, 0.0, 0.0, 0.0)
        } else {
            (qw[i] / nn, rx[i] / nn, ry[i] / nn, rz[i] / nn)
        };
        let r = [
            1.0 - 2.0 * (y * y + z * z),
            2.0 * (x * y - w * z),
            2.0 * (x * z + w * y),
            2.0 * (x * y + w * z),
            1.0 - 2.0 * (x * x + z * z),
            2.0 * (y * z - w * x),
            2.0 * (x * z - w * y),
            2.0 * (y * z + w * x),
            1.0 - 2.0 * (x * x + y * y),
        ];
        for k in 0..9 {
            assert!(
                rel_err(m[k][i], r[k]) < 1e-15,
                "i={i} k={k}: {} vs {}",
                m[k][i],
                r[k]
            );
        }
        for r0 in 0..3 {
            for c0 in 0..3 {
                let dot: f64 = (0..3).map(|t| m[r0 * 3 + t][i] * m[c0 * 3 + t][i]).sum();
                let want = if r0 == c0 { 1.0 } else { 0.0 };
                assert!(
                    rel_err(dot, want) < 1e-12,
                    "i={i} 正交性 ({r0},{c0}) = {dot}"
                );
            }
        }
    }
}
#[test]
fn quat_to_dcm_batch_paths_bit_exact() {
    const N: usize = 261;
    let mut rng = Lcg(0x2c4d_3e5f);
    let q: Vec<[f64; 4]> = (0..N)
        .map(|_| [rng.f64(), rng.f64(), rng.f64(), rng.f64()])
        .collect();
    let run = |force_lsx: bool, count: usize| -> Vec<[f64; 9]> {
        let (qw, qx, qy, qz) = (
            q.iter().map(|v| v[0]).collect::<Vec<_>>(),
            q.iter().map(|v| v[1]).collect::<Vec<_>>(),
            q.iter().map(|v| v[2]).collect::<Vec<_>>(),
            q.iter().map(|v| v[3]).collect::<Vec<_>>(),
        );
        let mut m: Vec<Vec<f64>> = (0..9).map(|_| vec![0.0; count]).collect();
        let [m0, m1, m2, m3, m4, m5, m6, m7, m8] = &mut m[..] else {
            unreachable!();
        };
        lasx_quat_to_dcm_batch_on(
            if force_lsx { SimdPath::Lsx } else { SimdPath::Lasx },
            &qw[..count],
            &qx[..count],
            &qy[..count],
            &qz[..count],
            m0,
            m1,
            m2,
            m3,
            m4,
            m5,
            m6,
            m7,
            m8,
        );
        (0..count)
            .map(|i| std::array::from_fn(|k| m[k][i]))
            .collect()
    };
    let lasx = run(false, N);
    let lsx = run(true, N);
    for i in 0..N {
        for k in 0..9 {
            assert_eq!(
                lasx[i][k].to_bits(),
                lsx[i][k].to_bits(),
                "LASX/LSX i={i} k={k}"
            );
        }
    }
    let body = run(false, 256);
    for i in 0..256 {
        for k in 0..9 {
            assert_eq!(
                body[i][k].to_bits(),
                lasx[i][k].to_bits(),
                "体/尾 i={i} k={k}"
            );
        }
    }
}

#[test]
fn test_rk4_j2_step_batch_matches_scalar() {
    let mu = 3.986004418e14;
    let j2 = 1.08262668e-3;
    let re = 6.378137e6;
    for n in [1usize, 2, 3, 4, 5, 7, 8, 17] {
        let (x, y, z) = states(n);
        let vx: Vec<f64> = (0..n).map(|i| 100.0 * (i as f64) + 500.0).collect();
        let vy: Vec<f64> = (0..n).map(|i| 7700.0 * (1.0 + 0.01 * (i as f64))).collect();
        let vz: Vec<f64> = (0..n).map(|i| 20.0 * (i as f64)).collect();
        let (mut bx, mut by, mut bz) = (x.clone(), y.clone(), z.clone());
        let (mut bvx, mut bvy, mut bvz) = (vx.clone(), vy.clone(), vz.clone());
        let (mut sx, mut sy, mut sz) = (x.clone(), y.clone(), z.clone());
        let (mut svx, mut svy, mut svz) = (vx.clone(), vy.clone(), vz.clone());
        let dt = 10.0;
        for _ in 0..50 {
            lasx_rk4_j2_step_batch(
                &mut bx,
                &mut by,
                &mut bz,
                &mut bvx,
                &mut bvy,
                &mut bvz,
                mu,
                j2,
                re,
                dt,
);
            for i in 0..n {
                rk4_j2_step_scalar(
                    &mut sx[i],
                    &mut sy[i],
                    &mut sz[i],
                    &mut svx[i],
                    &mut svy[i],
                    &mut svz[i],
                    mu,
                    j2,
                    re,
                    dt,
                );
            }
        }
        for i in 0..n {
            assert!(
                rel_err(bx[i], sx[i]) < 1e-9 && rel_err(bvx[i], svx[i]) < 1e-9,
                "n={n} i={i}: batch r {} vs scalar {}",
                bx[i],
                sx[i]
            );
            assert!(rel_err(by[i], sy[i]) < 1e-9 && rel_err(bvy[i], svy[i]) < 1e-9);
            assert!(rel_err(bz[i], sz[i]) < 1e-9 && rel_err(bvz[i], svz[i]) < 1e-9);
        }
    }
}
#[test]
fn test_rk4_j2_step_scalar_fma_vs_plain_reference() {
    let mu = 3.986004418e14;
    let j2 = 1.08262668e-3;
    let re = 6.378137e6;
    let (x, y, z) = states(9);
    #[allow(clippy::too_many_arguments)]
    fn step_plain(
        rx: &mut f64,
        ry: &mut f64,
        rz: &mut f64,
        vx: &mut f64,
        vy: &mut f64,
        vz: &mut f64,
        mu: f64,
        j2: f64,
        re: f64,
        h: f64,
    ) {
        let j2k = 1.5 * j2 * mu * re * re;
        let accel = |x: f64, y: f64, z: f64| -> [f64; 3] {
            let rm = (x * x + y * y + z * z).sqrt();
            let rm3 = rm * rm * rm;
            let rm5 = rm3 * rm * rm;
            let zr2 = (z / rm) * (z / rm);
            let k = j2k / rm5;
            [
                -mu * x / rm3 + k * x * (5.0 * zr2 - 1.0),
                -mu * y / rm3 + k * y * (5.0 * zr2 - 1.0),
                -mu * z / rm3 + k * z * (5.0 * zr2 - 3.0),
            ]
        };
        let (x0, y0, z0, vx0, vy0, vz0) = (*rx, *ry, *rz, *vx, *vy, *vz);
        let k1 = accel(x0, y0, z0);
        let r2 = (x0 + 0.5 * h * vx0, y0 + 0.5 * h * vy0, z0 + 0.5 * h * vz0);
        let v2 = (
            vx0 + 0.5 * h * k1[0],
            vy0 + 0.5 * h * k1[1],
            vz0 + 0.5 * h * k1[2],
        );
        let k2 = accel(r2.0, r2.1, r2.2);
        let r3 = (
            x0 + 0.5 * h * v2.0,
            y0 + 0.5 * h * v2.1,
            z0 + 0.5 * h * v2.2,
        );
        let v3 = (
            vx0 + 0.5 * h * k2[0],
            vy0 + 0.5 * h * k2[1],
            vz0 + 0.5 * h * k2[2],
        );
        let k3 = accel(r3.0, r3.1, r3.2);
        let r4 = (x0 + h * v3.0, y0 + h * v3.1, z0 + h * v3.2);
        let v4 = (vx0 + h * k3[0], vy0 + h * k3[1], vz0 + h * k3[2]);
        let k4 = accel(r4.0, r4.1, r4.2);
        let l = (
            vx0 + 2.0 * v2.0 + 2.0 * v3.0 + v4.0,
            vy0 + 2.0 * v2.1 + 2.0 * v3.1 + v4.1,
            vz0 + 2.0 * v2.2 + 2.0 * v3.2 + v4.2,
        );
        let k = (
            k1[0] + 2.0 * k2[0] + 2.0 * k3[0] + k4[0],
            k1[1] + 2.0 * k2[1] + 2.0 * k3[1] + k4[1],
            k1[2] + 2.0 * k2[2] + 2.0 * k3[2] + k4[2],
        );
        *rx = x0 + (h / 6.0) * l.0;
        *ry = y0 + (h / 6.0) * l.1;
        *rz = z0 + (h / 6.0) * l.2;
        *vx = vx0 + (h / 6.0) * k.0;
        *vy = vy0 + (h / 6.0) * k.1;
        *vz = vz0 + (h / 6.0) * k.2;
    }
    let (mut fx, mut fy, mut fz) = (x.clone(), y.clone(), z.clone());
    let (mut fvx, mut fvy, mut fvz) = (vec![0.0; 9], vec![0.0; 9], vec![0.0; 9]);
    for i in 0..9 {
        fvx[i] = 500.0 + 100.0 * i as f64;
        fvy[i] = 7700.0 * (1.0 + 0.01 * i as f64);
        fvz[i] = 20.0 * i as f64;
    }
    let (mut px, mut py, mut pz) = (x.clone(), y.clone(), z.clone());
    let (mut pvx, mut pvy, mut pvz) = (fvx.clone(), fvy.clone(), fvz.clone());
    let dt = 10.0;
    for _ in 0..50 {
        for i in 0..9 {
            rk4_j2_step_scalar(
                &mut fx[i],
                &mut fy[i],
                &mut fz[i],
                &mut fvx[i],
                &mut fvy[i],
                &mut fvz[i],
                mu,
                j2,
                re,
                dt,
            );
            step_plain(
                &mut px[i],
                &mut py[i],
                &mut pz[i],
                &mut pvx[i],
                &mut pvy[i],
                &mut pvz[i],
                mu,
                j2,
                re,
                dt,
            );
        }
    }
    for i in 0..9 {
        assert!(
            rel_err(fx[i], px[i]) < 1e-9 && rel_err(fvx[i], pvx[i]) < 1e-9,
            "i={i}: FMA r {} vs plain {}",
            fx[i],
            px[i]
        );
        assert!(rel_err(fy[i], py[i]) < 1e-9 && rel_err(fvy[i], pvy[i]) < 1e-9);
        assert!(rel_err(fz[i], pz[i]) < 1e-9 && rel_err(fvz[i], pvz[i]) < 1e-9);
    }
}

#[test]
fn test_unitize3_batch_bit_exact() {
    for n in [0usize, 1, 2, 3, 4, 5, 8, 9, 33] {
        let (x, y, z) = states(n);
        let (mut ox, mut oy, mut oz) = (vec![0.0; n], vec![0.0; n], vec![0.0; n]);
        lasx_unitize3_batch(
            &x,
            &y,
            &z,
            &mut ox,
            &mut oy,
            &mut oz,
);
        let mut mag = vec![0.0; n];
        lasx_norm3_batch(
            &x,
            &y,
            &z,
            &mut mag,
);
        for i in 0..n {
            if mag[i] == 0.0 {
                assert_eq!((ox[i], oy[i], oz[i]), (0.0, 0.0, 0.0), "零向量约定");
                continue;
            }
            let inv = 1.0 / mag[i];
            assert_eq!(ox[i].to_bits(), (x[i] * inv).to_bits(), "n={n} i={i} ox");
            assert_eq!(oy[i].to_bits(), (y[i] * inv).to_bits(), "n={n} i={i} oy");
            assert_eq!(oz[i].to_bits(), (z[i] * inv).to_bits(), "n={n} i={i} oz");
            let m = (ox[i] * ox[i] + (oy[i] * oy[i] + oz[i] * oz[i])).sqrt();
            assert!(rel_err(m, 1.0) < 1e-9, "n={n} i={i}: |o| = {m}");
        }
    }
}
#[test]
fn test_unitize3_zero_vector() {
    let x = [0.0f64, 3.0, 0.0];
    let y = [0.0f64, 4.0, 0.0];
    let z = [0.0f64, 0.0, 0.0];
    let (mut ox, mut oy, mut oz) = ([9.9f64; 3], [9.9f64; 3], [9.9f64; 3]);
    lasx_unitize3_batch(
        &x,
        &y,
        &z,
        &mut ox,
        &mut oy,
        &mut oz,
);
    assert_eq!((ox[0], oy[0], oz[0]), (0.0, 0.0, 0.0), "零向量应为 (0,0,0)");
    let expect = (3.0f64 * (1.0f64 / 5.0), 4.0f64 * (1.0f64 / 5.0), 0.0);
    assert_eq!((ox[1], oy[1], oz[1]), expect, "3-4-5 应单位化");
    assert_eq!((ox[2], oy[2], oz[2]), (0.0, 0.0, 0.0), "零向量应为 (0,0,0)");
}

fn scalar_add_scaled(a: &[f64], b: &[f64], s: f64) -> Vec<f64> {
    a.iter().zip(b).map(|(&x, &y)| x + s * y).collect()
}
#[test]
fn test_vec3_add_scaled_batch_matches_scalar() {
    let (x, y, z) = states(37);
    let (b, c, d) = states(37);
    for s in [0.0, 0.5, 2.0, -1.3, 1.0] {
        let (mut ox, mut oy, mut oz) = (vec![0.0; 37], vec![0.0; 37], vec![0.0; 37]);
        lasx_vec3_add_scaled_batch(
            &x,
            &y,
            &z,
            &b,
            &c,
            &d,
            s,
            &mut ox,
            &mut oy,
            &mut oz,
);
        let wx = scalar_add_scaled(&x, &b, s);
        let wy = scalar_add_scaled(&y, &c, s);
        let wz = scalar_add_scaled(&z, &d, s);
        for i in 0..37 {
            assert!(
                rel_err(ox[i], wx[i]) < 1e-9
                    && rel_err(oy[i], wy[i]) < 1e-9
                    && rel_err(oz[i], wz[i]) < 1e-9,
                "s={s} i={i}"
            );
        }
    }
}

/// The two lanes of a two-element dot product, by hand.
#[test]
fn short_reductions_are_exact() {
    let a = w32(&[1.0, 2.0, 3.0]);
    let b = w32(&[4.0, 5.0, 6.0]);
    assert_eq!(dot(SimdPath::Lasx, &a, &b).0, 32.0);
    assert_eq!(dot(SimdPath::Lsx, &a, &b).0, 32.0);
    assert_eq!(sum(&a).0, 6.0);
    let (c, d) = (w64(&[1.5, 2.0, -1.0, 4.0, 8.0]), w64(&[2.0, 3.0, 5.0, 0.5, 0.25]));
    assert_eq!(dot_f64(&c, &d).0, 8.0);
    let mut y = w32(&[1.0; 9]);
    axpy(F32(2.0), &w32(&[3.0; 9]), &mut y);
    assert_eq!(y, w32(&[7.0; 9]));
}

/// The whole vectors of `axpy` round once, the elements left over twice.
#[test]
fn axpy_rounds_once_in_whole_vectors() {
    let (alpha, x0, y0) = (1.0f32 + f32::EPSILON, 1.0f32 - f32::EPSILON / 2.0, -1.0f32);
    let mut y = w32(&[y0; 9]);
    axpy(F32(alpha), &w32(&[x0; 9]), &mut y);
    assert_eq!(y[0].0.to_bits(), x0.mul_add(alpha, y0).to_bits());
    assert_eq!(y[7].0.to_bits(), x0.mul_add(alpha, y0).to_bits());
    assert_eq!(y[8].0.to_bits(), (y0 + alpha * x0).to_bits());
}

/// Distances on both paths, whole vectors and rest alike.
#[test]
fn distances_do_not_depend_on_the_path() {
    for n in [0usize, 1, 7, 8, 9, 20] {
        let (xs, ys) = data(n);
        let (mut d1, mut d2) = (vec![0.0; n], vec![0.0; n]);
        lasx_batch_distance2d_on(SimdPath::Lasx, 0.25, -0.5, &xs, &ys, &mut d1);
        lasx_batch_distance2d_on(SimdPath::Lsx, 0.25, -0.5, &xs, &ys, &mut d2);
        assert_eq!(d1, d2);
        for i in 0..n {
            let want = ((xs[i] - 0.25).hypot(ys[i] + 0.5)) as f64;
            assert!(rel(d1[i] as f64, want) < 1e-6);
        }
    }
    let mut d = vec![0.0f32; 1];
    lasx_batch_distance2d(1.0, 1.0, &[4.0], &[5.0], &mut d);
    assert_eq!(d[0], 5.0);
}

/// One ballistic step is not split-invariant: the whole vectors of eight associate
/// differently from the rest.
#[test]
fn ballistic_step_by_hand() {
    let (mut x, mut y, mut z) = (vec![0.0f32], vec![10.0f32], vec![0.0f32]);
    let (mut vx, mut vy, mut vz) = (vec![3.0f32], vec![4.0f32], vec![0.0f32]);
    lasx_ballistic_step(&mut x, &mut y, &mut z, &mut vx, &mut vy, &mut vz, &[0.0], 0.5, 8.0);
    assert_eq!((vx[0], vy[0], vz[0]), (3.0, 0.0, 0.0));
    assert_eq!((x[0], y[0], z[0]), (1.5, 10.0, 0.0));
}
