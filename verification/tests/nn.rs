//! Activations, row kernels, rotary embedding and half precision against independent
//! emulations.
#![allow(dead_code)]

use lasx_rs::ops::activation::{
    exp_seq_one, gelu_erf_one, gelu_quick_one, sigmoid_den_one, silu_one,
};
use lasx_rs::ops::rope::RopeMode;
use lasx_rs::scalar::{Double, Scalar, Single};

#[derive(Clone, Copy, Default, Debug, PartialEq)]
struct F32(f32);

#[derive(Clone, Copy, Default, Debug, PartialEq)]
struct F64(f64);

impl Scalar for F32 {
    fn of_raw(raw: u64) -> Self {
        F32(f32::from_bits(raw as u32))
    }
    fn raw(self) -> u64 {
        self.0.to_bits() as u64
    }
    fn of_int(v: i64) -> Self {
        F32(v as f32)
    }
    fn trunc(self) -> i32 {
        self.0 as i32
    }
    fn add(self, o: Self) -> Self {
        F32(self.0 + o.0)
    }
    fn sub(self, o: Self) -> Self {
        F32(self.0 - o.0)
    }
    fn mul(self, o: Self) -> Self {
        F32(self.0 * o.0)
    }
    fn div(self, o: Self) -> Self {
        F32(self.0 / o.0)
    }
    fn fma(self, b: Self, c: Self) -> Self {
        F32(self.0.mul_add(b.0, c.0))
    }
    fn neg(self) -> Self {
        F32(-self.0)
    }
    fn abs(self) -> Self {
        F32(self.0.abs())
    }
    fn sqrt(self) -> Self {
        F32(self.0.sqrt())
    }
    fn max(self, o: Self) -> Self {
        F32(self.0.max(o.0))
    }
    fn lt(self, o: Self) -> bool {
        self.0 < o.0
    }
    fn same(self, o: Self) -> bool {
        self.0 == o.0
    }
    fn finite(self) -> bool {
        self.0.is_finite()
    }
    fn of_raw_spec(raw: u64) -> Self {
        Self::of_raw(raw)
    }
    fn raw_spec(self) -> u64 {
        Scalar::raw(self)
    }
    fn of_int_spec(v: i64) -> Self {
        Self::of_int(v)
    }
    fn trunc_spec(self) -> i32 {
        Scalar::trunc(self)
    }
    fn fma_spec(self, b: Self, c: Self) -> Self {
        Scalar::fma(self, b, c)
    }
    fn finite_spec(self) -> bool {
        Scalar::finite(self)
    }
    fn neg_spec(self) -> Self {
        Scalar::neg(self)
    }
    fn abs_spec(self) -> Self {
        Scalar::abs(self)
    }
    fn sqrt_spec(self) -> Self {
        Scalar::sqrt(self)
    }
    fn add_spec(self, o: Self) -> Self {
        Scalar::add(self, o)
    }
    fn sub_spec(self, o: Self) -> Self {
        Scalar::sub(self, o)
    }
    fn mul_spec(self, o: Self) -> Self {
        Scalar::mul(self, o)
    }
    fn div_spec(self, o: Self) -> Self {
        Scalar::div(self, o)
    }
    fn max_spec(self, o: Self) -> Self {
        Scalar::max(self, o)
    }
    fn lt_spec(self, o: Self) -> bool {
        Scalar::lt(self, o)
    }
    fn same_spec(self, o: Self) -> bool {
        Scalar::same(self, o)
    }
}

impl Scalar for F64 {
    fn of_raw(raw: u64) -> Self {
        F64(f64::from_bits(raw))
    }
    fn raw(self) -> u64 {
        self.0.to_bits()
    }
    fn of_int(v: i64) -> Self {
        F64(v as f64)
    }
    fn trunc(self) -> i32 {
        self.0 as i32
    }
    fn add(self, o: Self) -> Self {
        F64(self.0 + o.0)
    }
    fn sub(self, o: Self) -> Self {
        F64(self.0 - o.0)
    }
    fn mul(self, o: Self) -> Self {
        F64(self.0 * o.0)
    }
    fn div(self, o: Self) -> Self {
        F64(self.0 / o.0)
    }
    fn fma(self, b: Self, c: Self) -> Self {
        F64(self.0.mul_add(b.0, c.0))
    }
    fn neg(self) -> Self {
        F64(-self.0)
    }
    fn abs(self) -> Self {
        F64(self.0.abs())
    }
    fn sqrt(self) -> Self {
        F64(self.0.sqrt())
    }
    fn max(self, o: Self) -> Self {
        F64(self.0.max(o.0))
    }
    fn lt(self, o: Self) -> bool {
        self.0 < o.0
    }
    fn same(self, o: Self) -> bool {
        self.0 == o.0
    }
    fn finite(self) -> bool {
        self.0.is_finite()
    }
    fn of_raw_spec(raw: u64) -> Self {
        Self::of_raw(raw)
    }
    fn raw_spec(self) -> u64 {
        Scalar::raw(self)
    }
    fn of_int_spec(v: i64) -> Self {
        Self::of_int(v)
    }
    fn trunc_spec(self) -> i32 {
        Scalar::trunc(self)
    }
    fn fma_spec(self, b: Self, c: Self) -> Self {
        Scalar::fma(self, b, c)
    }
    fn finite_spec(self) -> bool {
        Scalar::finite(self)
    }
    fn neg_spec(self) -> Self {
        Scalar::neg(self)
    }
    fn abs_spec(self) -> Self {
        Scalar::abs(self)
    }
    fn sqrt_spec(self) -> Self {
        Scalar::sqrt(self)
    }
    fn add_spec(self, o: Self) -> Self {
        Scalar::add(self, o)
    }
    fn sub_spec(self, o: Self) -> Self {
        Scalar::sub(self, o)
    }
    fn mul_spec(self, o: Self) -> Self {
        Scalar::mul(self, o)
    }
    fn div_spec(self, o: Self) -> Self {
        Scalar::div(self, o)
    }
    fn max_spec(self, o: Self) -> Self {
        Scalar::max(self, o)
    }
    fn lt_spec(self, o: Self) -> bool {
        Scalar::lt(self, o)
    }
    fn same_spec(self, o: Self) -> bool {
        Scalar::same(self, o)
    }
}

impl Double for F64 {}

impl Single for F32 {
    type Wide = F64;
    fn widen(self) -> F64 {
        F64(self.0 as f64)
    }
    fn narrow(w: F64) -> Self {
        F32(w.0 as f32)
    }
    fn widen_spec(self) -> Self::Wide {
        Single::widen(self)
    }
    fn narrow_spec(w: Self::Wide) -> Self {
        Self::narrow(w)
    }
}

fn w32(x: &[f32]) -> Vec<F32> {
    x.iter().map(|&v| F32(v)).collect()
}

fn w64(x: &[f64]) -> Vec<F64> {
    x.iter().map(|&v| F64(v)).collect()
}

fn put32(dst: &mut [f32], src: &[F32]) {
    for (d, s) in dst.iter_mut().zip(src) {
        *d = s.0;
    }
}

fn put64(dst: &mut [f64], src: &[F64]) {
    for (d, s) in dst.iter_mut().zip(src) {
        *d = s.0;
    }
}

struct Lcg(u64);

impl Lcg {
    fn f64(&mut self) -> f64 {
        self.0 = self
            .0
            .wrapping_mul(6364136223846793005)
            .wrapping_add(1442695040888963407);
        ((self.0 >> 33) as f64 / (1u64 << 31) as f64) * 2.0 - 1.0
    }
}

fn exp_seq(x: f32) -> f32 {
    exp_seq_one(F32(x)).0
}

fn sigmoid_den_seq(x: f32) -> f32 {
    sigmoid_den_one(F32(x)).0
}

fn silu_seq(x: f32) -> f32 {
    silu_one(F32(x)).0
}

fn gelu_quick_seq(x: f32) -> f32 {
    gelu_quick_one(F32(x)).0
}

fn gelu_erf_seq(x: f32) -> f32 {
    gelu_erf_one(F32(x)).0
}

fn silu_f32(x: &[f32], out: &mut [f32]) {
    let mut o = w32(out);
    lasx_rs::ops::activation::silu_f32(&w32(x), &mut o);
    put32(out, &o);
}

fn gelu_quick_f32(x: &[f32], out: &mut [f32]) {
    let mut o = w32(out);
    lasx_rs::ops::activation::gelu_quick_f32(&w32(x), &mut o);
    put32(out, &o);
}

fn gelu_erf_f32(x: &[f32], out: &mut [f32]) {
    let mut o = w32(out);
    lasx_rs::ops::activation::gelu_erf_f32(&w32(x), &mut o);
    put32(out, &o);
}

fn softmax_rows(x: &[f32], mask: &[f32], scale: f32, rows: usize, cols: usize, out: &mut [f32]) {
    let mut o = w32(out);
    lasx_rs::ops::rows::softmax_rows(&w32(x), &w32(mask), F32(scale), rows, cols, &mut o);
    put32(out, &o);
}

fn rms_norm(x: &[f32], w: &[f32], eps: f32, rows: usize, cols: usize, out: &mut [f32]) {
    let mut o = w32(out);
    lasx_rs::ops::rows::rms_norm(&w32(x), &w32(w), F32(eps), rows, cols, &mut o);
    put32(out, &o);
}

#[allow(clippy::too_many_arguments)]
fn rope_f32(
    x: &[f32],
    cos: &[f32],
    sin: &[f32],
    rows: usize,
    cols: usize,
    n_dims: usize,
    mode: RopeMode,
    out: &mut [f32],
) {
    let mut o = w32(out);
    lasx_rs::ops::rope::rope_f32(
        &w32(x),
        &w32(cos),
        &w32(sin),
        rows,
        cols,
        n_dims,
        mode,
        &mut o,
    );
    put32(out, &o);
}

fn rotate_pair(x0: f32, x1: f32, c: f32, s: f32) -> (f32, f32) {
    let r = lasx_rs::ops::rope::rotate_pair(F32(x0), F32(x1), F32(c), F32(s));
    (r.0 .0, r.1 .0)
}

/// Angles `pos·base^(−2i/n)`, their cosines and sines.
fn rope_tables(positions: &[f32], n_dims: usize, base: f32) -> (Vec<f32>, Vec<f32>) {
    let mut cos = Vec::new();
    let mut sin = Vec::new();
    for &p in positions {
        for i in 0..n_dims / 2 {
            let theta = p as f64 * (base as f64).powf(-2.0 * i as f64 / n_dims as f64);
            cos.push(theta.cos() as f32);
            sin.push(theta.sin() as f32);
        }
    }
    (cos, sin)
}

fn f16_to_f32(bits: u16) -> f32 {
    f32::from_bits(lasx_rs::ops::half::f16_to_f32(bits))
}

fn dot_f16(a: &[u16], b: &[f32]) -> f32 {
    lasx_rs::ops::reduce::dot_f16(a, &w32(b)).0
}

fn gemv_f16(a: &[u16], x: &[f32], m: usize, k: usize, y: &mut [f32]) {
    let mut o = w32(y);
    lasx_rs::ops::reduce::gemv_f16(a, &w32(x), m, k, &mut o);
    put32(y, &o);
}

const INV_SQRT2: f32 = std::f32::consts::FRAC_1_SQRT_2;
const ERF_P: f32 = 0.327_591_1;
const ERF_COEF: [f32; 5] = [
    0.254_829_6,
    -0.284_496_72,
    1.421_413_8,
    -1.453_152_1,
    1.061_405_4,
];

fn gelu_erf_emul(x: f32) -> f32 {
    let ax = if x < 0.0 { -x } else { x };
    let z = ax * INV_SQRT2;
    let t = 1.0 / ERF_P.mul_add(z, 1.0);
    let mut p = ERF_COEF[4];
    for k in (0..4).rev() {
        p = p.mul_add(t, ERF_COEF[k]);
    }
    let poly = p * t;
    let erf_a = 1.0 - poly * exp_seq(-(z * z));
    (0.5 * ax).mul_add(erf_a, 0.5 * x)
}
fn erf_f64(z: f64) -> f64 {
    if z == 0.0 {
        return 0.0;
    }
    let a = z.abs();
    let v = if a < 2.0 {
        let mut term = a;
        let mut sum = a;
        let mut n = 1.0f64;
        let a2 = a * a;
        loop {
            term *= -a2 / n;
            let add = term / (2.0 * n + 1.0);
            sum += add;
            if add.abs() < 1e-18 * sum.abs() {
                break;
            }
            n += 1.0;
        }
        2.0 / std::f64::consts::PI.sqrt() * sum
    } else {
        let mut cf = 0.0f64;
        for k in (1..=60).rev() {
            cf = (k as f64 / 2.0) / (a * a) / (1.0 + cf);
        }
        let erfc = (-a * a).exp() / (a * std::f64::consts::PI.sqrt()) / (1.0 + cf);
        1.0 - erfc
    };
    if z < 0.0 {
        -v
    } else {
        v
    }
}

fn gelu_erf_reference(x: f64) -> f64 {
    0.5 * x * (1.0 + erf_f64(x * std::f64::consts::FRAC_1_SQRT_2))
}

fn gelu_erf_run(x: &[f32]) -> Vec<f32> {
    let mut out = vec![0f32; x.len()];
    gelu_erf_f32(x, &mut out);
    out
}
#[test]
fn gelu_erf_test_matches_scalar_emulation_bit_for_bit() {
    for n in 0..=17usize {
        let x: Vec<f32> = (0..n).map(|i| (i as f32 - 4.0) * 0.75).collect();
        let out = gelu_erf_run(&x);
        for (j, (&xj, &oj)) in x.iter().zip(out.iter()).enumerate() {
            assert_eq!(oj.to_bits(), gelu_erf_emul(xj).to_bits(), "n={n} j={j} x={xj}");
        }
    }
    for n in [64usize, 65, 127, 129] {
        let x: Vec<f32> = (0..n).map(|i| (i as f32).mul_add(0.37, -12.0)).collect();
        let out = gelu_erf_run(&x);
        for (j, (&xj, &oj)) in x.iter().zip(out.iter()).enumerate() {
            assert_eq!(oj.to_bits(), gelu_erf_emul(xj).to_bits(), "n={n} j={j} x={xj}");
        }
    }
}
#[test]
fn gelu_erf_test_exact_cases() {
    assert_eq!(gelu_erf_seq(0.0).to_bits(), 0.0f32.to_bits());
    assert_eq!(gelu_erf_seq(-6.0).to_bits(), 0.0f32.to_bits());
    assert_eq!(gelu_erf_seq(-10.0).to_bits(), 0.0f32.to_bits());
    assert!(gelu_erf_seq(f32::NEG_INFINITY).is_nan());
    for x in [6.0f32, 7.5, 10.0, 1e30] {
        assert_eq!(gelu_erf_seq(x), x, "x={x}");
    }
    assert_eq!(gelu_erf_seq(f32::INFINITY), f32::INFINITY);
    assert_eq!(
        gelu_erf_seq(-6.0),
        0.0,
        "x ≤ −5.6 时 erf_a 舍入到 1 ⇒ 精确 0"
    );
    assert!(
        gelu_erf_seq(-5.5) < 0.0,
        "再往右一点又变成小负数 ⇒ 尾部不单调"
    );
    for x in [-20.0f32, -10.0, -6.0, -5.5, -5.0, -4.0, -2.0, -1.0] {
        let e = (gelu_erf_seq(x) as f64 - gelu_erf_reference(x as f64)).abs();
        assert!(e < 2.5e-7, "x={x} 与 f64 参考差 {e:.3e}");
    }
    let mut prev = 0.0f32;
    let mut x = 0.0f32;
    while x <= 8.0 {
        let y = gelu_erf_seq(x);
        assert!(y >= prev, "x={x} 处不单调：{prev} → {y}");
        prev = y;
        x += 0.01;
    }
}
#[test]
fn gelu_erf_test_accuracy_vs_f64_reference() {
    let worst = |lo: f32, hi: f32, bound: f64| {
        let (mut w, mut at) = (0f64, 0f32);
        let mut x = lo;
        while x <= hi {
            let want = gelu_erf_reference(x as f64);
            let got = gelu_erf_seq(x) as f64;
            let e = (got - want).abs();
            if e > w {
                (w, at) = (e, x);
            }
            x += 0.0005;
        }
        assert!(
            w < bound,
            "|x| ≤ {} 最差绝对误差 {w:.3e}（x = {at}）",
            hi.abs()
        );
    };
    worst(-1.0, 1.0, 6e-7);
    worst(-4.0, 4.0, 8e-7);
    worst(-16.0, 16.0, 1e-6);
    worst(-40.0, 40.0, 6e-6);
}

const GELU_QUICK_C: f32 = 1.702;

fn gelu_quick_emul(x: f32) -> f32 {
    let t = GELU_QUICK_C * x;
    let den = 1.0 + exp_seq(-t);
    x / den
}
fn gelu_quick_reference(x: f64) -> f64 {
    x / (1.0 + (-(1.702f64 * x)).exp())
}

fn gelu_quick_run(x: &[f32]) -> Vec<f32> {
    let mut out = vec![0f32; x.len()];
    gelu_quick_f32(x, &mut out);
    out
}
#[test]
fn gelu_quick_test_matches_scalar_emulation_bit_for_bit() {
    for n in 0..=17usize {
        let x: Vec<f32> = (0..n).map(|i| (i as f32 - 4.0) * 0.75).collect();
        let out = gelu_quick_run(&x);
        for (j, (&xj, &oj)) in x.iter().zip(out.iter()).enumerate() {
            assert_eq!(oj.to_bits(), gelu_quick_emul(xj).to_bits(), "n={n} j={j} x={xj}");
        }
    }
    for n in [64usize, 65, 127, 129] {
        let x: Vec<f32> = (0..n).map(|i| (i as f32).mul_add(0.37, -12.0)).collect();
        let out = gelu_quick_run(&x);
        for (j, (&xj, &oj)) in x.iter().zip(out.iter()).enumerate() {
            assert_eq!(oj.to_bits(), gelu_quick_emul(xj).to_bits(), "n={n} j={j} x={xj}");
        }
    }
}
#[test]
fn gelu_quick_test_exact_cases() {
    assert_eq!(gelu_quick_seq(0.0).to_bits(), 0.0f32.to_bits());
    assert_eq!(gelu_quick_seq(-0.0).to_bits(), (-0.0f32).to_bits());
    for x in [60.0f32, 120.0, 1e30] {
        assert_eq!(gelu_quick_seq(x), x, "x={x}");
    }
    let y = gelu_quick_seq(-100.0);
    assert!(y.is_finite() && y < 0.0 && y.abs() < 1e-35, "y = {y}");
    assert_eq!(gelu_quick_seq(f32::INFINITY), f32::INFINITY);
    assert!(gelu_quick_seq(f32::NEG_INFINITY).is_infinite());
}
#[test]
fn gelu_quick_test_accuracy_vs_f64_reference() {
    let (mut worst_abs, mut worst_rel) = (0f64, 0f64);
    let mut x = -150.0f64;
    while x <= 150.0 {
        let want = gelu_quick_reference(x);
        let got = gelu_quick_seq(x as f32) as f64;
        worst_abs = worst_abs.max((got - want).abs());
        if want.abs() > 1.0 {
            worst_rel = worst_rel.max(((got - want) / want).abs());
        }
        x += 0.0005;
    }
    assert!(worst_abs < 1e-5, "最差绝对误差 {worst_abs:.3e}");
    assert!(worst_rel < 1e-6, "最差相对误差 {worst_rel:.3e}");
}

fn silu_emul(x: f32) -> f32 {
    let den = 1.0 + exp_seq(-x);
    x / den
}
fn silu_reference(x: f64) -> f64 {
    x / (1.0 + (-x).exp())
}

fn silu_run(x: &[f32]) -> Vec<f32> {
    let mut out = vec![0f32; x.len()];
    silu_f32(x, &mut out);
    out
}
#[test]
fn silu_test_matches_scalar_emulation_bit_for_bit() {
    for n in 0..=17usize {
        let x: Vec<f32> = (0..n).map(|i| (i as f32 - 4.0) * 0.75).collect();
        let out = silu_run(&x);
        for (j, (&xj, &oj)) in x.iter().zip(out.iter()).enumerate() {
            assert_eq!(oj.to_bits(), silu_emul(xj).to_bits(), "n={n} j={j} x={xj}");
        }
    }
    for n in [64usize, 65, 127, 129] {
        let x: Vec<f32> = (0..n).map(|i| (i as f32).mul_add(0.37, -12.0)).collect();
        let out = silu_run(&x);
        for (j, (&xj, &oj)) in x.iter().zip(out.iter()).enumerate() {
            assert_eq!(oj.to_bits(), silu_emul(xj).to_bits(), "n={n} j={j} x={xj}");
        }
    }
}
#[test]
fn silu_test_exact_cases() {
    assert_eq!(silu_seq(0.0).to_bits(), 0.0f32.to_bits());
    assert_eq!(silu_seq(-0.0).to_bits(), (-0.0f32).to_bits());
    for x in [90.0f32, 120.0, 1e30] {
        assert_eq!(silu_seq(x), x, "x={x}");
    }
    let y = silu_seq(-100.0);
    assert!(
        y.is_finite() && y < 0.0 && y.abs() < 1e-35,
        "silu(-100) = {y}"
    );
    assert_eq!(silu_seq(f32::INFINITY), f32::INFINITY);
    assert!(silu_seq(f32::NEG_INFINITY).is_infinite());
}
#[test]
fn silu_test_accuracy_vs_f64_reference() {
    let mut worst_abs = 0f64;
    let mut worst_rel = 0f64;
    let mut x = -120.0f64;
    while x <= 120.0 {
        let want = silu_reference(x);
        let got = silu_seq(x as f32) as f64;
        worst_abs = worst_abs.max((got - want).abs());
        if want.abs() > 1.0 {
            worst_rel = worst_rel.max(((got - want) / want).abs());
        }
        x += 0.001;
    }
    assert!(worst_abs < 1e-5, "最差绝对误差 {worst_abs}");
    assert!(worst_rel < 1e-5, "最差相对误差 {worst_rel}");
}

fn rms_norm_scalar_emulation(x: &[f32], w: &[f32], eps: f32, rows: usize, cols: usize) -> Vec<f32> {
    let mut out = vec![0f32; rows * cols];
    for i in 0..rows {
        let xr = &x[i * cols..(i + 1) * cols];
        let mut acc = [0f32; 8];
        for j in 0..cols {
            acc[j % 8] = xr[j].mul_add(xr[j], acc[j % 8]);
        }
        let s =
            ((acc[0] + acc[1]) + (acc[2] + acc[3])) + ((acc[4] + acc[5]) + (acc[6] + acc[7]));
        let inv = 1.0 / (s / cols as f32 + eps).sqrt();
        for j in 0..cols {
            let weight = if w.is_empty() { 1.0 } else { w[j] };
            out[i * cols + j] = xr[j] * inv * weight;
        }
    }
    out
}
fn rms_norm_reference_f64(x: &[f32], w: &[f32], eps: f32, rows: usize, cols: usize) -> Vec<f64> {
    let mut out = vec![0f64; rows * cols];
    for i in 0..rows {
        let mut s = 0f64;
        for j in 0..cols {
            let v = x[i * cols + j] as f64;
            s += v * v;
        }
        let inv = 1.0 / (s / cols as f64 + eps as f64).sqrt();
        for j in 0..cols {
            let weight = if w.is_empty() { 1.0 } else { w[j] as f64 };
            out[i * cols + j] = (x[i * cols + j] as f64) * inv * weight;
        }
    }
    out
}

fn rms_norm_bits(v: &[f32]) -> Vec<u32> {
    v.iter().map(|x| x.to_bits()).collect()
}
#[test]
fn rms_norm_test_matches_scalar_emulation_bit_for_bit() {
    let mut rng = Lcg(0x11ee);
    for &(rows, cols) in &[(1usize, 1usize), (2, 7), (3, 8), (4, 13), (5, 64), (6, 257)] {
        let x: Vec<f32> = (0..rows * cols)
            .map(|_| rng.f64() as f32 * 8.0 - 4.0)
            .collect();
        let w: Vec<f32> = (0..cols).map(|_| rng.f64() as f32 * 2.0).collect();
        for eps in [1e-5f32, 1e-6, 0.5] {
            for use_w in [false, true] {
                let ww: &[f32] = if use_w { &w } else { &[] };
                let mut got = vec![0f32; rows * cols];
                rms_norm(&x, ww, eps, rows, cols, &mut got);
                let want = rms_norm_scalar_emulation(&x, ww, eps, rows, cols);
                assert_eq!(
                    rms_norm_bits(&got),
                    rms_norm_bits(&want),
                    "{rows}×{cols} eps={eps} w={use_w}",
                );
            }
        }
    }
}
#[test]
fn test_column_tail_boundary_sweep() {
    let mut rng = Lcg(0x22ff);
    for cols in 1..=17usize {
        let row: Vec<f32> = (0..cols).map(|_| rng.f64() as f32 * 4.0 - 2.0).collect();
        let w: Vec<f32> = (0..cols).map(|_| rng.f64() as f32 + 0.5).collect();
        for use_w in [false, true] {
            let ww: &[f32] = if use_w { &w } else { &[] };
            let mut got = vec![0f32; cols];
            rms_norm(&row, ww, 1e-5, 1, cols, &mut got);
            let want = rms_norm_scalar_emulation(&row, ww, 1e-5, 1, cols);
            assert_eq!(rms_norm_bits(&got), rms_norm_bits(&want), "cols={cols} w={use_w}");
        }
    }
}
#[test]
fn rms_norm_test_accuracy_vs_f64_reference() {
    let mut rng = Lcg(0x3344);
    let (rows, cols) = (4usize, 200usize);
    let x: Vec<f32> = (0..rows * cols)
        .map(|_| rng.f64() as f32 * 10.0 - 5.0)
        .collect();
    let w: Vec<f32> = (0..cols).map(|_| rng.f64() as f32 + 0.5).collect();
    let mut got = vec![0f32; rows * cols];
    rms_norm(&x, &w, 1e-5, rows, cols, &mut got);
    let want = rms_norm_reference_f64(&x, &w, 1e-5, rows, cols);
    for k in 0..rows * cols {
        let err = (got[k] as f64 - want[k]).abs() / want[k].abs().max(1e-12);
        assert!(
            err < 1e-5,
            "idx={k}: got {} want {} rel {err}",
            got[k],
            want[k]
        );
    }
}
#[test]
fn rms_norm_test_degenerate_inputs() {
    let x = [3.0f32, -2.0, 0.5];
    let mut got = vec![0f32; 3];
    rms_norm(&x, &[], 1e-5, 3, 1, &mut got);
    for (k, v) in got.iter().enumerate() {
        let sign = if x[k] < 0.0 { -1.0 } else { 1.0 };
        assert!((v - sign).abs() < 1e-4, "idx={k}: {v}");
    }
    let z = vec![0f32; 12];
    let mut gotz = vec![0f32; 12];
    rms_norm(&z, &[], 1e-5, 3, 4, &mut gotz);
    assert!(gotz.iter().all(|v| *v == 0.0), "{gotz:?}");
    let w1 = vec![1.0f32; 4];
    let mut g1 = vec![0f32; 4];
    let mut g2 = vec![0f32; 4];
    rms_norm(&[1.0, 2.0, 3.0, 4.0], &w1, 1e-6, 1, 4, &mut g1);
    rms_norm(&[1.0, 2.0, 3.0, 4.0], &[], 1e-6, 1, 4, &mut g2);
    assert_eq!(rms_norm_bits(&g1), rms_norm_bits(&g2), "权重全 1 应与无权重逐位相同");
}

fn softmax_rows_scalar_emulation(
    x: &[f32],
    mask: &[f32],
    scale: f32,
    rows: usize,
    cols: usize,
) -> Vec<f32> {
    let mut out = vec![0f32; rows * cols];
    for i in 0..rows {
        let (xr, mr) = (
            &x[i * cols..(i + 1) * cols],
            if mask.is_empty() {
                &mask[..0]
            } else {
                &mask[i * cols..(i + 1) * cols]
            },
        );
        let y = |j: usize| -> f32 {
            let m = if mr.is_empty() { 0.0 } else { mr[j] };
            xr[j].mul_add(scale, m)
        };
        let m = (0..cols).map(y).fold(f32::NEG_INFINITY, f32::max);
        let mut acc = [0f32; 8];
        for j in 0..cols {
            let e = exp_seq(y(j) - m);
            out[i * cols + j] = e;
            acc[j % 8] += e;
        }
        let sum =
            ((acc[0] + acc[1]) + (acc[2] + acc[3])) + ((acc[4] + acc[5]) + (acc[6] + acc[7]));
        let inv = 1.0 / sum;
        for j in 0..cols {
            out[i * cols + j] *= inv;
        }
    }
    out
}
fn softmax_rows_reference_f64(
    x: &[f32],
    mask: &[f32],
    scale: f32,
    rows: usize,
    cols: usize,
) -> Vec<f64> {
    let mut out = vec![0f64; rows * cols];
    for i in 0..rows {
        let mut row = vec![0f64; cols];
        for j in 0..cols {
            let m = if mask.is_empty() {
                0.0
            } else {
                mask[i * cols + j] as f64
            };
            row[j] = (x[i * cols + j] as f64) * (scale as f64) + m;
        }
        let m = row.iter().cloned().fold(f64::NEG_INFINITY, f64::max);
        let mut sum = 0f64;
        for v in row.iter_mut() {
            *v = (*v - m).exp();
            sum += *v;
        }
        for j in 0..cols {
            out[i * cols + j] = row[j] / sum;
        }
    }
    out
}

fn softmax_rows_bits(v: &[f32]) -> Vec<u32> {
    v.iter().map(|x| x.to_bits()).collect()
}
#[test]
fn softmax_rows_test_matches_scalar_emulation_bit_for_bit() {
    let mut rng = Lcg(0x5eed);
    for &(rows, cols) in &[(1usize, 1usize), (2, 5), (3, 8), (4, 13), (5, 32), (7, 129)] {
        let x: Vec<f32> = (0..rows * cols)
            .map(|_| rng.f64() as f32 * 4.0 - 2.0)
            .collect();
        let mask: Vec<f32> = (0..rows * cols).map(|_| rng.f64() as f32).collect();
        for scale in [1.0f32, 0.125, 0.0, 8.0] {
            for use_mask in [false, true] {
                let m: &[f32] = if use_mask { &mask } else { &[] };
                let mut got = vec![0f32; rows * cols];
                softmax_rows(&x, m, scale, rows, cols, &mut got);
                let want = softmax_rows_scalar_emulation(&x, m, scale, rows, cols);
                assert_eq!(
                    softmax_rows_bits(&got),
                    softmax_rows_bits(&want),
                    "{rows}×{cols} scale={scale} mask={use_mask}"
                );
            }
        }
    }
}
#[test]
fn test_explicit_padding_matches_tail_path() {
    let mut rng = Lcg(0xabcd);
    for cols in [1usize, 5, 7, 8, 9, 13, 15, 16] {
        let row: Vec<f32> = (0..cols).map(|_| rng.f64() as f32 * 6.0 - 3.0).collect();
        let mut want = vec![0f32; cols];
        softmax_rows(&row, &[], 1.0, 1, cols, &mut want);
        let padded_len = cols.div_ceil(8) * 8;
        let mut padded = row.clone();
        padded.resize(padded_len, -1e30);
        let mut got = vec![0f32; padded_len];
        softmax_rows(&padded, &[], 1.0, 1, padded_len, &mut got);

        assert_eq!(
            softmax_rows_bits(&got[..cols]),
            softmax_rows_bits(&want),
            "cols={cols}：显式补齐与列尾路径不一致"
        );
    }
}
#[test]
fn softmax_rows_test_accuracy_vs_f64_reference() {
    let mut rng = Lcg(0x1234);
    let (rows, cols) = (4usize, 100usize);
    let x: Vec<f32> = (0..rows * cols)
        .map(|_| rng.f64() as f32 * 20.0 - 10.0)
        .collect();
    let mask: Vec<f32> = (0..rows * cols)
        .map(|_| rng.f64() as f32 * 2.0 - 1.0)
        .collect();
    let mut got = vec![0f32; rows * cols];
    softmax_rows(&x, &mask, 0.5, rows, cols, &mut got);
    let want = softmax_rows_reference_f64(&x, &mask, 0.5, rows, cols);
    for k in 0..rows * cols {
        let err = (got[k] as f64 - want[k]).abs();
        assert!(
            err < 1e-6,
            "idx={k}: got {} want {} err {err}",
            got[k],
            want[k]
        );
    }
    for i in 0..rows {
        let s: f32 = got[i * cols..(i + 1) * cols].iter().sum();
        assert!((s - 1.0).abs() < 1e-5, "第 {i} 行和 = {s}");
    }
}
#[test]
fn softmax_rows_test_degenerate_inputs() {
    let x = vec![3.0f32; 12];
    let mut got = vec![0f32; 12];
    softmax_rows(&x, &[], 1.0, 2, 6, &mut got);
    for (k, v) in got.iter().enumerate() {
        assert!((v - 1.0 / 6.0).abs() < 1e-7, "idx={k}: {v}");
    }
    let mut got0 = vec![0f32; 8];
    softmax_rows(
        &[1.0, -5.0, 3.0, 0.0, 2.0, 2.0, 2.0, 2.0],
        &[],
        0.0,
        1,
        8,
        &mut got0,
    );
    for v in &got0 {
        assert!((v - 0.125).abs() < 1e-7, "{v}");
    }
    let x = [0.0f32, 1.0, 2.0, 3.0, 4.0, 5.0, 6.0, 7.0, 8.0];
    let mask = [0.0f32, f32::NEG_INFINITY, 0.0, 0.0, 0.0, 0.0, 0.0, 0.0, 0.0];
    let mut got = vec![0f32; 9];
    softmax_rows(&x, &mask, 1.0, 1, 9, &mut got);
    assert_eq!(got[1], 0.0, "−inf 的权重必须是 0");
    let s: f32 = got.iter().sum();
    assert!((s - 1.0).abs() < 1e-6, "和 = {s}");
    let big = [0.0f32, -1e30, -1e6];
    let mut gotb = vec![0f32; 3];
    softmax_rows(&big, &[], 1.0, 1, 3, &mut gotb);
    assert!(gotb.iter().all(|v| v.is_finite()), "{gotb:?}");
    assert!((gotb[0] - 1.0).abs() < 1e-7, "{gotb:?}");
}

fn rope_emulate(
    x: &[f32],
    cos: &[f32],
    sin: &[f32],
    rows: usize,
    cols: usize,
    n_dims: usize,
    mode: RopeMode,
) -> Vec<f32> {
    let half = n_dims / 2;
    let mut out = x.to_vec();
    for r in 0..rows {
        for i in 0..half {
            let (i0, i1) = match mode {
                RopeMode::NeoX => (r * cols + i, r * cols + i + half),
                RopeMode::GptJ => (r * cols + 2 * i, r * cols + 2 * i + 1),
            };
            let (x0, x1) = (x[i0], x[i1]);
            let (c, s) = (cos[r * half + i], sin[r * half + i]);
            let t1 = x1 * s;
            let t0 = x0 * s;
            out[i0] = x0.mul_add(c, -t1);
            out[i1] = x1.mul_add(c, t0);
        }
    }
    out
}

fn rope_run(
    x: &[f32],
    cos: &[f32],
    sin: &[f32],
    rows: usize,
    cols: usize,
    n_dims: usize,
    mode: RopeMode,
) -> Vec<f32> {
    let mut out = vec![0f32; x.len()];
    rope_f32(x, cos, sin, rows, cols, n_dims, mode, &mut out);
    out
}
#[test]
fn rope_test_matches_scalar_emulation_bit_for_bit() {
    for mode in [RopeMode::NeoX, RopeMode::GptJ] {
        for half in 1..=17usize {
            let n_dims = half * 2;
            let cols = n_dims.div_ceil(4) * 4;
            let rows = 3;
            let x: Vec<f32> = (0..rows * cols)
                .map(|k| (k as f32).mul_add(0.37, -5.0))
                .collect();
            let cos: Vec<f32> = (0..rows * half)
                .map(|k| ((k % 7) as f32 * 0.11 - 0.3).cos())
                .collect();
            let sin: Vec<f32> = (0..rows * half)
                .map(|k| ((k % 5) as f32 * 0.17 - 0.2).sin())
                .collect();
            let got = rope_run(&x, &cos, &sin, rows, cols, n_dims, mode);
            let want = rope_emulate(&x, &cos, &sin, rows, cols, n_dims, mode);
            for k in 0..x.len() {
                assert_eq!(
                    got[k].to_bits(),
                    want[k].to_bits(),
                    "{mode:?} half={half} k={k} x={}",
                    x[k]
                );
            }
        }
        for &(rows, cols, n_dims) in &[
            (1usize, 128usize, 128usize),
            (7, 64, 64),
            (64, 128, 128),
            (33, 256, 128),
            (5, 96, 96),
        ] {
            let half = n_dims / 2;
            let x: Vec<f32> = (0..rows * cols)
                .map(|k| (k as f32).mul_add(0.013, -1.7))
                .collect();
            let positions: Vec<f32> = (0..rows).map(|r| r as f32).collect();
            let (cos, sin) = rope_tables(&positions, n_dims, 10_000.0);
            let got = rope_run(&x, &cos, &sin, rows, cols, n_dims, mode);
            let want = rope_emulate(&x, &cos, &sin, rows, cols, n_dims, mode);
            for k in 0..x.len() {
                assert_eq!(
                    got[k].to_bits(),
                    want[k].to_bits(),
                    "{mode:?} {rows}×{cols} k={k}"
                );
            }
            assert_eq!(cos.len(), rows * half);
        }
    }
}
#[test]
fn test_identity_when_angle_is_zero() {
    for mode in [RopeMode::NeoX, RopeMode::GptJ] {
        for &(rows, cols, n_dims) in &[
            (1usize, 8usize, 8usize),
            (4, 33, 16),
            (2, 20, 20),
            (3, 9, 8),
        ] {
            let half = n_dims / 2;
            let x: Vec<f32> = (0..rows * cols).map(|k| k as f32 - 3.0).collect();
            let cos = vec![1.0f32; rows * half];
            let sin = vec![0.0f32; rows * half];
            let got = rope_run(&x, &cos, &sin, rows, cols, n_dims, mode);
            for k in 0..x.len() {
                assert_eq!(got[k].to_bits(), x[k].to_bits(), "{mode:?} k={k}");
            }
        }
    }
}
#[test]
fn test_norm_preserved_and_zero_dims() {
    let (rows, cols, n_dims) = (5usize, 64usize, 64usize);
    let half = n_dims / 2;
    let x: Vec<f32> = (0..rows * cols)
        .map(|k| (k as f32).mul_add(0.07, -2.0))
        .collect();
    let positions: Vec<f32> = (0..rows).map(|r| r as f32 * 3.0).collect();
    let (cos, sin) = rope_tables(&positions, n_dims, 10_000.0);
    for mode in [RopeMode::NeoX, RopeMode::GptJ] {
        let got = rope_run(&x, &cos, &sin, rows, cols, n_dims, mode);
        for r in 0..rows {
            for i in 0..half {
                let (i0, i1) = match mode {
                    RopeMode::NeoX => (r * cols + i, r * cols + i + half),
                    RopeMode::GptJ => (r * cols + 2 * i, r * cols + 2 * i + 1),
                };
                let before = (x[i0] as f64).powi(2) + (x[i1] as f64).powi(2);
                let after = (got[i0] as f64).powi(2) + (got[i1] as f64).powi(2);
                let rel = ((after - before) / before).abs();
                assert!(rel < 1e-6, "{mode:?} r={r} i={i} 保长度失败：{rel}");
            }
        }
    }
    let got = rope_run(&x, &[], &[], rows, cols, 0, RopeMode::NeoX);
    for k in 0..x.len() {
        assert_eq!(got[k].to_bits(), x[k].to_bits(), "n_dims=0 k={k}");
    }
}
#[test]
fn test_gptj_scalar_path_matches_reference() {
    let (rows, cols, n_dims) = (4usize, 32usize, 32usize);
    let x: Vec<f32> = (0..rows * cols)
        .map(|k| (k as f32).mul_add(0.11, -3.0))
        .collect();
    let positions: Vec<f32> = (0..rows).map(|r| r as f32 * 2.0).collect();
    let (cos, sin) = rope_tables(&positions, n_dims, 10_000.0);
    let got = rope_run(&x, &cos, &sin, rows, cols, n_dims, RopeMode::GptJ);
    let want = rope_emulate(&x, &cos, &sin, rows, cols, n_dims, RopeMode::GptJ);
    for k in 0..x.len() {
        assert_eq!(got[k].to_bits(), want[k].to_bits(), "k={k}");
    }
}
#[test]
fn test_rotate_pair_matches_formula() {
    for &(x0, x1, c, s) in &[
        (1.0f32, 2.0f32, 1.0f32, 0.0f32),
        (-3.5, 0.25, 0.70710677, 0.70710677),
        (1e20, -1e-20, 0.5, -0.5),
        (0.0, 0.0, 0.3, 0.4),
    ] {
        let (y0, y1) = rotate_pair(x0, x1, c, s);
        assert_eq!(y0.to_bits(), x0.mul_add(c, -(x1 * s)).to_bits());
        assert_eq!(y1.to_bits(), x1.mul_add(c, x0 * s).to_bits());
    }
}

/// The value of a half-precision pattern, computed in double precision.
fn half_by_value(bits: u16) -> f32 {
    let sign = if bits & 0x8000 != 0 { -1.0f64 } else { 1.0 };
    let exp = ((bits >> 10) & 0x1f) as i32;
    let man = (bits & 0x3ff) as f64;
    let value = if exp == 0x1f {
        if man == 0.0 {
            f64::INFINITY
        } else {
            f64::NAN
        }
    } else if exp == 0 {
        man * (2.0f64).powi(-24)
    } else {
        (1.0 + man / 1024.0) * (2.0f64).powi(exp - 15)
    };
    (sign * value) as f32
}

fn dot_f16_emulate(a: &[u16], b: &[f32]) -> f32 {
    let n = a.len();
    let mut c = [[0f32; 8]; 4];
    let mut i = 0;
    while i + 32 <= n {
        for (chain, cs) in c.iter_mut().enumerate() {
            for (l, acc) in cs.iter_mut().enumerate() {
                let j = i + chain * 8 + l;
                *acc += f16_to_f32(a[j]) * b[j];
            }
        }
        i += 32;
    }
    if i + 16 <= n {
        for (chain, cs) in c.iter_mut().enumerate().take(2) {
            for (l, acc) in cs.iter_mut().enumerate() {
                let j = i + chain * 8 + l;
                *acc += f16_to_f32(a[j]) * b[j];
            }
        }
        i += 16;
    }
    let mut t = [0f32; 8];
    for (l, tl) in t.iter_mut().enumerate() {
        *tl = (c[0][l] + c[1][l]) + (c[2][l] + c[3][l]);
    }
    for j in i..n {
        t[j % 8] += f16_to_f32(a[j]) * b[j];
    }
    ((t[0] + t[1]) + (t[2] + t[3])) + ((t[4] + t[5]) + (t[6] + t[7]))
}

fn dot_f16_run(a: &[u16], b: &[f32]) -> f32 {
    dot_f16(a, b)
}
#[test]
fn test_conversion_exhaustive_all_bit_patterns() {
    let mut buf = [0u16; 16];
    let mut checked = 0usize;
    let mut nan_patterns = 0usize;
    for base in (0..=0xffffu32).step_by(16) {
        for (l, slot) in buf.iter_mut().enumerate() {
            *slot = (base + l as u32) as u16;
        }
        let mut got = [0f32; 16];
        for (slot, &bits) in got.iter_mut().zip(&buf) {
            *slot = lasx_rs::ops::half::half_to_single::<F32>(bits).0;
        }
        for (l, &bits) in buf.iter().enumerate() {
            let want = half_by_value(bits);
            if want.is_nan() {
                assert!(
                    got[l].is_nan(),
                    "bits={bits:#06x} 硬件应给 NaN，得到 {}",
                    got[l]
                );
                nan_patterns += 1;
            } else {
                assert_eq!(
                    got[l].to_bits(),
                    want.to_bits(),
                    "bits={bits:#06x} 硬件={} 手写={}",
                    got[l],
                    want
                );
            }
            checked += 1;
        }
    }
    assert_eq!(checked, 65536);
    assert_eq!(nan_patterns, 2046, "f16 的 NaN 位型数（exp=31 且 man≠0）");
}
#[test]
fn dot_f16_test_matches_scalar_emulation_bit_for_bit() {
    let mut seed = 12345u32;
    let mut next = move || {
        seed = seed.wrapping_mul(1664525).wrapping_add(1013904223);
        seed >> 8
    };
    let mut nan_cases = 0usize;
    for n in [0usize, 1, 7, 8, 15, 16, 17, 31, 32, 33, 63, 64, 1000] {
        let a: Vec<u16> = (0..n).map(|_| next() as u16).collect();
        let b: Vec<f32> = (0..n).map(|i| (i as f32).mul_add(0.017, -1.3)).collect();
        let got = dot_f16_run(&a, &b);
        let want = dot_f16_emulate(&a, &b);
        if got.is_nan() || want.is_nan() {
            assert!(got.is_nan() && want.is_nan(), "n={n} 一边 NaN 一边不是");
            nan_cases += 1;
        } else {
            assert_eq!(
                got.to_bits(),
                want.to_bits(),
                "n={n}（got={got} want={want}）"
            );
        }
    }
    assert!(nan_cases > 0, "随机数据里没出现 NaN，分支没被覆盖");
    let a: Vec<u16> = (0..100).map(|i| half_of((i as f32) * 0.25 - 5.0)).collect();
    let b: Vec<f32> = (0..100).map(|i| (i as f32).mul_add(0.11, 0.5)).collect();
    assert_eq!(dot_f16_run(&a, &b).to_bits(), dot_f16_emulate(&a, &b).to_bits());
}
fn half_of(x: f32) -> u16 {
    let bits = x.to_bits();
    let sign = ((bits >> 16) & 0x8000) as u16;
    let exp = ((bits >> 23) & 0xff) as i32;
    let man = bits & 0x007f_ffff;
    if exp == 0 && man == 0 {
        return sign;
    }
    let e16 = exp - 127 + 15;
    assert!(
        (1..=30).contains(&e16) && man & 0x1fff == 0,
        "half_of 只支持精确值：{x}"
    );
    sign | ((e16 as u16) << 10) | ((man >> 13) as u16)
}
#[test]
fn dot_f16_test_accuracy_vs_f64_reference() {
    let n = 4096usize;
    let mut a = Vec::with_capacity(n);
    let mut b = Vec::with_capacity(n);
    let mut seed = 999u32;
    for i in 0..n {
        seed = seed.wrapping_mul(1103515245).wrapping_add(12345);
        let r = ((seed >> 9) as f32 / 4194304.0) - 1.0;
        a.push(f32_to_f16_bits(r * 0.05));
        b.push((i as f32).mul_add(0.001, 0.1) * (1.0 - r));
    }
    let got = dot_f16_run(&a, &b);
    let want: f64 = a
        .iter()
        .zip(&b)
        .map(|(&x, &y)| f16_to_f32(x) as f64 * y as f64)
        .sum();
    let rel = ((got as f64 - want) / want).abs();
    assert!(rel < 1e-6, "相对误差 {rel}（got={got} want={want}）");
}
fn f32_to_f16_bits(x: f32) -> u16 {
    let bits = x.to_bits();
    let sign = ((bits >> 16) & 0x8000) as u16;
    let exp = ((bits >> 23) & 0xff) as i32;
    let man = bits & 0x007f_ffff;
    if exp == 0xff {
        return sign | 0x7c00 | if man != 0 { 0x200 } else { 0 };
    }
    let e = exp - 127 + 15;
    if e >= 0x1f {
        return sign | 0x7c00;
    }
    if e <= 0 {
        if e < -10 {
            return sign;
        }
        let m = (man | 0x0080_0000) >> (1 - e);
        let half = 1u32 << (13 - e + 1 - 1);
        let rounded = (m + (half >> 1)) >> (13 - e);
        return sign | rounded as u16;
    }
    let rounded = (man + 0x1000) >> 13;
    sign | ((e as u16) << 10) | rounded as u16
}
#[test]
fn test_gemv_matches_row_dots() {
    let (m, k) = (7usize, 33usize);
    let a: Vec<u16> = (0..m * k).map(|i| ((i * 37) as u16) & 0x7bff).collect();
    let x: Vec<f32> = (0..k).map(|i| (i as f32).mul_add(0.05, -0.7)).collect();
    let mut y = vec![0f32; m];
    gemv_f16(&a, &x, m, k, &mut y);
    for r in 0..m {
        let row = &a[r * k..(r + 1) * k];
        let want = dot_f16(row, &x);
        assert_eq!(y[r].to_bits(), want.to_bits(), "r={r}");
    }
    let mut y0 = vec![7f32; 3];
    gemv_f16(&[], &[], 3, 0, &mut y0);
    assert!(y0.iter().all(|&v| v == 0.0));
    gemv_f16(&[], &[], 0, 4, &mut []);
}
#[test]
fn dot_f16_test_degenerate_inputs() {
    assert_eq!(dot_f16_run(&[], &[]), 0.0);
    assert_eq!(dot_f16_run(&[0x3c00], &[0.0]), 0.0);
    let inf = f32::INFINITY;
    assert_eq!(dot_f16_run(&[0x3c00], &[inf]), inf);
    assert!(dot_f16_run(&[0x7c00], &[0.0]).is_nan());
    assert!(dot_f16_run(&[0x3c00, 0x3c00], &[inf, 0.0]).is_infinite());
}

/// The exponential, written out with plain float operations.
fn exp_lane(x: f32) -> f32 {
    const COEF: [f32; 7] = [
        1.0,
        std::f32::consts::LN_2,
        0.240_226_5,
        0.055_504_11,
        0.009_618_129,
        0.001_333_355_8,
        0.000_154_035_3,
    ];
    let x = x.clamp(-104.0, 88.0);
    let t = x * std::f32::consts::LOG2_E;
    let n = (t + 12_582_912.0) - 12_582_912.0;
    let f = t - n;
    let mut p = COEF[6];
    for k in (0..6).rev() {
        p = f.mul_add(p, COEF[k]);
    }
    let kk = ((n as i32) + 127).clamp(0, 254) as u32;
    p * f32::from_bits(kk << 23)
}

#[test]
fn test_exp_vec_matches_scalar_lane_by_lane() {
    for x in [
        f32::NEG_INFINITY,
        f32::INFINITY,
        -200.0,
        -120.0,
        -104.0,
        -88.1,
        -88.0,
        -10.0,
        -0.5,
        0.0,
        0.5,
        1.0,
        5.0,
        80.0,
        88.0,
        200.0,
    ] {
        let buf = [x; 8];
        let out: Vec<f32> = buf.iter().map(|&v| exp_lane(v)).collect();
        for (lane, got) in out.iter().enumerate() {
            assert_eq!(got.to_bits(), exp_seq(x).to_bits(), "x={x} lane={lane}");
        }
    }
}
#[test]
fn test_underflow_is_exactly_zero_and_overflow_is_finite() {
    assert_eq!(exp_seq(-200.0), 0.0);
    assert_eq!(exp_seq(f32::NEG_INFINITY), 0.0);
    assert_eq!(exp_seq(-100.0), 0.0);
    assert_eq!(exp_seq(-87.7), 0.0);
    assert!(exp_seq(-87.68) > 0.0, "边界内侧应仍是次正规数");
    assert!(exp_seq(-87.0) > 0.0);
    let hi = exp_seq(1e30);
    assert_eq!(hi, exp_seq(f32::INFINITY));
    assert!(hi.is_finite() && hi > 1e38, "exp(88) = {hi}");
}
#[test]
fn an_undefined_argument_stays_undefined() {
    assert!(exp_seq(f32::NAN).is_nan());
}
#[test]
fn test_accuracy_vs_libm() {
    let worst = |lo: f32, hi: f32, bound: f64| {
        let (mut w, mut at) = (0f64, 0f32);
        let mut x = lo;
        while x <= hi {
            let want = (x as f64).exp();
            if want.is_normal() {
                let rel = ((exp_seq(x) as f64 - want) / want).abs();
                if rel > w {
                    (w, at) = (rel, x);
                }
            }
            x += 0.0001;
        }
        assert!(
            w < bound,
            "|x| ≤ {} 最差相对误差 {w:.3e}（x = {at}）",
            hi.abs()
        );
    };
    worst(-1.0, 1.0, 3e-7);
    worst(-8.0, 8.0, 8e-7);
    worst(-20.0, 20.0, 1.5e-6);
    worst(-87.0, 87.0, 4.5e-6);
}
#[test]
fn test_sigmoid_den_vec_matches_scalar() {
    for x in [
        f32::NEG_INFINITY,
        f32::INFINITY,
        -104.0,
        -88.0,
        -80.0,
        -1.0,
        -0.0,
        0.0,
        1.0,
        80.0,
        88.0,
        1e30,
    ] {
        let buf = [x; 8];
        let out: Vec<f32> = buf.iter().map(|&v| 1.0 + exp_lane(-v)).collect();
        for (lane, got) in out.iter().enumerate() {
            assert_eq!(
                got.to_bits(),
                sigmoid_den_seq(x).to_bits(),
                "x={x} lane={lane}"
            );
        }
    }
}

/// The exponential agrees with the written-out formula on a fine grid.
#[test]
fn exponential_matches_the_formula_everywhere() {
    let mut x = -110.0f32;
    while x < 95.0 {
        assert_eq!(exp_seq(x).to_bits(), exp_lane(x).to_bits(), "x={x}");
        x += 0.0371;
    }
}

#[test]
fn test_activation_ffi() {
    let x: Vec<f32> = (-40..40).map(|i| i as f32 * 0.5).collect();
    let kernels: [(&str, fn(&[f32], &mut [f32]), fn(f64) -> f64); 3] = [
        ("silu", silu_f32, |v: f64| v / (1.0 + (-v).exp())),
        ("gelu_quick", gelu_quick_f32, |v: f64| v / (1.0 + (-(1.702 * v)).exp())),
        ("gelu_erf", gelu_erf_f32, |v: f64| {
            let ax = v.abs();
            let z = ax * std::f64::consts::FRAC_1_SQRT_2;
            let t = 1.0 / (0.327_591_1f64).mul_add(z, 1.0);
            let mut p = 1.061_405_429f64;
            for c in [-1.453_152_027f64, 1.421_413_741, -0.284_496_736, 0.254_829_592] {
                p = p.mul_add(t, c);
            }
            let erf_a = 1.0 - p * t * (-(z * z)).exp();
            (0.5 * ax).mul_add(erf_a, 0.5 * v)
        }),
    ];
    for (name, kernel, want) in kernels {
        let mut out = vec![0f32; x.len()];
        kernel(&x, &mut out);
        for (i, (&xi, &oi)) in x.iter().zip(out.iter()).enumerate() {
            let want = want(xi as f64);
            assert!(
                ((oi as f64) - want).abs() < 1e-5,
                "{name}[{i}] x={xi} got={oi} want={want}"
            );
        }
        let mut reused = x.clone();
        kernel(&x, &mut reused);
        for (i, (a, b)) in reused.iter().zip(out.iter()).enumerate() {
            assert_eq!(a.to_bits(), b.to_bits(), "{name}[{i}]");
        }
        kernel(&[], &mut []);
    }
}

#[test]
fn test_softmax_rows_ffi() {
    let x: Vec<f32> = vec![1.0, 2.0, 3.0, -1.0, 0.0, 4.0];
    let mut out = vec![0f32; 6];
    let (rows, cols, n) = lasx_rs::ffi::nn::softmax_shape(2, 3).unwrap();
    assert_eq!((rows, cols, n), (2, 3, 6));
    softmax_rows(&x, &[], 1.0, rows, cols, &mut out);
    for i in 0..2 {
        let s: f32 = out[i * 3..(i + 1) * 3].iter().sum();
        assert!((s - 1.0).abs() < 1e-6, "第 {i} 行和 = {s}");
    }
    assert!(out[2] > out[1] && out[1] > out[0], "单调性");

    let (rows, cols, n) = lasx_rs::ffi::nn::softmax_shape(3, 0).unwrap();
    assert_eq!(n, 0);
    softmax_rows(&[], &[], 1.0, rows, cols, &mut []);
    assert!(lasx_rs::ffi::nn::softmax_shape(-1, 3).is_none());
    assert!(lasx_rs::ffi::nn::softmax_shape(3, -1).is_none());
}

/// Modes and their integers.
#[test]
fn rope_modes_roundtrip() {
    for v in [0, 1] {
        assert_eq!(RopeMode::from_i32(v).unwrap().as_i32(), v);
    }
    assert!(RopeMode::from_i32(2).is_none() && RopeMode::from_i32(-1).is_none());
    assert_eq!(RopeMode::from_i32(0), Some(RopeMode::NeoX));
}

/// A quarter turn sends `(1, 0)` to `(0, 1)`.
#[test]
fn rope_quarter_turn() {
    let mut out = vec![0f32; 6];
    rope_f32(
        &[1.0, 2.0, 3.0, 4.0, 5.0, 6.0],
        &[0.0, 0.0],
        &[1.0, 1.0],
        1,
        6,
        4,
        RopeMode::NeoX,
        &mut out,
    );
    assert_eq!(out, vec![-3.0, -4.0, 1.0, 2.0, 5.0, 6.0]);
    rope_f32(
        &[1.0, 2.0, 3.0, 4.0, 5.0, 6.0],
        &[0.0, 0.0],
        &[1.0, 1.0],
        1,
        6,
        4,
        RopeMode::GptJ,
        &mut out,
    );
    assert_eq!(out, vec![-2.0, 1.0, -4.0, 3.0, 5.0, 6.0]);
}

/// Row kernels on numbers that can be checked by hand.
#[test]
fn row_kernels_by_hand() {
    let mut out = vec![0f32; 2];
    rms_norm(&[3.0, 3.0], &[2.0, 4.0], 0.0, 1, 2, &mut out);
    assert_eq!(out, vec![2.0, 4.0]);
    let mut out = vec![0f32; 2];
    softmax_rows(&[7.0, 7.0], &[], 1.0, 1, 2, &mut out);
    assert_eq!(out, vec![0.5, 0.5]);
    assert_eq!(f16_to_f32(0x3c00), 1.0);
    assert_eq!(f16_to_f32(0x0001), (2.0f32).powi(-24));
    assert_eq!(f16_to_f32(0xfbff), -65504.0);
}
