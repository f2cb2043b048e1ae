//! Matrix products: every path, prepared plans, and products cut up for a pool.
#![allow(dead_code)]

use lasx_rs::aligned::AlignedVec;
use lasx_rs::api;
use lasx_rs::arch::{HwCaps, SimdPath};
use lasx_rs::error::Error;
use lasx_rs::ops::matmul::{
    choose_path_f32, choose_path_f64, matmul_along, matmul_cols_block, matmul_packed,
    matmul_stream, MatmulPath, COL_BLOCK,
};
use lasx_rs::parallel;
use lasx_rs::plan::{MatmulPlan, PackedKernel};
use lasx_rs::pool::{Pick, WorkerPool};
use lasx_rs::scalar::{Double, Scalar, Single};
use lasx_rs::view::MatRef;

#[derive(Clone, Copy, Default, Debug, PartialEq)]
struct F32(f32);

#[derive(Clone, Copy, Default, Debug, PartialEq)]
struct F64(f64);

impl Scalar for F32 {
    fn of_raw(raw: u64) -> Self {
        F32(f32::from_bits(raw as u32))
    }
    fn raw(self) -> u64 {
        self.0.to_bits() as u64
    }
    fn of_int(v: i64) -> Self {
        F32(v as f32)
    }
    fn trunc(self) -> i32 {
        self.0 as i32
    }
    fn add(self, o: Self) -> Self {
        F32(self.0 + o.0)
    }
    fn sub(self, o: Self) -> Self {
        F32(self.0 - o.0)
    }
    fn mul(self, o: Self) -> Self {
        F32(self.0 * o.0)
    }
    fn div(self, o: Self) -> Self {
        F32(self.0 / o.0)
    }
    fn fma(self, b: Self, c: Self) -> Self {
        F32(self.0.mul_add(b.0, c.0))
    }
    fn neg(self) -> Self {
        F32(-self.0)
    }
    fn abs(self) -> Self {
        F32(self.0.abs())
    }
    fn sqrt(self) -> Self {
        F32(self.0.sqrt())
    }
    fn max(self, o: Self) -> Self {
        F32(self.0.max(o.0))
    }
    fn lt(self, o: Self) -> bool {
        self.0 < o.0
    }
    fn same(self, o: Self) -> bool {
        self.0 == o.0
    }
    fn finite(self) -> bool {
        self.0.is_finite()
    }
    fn of_raw_spec(raw: u64) -> Self {
        Self::of_raw(raw)
    }
    fn raw_spec(self) -> u64 {
        Scalar::raw(self)
    }
    fn of_int_spec(v: i64) -> Self {
        Self::of_int(v)
    }
    fn trunc_spec(self) -> i32 {
        Scalar::trunc(self)
    }
    fn fma_spec(self, b: Self, c: Self) -> Self {
        Scalar::fma(self, b, c)
    }
    fn finite_spec(self) -> bool {
        Scalar::finite(self)
    }
    fn neg_spec(self) -> Self {
        Scalar::neg(self)
    }
    fn abs_spec(self) -> Self {
        Scalar::abs(self)
    }
    fn sqrt_spec(self) -> Self {
        Scalar::sqrt(self)
    }
    fn add_spec(self, o: Self) -> Self {
        Scalar::add(self, o)
    }
    fn sub_spec(self, o: Self) -> Self {
        Scalar::sub(self, o)
    }
    fn mul_spec(self, o: Self) -> Self {
        Scalar::mul(self, o)
    }
    fn div_spec(self, o: Self) -> Self {
        Scalar::div(self, o)
    }
    fn max_spec(self, o: Self) -> Self {
        Scalar::max(self, o)
    }
    fn lt_spec(self, o: Self) -> bool {
        Scalar::lt(self, o)
    }
    fn same_spec(self, o: Self) -> bool {
        Scalar::same(self, o)
    }
}

impl Scalar for F64 {
    fn of_raw(raw: u64) -> Self {
        F64(f64::from_bits(raw))
    }
    fn raw(self) -> u64 {
        self.0.to_bits()
    }
    fn of_int(v: i64) -> Self {
        F64(v as f64)
    }
    fn trunc(self) -> i32 {
        self.0 as i32
    }
    fn add(self, o: Self) -> Self {
        F64(self.0 + o.0)
    }
    fn sub(self, o: Self) -> Self {
        F64(self.0 - o.0)
    }
    fn mul(self, o: Self) -> Self {
        F64(self.0 * o.0)
    }
    fn div(self, o: Self) -> Self {
        F64(self.0 / o.0)
    }
    fn fma(self, b: Self, c: Self) -> Self {
        F64(self.0.mul_add(b.0, c.0))
    }
    fn neg(self) -> Self {
        F64(-self.0)
    }
    fn abs(self) -> Self {
        F64(self.0.abs())
    }
    fn sqrt(self) -> Self {
        F64(self.0.sqrt())
    }
    fn max(self, o: Self) -> Self {
        F64(self.0.max(o.0))
    }
    fn lt(self, o: Self) -> bool {
        self.0 < o.0
    }
    fn same(self, o: Self) -> bool {
        self.0 == o.0
    }
    fn finite(self) -> bool {
        self.0.is_finite()
    }
    fn of_raw_spec(raw: u64) -> Self {
        Self::of_raw(raw)
    }
    fn raw_spec(self) -> u64 {
        Scalar::raw(self)
    }
    fn of_int_spec(v: i64) -> Self {
        Self::of_int(v)
    }
    fn trunc_spec(self) -> i32 {
        Scalar::trunc(self)
    }
    fn fma_spec(self, b: Self, c: Self) -> Self {
        Scalar::fma(self, b, c)
    }
    fn finite_spec(self) -> bool {
        Scalar::finite(self)
    }
    fn neg_spec(self) -> Self {
        Scalar::neg(self)
    }
    fn abs_spec(self) -> Self {
        Scalar::abs(self)
    }
    fn sqrt_spec(self) -> Self {
        Scalar::sqrt(self)
    }
    fn add_spec(self, o: Self) -> Self {
        Scalar::add(self, o)
    }
    fn sub_spec(self, o: Self) -> Self {
        Scalar::sub(self, o)
    }
    fn mul_spec(self, o: Self) -> Self {
        Scalar::mul(self, o)
    }
    fn div_spec(self, o: Self) -> Self {
        Scalar::div(self, o)
    }
    fn max_spec(self, o: Self) -> Self {
        Scalar::max(self, o)
    }
    fn lt_spec(self, o: Self) -> bool {
        Scalar::lt(self, o)
    }
    fn same_spec(self, o: Self) -> bool {
        Scalar::same(self, o)
    }
}

impl Double for F64 {}

impl Single for F32 {
    type Wide = F64;
    fn widen(self) -> F64 {
        F64(self.0 as f64)
    }
    fn narrow(w: F64) -> Self {
        F32(w.0 as f32)
    }
    fn widen_spec(self) -> Self::Wide {
        Single::widen(self)
    }
    fn narrow_spec(w: Self::Wide) -> Self {
        Self::narrow(w)
    }
}

impl PackedKernel for F32 {
    const STRIP: usize = 32;
    const LANES: usize = 8;
    const BYTES: usize = 4;
    fn layout() {}
}

impl PackedKernel for F64 {
    const STRIP: usize = 16;
    const LANES: usize = 4;
    const BYTES: usize = 8;
    fn layout() {}
}

fn w32(x: &[f32]) -> Vec<F32> {
    x.iter().map(|&v| F32(v)).collect()
}

fn w64(x: &[f64]) -> Vec<F64> {
    x.iter().map(|&v| F64(v)).collect()
}

fn put32(dst: &mut [f32], src: &[F32]) {
    for (d, s) in dst.iter_mut().zip(src) {
        *d = s.0;
    }
}

fn put64(dst: &mut [f64], src: &[F64]) {
    for (d, s) in dst.iter_mut().zip(src) {
        *d = s.0;
    }
}

fn rel(got: f64, want: f64) -> f64 {
    (got - want).abs() / want.abs().max(1.0)
}

struct Lcg(u64);

impl Lcg {
    fn f64(&mut self) -> f64 {
        self.0 = self
            .0
            .wrapping_mul(6364136223846793005)
            .wrapping_add(1442695040888963407);
        ((self.0 >> 33) as f64 / (1u64 << 31) as f64) * 2.0 - 1.0
    }
}

fn reference<T: Copy + Into<f64>>(m: usize, k: usize, n: usize, a: &[T], b: &[T]) -> Vec<f64> {
    (0..m * n)
        .map(|idx| {
            let (i, j) = (idx / n, idx % n);
            (0..k)
                .map(|p| a[i * k + p].into() * b[p * n + j].into())
                .sum()
        })
        .collect()
}

const CAPS: HwCaps = HwCaps { lasx: true, lsx: true };

fn w32_random(len: usize, rng: &mut Lcg) -> Vec<F32> {
    (0..len).map(|_| F32(rng.f64() as f32)).collect()
}

fn w64_random(len: usize, rng: &mut Lcg) -> Vec<F64> {
    (0..len).map(|_| F64(rng.f64())).collect()
}

fn bits_f32(v: &[F32]) -> Vec<u32> {
    v.iter().map(|x| x.0.to_bits()).collect()
}

fn bits_f64(v: &[F64]) -> Vec<u64> {
    v.iter().map(|x| x.0.to_bits()).collect()
}

#[test]
fn test_matmul_f32_matches_reference() {
    let shapes = [
        (0usize, 4usize, 3usize),
        (1, 1, 1),
        (1, 0, 5),
        (1, 8, 1),
        (3, 5, 7),
        (4, 4, 32),
        (4, 4, 33),
        (5, 7, 40),
        (8, 8, 8),
        (16, 33, 17),
        (32, 32, 32),
        (33, 65, 31),
        (64, 64, 64),
        (128, 128, 128),
    ];
    for &(m, k, n) in &shapes {
        let mut rng = Lcg(0x5eed_1234 ^ ((m * 31 + k) * 17 + n) as u64);
        let a: Vec<f32> = (0..m * k).map(|_| rng.f64() as f32).collect();
        let b: Vec<f32> = (0..k * n).map(|_| rng.f64() as f32).collect();
        let mut c = vec![F32(f32::NAN); m * n];
        lasx_rs::ops::matmul::matmul_f32(m, k, n, &w32(&a), &w32(&b), &mut c);
        let want = reference(m, k, n, &a, &b);
        for idx in 0..m * n {
            assert!(
                rel(c[idx].0 as f64, want[idx]) < 1e-4,
                "{m}×{k}×{n} idx={idx}: got {} want {}",
                c[idx].0,
                want[idx]
            );
        }
    }
}

#[test]
fn cols_bit_exact() {
    let mut rng = Lcg(0xc015);
    for &(m, k, n) in &[
        (1usize, 1usize, 32usize),
        (3, 5, 64),
        (5, 7, 96),
        (8, 8, 64),
        (13, 17, 128),
        (100, 448, 512),
    ] {
        let a = w32_random(m * k, &mut rng);
        let b = w32_random(k * n, &mut rng);
        let mut want = vec![F32(0.0); m * n];
        lasx_rs::ops::matmul::matmul_f32(m, k, n, &a, &b, &mut want);
        let mut ranges: Vec<(usize, usize)> = vec![(0, n), (0, 0)];
        let mut j = 0;
        while j + 32 <= n {
            ranges.push((j, j + 32));
            j += 32;
        }
        if n % 32 != 0 {
            ranges.push((n / 32 * 32, n));
        }
        for &(j0, j1) in &ranges {
            let mut got = vec![F32(f32::NAN); m * n];
            matmul_cols_block(m, k, n, j0, j1, &a, &b, &mut got, COL_BLOCK);
            for i in 0..m {
                for jj in 0..n {
                    if jj >= j0 && jj < j1 {
                        assert_eq!(
                            got[i * n + jj].0.to_bits(),
                            want[i * n + jj].0.to_bits(),
                            "m={m} k={k} n={n} 区间[{j0},{j1}) i={i} j={jj}"
                        );
                    } else {
                        assert!(got[i * n + jj].0.is_nan(), "区间外不该被写 @ i={i} j={jj}");
                    }
                }
            }
        }
    }
}

#[test]
fn packed_paths_bit_exact() {
    let mut rng = Lcg(0x9e37);
    for &(m, k, n) in &[
        (1usize, 1usize, 32usize),
        (3, 5, 64),
        (5, 7, 96),
        (8, 8, 64),
        (13, 17, 128),
        (100, 448, 1024),
    ] {
        let a = w32_random(m * k, &mut rng);
        let b = w32_random(k * n, &mut rng);
        let mut want = vec![F32(f32::NAN); m * n];
        matmul_stream(m, k, n, &a, &b, &mut want);
        let mut cols = vec![F32(f32::NAN); m * n];
        matmul_cols_block(m, k, n, 0, n, &a, &b, &mut cols, COL_BLOCK);
        let mut pack = vec![F32(f32::NAN); m * n];
        matmul_packed(m, k, n, &a, &b, &mut pack);
        for i in 0..m * n {
            assert_eq!(cols[i].0.to_bits(), want[i].0.to_bits(), "列块 {m}×{k}×{n} @ {i}");
            assert_eq!(pack[i].0.to_bits(), want[i].0.to_bits(), "打包 {m}×{k}×{n} @ {i}");
        }
    }
}

/// The widest shape of the path comparison, packed panels against the streaming path.
#[test]
fn packed_path_bit_exact_wide() {
    let (m, k, n) = (100usize, 448usize, 19147usize);
    let mut rng = Lcg(0x9e37);
    let a = w32_random(m * k, &mut rng);
    let b = w32_random(k * n, &mut rng);
    let mut want = vec![F32(f32::NAN); m * n];
    matmul_stream(m, k, n, &a, &b, &mut want);
    let mut pack = vec![F32(f32::NAN); m * n];
    matmul_packed(m, k, n, &a, &b, &mut pack);
    for i in 0..m * n {
        assert_eq!(pack[i].0.to_bits(), want[i].0.to_bits(), "打包 {m}×{k}×{n} @ {i}");
    }
}

/// The same shape, column blocks against the streaming path.
#[test]
fn column_path_bit_exact_wide() {
    let (m, k, n) = (100usize, 448usize, 19147usize);
    let mut rng = Lcg(0x9e37);
    let a = w32_random(m * k, &mut rng);
    let b = w32_random(k * n, &mut rng);
    let mut want = vec![F32(f32::NAN); m * n];
    matmul_stream(m, k, n, &a, &b, &mut want);
    let mut cols = vec![F32(f32::NAN); m * n];
    matmul_cols_block(m, k, n, 0, n, &a, &b, &mut cols, COL_BLOCK);
    for i in 0..m * n {
        assert_eq!(cols[i].0.to_bits(), want[i].0.to_bits(), "列块 {m}×{k}×{n} @ {i}");
    }
}

#[test]
fn test_matmul_f64_matches_reference() {
    let shapes = [
        (0usize, 4usize, 3usize),
        (1, 1, 1),
        (1, 0, 5),
        (1, 4, 1),
        (3, 5, 7),
        (8, 8, 8),
        (16, 17, 19),
        (32, 32, 32),
        (33, 65, 31),
        (64, 64, 64),
    ];
    for &(m, k, n) in &shapes {
        let mut rng = Lcg(0xbeef_5678 ^ ((m * 31 + k) * 17 + n) as u64);
        let a: Vec<f64> = (0..m * k).map(|_| rng.f64()).collect();
        let b: Vec<f64> = (0..k * n).map(|_| rng.f64()).collect();
        let mut c = vec![F64(f64::NAN); m * n];
        lasx_rs::ops::matmul::matmul_f64(m, k, n, &w64(&a), &w64(&b), &mut c);
        let want = reference(m, k, n, &a, &b);
        for idx in 0..m * n {
            assert!(
                rel(c[idx].0, want[idx]) < 1e-12,
                "{m}×{k}×{n} idx={idx}: got {} want {}",
                c[idx].0,
                want[idx]
            );
        }
    }
}

#[test]
fn packed_f64_bit_exact() {
    let mut rng = Lcg(0x5eed_0064);
    for &(m, k, n) in &[
        (1usize, 1usize, 16usize),
        (3, 5, 32),
        (5, 7, 48),
        (8, 8, 32),
        (13, 17, 64),
        (32, 192, 16),
        (33, 200, 33),
        (64, 512, 64),
        (100, 448, 512),
    ] {
        let a = w64_random(m * k, &mut rng);
        let b = w64_random(k * n, &mut rng);
        let mut want = vec![F64(f64::NAN); m * n];
        matmul_stream(m, k, n, &a, &b, &mut want);
        let mut got = vec![F64(f64::NAN); m * n];
        matmul_packed(m, k, n, &a, &b, &mut got);
        for idx in 0..m * n {
            assert_eq!(
                got[idx].0.to_bits(),
                want[idx].0.to_bits(),
                "打包 {m}×{k}×{n} @ {idx}"
            );
        }
    }
}

const SHAPES: &[(usize, usize, usize)] = &[
    (1, 1, 1),
    (3, 5, 7),
    (4, 4, 32),
    (4, 4, 33),
    (5, 7, 40),
    (7, 64, 5),
    (8, 64, 37),
    (8, 64, 5000),
    (16, 33, 17),
    (33, 65, 31),
    (40, 64, 96),
    (37, 70, 100),
    (40, 64, 127),
    (40, 64, 9000),
    (64, 64, 64),
    (128, 128, 128),
    (513, 448, 130),
];

fn seq(len: usize, seed: u64) -> Vec<f64> {
    let mut rng = Lcg(seed);
    (0..len).map(|_| rng.f64() * 2.0 - 1.0).collect()
}

fn seq32(len: usize, seed: u64) -> Vec<F32> {
    seq(len, seed).into_iter().map(|x| F32(x as f32)).collect()
}

#[test]
fn f32_plan_matches_api_matmul_bit_for_bit() {
    for &(m, k, n) in SHAPES {
        let a = seq32(m * k, 0x51ed ^ (m * 7 + k) as u64);
        let b = seq32(k * n, 0xbeef ^ (k * 13 + n) as u64);
        let want = api::matmul(m, k, n, &a, &b).unwrap();
        let plan = MatmulPlan::from_row_major(&b, k, n).unwrap();
        assert_eq!(
            plan.packed_bytes(),
            k * n * 4,
            "{m}×{k}×{n}: 打包缓冲应正好是 B 的一份拷贝"
        );

        let got = plan.run(&a).unwrap();
        assert_eq!(bits_f32(&got), bits_f32(&want), "{m}×{k}×{n}: run");
        assert_eq!(got.len(), m * n, "{m}×{k}×{n}: 输出长度");

        let mut c = vec![F32(f32::NAN); m * n];
        plan.run_into(&a, &mut c).unwrap();
        assert_eq!(bits_f32(&c), bits_f32(&want), "{m}×{k}×{n}: run_into");
        plan.run_into(&a, &mut c).unwrap();
        assert_eq!(bits_f32(&c), bits_f32(&want), "{m}×{k}×{n}: 第二次调用");
    }
}

#[test]
fn f64_plan_matches_api_matmul_bit_for_bit() {
    for &(m, k, n) in SHAPES {
        let a = w64(&seq(m * k, 0x1234 ^ (m * 7 + k) as u64));
        let b = w64(&seq(k * n, 0x9876 ^ (k * 13 + n) as u64));
        let want = api::matmul_f64(m, k, n, &a, &b).unwrap();
        let plan = MatmulPlan::from_row_major(&b, k, n).unwrap();
        let got = plan.run(&a).unwrap();
        assert_eq!(bits_f64(&got), bits_f64(&want), "{m}×{k}×{n}");
        assert_eq!(plan.packed_bytes(), k * n * 8, "{m}×{k}×{n}");
    }
}

#[test]
fn f32_plan_accepts_column_major_and_transposed_b() {
    let (m, k, n) = (40, 64, 100);
    let a = seq32(m * k, 7);
    let b_row = seq32(k * n, 9);
    let want = bits_f32(&api::matmul(m, k, n, &a, &b_row).unwrap());

    let mut b_col = vec![F32(0.0); k * n];
    for p in 0..k {
        for j in 0..n {
            b_col[j * k + p] = b_row[p * n + j];
        }
    }
    let by_col = MatmulPlan::new(&MatRef::col_major(&b_col, k, n).unwrap()).unwrap();
    assert_eq!(bits_f32(&by_col.run(&a).unwrap()), want, "列主序 B");

    let by_tr = MatmulPlan::new(&MatRef::row_major(&b_col, n, k).unwrap().transpose()).unwrap();
    assert_eq!(bits_f32(&by_tr.run(&a).unwrap()), want, "转置视角 B");

    let stride = n + 5;
    let mut padded = vec![F32(0.0); k * stride];
    for p in 0..k {
        padded[p * stride..p * stride + n].copy_from_slice(&b_row[p * n..(p + 1) * n]);
    }
    let by_stride =
        MatmulPlan::new(&MatRef::row_major_strided(&padded, k, n, stride).unwrap()).unwrap();
    assert_eq!(bits_f32(&by_stride.run(&a).unwrap()), want, "带跨距 B");
}

#[test]
fn plan_reports_shape_errors() {
    let b = vec![F32(0.0); 64 * 96];
    let empty_b = MatRef::<F32>::row_major(&[], 0, 96).unwrap();
    match MatmulPlan::new(&empty_b) {
        Err(Error::NotPositive { op, what, .. }) => {
            assert_eq!(op, "MatmulPlan::new");
            assert!(what.contains('k'), "{what}");
        }
        _ => panic!("期望 NotPositive"),
    }
    assert!(MatmulPlan::from_row_major(&b, 64, 95).is_err());

    let plan = MatmulPlan::from_row_major(&b, 64, 96).unwrap();
    assert_eq!((plan.k(), plan.n()), (64, 96));
    let a = vec![F32(0.0); 40 * 64 + 1];
    assert!(matches!(plan.run(&a), Err(Error::Shape { .. })));
    let a = vec![F32(0.0); 40 * 64];
    assert!(matches!(
        plan.run_into(&a, &mut vec![F32(0.0); 40 * 96 + 1]),
        Err(Error::Shape { .. })
    ));
    let mut c = vec![F32(0.0); 40 * 96];
    plan.run_into(&a, &mut c).unwrap();
    assert!(c.iter().all(|x| x.0 == 0.0), "零 A 应得零 C");

    let mut empty = Vec::new();
    plan.run_into(&[], &mut empty).unwrap();
    let plan_n0 = MatmulPlan::from_row_major(&[] as &[F32], 64, 0).unwrap();
    plan_n0.run_into(&a, &mut []).unwrap();
}

/// Views refuse data of the wrong length, and `MatRef` reads what it should.
#[test]
fn views_check_and_read() {
    let data = w64(&[1.0, 2.0, 3.0, 4.0, 5.0, 6.0]);
    let v = MatRef::row_major(&data, 2, 3).unwrap();
    assert_eq!((v.rows(), v.cols()), (2, 3));
    assert_eq!(v.get(1, 0), F64(4.0));
    assert!(v.as_row_major_contiguous().is_some());
    let t = v.transpose();
    assert_eq!((t.rows(), t.cols()), (3, 2));
    assert_eq!(t.get(0, 1), F64(4.0));
    assert!(t.as_row_major_contiguous().is_none());
    assert!(matches!(MatRef::row_major(&data, 2, 2), Err(Error::Shape { .. })));
    assert!(matches!(
        MatRef::row_major(&data, usize::MAX, 2),
        Err(Error::Overflow { .. })
    ));
    let c = MatRef::col_major(&data, 2, 3).unwrap();
    assert_eq!(c.get(1, 0), F64(2.0));
    assert_eq!(c.get(0, 2), F64(5.0));
    assert!(c.as_row_major_contiguous().is_none());
    let s = MatRef::row_major_strided(&data, 3, 1, 2).unwrap();
    assert_eq!(s.get(2, 0), F64(5.0));
    assert!(s.as_row_major_contiguous().is_none());
    let s = MatRef::row_major_strided(&data, 3, 2, 2).unwrap();
    assert!(s.as_row_major_contiguous().is_some());
    let refused = |rows: usize, cols: usize, stride: usize| {
        MatRef::row_major_strided(&data, rows, cols, stride).err().unwrap()
    };
    let op = "MatRef::row_major_strided";
    assert_eq!(refused(2, 3, 2), Error::Shape { op, what: "stride", expected: 3, got: 2 });
    assert_eq!(refused(3, 2, 3), Error::Shape { op, what: "data", expected: 9, got: 6 });
    assert_eq!(refused(2, 1, usize::MAX), Error::Overflow { op, what: "rows×stride" });
}

/// A plan overwrites its output, and may be run on the rows in parts.
#[test]
fn plan_overwrites_and_runs_in_parts() {
    let (m, k, n) = (11usize, 37usize, 75usize);
    let (a, b) = (seq32(m * k, 3), seq32(k * n, 5));
    let plan = MatmulPlan::from_row_major(&b, k, n).unwrap();
    let bytes = plan.packed_bytes();
    assert_eq!(bytes, k * n * 4);
    let want = bits_f32(&api::matmul(m, k, n, &a, &b).unwrap());
    let mut c = vec![F32(f32::NAN); m * n];
    plan.run_into(&a, &mut c).unwrap();
    assert_eq!(bits_f32(&c), want);
    plan.run_into(&a, &mut c).unwrap();
    assert_eq!(bits_f32(&c), want);
    for r in [0, 1, 4, 5, 10, 11] {
        let mut c = vec![F32(f32::NAN); m * n];
        let (top, bottom) = c.split_at_mut(r * n);
        plan.run_into(&a[..r * k], top).unwrap();
        plan.run_into(&a[r * k..], bottom).unwrap();
        assert_eq!(bits_f32(&c), want, "r={r}");
    }
    assert_eq!(plan.packed_bytes(), bytes);
}

/// A product over no steps is zero on every path.
#[test]
fn products_over_no_steps_are_zero() {
    let mut c = vec![F32(f32::NAN); 3 * 70];
    lasx_rs::ops_bench_packed(3, 0, 70, &[] as &[F32], &[], &mut c);
    assert!(c.iter().all(|v| v.0.to_bits() == 0));
    let mut c = vec![F64(f64::NAN); 5 * 40];
    lasx_rs::ops_bench_packed_f64(5, 0, 40, &[] as &[F64], &[], &mut c);
    assert!(c.iter().all(|v| v.0.to_bits() == 0));
    let c = api::matmul_f32_packed(4, 0, 33, &[] as &[F32], &[]).unwrap();
    assert!(c.len() == 132 && c.iter().all(|v| v.0.to_bits() == 0));
}

/// A pick whose blocks do not fit is no matter where the pick is not used.
#[test]
fn an_unused_pick_may_be_anything() {
    let (m, k, n) = (8usize, 3usize, 5usize);
    let (a, b) = (seq32(m * k, 1), seq32(k * n, 2));
    let want = bits_f32(&api::matmul(m, k, n, &a, &b).unwrap());
    let long = Pick::Blocked { block_rows: usize::MAX };
    for threads in [1, 4] {
        let mut c = vec![F32(f32::NAN); m * n];
        let pool = WorkerPool::new(threads);
        parallel::matmul_f32_with_pick(&pool, m, k, n, &a, &b, &mut c, long).unwrap();
        assert_eq!(bits_f32(&c), want);
    }
}

#[test]
fn test_matmul_f32_matches_serial_bit_for_bit() {
    let pool = WorkerPool::new(7);
    for &(m, k, n) in &[
        (1usize, 1usize, 1usize),
        (13, 5, 3),
        (64, 64, 64),
        (129, 33, 17),
        (256, 96, 40),
        (128, 256, 96),
        (512, 512, 64),
        (513, 448, 130),
    ] {
        let (a, b) = (
            AlignedVec::<F32>::fill_with(m * k, |i| F32(((i % 23) as f32 - 11.0) * 0.25)),
            AlignedVec::<F32>::fill_with(k * n, |i| F32(((i % 19) as f32 - 9.0) * 0.5)),
        );
        let mut want = AlignedVec::<F32>::new(m * n);
        let mut got = AlignedVec::<F32>::new(m * n);
        lasx_rs::ops::matmul::matmul_f32(m, k, n, &a, &b, want.as_mut_slice());
        parallel::matmul_f32(&pool, m, k, n, a.as_slice(), b.as_slice(), got.as_mut_slice())
            .unwrap();
        assert_eq!(want.as_slice(), got.as_slice(), "{m}×{k}×{n} 与单线程不一致");
    }
}

#[test]
fn test_matmul_f64_matches_serial_bit_for_bit() {
    let pool = WorkerPool::new(5);
    for &(m, k, n) in &[
        (100usize, 48usize, 37usize),
        (128, 256, 96),
        (512, 512, 64),
        (512, 512, 2048),
        (513, 448, 130),
    ] {
        let (a, b) = (
            AlignedVec::<F64>::fill_with(m * k, |i| F64(((i % 29) as f64 - 14.0) * 0.125)),
            AlignedVec::<F64>::fill_with(k * n, |i| F64(((i % 31) as f64 - 15.0) * 0.0625)),
        );
        let mut want = AlignedVec::<F64>::new(m * n);
        let mut got = AlignedVec::<F64>::new(m * n);
        lasx_rs::ops::matmul::matmul_f64(m, k, n, &a, &b, want.as_mut_slice());
        parallel::matmul_f64(&pool, m, k, n, a.as_slice(), b.as_slice(), got.as_mut_slice())
            .unwrap();
        for i in 0..m * n {
            assert_eq!(
                got[i].0.to_bits(),
                want[i].0.to_bits(),
                "f64 池化 {m}×{k}×{n} @ {i}"
            );
        }
    }
}

/// Every pick gives the same product.
#[test]
fn picks_do_not_change_the_product() {
    let pool = WorkerPool::new(3);
    let (m, k, n) = (130usize, 300usize, 210usize);
    let mut rng = Lcg(77);
    let a = w32_random(m * k, &mut rng);
    let b = w32_random(k * n, &mut rng);
    let want = api::matmul(m, k, n, &a, &b).unwrap();
    for pick in [
        Pick::Chunk,
        Pick::RowBlock,
        Pick::Blocked { block_rows: 10 },
        Pick::Dynamic { block_rows: 7 },
    ] {
        let mut c = vec![F32(f32::NAN); m * n];
        parallel::matmul_f32_with_pick(&pool, m, k, n, &a, &b, &mut c, pick).unwrap();
        assert_eq!(bits_f32(&c), bits_f32(&want), "{}", pick.name());
    }
}

#[test]
fn test_rk4_pooled_matches_serial_bit_for_bit() {
    let pool = WorkerPool::new(6);
    let n = 20_000usize;
    let make = || {
        (
            AlignedVec::<F64>::fill_with(n, |i| F64(7.0e6 + (i % 97) as f64 * 1.0e3)),
            AlignedVec::<F64>::fill_with(n, |i| F64((i % 89) as f64 * 1.0e3 - 4.0e4)),
            AlignedVec::<F64>::fill_with(n, |i| F64((i % 71) as f64 * 1.0e3 - 3.0e4)),
            AlignedVec::<F64>::fill_with(n, |i| F64((i % 53) as f64 * 2.0 - 50.0)),
            AlignedVec::<F64>::fill_with(n, |i| F64((i % 43) as f64 * 1.5 - 30.0)),
            AlignedVec::<F64>::fill_with(n, |i| F64((i % 37) as f64 * 1.25 - 20.0)),
        )
    };
    let (mu, j2, re, dt) = (
        F64(3.986_004_418e14),
        F64(1.082_626_68e-3),
        F64(6.378_137e6),
        F64(10.0),
    );

    let (mut rx, mut ry, mut rz, mut vx, mut vy, mut vz) = make();
    for _ in 0..3 {
        lasx_rs::ops::orbit::rk4_j2_step_batch(
            SimdPath::Lasx,
            rx.as_mut_slice(),
            ry.as_mut_slice(),
            rz.as_mut_slice(),
            vx.as_mut_slice(),
            vy.as_mut_slice(),
            vz.as_mut_slice(),
            mu,
            j2,
            re,
            dt,
        );
    }

    let (mut px, mut py, mut pz, mut qx, mut qy, mut qz) = make();
    for _ in 0..3 {
        parallel::rk4_j2_step_batch(
            &pool,
            CAPS,
            mu,
            j2,
            re,
            dt,
            px.as_mut_slice(),
            py.as_mut_slice(),
            pz.as_mut_slice(),
            qx.as_mut_slice(),
            qy.as_mut_slice(),
            qz.as_mut_slice(),
        )
        .unwrap();
    }

    for i in 0..n {
        assert_eq!(rx[i].0.to_bits(), px[i].0.to_bits(), "rx 不一致 @ {i}");
        assert_eq!(vz[i].0.to_bits(), qz[i].0.to_bits(), "vz 不一致 @ {i}");
    }
}

#[test]
fn test_rk4_matches_parallel_bit_for_bit() {
    let n = 20_000;
    let mk = || {
        (
            vec![F64(7.0e6); n],
            vec![F64(3.0e5); n],
            vec![F64(1.0e5); n],
            vec![F64(100.0); n],
            vec![F64(7.5e3); n],
            vec![F64(-50.0); n],
        )
    };
    let (mu, j2, re, dt) = (
        F64(3.986_004_418e14),
        F64(1.082_626_68e-3),
        F64(6.378_137e6),
        F64(10.0),
    );

    let (mut rx, mut ry, mut rz, mut vx, mut vy, mut vz) = mk();
    for _ in 0..5 {
        api::rk4_j2_step_batch(
            SimdPath::Lasx,
            &mut rx,
            &mut ry,
            &mut rz,
            &mut vx,
            &mut vy,
            &mut vz,
            mu,
            j2,
            re,
            dt,
        )
        .unwrap();
    }

    let (mut px, mut py, mut pz, mut qx, mut qy, mut qz) = mk();
    let pool = WorkerPool::new(6);
    for _ in 0..5 {
        parallel::rk4_j2_step_batch(
            &pool, CAPS, mu, j2, re, dt, &mut px, &mut py, &mut pz, &mut qx, &mut qy, &mut qz,
        )
        .unwrap();
    }

    for i in 0..n {
        assert_eq!(rx[i].0.to_bits(), px[i].0.to_bits(), "rx 不一致 @ {i}");
        assert_eq!(vz[i].0.to_bits(), qz[i].0.to_bits(), "vz 不一致 @ {i}");
    }
}

#[test]
fn test_degenerate_shapes() {
    let pool = WorkerPool::new(3);
    let a: Vec<F32> = vec![F32(1.0); 0];
    let b: Vec<F32> = vec![F32(1.0); 0];
    let mut c = vec![F32(1.0); 4];
    parallel::matmul_f32(&pool, 2, 0, 2, &a, &b, &mut c).unwrap();
    assert_eq!(c, vec![F32(0.0); 4], "k=0 时结果应为全零");
    parallel::matmul_f32::<F32>(&pool, 0, 0, 0, &[], &[], &mut []).unwrap();
}

#[test]
fn test_shape_mismatch_returns_err_not_panic() {
    let pool = WorkerPool::new(4);
    let (a, b) = (vec![F32(0.0); 6], vec![F32(0.0); 6]);
    let mut c = vec![F32(0.0); 6];

    match parallel::matmul_f32(&pool, 2, 3, 2, &a[..5], &b, &mut c) {
        Err(Error::Shape {
            op,
            what,
            expected,
            got,
        }) => {
            assert_eq!((op, what, expected, got), ("matmul_f32", "a", 6, 5));
        }
        other => panic!("期望 Shape 错误，得到 {other:?}"),
    }
    assert!(parallel::matmul_f32(&pool, 2, 3, 2, &a, &b[..5], &mut c).is_err());
    assert!(parallel::matmul_f32(&pool, 2, 3, 2, &a, &b, &mut c[..5]).is_err());
    assert!(matches!(
        parallel::matmul_f32(&pool, usize::MAX, 2, 2, &a, &b, &mut c),
        Err(Error::Overflow { .. })
    ));
    let (a64, b64) = (vec![F64(0.0); 6], vec![F64(0.0); 6]);
    let mut c64 = [F64(0.0); 6];
    assert!(parallel::matmul_f64(&pool, 2, 3, 2, &a64, &b64, &mut c64[..5]).is_err());

    let mut r0 = vec![F64(0.0); 8];
    let mut r1 = vec![F64(0.0); 7];
    let mut r2 = vec![F64(0.0); 8];
    let mut v0 = vec![F64(0.0); 8];
    let mut v1 = vec![F64(0.0); 8];
    let mut v2 = vec![F64(0.0); 8];
    match parallel::rk4_j2_step_batch(
        &pool,
        CAPS,
        F64(1.0),
        F64(1e-3),
        F64(1.0),
        F64(1.0),
        &mut r0,
        &mut r1,
        &mut r2,
        &mut v0,
        &mut v1,
        &mut v2,
    ) {
        Err(Error::Shape { op, what, .. }) => {
            assert_eq!((op, what), ("rk4_j2_step_batch", "ry"));
        }
        other => panic!("期望 Shape 错误，得到 {other:?}"),
    }
}

/// Which path a shape takes.
#[test]
fn paths_follow_the_shape() {
    assert_eq!(choose_path_f32(8, 8, 8), MatmulPath::Stream);
    assert_eq!(choose_path_f32(512, 512, 512), MatmulPath::Packed);
    assert_eq!(choose_path_f64(8, 8, 8), MatmulPath::Stream);
    assert_eq!(choose_path_f64(512, 512, 512), MatmulPath::Packed);
}

#[test]
fn small_product() {
    let a: Vec<F64> = (0..6).map(|i| F64(i as f64)).collect();
    let b: Vec<F64> = (0..6).map(|i| F64(1.0 + i as f64)).collect();
    let mut c = vec![F64(f64::NAN); 4];
    lasx_rs::ops::matmul::matmul_f64(2, 3, 2, &a, &b, &mut c);
    assert_eq!(c, vec![F64(13.0), F64(16.0), F64(40.0), F64(52.0)]);
    let plan = MatmulPlan::from_row_major(&b, 3, 2).unwrap();
    assert_eq!(&plan.run(&a).unwrap()[..], &c[..]);
    for path in [MatmulPath::Packed, MatmulPath::Columns, MatmulPath::Stream] {
        let mut d = vec![F64(f64::NAN); 4];
        matmul_along(path, 2, 3, 2, &a, &b, &mut d);
        assert_eq!(d, c);
    }
    let mut d = vec![F64(f64::NAN); 4];
    lasx_rs::ops_bench_packed_f64(2, 3, 2, &a, &b, &mut d);
    assert_eq!(d, c);
    lasx_rs::ops_bench_stream_f64(2, 3, 2, &a, &b, &mut d);
    assert_eq!(d, c);
}
