//! Dot products of quantised arrays.
use crate::ops::chain::chain;
use crate::scalar::{zero, Scalar, Single};
use vstd::prelude::*;

verus! {

/// `Σ a[i]·b[i]` over the first `n` elements, as an integer.
pub open spec fn exact_dot(a: Seq<i8>, b: Seq<i8>, n: int) -> int
    decreases n,
{
    if n <= 0 {
        0
    } else {
        exact_dot(a, b, n - 1) + a[n - 1] * b[n - 1]
    }
}

/// The 32-bit integer congruent to `x`.
pub open spec fn wrap32(x: int) -> int {
    (x + 0x8000_0000) % 0x1_0000_0000 - 0x8000_0000
}

/// The sum of the first `n` lanes.
pub open spec fn lane_sum(acc: Seq<i32>, n: int) -> int
    decreases n,
{
    if n <= 0 {
        0
    } else {
        lane_sum(acc, n - 1) + acc[n - 1]
    }
}

proof fn lemma_lane_sum_update(acc: Seq<i32>, l: int, v: i32, n: int)
    requires
        0 <= l < acc.len(),
        0 <= n <= acc.len(),
    ensures
        lane_sum(acc.update(l, v), n) == lane_sum(acc, n) + if l < n {
            v - acc[l]
        } else {
            0
        },
    decreases n,
{
    if n > 0 {
        lemma_lane_sum_update(acc, l, v, n - 1);
    }
}

proof fn lemma_lane_sum_zero(acc: Seq<i32>, n: int)
    requires
        0 <= n <= acc.len(),
        forall|l: int| 0 <= l < acc.len() ==> acc[l] == 0,
    ensures
        lane_sum(acc, n) == 0,
    decreases n,
{
    if n > 0 {
        lemma_lane_sum_zero(acc, n - 1);
    }
}

/// Bytes of one vector.
pub const VECTOR: usize = 32;

/// Bytes after which the 32-bit lanes are emptied into the 64-bit sum.
pub const FLUSH: usize = 1024;

/// A fresh set of lanes.
fn no_lanes() -> (acc: Vec<i32>)
    ensures
        acc@.len() == 32,
        forall|l: int| 0 <= l < 32 ==> acc@[l] == 0,
{
    let mut acc: Vec<i32> = Vec::new();
    while acc.len() < 32
        invariant
            acc@.len() <= 32,
            forall|l: int| 0 <= l < acc@.len() ==> acc@[l] == 0,
        decreases 32 - acc.len(),
    {
        acc.push(0);
    }
    acc
}

/// Adds the products of one vector of bytes to the lanes, each to its own.
fn step(a: &[i8], b: &[i8], i: usize, acc: &mut Vec<i32>, Ghost(depth): Ghost<int>)
    requires
        a@.len() == b@.len(),
        i + 32 <= a@.len(),
        old(acc)@.len() == 32,
        0 <= depth < 32,
        forall|l: int|
            0 <= l < 32 ==> -16384 * depth <= #[trigger] old(acc)@[l] <= 16384 * depth,
    ensures
        final(acc)@.len() == 32,
        forall|l: int|
            0 <= l < 32 ==> -16384 * (depth + 1) <= #[trigger] final(acc)@[l] <= 16384 * (depth
                + 1),
        lane_sum(final(acc)@, 32) == lane_sum(old(acc)@, 32) + exact_dot(a@, b@, i + 32)
            - exact_dot(a@, b@, i as int),
{
    let ghost acc0 = acc@;
    let mut l: usize = 0;
    while l < 32
        invariant
            a@.len() == b@.len(),
            i + 32 <= a.len(),
            acc@.len() == 32,
            acc0.len() == 32,
            0 <= depth < 32,
            l <= 32,
            forall|x: int| l <= x < 32 ==> acc@[x] == acc0[x],
            forall|x: int| 0 <= x < 32 ==> -16384 * depth <= #[trigger] acc0[x] <= 16384 * depth,
            forall|x: int|
                0 <= x < l ==> -16384 * (depth + 1) <= #[trigger] acc@[x] <= 16384 * (depth + 1),
            lane_sum(acc@, 32) == lane_sum(acc0, 32) + exact_dot(a@, b@, i + l) - exact_dot(
                a@,
                b@,
                i as int,
            ),
        decreases 32 - l,
    {
        let x: i32 = a[i + l] as i32;
        let y: i32 = b[i + l] as i32;
        proof {
            assert(-16384 <= x * y <= 16384) by (nonlinear_arith)
                requires
                    -128 <= x <= 127,
                    -128 <= y <= 127,
            ;
            assert(acc@[l as int] == acc0[l as int]);
            lemma_lane_sum_update(acc@, l as int, (acc@[l as int] + x * y) as i32, 32);
        }
        let v: i32 = acc[l] + x * y;
        acc.set(l, v);
        l = l + 1;
    }
}

/// Empties the lanes into the running sum, which is kept modulo `2^64`.
fn flush(s: i64, acc: &Vec<i32>, Ghost(exact): Ghost<int>) -> (r: i64)
    requires
        acc@.len() == 32,
        (s - exact) % 0x1_0000_0000_0000_0000 == 0,
    ensures
        (r - (exact + lane_sum(acc@, 32))) % 0x1_0000_0000_0000_0000 == 0,
{
    let mut r: i64 = s;
    let mut l: usize = 0;
    while l < 32
        invariant
            acc@.len() == 32,
            l <= 32,
            (r - (exact + lane_sum(acc@, l as int))) % 0x1_0000_0000_0000_0000 == 0,
        decreases 32 - l,
    {
        r = r.wrapping_add(acc[l] as i64);
        l = l + 1;
    }
    r
}

/// The low 32 bits of a 64-bit sum.
fn low_word(s: i64) -> (r: i32)
    ensures
        r == wrap32(s as int),
{
    let u: u64 = s as u64;
    assert((s >= 0 ==> u == s) && (s < 0 ==> u == s + 0x1_0000_0000_0000_0000)) by (bit_vector)
        requires
            u == s as u64,
    ;
    let low: i64 = (u % 0x1_0000_0000) as i64;
    if low < 0x8000_0000 {
        low as i32
    } else {
        (low - 0x1_0000_0000) as i32
    }
}

/// Dot product of two byte arrays: the low 32 bits of the exact sum.
///
/// Products are collected in 32-bit lanes, which are emptied before they could overflow.
pub fn dot_i8(a: &[i8], b: &[i8]) -> (r: i32)
    requires
        a@.len() == b@.len(),
    ensures
        r == wrap32(exact_dot(a@, b@, a@.len() as int)),
{
    let n: usize = a.len();
    let mut s: i64 = 0;
    let mut i: usize = 0;
    while FLUSH <= n - i
        invariant
            n == a@.len(),
            a@.len() == b@.len(),
            i <= n,
            (s - exact_dot(a@, b@, i as int)) % 0x1_0000_0000_0000_0000 == 0,
        decreases n - i,
    {
        let mut acc: Vec<i32> = no_lanes();
        proof {
            lemma_lane_sum_zero(acc@, 32);
        }
        let start: usize = i;
        let mut v: usize = 0;
        while v < 32
            invariant
                n == a@.len(),
                a@.len() == b@.len(),
                v <= 32,
                i == start + 32 * v,
                start + 1024 <= n,
                acc@.len() == 32,
                forall|l: int| 0 <= l < 32 ==> -16384 * v <= #[trigger] acc@[l] <= 16384 * v,
                lane_sum(acc@, 32) == exact_dot(a@, b@, i as int) - exact_dot(
                    a@,
                    b@,
                    start as int,
                ),
            decreases 32 - v,
        {
            step(a, b, i, &mut acc, Ghost(v as int));
            i = i + VECTOR;
            v = v + 1;
        }
        s = flush(s, &acc, Ghost(exact_dot(a@, b@, start as int)));
    }
    let mut acc: Vec<i32> = no_lanes();
    proof {
        lemma_lane_sum_zero(acc@, 32);
    }
    let start: usize = i;
    let mut v: usize = 0;
    while VECTOR <= n - i
        invariant
            n == a@.len(),
            a@.len() == b@.len(),
            i == start + 32 * v,
            n - start < 1024,
            i <= n,
            acc@.len() == 32,
            forall|l: int| 0 <= l < 32 ==> -16384 * v <= #[trigger] acc@[l] <= 16384 * v,
            lane_sum(acc@, 32) == exact_dot(a@, b@, i as int) - exact_dot(a@, b@, start as int),
        decreases n - i,
    {
        step(a, b, i, &mut acc, Ghost(v as int));
        i = i + VECTOR;
        v = v + 1;
    }
    s = flush(s, &acc, Ghost(exact_dot(a@, b@, start as int)));
    while i < n
        invariant
            n == a@.len(),
            a@.len() == b@.len(),
            i <= n,
            (s - exact_dot(a@, b@, i as int)) % 0x1_0000_0000_0000_0000 == 0,
        decreases n - i,
    {
        let x: i64 = a[i] as i64;
        let y: i64 = b[i] as i64;
        proof {
            assert(-16384 <= x * y <= 16384) by (nonlinear_arith)
                requires
                    -128 <= x <= 127,
                    -128 <= y <= 127,
            ;
        }
        s = s.wrapping_add(x * y);
        i = i + 1;
    }
    low_word(s)
}

/// Law: while the exact sum fits in 32 bits, the result is the exact sum.
pub proof fn law_small_sums_exact(a: Seq<i8>, b: Seq<i8>)
    requires
        a.len() == b.len(),
        -0x8000_0000 <= exact_dot(a, b, a.len() as int) < 0x8000_0000,
    ensures
        wrap32(exact_dot(a, b, a.len() as int)) == exact_dot(a, b, a.len() as int),
{
}

/// Law: arrays of up to `131071` bytes never leave the 32-bit range.
pub proof fn law_short_sums_fit(a: Seq<i8>, b: Seq<i8>, n: int)
    requires
        0 <= n <= a.len(),
        a.len() == b.len(),
    ensures
        -16384 * n <= exact_dot(a, b, n) <= 16384 * n,
        n <= 131071 ==> wrap32(exact_dot(a, b, n)) == exact_dot(a, b, n),
    decreases n,
{
    if n > 0 {
        law_short_sums_fit(a, b, n - 1);
        let (x, y) = (a[n - 1] as int, b[n - 1] as int);
        assert(-16384 <= x * y <= 16384) by (nonlinear_arith)
            requires
                -128 <= x <= 127,
                -128 <= y <= 127,
        ;
    }
}

/// Sum of the two nibble products of a pair of bytes.
pub open spec fn nibble_products(x: u8, y: u8) -> int {
    (x as int % 16) * (y as int % 16) + (x as int / 16) * (y as int / 16)
}

/// Integer dot product of the nibbles of bytes `[from, to)`.
pub open spec fn nibble_dot(qa: Seq<u8>, qb: Seq<u8>, from: int, to: int) -> int
    decreases to - from,
{
    if to <= from {
        0
    } else {
        nibble_dot(qa, qb, from, to - 1) + nibble_products(qa[to - 1], qb[to - 1])
    }
}

/// What one more group of 32 bytes does to the sum: its integer dot product, times the
/// product of its two scales.
pub open spec fn group_step<S: Single>(
    qa: Seq<u8>,
    sa: Seq<S>,
    qb: Seq<u8>,
    sb: Seq<S>,
) -> spec_fn(S::Wide, int) -> S::Wide {
    |acc: S::Wide, g: int|
        acc.add_spec(
            sa[g].mul_spec(sb[g]).widen_spec().mul_spec(
                S::Wide::of_int_spec(nibble_dot(qa, qb, 32 * g, 32 * g + 32) as i64),
            ),
        )
}

/// What one byte of a last, incomplete group does to the sum.
pub open spec fn byte_step<S: Single>(
    qa: Seq<u8>,
    sa: Seq<S>,
    qb: Seq<u8>,
    sb: Seq<S>,
) -> spec_fn(S::Wide, int) -> S::Wide {
    |acc: S::Wide, j: int|
        acc.add_spec(
            sa[j / 32].mul_spec(sb[j / 32]).widen_spec().mul_spec(
                S::Wide::of_int_spec(nibble_products(qa[j], qb[j]) as i64),
            ),
        )
}

/// Dot product of nibbles with one scale per 32 bytes: whole groups in order, then the
/// bytes left over.
pub open spec fn q4_dot<S: Single>(qa: Seq<u8>, sa: Seq<S>, qb: Seq<u8>, sb: Seq<S>) -> S::Wide {
    let n = qa.len() as int;
    let head = chain(zero::<S::Wide>(), group_step(qa, sa, qb, sb), 0, 1, n / 32);
    chain(head, byte_step(qa, sa, qb, sb), n / 32 * 32, 1, n - n / 32 * 32)
}

/// The nibble products of a pair of bytes.
fn byte_products(x: u8, y: u8) -> (r: i64)
    ensures
        r == nibble_products(x, y),
        0 <= r <= 450,
{
    assert(x & 0x0f == x % 16) by (bit_vector);
    assert(y & 0x0f == y % 16) by (bit_vector);
    assert(x >> 4 == x / 16) by (bit_vector);
    assert(y >> 4 == y / 16) by (bit_vector);
    let la: i64 = (x & 0x0f) as i64;
    let ha: i64 = (x >> 4) as i64;
    let lb: i64 = (y & 0x0f) as i64;
    let hb: i64 = (y >> 4) as i64;
    proof {
        assert(0 <= la * lb <= 225 && 0 <= ha * hb <= 225) by (nonlinear_arith)
            requires
                0 <= la <= 15,
                0 <= lb <= 15,
                0 <= ha <= 15,
                0 <= hb <= 15,
        ;
    }
    la * lb + ha * hb
}

/// Sum of the first `n` lanes of a group.
pub open spec fn group_lane_sum(v: Seq<i16>, n: int) -> int
    decreases n,
{
    if n <= 0 {
        0
    } else {
        group_lane_sum(v, n - 1) + v[n - 1]
    }
}

/// The sixteen lanes of a group, each the products of two neighbouring bytes.
fn group_sums(qa: &[u8], qb: &[u8], at: usize) -> (r: Vec<i16>)
    requires
        qa@.len() == qb@.len(),
        at + 32 <= qa@.len(),
    ensures
        r@.len() == 16,
        forall|l: int| 0 <= l < 16 ==> 0 <= #[trigger] r@[l] <= 900,
        group_lane_sum(r@, 16) == nibble_dot(qa@, qb@, at as int, at + 32),
{
    let mut r: Vec<i16> = Vec::new();
    while r.len() < 16
        invariant
            qa@.len() == qb@.len(),
            at + 32 <= qa.len(),
            r@.len() <= 16,
            forall|l: int| 0 <= l < r@.len() ==> 0 <= #[trigger] r@[l] <= 900,
            group_lane_sum(r@, r@.len() as int) == nibble_dot(
                qa@,
                qb@,
                at as int,
                at + 2 * r@.len(),
            ),
        decreases 16 - r.len(),
    {
        let j: usize = at + 2 * r.len();
        let p0: i64 = byte_products(qa[j], qb[j]);
        let p1: i64 = byte_products(qa[j + 1], qb[j + 1]);
        let ghost before = r@;
        r.push((p0 + p1) as i16);
        proof {
            reveal_with_fuel(nibble_dot, 3);
            lemma_group_prefix(before, r@, before.len() as int);
        }
    }
    r
}

proof fn lemma_group_prefix(v: Seq<i16>, w: Seq<i16>, n: int)
    requires
        0 <= n <= v.len(),
        v.len() <= w.len(),
        forall|l: int| 0 <= l < v.len() ==> v[l] == w[l],
    ensures
        group_lane_sum(v, n) == group_lane_sum(w, n),
    decreases n,
{
    if n > 0 {
        lemma_group_prefix(v, w, n - 1);
    }
}

/// Adds up the lanes of a group: neighbours, neighbours again, then four sums.
fn horizontal_i64(v: &Vec<i16>) -> (r: i64)
    requires
        v@.len() == 16,
        forall|l: int| 0 <= l < 16 ==> 0 <= #[trigger] v@[l] <= 900,
    ensures
        r == group_lane_sum(v@, 16),
        0 <= r <= 14400,
{
    proof {
        reveal_with_fuel(group_lane_sum, 17);
    }
    let t0: i64 = (v[0] as i64 + v[1] as i64) + (v[2] as i64 + v[3] as i64);
    let t1: i64 = (v[4] as i64 + v[5] as i64) + (v[6] as i64 + v[7] as i64);
    let t2: i64 = (v[8] as i64 + v[9] as i64) + (v[10] as i64 + v[11] as i64);
    let t3: i64 = (v[12] as i64 + v[13] as i64) + (v[14] as i64 + v[15] as i64);
    t0 + t1 + t2 + t3
}

/// Adds group `g` to the sum, given its lanes.
fn add_group<S: Single>(
    acc: S::Wide,
    lanes: &Vec<i16>,
    g: usize,
    qa: &[u8],
    sa: &[S],
    qb: &[u8],
    sb: &[S],
) -> (r: S::Wide)
    requires
        lanes@.len() == 16,
        forall|l: int| 0 <= l < 16 ==> 0 <= #[trigger] lanes@[l] <= 900,
        group_lane_sum(lanes@, 16) == nibble_dot(qa@, qb@, 32 * g, 32 * g + 32),
        g < sa@.len(),
        g < sb@.len(),
    ensures
        r == group_step(qa@, sa@, qb@, sb@)(acc, g as int),
{
    let d: i64 = horizontal_i64(lanes);
    acc.add(sa[g].mul(sb[g]).widen().mul(S::Wide::of_int(d)))
}

/// Dot product of two arrays of nibbles with one scale per 32 bytes.
///
/// Four groups are read at a time; they are still added one by one and in order.
pub fn dot_q4<S: Single>(qa: &[u8], sa: &[S], qb: &[u8], sb: &[S]) -> (r: S::Wide)
    requires
        qa@.len() == qb@.len(),
        32 * sa@.len() >= qa@.len(),
        32 * sb@.len() >= qa@.len(),
    ensures
        r == q4_dot(qa@, sa@, qb@, sb@),
{
    let n: usize = qa.len();
    let ghost gs = group_step(qa@, sa@, qb@, sb@);
    let ghost bs = byte_step(qa@, sa@, qb@, sb@);
    let mut acc: S::Wide = S::Wide::of_raw(0);
    let mut b: usize = 0;
    let mut g: usize = 0;
    while 128 <= n - b
        invariant
            n == qa@.len(),
            qa@.len() == qb@.len(),
            32 * sa@.len() >= n,
            32 * sb@.len() >= n,
            b == 32 * g,
            b <= n,
            gs == group_step(qa@, sa@, qb@, sb@),
            acc == chain(zero::<S::Wide>(), gs, 0, 1, g as int),
        decreases n - b,
    {
        let s0: Vec<i16> = group_sums(qa, qb, b);
        let s1: Vec<i16> = group_sums(qa, qb, b + 32);
        let s2: Vec<i16> = group_sums(qa, qb, b + 64);
        let s3: Vec<i16> = group_sums(qa, qb, b + 96);
        proof {
            reveal_with_fuel(chain, 5);
        }
        acc = add_group(acc, &s0, g, qa, sa, qb, sb);
        acc = add_group(acc, &s1, g + 1, qa, sa, qb, sb);
        acc = add_group(acc, &s2, g + 2, qa, sa, qb, sb);
        acc = add_group(acc, &s3, g + 3, qa, sa, qb, sb);
        b = b + 128;
        g = g + 4;
    }
    while 32 <= n - b
        invariant
            n == qa@.len(),
            qa@.len() == qb@.len(),
            32 * sa@.len() >= n,
            32 * sb@.len() >= n,
            b == 32 * g,
            b <= n,
            gs == group_step(qa@, sa@, qb@, sb@),
            acc == chain(zero::<S::Wide>(), gs, 0, 1, g as int),
        decreases n - b,
    {
        let s0: Vec<i16> = group_sums(qa, qb, b);
        acc = add_group(acc, &s0, g, qa, sa, qb, sb);
        b = b + 32;
        g = g + 1;
    }
    let ghost head = acc;
    let from: usize = b;
    while b < n
        invariant
            n == qa@.len(),
            qa@.len() == qb@.len(),
            32 * sa@.len() >= n,
            32 * sb@.len() >= n,
            from <= b <= n,
            bs == byte_step(qa@, sa@, qb@, sb@),
            acc == chain(head, bs, from as int, 1, b - from),
        decreases n - b,
    {
        let p: i64 = byte_products(qa[b], qb[b]);
        acc = acc.add(sa[b / 32].mul(sb[b / 32]).widen().mul(S::Wide::of_int(p)));
        b = b + 1;
    }
    acc
}

} // verus!
