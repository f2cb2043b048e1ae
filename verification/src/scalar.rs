//! The arithmetic that the kernels are written against.
//!
//! A kernel never looks inside a number: it only strings together the operations
//! of [`Scalar`]. Its contract names the exact string of operations behind every
//! output, so that two ways of organising the same kernel (blocked, packed, split
//! over workers) can be compared operation by operation, whatever the number type.
use vstd::prelude::*;

verus! {

/// A number type with deterministic arithmetic.
///
/// Every operation is a function of its operands alone: for each executable method
/// there is a specification function that says which value it returns. Rounding,
/// overflow and special values are the number type's own business: nothing is assumed of
/// the specification functions but that they are functions.
pub trait Scalar: Sized + Copy + Default {
    /// What [`Scalar::of_raw`] returns.
    spec fn of_raw_spec(raw: u64) -> Self;

    /// What [`Scalar::raw`] returns.
    spec fn raw_spec(self) -> u64;

    /// What [`Scalar::of_int`] returns.
    spec fn of_int_spec(v: i64) -> Self;

    /// What [`Scalar::trunc`] returns.
    spec fn trunc_spec(self) -> i32;

    /// What [`Scalar::add`] returns.
    spec fn add_spec(self, o: Self) -> Self;

    /// What [`Scalar::sub`] returns.
    spec fn sub_spec(self, o: Self) -> Self;

    /// What [`Scalar::mul`] returns.
    spec fn mul_spec(self, o: Self) -> Self;

    /// What [`Scalar::div`] returns.
    spec fn div_spec(self, o: Self) -> Self;

    /// What [`Scalar::fma`] returns.
    spec fn fma_spec(self, b: Self, c: Self) -> Self;

    /// What [`Scalar::neg`] returns.
    spec fn neg_spec(self) -> Self;

    /// What [`Scalar::abs`] returns.
    spec fn abs_spec(self) -> Self;

    /// What [`Scalar::sqrt`] returns.
    spec fn sqrt_spec(self) -> Self;

    /// What [`Scalar::max`] returns.
    spec fn max_spec(self, o: Self) -> Self;

    /// What [`Scalar::lt`] returns.
    spec fn lt_spec(self, o: Self) -> bool;

    /// What [`Scalar::same`] returns.
    spec fn same_spec(self, o: Self) -> bool;

    /// What [`Scalar::finite`] returns.
    spec fn finite_spec(self) -> bool;

    /// The value whose bit pattern, in the type's own format, is `raw`.
    fn of_raw(raw: u64) -> (r: Self)
        ensures
            r == Self::of_raw_spec(raw),
    ;

    /// The bit pattern of the value in the type's own format.
    fn raw(self) -> (r: u64)
        ensures
            r == self.raw_spec(),
    ;

    /// The value that stands for the integer `v`.
    fn of_int(v: i64) -> (r: Self)
        ensures
            r == Self::of_int_spec(v),
    ;

    /// The integer part, saturating.
    fn trunc(self) -> (r: i32)
        ensures
            r == self.trunc_spec(),
    ;

    /// `self + o`.
    fn add(self, o: Self) -> (r: Self)
        ensures
            r == self.add_spec(o),
    ;

    /// `self - o`.
    fn sub(self, o: Self) -> (r: Self)
        ensures
            r == self.sub_spec(o),
    ;

    /// `self * o`.
    fn mul(self, o: Self) -> (r: Self)
        ensures
            r == self.mul_spec(o),
    ;

    /// `self / o`.
    fn div(self, o: Self) -> (r: Self)
        ensures
            r == self.div_spec(o),
    ;

    /// `self * b + c`, rounded once.
    fn fma(self, b: Self, c: Self) -> (r: Self)
        ensures
            r == self.fma_spec(b, c),
    ;

    /// `-self`.
    fn neg(self) -> (r: Self)
        ensures
            r == self.neg_spec(),
    ;

    /// The magnitude of the value.
    fn abs(self) -> (r: Self)
        ensures
            r == self.abs_spec(),
    ;

    /// The square root.
    fn sqrt(self) -> (r: Self)
        ensures
            r == self.sqrt_spec(),
    ;

    /// The larger of the two.
    fn max(self, o: Self) -> (r: Self)
        ensures
            r == self.max_spec(o),
    ;

    /// Whether `self < o`.
    fn lt(self, o: Self) -> (r: bool)
        ensures
            r == self.lt_spec(o),
    ;

    /// Whether `self` and `o` are numerically equal.
    fn same(self, o: Self) -> (r: bool)
        ensures
            r == self.same_spec(o),
    ;

    /// Whether the value is neither infinite nor undefined.
    fn finite(self) -> (r: bool)
        ensures
            r == self.finite_spec(),
    ;
}

/// A number in the double-precision format: raw patterns are those of IEEE 754 binary64.
pub trait Double: Scalar {

}

/// A number in the single-precision format: raw patterns are those of IEEE 754 binary32.
pub trait Single: Scalar {
    /// The wider format that long sums are collected in.
    type Wide: Double;

    /// What [`Single::widen`] returns.
    spec fn widen_spec(self) -> Self::Wide;

    /// What [`Single::narrow`] returns.
    spec fn narrow_spec(w: Self::Wide) -> Self;

    /// The same value in the wider format.
    fn widen(self) -> (r: Self::Wide)
        ensures
            r == self.widen_spec(),
    ;

    /// The value of this format nearest to `w`.
    fn narrow(w: Self::Wide) -> (r: Self)
        ensures
            r == Self::narrow_spec(w),
    ;
}

/// Pattern of 1 in double precision.
pub const F64_ONE: u64 = 0x3ff0_0000_0000_0000;

/// Pattern of 2 in double precision.
pub const F64_TWO: u64 = 0x4000_0000_0000_0000;

/// Pattern of 3 in double precision.
pub const F64_THREE: u64 = 0x4008_0000_0000_0000;

/// Pattern of 5 in double precision.
pub const F64_FIVE: u64 = 0x4014_0000_0000_0000;

/// Pattern of 6 in double precision.
pub const F64_SIX: u64 = 0x4018_0000_0000_0000;

/// Pattern of one half in double precision.
pub const F64_HALF: u64 = 0x3fe0_0000_0000_0000;

/// Pattern of three halves in double precision.
pub const F64_THREE_HALVES: u64 = 0x3ff8_0000_0000_0000;

/// Pattern of 1 in single precision.
pub const F32_ONE: u64 = 0x3f80_0000;

/// Pattern of one half in single precision.
pub const F32_HALF: u64 = 0x3f00_0000;

/// The value zero: its pattern is all zero bits in every format.
pub open spec fn zero<S: Scalar>() -> S {
    S::of_raw_spec(0)
}

/// 64-bit words with wrap-around arithmetic.
///
/// The plainest arithmetic the kernels run on: it is exact modulo `2^64`, division
/// and square root round down, and a quotient by zero is zero. The raw pattern of a
/// word is the word itself.
#[derive(Clone, Copy, PartialEq, Eq, Structural, Debug, Hash)]
pub struct Word(pub u64);

/// The largest word whose square is at most `x`.
pub open spec fn word_root(x: u64) -> u64 {
    choose|r: u64| #[trigger] is_root(x, r)
}

pub open spec fn is_root(x: u64, r: u64) -> bool {
    r * r <= x < (r + 1) * (r + 1)
}

proof fn lemma_root_unique(x: u64, r: u64, s: u64)
    requires
        is_root(x, r),
        is_root(x, s),
    ensures
        r == s,
{
    if r < s {
        assert((r + 1) * (r + 1) <= s * s) by (nonlinear_arith)
            requires
                0 <= r < s,
        ;
    }
    if s < r {
        assert((s + 1) * (s + 1) <= r * r) by (nonlinear_arith)
            requires
                0 <= s < r,
        ;
    }
}

/// The square root of `x`, rounded down.
fn root_of(x: u64) -> (r: u64)
    ensures
        r == word_root(x),
{
    let mut lo: u64 = 0;
    let mut hi: u64 = 0x1_0000_0000;
    assert(0x1_0000_0000 * 0x1_0000_0000 > x);
    while lo + 1 < hi
        invariant
            lo < hi <= 0x1_0000_0000,
            lo * lo <= x,
            hi * hi > x,
        decreases hi - lo,
    {
        let mid: u64 = lo + (hi - lo) / 2;
        assert(mid * mid <= 0xffff_ffff * 0xffff_ffff) by (nonlinear_arith)
            requires
                0 <= mid <= 0xffff_ffff,
        ;
        if mid * mid <= x {
            lo = mid;
        } else {
            hi = mid;
        }
    }
    proof {
        assert(is_root(x, lo));
        lemma_root_unique(x, lo, word_root(x));
    }
    lo
}

impl Default for Word {
    fn default() -> (r: Self)
        ensures
            r == Word(0),
    {
        Word(0)
    }
}

impl Scalar for Word {
    open spec fn of_raw_spec(raw: u64) -> Self {
        Word(raw)
    }

    open spec fn raw_spec(self) -> u64 {
        self.0
    }

    open spec fn of_int_spec(v: i64) -> Self {
        Word(v as u64)
    }

    open spec fn trunc_spec(self) -> i32 {
        if self.0 <= 0x7fff_ffff {
            self.0 as i32
        } else {
            0x7fff_ffff
        }
    }

    open spec fn add_spec(self, o: Self) -> Self {
        Word(self.0.wrapping_add(o.0))
    }

    open spec fn sub_spec(self, o: Self) -> Self {
        Word(self.0.wrapping_sub(o.0))
    }

    open spec fn mul_spec(self, o: Self) -> Self {
        Word(self.0.wrapping_mul(o.0))
    }

    open spec fn div_spec(self, o: Self) -> Self {
        if o.0 == 0 {
            Word(0)
        } else {
            Word((self.0 / o.0) as u64)
        }
    }

    open spec fn fma_spec(self, b: Self, c: Self) -> Self {
        Word(self.0.wrapping_mul(b.0).wrapping_add(c.0))
    }

    open spec fn neg_spec(self) -> Self {
        Word(0u64.wrapping_sub(self.0))
    }

    open spec fn abs_spec(self) -> Self {
        self
    }

    open spec fn sqrt_spec(self) -> Self {
        Word(word_root(self.0))
    }

    open spec fn max_spec(self, o: Self) -> Self {
        if self.0 < o.0 {
            o
        } else {
            self
        }
    }

    open spec fn lt_spec(self, o: Self) -> bool {
        self.0 < o.0
    }

    open spec fn same_spec(self, o: Self) -> bool {
        self.0 == o.0
    }

    open spec fn finite_spec(self) -> bool {
        true
    }

    fn of_raw(raw: u64) -> (r: Self) {
        Word(raw)
    }

    fn raw(self) -> (r: u64) {
        self.0
    }

    fn of_int(v: i64) -> (r: Self) {
        Word(v as u64)
    }

    fn trunc(self) -> (r: i32) {
        if self.0 <= 0x7fff_ffff {
            self.0 as i32
        } else {
            0x7fff_ffff
        }
    }

    fn add(self, o: Self) -> (r: Self) {
        Word(self.0.wrapping_add(o.0))
    }

    fn sub(self, o: Self) -> (r: Self) {
        Word(self.0.wrapping_sub(o.0))
    }

    fn mul(self, o: Self) -> (r: Self) {
        Word(self.0.wrapping_mul(o.0))
    }

    fn div(self, o: Self) -> (r: Self) {
        if o.0 == 0 {
            Word(0)
        } else {
            Word(self.0 / o.0)
        }
    }

    fn fma(self, b: Self, c: Self) -> (r: Self) {
        Word(self.0.wrapping_mul(b.0).wrapping_add(c.0))
    }

    fn neg(self) -> (r: Self) {
        Word(0u64.wrapping_sub(self.0))
    }

    fn abs(self) -> (r: Self) {
        self
    }

    fn sqrt(self) -> (r: Self) {
        Word(root_of(self.0))
    }

    fn max(self, o: Self) -> (r: Self) {
        if self.0 < o.0 {
            o
        } else {
            self
        }
    }

    fn lt(self, o: Self) -> (r: bool) {
        self.0 < o.0
    }

    fn same(self, o: Self) -> (r: bool) {
        self.0 == o.0
    }

    fn finite(self) -> (r: bool) {
        true
    }
}

impl Double for Word {

}

impl Single for Word {
    type Wide = Word;

    open spec fn widen_spec(self) -> Self::Wide {
        self
    }

    open spec fn narrow_spec(w: Self::Wide) -> Self {
        w
    }

    fn widen(self) -> (r: Self::Wide) {
        self
    }

    fn narrow(w: Self::Wide) -> (r: Self) {
        w
    }
}

} // verus!
