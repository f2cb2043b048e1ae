//! Arithmetic without rounding.
//!
//! The contracts of the kernels say which operations are carried out, in which order. What
//! comes of them is plain to see where no operation rounds: [`Exact`] is such an arithmetic,
//! and the laws in [`crate::laws`] hold for every one of them.
use crate::plan::PackedKernel;
use crate::scalar::{Double, Scalar, Single};
use vstd::prelude::*;

verus! {

/// The larger of two numbers.
pub open spec fn real_max(a: real, b: real) -> real {
    if a < b {
        b
    } else {
        a
    }
}

/// The magnitude of a number.
pub open spec fn real_abs(a: real) -> real {
    if a < 0real {
        -a
    } else {
        a
    }
}

/// `r` is the square root of `x`.
pub open spec fn is_real_root(x: real, r: real) -> bool {
    r >= 0real && r * r == x
}

/// Numbers that stand for real numbers, and whose operations are those of the reals.
///
/// Nothing is known of comparisons, patterns and conversions to integers.
pub trait Exact: Scalar {
    /// The real number that the value stands for.
    spec fn value(self) -> real;

    /// No operation rounds.
    proof fn no_rounding()
        ensures
            Self::of_raw_spec(0).value() == 0real,
            forall|v: i64| (#[trigger] Self::of_int_spec(v)).value() == v as real,
            forall|a: Self, b: Self| (#[trigger] a.add_spec(b)).value() == a.value() + b.value(),
            forall|a: Self, b: Self| (#[trigger] a.sub_spec(b)).value() == a.value() - b.value(),
            forall|a: Self, b: Self| (#[trigger] a.mul_spec(b)).value() == a.value() * b.value(),
            forall|a: Self, b: Self, c: Self|
                (#[trigger] a.fma_spec(b, c)).value() == a.value() * b.value() + c.value(),
            forall|a: Self| (#[trigger] a.neg_spec()).value() == -a.value(),
            forall|a: Self| (#[trigger] a.abs_spec()).value() == real_abs(a.value()),
            forall|a: Self, b: Self|
                (#[trigger] a.max_spec(b)).value() == real_max(a.value(), b.value()),
            forall|a: Self, b: Self|
                b.value() != 0real ==> (#[trigger] a.div_spec(b)).value() == a.value() / b.value(),
    ;

    /// Nor does the square root of a number that has one.
    proof fn exact_root(a: Self, r: real)
        requires
            is_real_root(a.value(), r),
        ensures
            a.sqrt_spec().value() == r,
    ;
}

/// [`Exact`] numbers whose patterns are those of double precision.
pub trait ExactDouble: Exact + Double {
    /// The patterns of the constants stand for the constants.
    proof fn constants()
        ensures
            Self::of_raw_spec(0x3fe0_0000_0000_0000).value() == 1real / 2real,
            Self::of_raw_spec(0x3ff0_0000_0000_0000).value() == 1real,
            Self::of_raw_spec(0x3ff8_0000_0000_0000).value() == 3real / 2real,
            Self::of_raw_spec(0x4000_0000_0000_0000).value() == 2real,
            Self::of_raw_spec(0x4008_0000_0000_0000).value() == 3real,
            Self::of_raw_spec(0x4014_0000_0000_0000).value() == 5real,
            Self::of_raw_spec(0x4018_0000_0000_0000).value() == 6real,
    ;
}

/// [`Exact`] numbers whose patterns are those of single precision.
pub trait ExactSingle: Exact + Single {
    /// The real number that a number of the wider format stands for.
    spec fn wide_value(w: Self::Wide) -> real;

    /// The patterns of the constants stand for the constants, the wider format does not
    /// round either, and changing the format changes no value.
    proof fn formats()
        ensures
            Self::of_raw_spec(0x3f00_0000).value() == 1real / 2real,
            Self::of_raw_spec(0x3f80_0000).value() == 1real,
            Self::wide_value(<Self::Wide as Scalar>::of_raw_spec(0)) == 0real,
            forall|v: i64|
                Self::wide_value(#[trigger] <Self::Wide as Scalar>::of_int_spec(v)) == v as real,
            forall|a: Self::Wide, b: Self::Wide|
                Self::wide_value(#[trigger] a.add_spec(b)) == Self::wide_value(a)
                    + Self::wide_value(b),
            forall|a: Self::Wide, b: Self::Wide|
                Self::wide_value(#[trigger] a.mul_spec(b)) == Self::wide_value(a)
                    * Self::wide_value(b),
            forall|a: Self| Self::wide_value(#[trigger] a.widen_spec()) == a.value(),
            forall|w: Self::Wide|
                (#[trigger] Self::narrow_spec(w)).value() == Self::wide_value(w),
    ;
}

/// Real numbers, as the kernels see them. They exist in proofs only: running a kernel on
/// them leaves nothing but the statement of what it computes.
pub struct Unrounded(pub Ghost<real>);

impl Clone for Unrounded {
    fn clone(&self) -> (r: Self)
        ensures
            r == *self,
    {
        Unrounded(self.0)
    }
}

impl Copy for Unrounded {

}

impl Default for Unrounded {
    fn default() -> (r: Self)
        ensures
            r == Unrounded(Ghost(0real)),
    {
        Unrounded(Ghost(0real))
    }
}

/// The number behind a pattern that the kernels use as a constant; zero behind any other.
pub open spec fn constant_behind(raw: u64) -> real {
    if raw == 0x3fe0_0000_0000_0000 || raw == 0x3f00_0000 {
        1real / 2real
    } else if raw == 0x3ff0_0000_0000_0000 || raw == 0x3f80_0000 {
        1real
    } else if raw == 0x3ff8_0000_0000_0000 {
        3real / 2real
    } else if raw == 0x4000_0000_0000_0000 {
        2real
    } else if raw == 0x4008_0000_0000_0000 {
        3real
    } else if raw == 0x4014_0000_0000_0000 {
        5real
    } else if raw == 0x4018_0000_0000_0000 {
        6real
    } else {
        0real
    }
}

/// The square root of a number that has one.
pub open spec fn real_root(x: real) -> real {
    choose|r: real| #[trigger] is_real_root(x, r)
}

impl Scalar for Unrounded {
    open spec fn of_raw_spec(raw: u64) -> Self {
        Unrounded(Ghost(constant_behind(raw)))
    }

    open spec fn raw_spec(self) -> u64 {
        0
    }

    open spec fn of_int_spec(v: i64) -> Self {
        Unrounded(Ghost(v as real))
    }

    open spec fn trunc_spec(self) -> i32 {
        0
    }

    open spec fn add_spec(self, o: Self) -> Self {
        Unrounded(Ghost(self.0@ + o.0@))
    }

    open spec fn sub_spec(self, o: Self) -> Self {
        Unrounded(Ghost(self.0@ - o.0@))
    }

    open spec fn mul_spec(self, o: Self) -> Self {
        Unrounded(Ghost(self.0@ * o.0@))
    }

    open spec fn div_spec(self, o: Self) -> Self {
        Unrounded(Ghost(self.0@ / o.0@))
    }

    open spec fn fma_spec(self, b: Self, c: Self) -> Self {
        Unrounded(Ghost(self.0@ * b.0@ + c.0@))
    }

    open spec fn neg_spec(self) -> Self {
        Unrounded(Ghost(-self.0@))
    }

    open spec fn abs_spec(self) -> Self {
        Unrounded(Ghost(real_abs(self.0@)))
    }

    open spec fn sqrt_spec(self) -> Self {
        Unrounded(Ghost(real_root(self.0@)))
    }

    open spec fn max_spec(self, o: Self) -> Self {
        Unrounded(Ghost(real_max(self.0@, o.0@)))
    }

    open spec fn lt_spec(self, o: Self) -> bool {
        false
    }

    open spec fn same_spec(self, o: Self) -> bool {
        false
    }

    open spec fn finite_spec(self) -> bool {
        true
    }

    fn of_raw(raw: u64) -> (r: Self) {
        Unrounded(Ghost(constant_behind(raw)))
    }

    fn raw(self) -> (r: u64) {
        0
    }

    fn of_int(v: i64) -> (r: Self) {
        Unrounded(Ghost(v as real))
    }

    fn trunc(self) -> (r: i32) {
        0
    }

    fn add(self, o: Self) -> (r: Self) {
        Unrounded(Ghost(self.0@ + o.0@))
    }

    fn sub(self, o: Self) -> (r: Self) {
        Unrounded(Ghost(self.0@ - o.0@))
    }

    fn mul(self, o: Self) -> (r: Self) {
        Unrounded(Ghost(self.0@ * o.0@))
    }

    fn div(self, o: Self) -> (r: Self) {
        Unrounded(Ghost(self.0@ / o.0@))
    }

    fn fma(self, b: Self, c: Self) -> (r: Self) {
        Unrounded(Ghost(self.0@ * b.0@ + c.0@))
    }

    fn neg(self) -> (r: Self) {
        Unrounded(Ghost(-self.0@))
    }

    fn abs(self) -> (r: Self) {
        Unrounded(Ghost(real_abs(self.0@)))
    }

    fn sqrt(self) -> (r: Self) {
        Unrounded(Ghost(real_root(self.0@)))
    }

    fn max(self, o: Self) -> (r: Self) {
        Unrounded(Ghost(real_max(self.0@, o.0@)))
    }

    fn lt(self, o: Self) -> (r: bool) {
        false
    }

    fn same(self, o: Self) -> (r: bool) {
        false
    }

    fn finite(self) -> (r: bool) {
        true
    }
}

impl Double for Unrounded {

}

impl Single for Unrounded {
    type Wide = Unrounded;

    open spec fn widen_spec(self) -> Self::Wide {
        self
    }

    open spec fn narrow_spec(w: Self::Wide) -> Self {
        w
    }

    fn widen(self) -> (r: Self::Wide) {
        self
    }

    fn narrow(w: Self::Wide) -> (r: Self) {
        w
    }
}

impl PackedKernel for Unrounded {
    const STRIP: usize = 32;

    const LANES: usize = 8;

    const BYTES: usize = 4;

    proof fn layout() {
    }
}

impl Exact for Unrounded {
    open spec fn value(self) -> real {
        self.0@
    }

    proof fn no_rounding() {
    }

    proof fn exact_root(a: Self, r: real) {
        let s = real_root(a.0@);
        assert(is_real_root(a.0@, s));
        assert(r == s) by (nonlinear_arith)
            requires
                r >= 0real,
                s >= 0real,
                r * r == s * s,
        ;
    }
}

impl ExactDouble for Unrounded {
    proof fn constants() {
    }
}

impl ExactSingle for Unrounded {
    open spec fn wide_value(w: Self::Wide) -> real {
        w.0@
    }

    proof fn formats() {
    }
}

/// The sum of `f(from), …, f(to - 1)`.
pub open spec fn total(f: spec_fn(int) -> real, from: int, to: int) -> real
    decreases to - from,
{
    if to <= from {
        0real
    } else {
        total(f, from, to - 1) + f(to - 1)
    }
}

/// A sum may be cut anywhere.
pub proof fn lemma_total_cut(f: spec_fn(int) -> real, from: int, mid: int, to: int)
    requires
        from <= mid <= to,
    ensures
        total(f, from, to) == total(f, from, mid) + total(f, mid, to),
    decreases to - mid,
{
    if mid < to {
        lemma_total_cut(f, from, mid, to - 1);
    }
}

/// Sums of equal terms are equal.
pub proof fn lemma_total_same(
    f: spec_fn(int) -> real,
    g: spec_fn(int) -> real,
    from: int,
    to: int,
)
    requires
        forall|i: int| from <= i < to ==> #[trigger] f(i) == g(i),
    ensures
        total(f, from, to) == total(g, from, to),
    decreases to - from,
{
    if from < to {
        lemma_total_same(f, g, from, to - 1);
    }
}

} // verus!
