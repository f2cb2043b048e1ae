//! Status codes of the checked entry points, and the checks that produce them.
use crate::scalar::{zero, Scalar};
use vstd::prelude::*;

verus! {

/// Outcome of a checked call; its code is zero on success.
#[derive(Clone, Copy, PartialEq, Eq, Structural, Debug)]
pub enum LasxStatus {
    /// Success.
    Success,
    /// A null pointer with a length other than zero.
    NullPointer,
    /// A negative length.
    NegativeLength,
    /// A shape that contradicts itself.
    BadShape,
    /// A product of sizes that does not fit in `usize`.
    SizeOverflow,
    /// A constant that has to be positive and is not.
    NonPositiveConstant,
    /// A constant that is infinite or undefined.
    NonFiniteConstant,
}

impl LasxStatus {
    /// The integer code of the status.
    pub open spec fn code(self) -> int {
        match self {
            LasxStatus::Success => 0,
            LasxStatus::NullPointer => 1,
            LasxStatus::NegativeLength => 2,
            LasxStatus::BadShape => 3,
            LasxStatus::SizeOverflow => 4,
            LasxStatus::NonPositiveConstant => 5,
            LasxStatus::NonFiniteConstant => 6,
        }
    }

    /// The integer code of the status, as it crosses the C boundary.
    pub fn as_i32(self) -> (r: i32)
        ensures
            r == self.code(),
    {
        match self {
            LasxStatus::Success => 0,
            LasxStatus::NullPointer => 1,
            LasxStatus::NegativeLength => 2,
            LasxStatus::BadShape => 3,
            LasxStatus::SizeOverflow => 4,
            LasxStatus::NonPositiveConstant => 5,
            LasxStatus::NonFiniteConstant => 6,
        }
    }

    /// The reason in words.
    pub fn message(self) -> (r: &'static str)
        ensures
            r@ == (match self {
                LasxStatus::Success => "成功"@,
                LasxStatus::NullPointer => "指针为空"@,
                LasxStatus::NegativeLength => "长度为负"@,
                LasxStatus::BadShape => "矩阵形状不匹配"@,
                LasxStatus::SizeOverflow => "尺寸相乘溢出"@,
                LasxStatus::NonPositiveConstant => "常数必须为正"@,
                LasxStatus::NonFiniteConstant => "常数必须是有限值"@,
            }),
    {
        match self {
            LasxStatus::Success => "成功",
            LasxStatus::NullPointer => "指针为空",
            LasxStatus::NegativeLength => "长度为负",
            LasxStatus::BadShape => "矩阵形状不匹配",
            LasxStatus::SizeOverflow => "尺寸相乘溢出",
            LasxStatus::NonPositiveConstant => "常数必须为正",
            LasxStatus::NonFiniteConstant => "常数必须是有限值",
        }
    }

    /// Whether the status is success.
    pub fn is_ok(self) -> (r: bool)
        ensures
            r == (self is Success),
    {
        matches!(self, LasxStatus::Success)
    }

    /// The status with code `v`; `None` for a number that is no code.
    pub fn from_i32(v: i32) -> (r: Option<LasxStatus>)
        ensures
            match r {
                Some(s) => s.code() == v,
                None => !(0 <= v <= 6),
            },
    {
        match v {
            0 => Some(LasxStatus::Success),
            1 => Some(LasxStatus::NullPointer),
            2 => Some(LasxStatus::NegativeLength),
            3 => Some(LasxStatus::BadShape),
            4 => Some(LasxStatus::SizeOverflow),
            5 => Some(LasxStatus::NonPositiveConstant),
            6 => Some(LasxStatus::NonFiniteConstant),
            _ => None,
        }
    }

    /// Stores the code where the caller asked for it; `None` when the caller does not
    /// care.
    pub fn write(self, out: Option<&mut i32>)
        ensures
            out matches Some(o) ==> *final(o) == self.code(),
    {
        match out {
            Some(o) => {
                *o = self.as_i32();
            },
            None => {},
        }
    }
}

/// Law: the code determines the status.
pub proof fn law_codes_distinct(s: LasxStatus, t: LasxStatus)
    requires
        s.code() == t.code(),
    ensures
        s == t,
{
}

/// A length that came in as an `i32`: refused when negative.
pub fn checked_len(n: i32) -> (r: Result<usize, LasxStatus>)
    ensures
        r == (if n < 0 {
            Err::<usize, LasxStatus>(LasxStatus::NegativeLength)
        } else {
            Ok(n as usize)
        }),
{
    if n < 0 {
        Err(LasxStatus::NegativeLength)
    } else {
        Ok(n as usize)
    }
}

/// Whether an array of `n` elements may be given by a pointer that is null or not:
/// null stands for the empty array and for nothing else.
pub fn checked_pointer(is_null: bool, n: usize) -> (r: Result<(), LasxStatus>)
    ensures
        r == (if is_null && n > 0 {
            Err::<(), LasxStatus>(LasxStatus::NullPointer)
        } else {
            Ok(())
        }),
{
    if is_null && n > 0 {
        Err(LasxStatus::NullPointer)
    } else {
        Ok(())
    }
}

/// A product of two sizes, refused when it does not fit.
pub fn checked_mul(a: usize, b: usize) -> (r: Result<usize, LasxStatus>)
    ensures
        r == (if a * b <= usize::MAX {
            Ok((a * b) as usize)
        } else {
            Err::<usize, LasxStatus>(LasxStatus::SizeOverflow)
        }),
{
    match a.checked_mul(b) {
        Some(v) => Ok(v),
        None => Err(LasxStatus::SizeOverflow),
    }
}

/// What [`checked_positive`] says of a constant.
pub open spec fn positive_status<S: Scalar>(x: S) -> Result<(), LasxStatus> {
    if !x.finite_spec() {
        Err(LasxStatus::NonFiniteConstant)
    } else if !zero::<S>().lt_spec(x) {
        Err(LasxStatus::NonPositiveConstant)
    } else {
        Ok(())
    }
}

/// What [`checked_finite`] says of a constant.
pub open spec fn finite_status<S: Scalar>(x: S) -> Result<(), LasxStatus> {
    if x.finite_spec() {
        Ok(())
    } else {
        Err(LasxStatus::NonFiniteConstant)
    }
}

/// A constant that has to be finite and positive.
pub fn checked_positive<S: Scalar>(x: S) -> (r: Result<(), LasxStatus>)
    ensures
        r == positive_status(x),
{
    if !x.finite() {
        Err(LasxStatus::NonFiniteConstant)
    } else if !S::of_raw(0).lt(x) {
        Err(LasxStatus::NonPositiveConstant)
    } else {
        Ok(())
    }
}

/// A constant that has to be finite.
pub fn checked_finite<S: Scalar>(x: S) -> (r: Result<(), LasxStatus>)
    ensures
        r == finite_status(x),
{
    if x.finite() {
        Ok(())
    } else {
        Err(LasxStatus::NonFiniteConstant)
    }
}

} // verus!
