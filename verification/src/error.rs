//! Errors of the slice interface, and the checks that report them.
use crate::scalar::{zero, Scalar};
use vstd::prelude::*;

verus! {

/// What a call was refused for. Every variant names the operation and the argument.
#[derive(Debug, Clone, PartialEq, Eq)]
#[non_exhaustive]
pub enum Error {
    /// An array is not as long as the operation needs it.
    Shape {
        /// Name of the operation.
        op: &'static str,
        /// Name of the argument.
        what: &'static str,
        /// The length that is needed.
        expected: usize,
        /// The length that was given.
        got: usize,
    },
    /// A product of sizes does not fit in `usize`.
    Overflow {
        /// Name of the operation.
        op: &'static str,
        /// The product, such as `m×k`.
        what: &'static str,
    },
    /// A constant is infinite or undefined.
    NotFinite {
        /// Name of the operation.
        op: &'static str,
        /// Name of the argument.
        what: &'static str,
        /// Bit pattern of the value that was given.
        value: u64,
    },
    /// A constant that has to be positive is not.
    NotPositive {
        /// Name of the operation.
        op: &'static str,
        /// Name of the argument.
        what: &'static str,
        /// Bit pattern of the value that was given.
        value: u64,
    },
}

/// The decimal digit `d`.
pub open spec fn digit(d: int) -> Seq<char> {
    if d == 0 {
        "0"@
    } else if d == 1 {
        "1"@
    } else if d == 2 {
        "2"@
    } else if d == 3 {
        "3"@
    } else if d == 4 {
        "4"@
    } else if d == 5 {
        "5"@
    } else if d == 6 {
        "6"@
    } else if d == 7 {
        "7"@
    } else if d == 8 {
        "8"@
    } else {
        "9"@
    }
}

/// `n` in decimal, without leading zeros.
pub open spec fn decimal(n: nat) -> Seq<char>
    decreases n,
{
    if n < 10 {
        digit(n as int)
    } else {
        decimal(n / 10) + digit((n % 10) as int)
    }
}

/// Appends `n` in decimal.
fn push_decimal(s: &mut String, n: usize)
    ensures
        final(s)@ == old(s)@ + decimal(n as nat),
    decreases n,
{
    let ghost before = s@;
    if n >= 10 {
        push_decimal(s, n / 10);
    }
    let d: usize = n % 10;
    let ghost mid = s@;
    let text: &str = match d {
        0 => "0",
        1 => "1",
        2 => "2",
        3 => "3",
        4 => "4",
        5 => "5",
        6 => "6",
        7 => "7",
        8 => "8",
        _ => "9",
    };
    s.append(text);
    proof {
        if n >= 10 {
            assert(s@ =~= before + (decimal((n / 10) as nat) + digit(d as int)));
        }
    }
}

impl Error {
    /// What the error says; `value` is how the refused constant reads.
    pub open spec fn text(self, value: Seq<char>) -> Seq<char> {
        match self {
            Error::Shape { op, what, expected, got } => op@ + ": 参数 "@ + what@ + " 的长度应为 "@
                + decimal(expected as nat) + "，实际 "@ + decimal(got as nat),
            Error::Overflow { op, what } => op@ + ": "@ + what@ + " 溢出"@,
            Error::NotFinite { op, what, .. } => op@ + ": 常数 "@ + what@
                + " 必须是有限数，得到 "@ + value,
            Error::NotPositive { op, what, .. } => op@ + ": 常数 "@ + what@
                + " 必须为正，得到 "@ + value,
        }
    }

    /// A sentence for the user; `value` is how the refused constant reads, where there is
    /// one.
    pub fn message(&self, value: &str) -> (r: String)
        ensures
            r@ == self.text(value@),
    {
        let mut s: String = String::new();
        match self {
            Error::Shape { op, what, expected, got } => {
                s.append(op);
                s.append(": 参数 ");
                s.append(what);
                s.append(" 的长度应为 ");
                push_decimal(&mut s, *expected);
                s.append("，实际 ");
                push_decimal(&mut s, *got);
            },
            Error::Overflow { op, what } => {
                s.append(op);
                s.append(": ");
                s.append(what);
                s.append(" 溢出");
            },
            Error::NotFinite { op, what, value: _ } => {
                s.append(op);
                s.append(": 常数 ");
                s.append(what);
                s.append(" 必须是有限数，得到 ");
                s.append(value);
            },
            Error::NotPositive { op, what, value: _ } => {
                s.append(op);
                s.append(": 常数 ");
                s.append(what);
                s.append(" 必须为正，得到 ");
                s.append(value);
            },
        }
        proof {
            assert(s@ =~= self.text(value@));
        }
        s
    }
}

/// A length has to be `expected`.
pub open spec fn len_result(
    op: &'static str,
    what: &'static str,
    got: nat,
    expected: nat,
) -> Result<(), Error> {
    if got == expected {
        Ok(())
    } else {
        Err(Error::Shape { op, what, expected: expected as usize, got: got as usize })
    }
}

/// Checks that a length is `expected`.
pub fn expect_len(
    op: &'static str,
    what: &'static str,
    got: usize,
    expected: usize,
) -> (r: Result<(), Error>)
    ensures
        r == len_result(op, what, got as nat, expected as nat),
{
    if got == expected {
        Ok(())
    } else {
        Err(Error::Shape { op, what, expected, got })
    }
}

/// Checks that a length is at least `min`.
pub fn expect_at_least(
    op: &'static str,
    what: &'static str,
    got: usize,
    min: usize,
) -> (r: Result<(), Error>)
    ensures
        r == (if got >= min {
            Ok::<(), Error>(())
        } else {
            Err(Error::Shape { op, what, expected: min, got })
        }),
{
    if got >= min {
        Ok(())
    } else {
        Err(Error::Shape { op, what, expected: min, got })
    }
}

/// Where the first array that is not as long as the first one stands, if any.
pub open spec fn first_odd(lens: Seq<(&'static str, usize)>, from: int) -> int
    decreases lens.len() - from,
{
    if from >= lens.len() {
        lens.len() as int
    } else if lens[from].1 != lens[0].1 {
        from
    } else {
        first_odd(lens, from + 1)
    }
}

/// What [`expect_same_len`] returns.
pub open spec fn same_len_result(
    op: &'static str,
    lens: Seq<(&'static str, usize)>,
) -> Result<usize, Error> {
    let x = first_odd(lens, 1);
    if x >= lens.len() {
        Ok(lens[0].1)
    } else {
        Err(Error::Shape { op, what: lens[x].0, expected: lens[0].1, got: lens[x].1 })
    }
}

/// Checks that a group of arrays has one common length, and returns it; names the first
/// array that differs from the first one.
pub fn expect_same_len(op: &'static str, lens: &[(&'static str, usize)]) -> (r: Result<
    usize,
    Error,
>)
    requires
        lens@.len() > 0,
    ensures
        r == same_len_result(op, lens@),
{
    let n: usize = lens[0].1;
    let mut i: usize = 1;
    while i < lens.len()
        invariant
            1 <= i <= lens@.len(),
            n == lens@[0].1,
            first_odd(lens@, 1) == first_odd(lens@, i as int),
        decreases lens@.len() - i,
    {
        if lens[i].1 != n {
            return Err(Error::Shape { op, what: lens[i].0, expected: n, got: lens[i].1 });
        }
        i = i + 1;
    }
    Ok(n)
}

/// Multiplies two sizes, or names the product that does not fit.
pub fn checked_mul(op: &'static str, what: &'static str, a: usize, b: usize) -> (r: Result<
    usize,
    Error,
>)
    ensures
        r == (if a * b <= usize::MAX {
            Ok::<usize, Error>((a * b) as usize)
        } else {
            Err(Error::Overflow { op, what })
        }),
{
    match a.checked_mul(b) {
        Some(v) => Ok(v),
        None => Err(Error::Overflow { op, what }),
    }
}

/// What [`expect_finite`] returns.
pub open spec fn finite_result<S: Scalar>(
    op: &'static str,
    what: &'static str,
    value: S,
) -> Result<(), Error> {
    if value.finite_spec() {
        Ok(())
    } else {
        Err(Error::NotFinite { op, what, value: value.raw_spec() })
    }
}

/// Checks that a constant is finite.
pub fn expect_finite<S: Scalar>(op: &'static str, what: &'static str, value: S) -> (r: Result<
    (),
    Error,
>)
    ensures
        r == finite_result(op, what, value),
{
    if value.finite() {
        Ok(())
    } else {
        Err(Error::NotFinite { op, what, value: value.raw() })
    }
}

/// What [`expect_positive`] returns.
pub open spec fn positive_result<S: Scalar>(
    op: &'static str,
    what: &'static str,
    value: S,
) -> Result<(), Error> {
    if zero::<S>().lt_spec(value) {
        Ok(())
    } else {
        Err(Error::NotPositive { op, what, value: value.raw_spec() })
    }
}

/// Checks that a constant is positive.
pub fn expect_positive<S: Scalar>(op: &'static str, what: &'static str, value: S) -> (r: Result<
    (),
    Error,
>)
    ensures
        r == positive_result(op, what, value),
{
    if S::of_raw(0).lt(value) {
        Ok(())
    } else {
        Err(Error::NotPositive { op, what, value: value.raw() })
    }
}

} // verus!
