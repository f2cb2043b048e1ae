//! Sizes of the row-wise and elementwise calls.
use vstd::prelude::*;

verus! {

/// Rows, columns and elements of a matrix whose sizes came in as `i32`; nothing where one
/// of them is negative or the number of elements does not fit.
pub fn softmax_shape(n_rows: i32, n_cols: i32) -> (r: Option<(usize, usize, usize)>)
    ensures
        r == (if n_rows < 0 || n_cols < 0 || n_rows * n_cols > usize::MAX {
            None::<(usize, usize, usize)>
        } else {
            Some((n_rows as usize, n_cols as usize, (n_rows * n_cols) as usize))
        }),
{
    if n_rows < 0 || n_cols < 0 {
        return None;
    }
    let (rows, cols): (usize, usize) = (n_rows as usize, n_cols as usize);
    match rows.checked_mul(cols) {
        Some(n) => Some((rows, cols, n)),
        None => None,
    }
}

/// A length that came in as an `i32`; none where it is negative.
pub fn clamped_len(n: i32) -> (r: usize)
    ensures
        r == (if n < 0 {
            0
        } else {
            n as int
        }),
{
    if n < 0 {
        0
    } else {
        n as usize
    }
}

} // verus!
