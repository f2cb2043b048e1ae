//! Rotary position embedding.
//!
//! The first `n_dims` columns of a row are rotated in pairs by tabulated angles; the
//! others are copied.
use crate::math::lemma_row_fits;
use crate::ops::matmul::at;
use crate::scalar::{Scalar, Single};
use vstd::prelude::*;

verus! {

/// Which columns are rotated together.
#[derive(Clone, Copy, Debug, PartialEq, Eq, Structural)]
pub enum RopeMode {
    /// Column `i` with column `i + n_dims/2`.
    NeoX,
    /// Column `2i` with column `2i + 1`.
    GptJ,
}

impl RopeMode {
    /// The integer that stands for the mode.
    pub open spec fn code(self) -> int {
        match self {
            RopeMode::NeoX => 0,
            RopeMode::GptJ => 1,
        }
    }

    /// The mode that `v` stands for, if any.
    pub fn from_i32(v: i32) -> (r: Option<Self>)
        ensures
            match r {
                Some(m) => m.code() == v,
                None => v != 0 && v != 1,
            },
    {
        match v {
            0 => Some(RopeMode::NeoX),
            1 => Some(RopeMode::GptJ),
            _ => None,
        }
    }

    /// The integer that stands for the mode.
    pub fn as_i32(self) -> (r: i32)
        ensures
            r == self.code(),
    {
        match self {
            RopeMode::NeoX => 0,
            RopeMode::GptJ => 1,
        }
    }
}

/// Law: the integer determines the mode.
pub proof fn law_mode_codes_distinct(a: RopeMode, b: RopeMode)
    requires
        a.code() == b.code(),
    ensures
        a == b,
{
}

/// A pair turned by an angle with cosine `c` and sine `s`: one product and one fused step
/// each.
pub open spec fn rotated<S: Single>(x0: S, x1: S, c: S, s: S) -> (S, S) {
    (x0.fma_spec(c, x1.mul_spec(s).neg_spec()), x1.fma_spec(c, x0.mul_spec(s)))
}

/// Computes [`rotated`].
pub fn rotate_pair<S: Single>(x0: S, x1: S, c: S, s: S) -> (r: (S, S))
    ensures
        r == rotated(x0, x1, c, s),
{
    let t1: S = x1.mul(s);
    let t0: S = x0.mul(s);
    (x0.fma(c, t1.neg()), x1.fma(c, t0))
}

/// First column of pair `i`.
pub open spec fn first_of(mode: RopeMode, i: int) -> int {
    match mode {
        RopeMode::NeoX => i,
        RopeMode::GptJ => 2 * i,
    }
}

/// Second column of pair `i`; there are `half` pairs.
pub open spec fn second_of(mode: RopeMode, half: int, i: int) -> int {
    match mode {
        RopeMode::NeoX => i + half,
        RopeMode::GptJ => 2 * i + 1,
    }
}

/// The pair that column `j` belongs to.
pub open spec fn pair_of(mode: RopeMode, half: int, j: int) -> int {
    match mode {
        RopeMode::NeoX => if j < half {
            j
        } else {
            j - half
        },
        RopeMode::GptJ => j / 2,
    }
}

/// Law: every rotated column is in exactly one pair, as its first or its second column.
pub proof fn law_pairs_partition(mode: RopeMode, half: int, j: int)
    requires
        0 <= j < 2 * half,
    ensures
        0 <= pair_of(mode, half, j) < half,
        first_of(mode, pair_of(mode, half, j)) == j || second_of(
            mode,
            half,
            pair_of(mode, half, j),
        ) == j,
        forall|i: int|
            0 <= i < half && (#[trigger] first_of(mode, i) == j || second_of(mode, half, i) == j)
                ==> i == pair_of(mode, half, j),
        forall|i: int|
            0 <= i < half ==> 0 <= #[trigger] first_of(mode, i) < 2 * half && 0 <= second_of(
                mode,
                half,
                i,
            ) < 2 * half && first_of(mode, i) != second_of(mode, half, i),
{
}

/// Column `j` of row `r` after the rotation.
pub open spec fn roped<S: Single>(
    x: Seq<S>,
    cos: Seq<S>,
    sin: Seq<S>,
    cols: int,
    n_dims: int,
    mode: RopeMode,
    r: int,
    j: int,
) -> S {
    if j >= n_dims {
        at(x, cols, r, j)
    } else {
        let half = n_dims / 2;
        let i = pair_of(mode, half, j);
        let y = rotated(
            at(x, cols, r, first_of(mode, i)),
            at(x, cols, r, second_of(mode, half, i)),
            at(cos, half, r, i),
            at(sin, half, r, i),
        );
        if j == first_of(mode, i) {
            y.0
        } else {
            y.1
        }
    }
}

/// Rotates every row of a `rows × cols` matrix; `cos` and `sin` hold `n_dims/2` values per
/// row.
pub fn rope_f32<S: Single>(
    x: &[S],
    cos: &[S],
    sin: &[S],
    rows: usize,
    cols: usize,
    n_dims: usize,
    mode: RopeMode,
    out: &mut [S],
)
    requires
        x@.len() == rows * cols,
        old(out)@.len() == rows * cols,
        n_dims % 2 == 0,
        n_dims <= cols,
        cos@.len() == rows * (n_dims / 2),
        sin@.len() == rows * (n_dims / 2),
    ensures
        final(out)@.len() == rows * cols,
        forall|r: int, j: int|
            0 <= r < rows && 0 <= j < cols ==> #[trigger] at(final(out)@, cols as int, r, j)
                == roped(x@, cos@, sin@, cols as int, n_dims as int, mode, r, j),
{
    let half: usize = n_dims / 2;
    let ghost (nc, nd, nh) = (cols as int, n_dims as int, half as int);
    let mut r: usize = 0;
    while r < rows
        invariant
            r <= rows,
            nc == cols,
            nd == n_dims,
            nh == half,
            x.len() == rows * cols,
            out.len() == rows * cols,
            n_dims == 2 * half,
            n_dims <= cols,
            cos.len() == rows * half,
            sin.len() == rows * half,
            forall|q: int, j: int|
                0 <= q < r && 0 <= j < cols ==> #[trigger] at(out@, nc, q, j) == roped(
                    x@,
                    cos@,
                    sin@,
                    nc,
                    nd,
                    mode,
                    q,
                    j,
                ),
        decreases rows - r,
    {
        proof {
            lemma_row_fits(r as int, rows as int, nc);
            lemma_row_fits(r as int, rows as int, nh);
        }
        let base: usize = r * cols;
        let tbase: usize = r * half;
        let mut j: usize = n_dims;
        while j < cols
            invariant
                r < rows,
                n_dims <= j <= cols,
                nc == cols,
                nd == n_dims,
                n_dims == 2 * half,
                base == r * cols,
                base + cols <= x.len(),
                x.len() == rows * cols,
                out.len() == rows * cols,
                forall|q: int, c: int|
                    0 <= q < r && 0 <= c < cols ==> #[trigger] at(out@, nc, q, c) == roped(
                        x@,
                        cos@,
                        sin@,
                        nc,
                        nd,
                        mode,
                        q,
                        c,
                    ),
                forall|c: int|
                    n_dims <= c < j ==> #[trigger] at(out@, nc, r as int, c) == at(
                        x@,
                        nc,
                        r as int,
                        c,
                    ),
            decreases cols - j,
        {
            let ghost before = out@;
            out[base + j] = x[base + j];
            proof {
                lemma_one_set(before, out@, rows as int, nc, r as int, j as int);
            }
            j = j + 1;
        }
        let mut i: usize = 0;
        while i < half
            invariant
                r < rows,
                i <= half,
                nc == cols,
                nd == n_dims,
                nh == half,
                n_dims == 2 * half,
                n_dims <= cols,
                base == r * cols,
                base + cols <= x.len(),
                tbase == r * half,
                tbase + half <= cos.len(),
                x.len() == rows * cols,
                out.len() == rows * cols,
                cos.len() == rows * half,
                sin.len() == rows * half,
                forall|q: int, c: int|
                    0 <= q < r && 0 <= c < cols ==> #[trigger] at(out@, nc, q, c) == roped(
                        x@,
                        cos@,
                        sin@,
                        nc,
                        nd,
                        mode,
                        q,
                        c,
                    ),
                forall|c: int|
                    0 <= c < cols && (c >= n_dims || pair_of(mode, nh, c) < i) ==> #[trigger] at(
                        out@,
                        nc,
                        r as int,
                        c,
                    ) == roped(x@, cos@, sin@, nc, nd, mode, r as int, c),
            decreases half - i,
        {
            let (p0, p1): (usize, usize) = match mode {
                RopeMode::NeoX => (i, i + half),
                RopeMode::GptJ => (2 * i, 2 * i + 1),
            };
            let y = rotate_pair(x[base + p0], x[base + p1], cos[tbase + i], sin[tbase + i]);
            let ghost before = out@;
            out[base + p0] = y.0;
            let ghost mid = out@;
            out[base + p1] = y.1;
            proof {
                lemma_one_set(before, mid, rows as int, nc, r as int, p0 as int);
                lemma_one_set(mid, out@, rows as int, nc, r as int, p1 as int);
                assert forall|c: int|
                    0 <= c < cols && (c >= n_dims || pair_of(mode, nh, c) < i
                        + 1) implies #[trigger] at(out@, nc, r as int, c) == roped(
                    x@,
                    cos@,
                    sin@,
                    nc,
                    nd,
                    mode,
                    r as int,
                    c,
                ) by {
                    let (v0, v1) = (at(before, nc, r as int, c), at(mid, nc, r as int, c));
                    if c < n_dims {
                        law_pairs_partition(mode, nh, c);
                    }
                }
                assert forall|q: int, c: int|
                    0 <= q < r && 0 <= c < cols implies #[trigger] at(out@, nc, q, c) == roped(
                    x@,
                    cos@,
                    sin@,
                    nc,
                    nd,
                    mode,
                    q,
                    c,
                ) by {
                    let (v0, v1) = (at(before, nc, q, c), at(mid, nc, q, c));
                }
            }
            i = i + 1;
        }
        proof {
            assert forall|c: int| 0 <= c < cols implies #[trigger] at(out@, nc, r as int, c)
                == roped(x@, cos@, sin@, nc, nd, mode, r as int, c) by {
                if c < n_dims {
                    law_pairs_partition(mode, nh, c);
                }
            }
        }
        r = r + 1;
    }
}

/// Setting one element leaves every other one.
proof fn lemma_one_set<S>(before: Seq<S>, after: Seq<S>, rows: int, cols: int, r: int, j: int)
    requires
        0 <= r < rows,
        0 <= j < cols,
        before.len() == rows * cols,
        after.len() == before.len(),
        forall|p: int|
            0 <= p < before.len() && p != r * cols + j ==> #[trigger] after[p] == before[p],
    ensures
        forall|q: int, c: int|
            0 <= q < rows && 0 <= c < cols && (q != r || c != j) ==> #[trigger] at(
                after,
                cols,
                q,
                c,
            ) == at(before, cols, q, c),
{
    assert forall|q: int, c: int|
        0 <= q < rows && 0 <= c < cols && (q != r || c != j) implies #[trigger] at(
        after,
        cols,
        q,
        c,
    ) == at(before, cols, q, c) by {
        lemma_row_fits(q, rows, cols);
        if q * cols + c == r * cols + j {
            crate::math::lemma_position_unique(cols, q, c, r, j);
        }
    }
}

} // verus!
