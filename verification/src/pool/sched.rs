//! Scheduling: how a range of rows is cut into jobs for a number of workers.
//!
//! A strategy is a pure function from `(rows, threads, gran)` to a job table. The
//! table lists row blocks in order; together they cover every row exactly once.
use crate::math::{ceil_div, div_ceil, max_nat, max_usize, min_nat, min_usize, next_multiple_of};
use crate::math::{lemma_ceil_div, lemma_ceil_div_least, lemma_round_up, round_up, rounds_up};
use vstd::prelude::*;

verus! {

/// One block of rows: `rows` of them, beginning at row `start`.
#[derive(Clone, Copy, Debug, PartialEq, Eq, Structural)]
pub struct Job {
    /// First row of the block.
    pub start: usize,
    /// Number of rows; at least one.
    pub rows: usize,
}

/// A job table, in the order in which its blocks lie.
pub type Jobs = Vec<Job>;

impl Job {
    /// The row after the last one of the block.
    pub open spec fn end(self) -> int {
        self.start + self.rows
    }

    /// Whether row `x` belongs to the block.
    pub open spec fn holds(self, x: int) -> bool {
        self.start <= x < self.end()
    }
}

/// The blocks lie in order inside `[0, rows)`, none is empty, no two overlap, and
/// every row is in one of them.
pub open spec fn covers(jobs: Seq<Job>, rows: nat) -> bool {
    &&& forall|i: int|
        0 <= i < jobs.len() ==> (#[trigger] jobs[i]).rows > 0 && jobs[i].end() <= rows
    &&& forall|i: int, j: int|
        0 <= i < j < jobs.len() ==> (#[trigger] jobs[i]).end() <= (#[trigger] jobs[j]).start
    &&& forall|x: int| 0 <= x < rows ==> #[trigger] in_some_job(jobs, x)
}

/// Row `x` belongs to one of the blocks.
pub open spec fn in_some_job(jobs: Seq<Job>, x: int) -> bool {
    exists|i: int| 0 <= i < jobs.len() && #[trigger] jobs[i].holds(x)
}

/// Every block that does not reach the last row is a whole number of `gran` rows long.
pub open spec fn aligned_to(jobs: Seq<Job>, rows: nat, gran: nat) -> bool {
    gran > 1 ==> forall|i: int|
        0 <= i < jobs.len() && (#[trigger] jobs[i]).end() < rows ==> jobs[i].rows as nat % gran == 0
}

/// The table of blocks of `per` rows each; the last block takes the remainder.
pub open spec fn block_table(rows: nat, per: nat) -> Seq<Job> {
    Seq::new(
        ceil_div(rows, per),
        |i: int|
            Job { start: (i * per) as usize, rows: min_nat(per as int, rows - i * per) as usize },
    )
}

/// Blocks of equal length cover the rows, in order, without overlap or gap.
pub proof fn lemma_block_table_covers(rows: nat, per: nat)
    requires
        per > 0,
        rows <= usize::MAX,
    ensures
        covers(block_table(rows, per), rows),
        forall|i: int|
            0 <= i < block_table(rows, per).len() ==> {
                &&& (#[trigger] block_table(rows, per)[i]).start == i * per
                &&& block_table(rows, per)[i].rows == min_nat(per as int, rows - i * per)
                &&& i * per < rows
            },
{
    let t = block_table(rows, per);
    let len = ceil_div(rows, per);
    lemma_ceil_div(rows, per);
    assert forall|i: int| 0 <= i < len implies {
        &&& (#[trigger] t[i]).start == i * per
        &&& t[i].rows == min_nat(per as int, rows - i * per)
        &&& i * per < rows
        &&& t[i].rows > 0
        &&& t[i].end() <= rows
    } by {
        assert(i * per <= (len - 1) * per) by (nonlinear_arith)
            requires
                i <= len - 1,
                per > 0,
        ;
        assert(0 <= i * per) by (nonlinear_arith)
            requires
                0 <= i,
                per > 0,
        ;
    }
    assert forall|i: int, j: int| 0 <= i < j < t.len() implies (#[trigger] t[i]).end() <= (
    #[trigger] t[j]).start by {
        assert(i * per + per <= j * per) by (nonlinear_arith)
            requires
                i + 1 <= j,
                per > 0,
        ;
    }
    assert forall|x: int| 0 <= x < rows implies #[trigger] in_some_job(t, x) by {
        let i = x / (per as int);
        vstd::arithmetic::div_mod::lemma_fundamental_div_mod(x, per as int);
        assert(per * i == i * per) by (nonlinear_arith);
        assert(i >= 0) by (nonlinear_arith)
            requires
                i == x / (per as int),
                x >= 0,
                per > 0,
        ;
        if i >= len {
            assert(i * per >= len * per) by (nonlinear_arith)
                requires
                    i >= len,
                    per > 0,
            ;
        }
        assert(t[i].holds(x));
    }
}

/// A table of blocks whose length is a multiple of `gran` is aligned to `gran`.
pub proof fn lemma_block_table_aligned(rows: nat, per: nat, gran: nat)
    requires
        per > 0,
        rows <= usize::MAX,
        gran > 1 ==> per % gran == 0,
    ensures
        aligned_to(block_table(rows, per), rows, gran),
{
    lemma_block_table_covers(rows, per);
}

/// Law: every row is in exactly one job of a covering table.
pub proof fn law_each_row_once(jobs: Seq<Job>, rows: nat, x: int)
    requires
        covers(jobs, rows),
        0 <= x < rows,
    ensures
        in_some_job(jobs, x),
        forall|i: int, j: int|
            0 <= i < jobs.len() && 0 <= j < jobs.len() && #[trigger] jobs[i].holds(x)
                && #[trigger] jobs[j].holds(x) ==> i == j,
{
    assert forall|i: int, j: int|
        0 <= i < jobs.len() && 0 <= j < jobs.len() && #[trigger] jobs[i].holds(x)
            && #[trigger] jobs[j].holds(x) implies i == j by {
        if i < j {
            assert(jobs[i].end() <= jobs[j].start);
        }
        if j < i {
            assert(jobs[j].end() <= jobs[i].start);
        }
    }
}

/// Every block of a covering table begins where the one before it ends, the first one at
/// row 0, and the last one ends with the last row.
pub proof fn lemma_contiguous(jobs: Seq<Job>, rows: nat, i: int)
    requires
        covers(jobs, rows),
        0 <= i < jobs.len(),
    ensures
        jobs[i].start == (if i == 0 {
            0
        } else {
            jobs[i - 1].end()
        }),
        i == jobs.len() - 1 ==> jobs[i].end() == rows,
{
    let x = if i == 0 {
        0
    } else {
        jobs[i - 1].end()
    };
    if x < jobs[i].start {
        assert(in_some_job(jobs, x));
        let q = choose|q: int| 0 <= q < jobs.len() && #[trigger] jobs[q].holds(x);
        if q < i - 1 {
            assert(jobs[q].end() <= jobs[i - 1].start);
        }
        if q > i {
            assert(jobs[i].end() <= jobs[q].start);
        }
    }
    let y = jobs[i].end();
    if i == jobs.len() - 1 && y < rows {
        assert(in_some_job(jobs, y));
        let q = choose|q: int| 0 <= q < jobs.len() && #[trigger] jobs[q].holds(y);
        if q < i {
            assert(jobs[q].end() <= jobs[i].start);
        }
    }
}

/// Cuts `[0, rows)` into blocks of `per` rows.
fn cut(rows: usize, per: usize) -> (jobs: Jobs)
    requires
        per > 0,
    ensures
        jobs@ == block_table(rows as nat, per as nat),
{
    let mut jobs: Jobs = Vec::new();
    let mut start: usize = 0;
    proof {
        lemma_block_table_covers(rows as nat, per as nat);
        lemma_ceil_div(rows as nat, per as nat);
    }
    let ghost table = block_table(rows as nat, per as nat);
    while start < rows
        invariant
            per > 0,
            table == block_table(rows as nat, per as nat),
            table.len() == ceil_div(rows as nat, per as nat),
            jobs.len() <= table.len(),
            jobs@ == table.take(jobs.len() as int),
            start == min_nat(jobs.len() * per, rows as int),
        decreases rows - start,
    {
        proof {
            lemma_block_table_covers(rows as nat, per as nat);
            lemma_ceil_div(rows as nat, per as nat);
            if jobs.len() >= table.len() {
                assert(jobs.len() * per >= table.len() * per) by (nonlinear_arith)
                    requires
                        jobs.len() >= table.len(),
                        per > 0,
                ;
            }
            assert((jobs.len() + 1) * per == jobs.len() * per + per) by (nonlinear_arith);
        }
        let r: usize = min_usize(per, rows - start);
        let ghost old_jobs = jobs@;
        jobs.push(Job { start, rows: r });
        proof {
            assert(table[old_jobs.len() as int] == (Job { start, rows: r }));
            assert(jobs@ =~= table.take(jobs.len() as int));
        }
        start = start + r;
    }
    proof {
        lemma_ceil_div(rows as nat, per as nat);
        if jobs.len() < table.len() {
            assert(jobs.len() * per <= (table.len() - 1) * per) by (nonlinear_arith)
                requires
                    jobs.len() <= table.len() - 1,
                    per > 0,
            ;
        }
        assert(jobs@ =~= table);
    }
    jobs
}

/// A static scheduling strategy: it fixes the whole job table before any work starts.
pub trait Strategy {
    /// Name for diagnostics.
    const NAME: &'static str;

    /// Whether there may be more blocks than workers; block `i` then goes to worker
    /// `i % threads`.
    const MULTI: bool;

    /// Whether the block length for these arguments exists and is a machine word.
    spec fn fits(rows: usize, threads: usize, gran: usize) -> bool;

    /// The table that the strategy makes of these arguments.
    spec fn table(rows: usize, threads: usize, gran: usize) -> Seq<Job>;

    /// Whether [`Strategy::plan`] takes these arguments.
    fn can_plan(rows: usize, threads: usize, gran: usize) -> (r: bool)
        ensures
            r == Self::fits(rows, threads, gran),
    ;

    /// Cuts `rows` rows into blocks for `threads` workers, each block but the last a
    /// multiple of `gran` rows long.
    fn plan(rows: usize, threads: usize, gran: usize) -> (jobs: Jobs)
        requires
            Self::fits(rows, threads, gran),
        ensures
            jobs@ == Self::table(rows, threads, gran),
            covers(jobs@, rows as nat),
            aligned_to(jobs@, rows as nat, gran as nat),
            !Self::MULTI ==> jobs.len() <= threads,
    ;
}

/// The block length of the even strategies: an even share, rounded up to `gran`.
pub open spec fn even_share(rows: nat, threads: nat, gran: nat) -> nat {
    let per = max_nat(ceil_div(rows, threads) as int, 1) as nat;
    if gran > 1 {
        round_up(per, gran)
    } else {
        per
    }
}

/// Even shares never need more blocks than there are workers.
proof fn lemma_even_share(rows: nat, threads: nat, gran: nat)
    requires
        threads > 0,
    ensures
        even_share(rows, threads, gran) > 0,
        gran > 1 ==> even_share(rows, threads, gran) % gran == 0,
        ceil_div(rows, even_share(rows, threads, gran)) <= threads,
{
    let per = max_nat(ceil_div(rows, threads) as int, 1) as nat;
    let share = even_share(rows, threads, gran);
    lemma_ceil_div(rows, threads);
    if gran > 1 {
        lemma_round_up(per, gran);
    }
    assert(threads * share >= rows) by (nonlinear_arith)
        requires
            ceil_div(rows, threads) * threads >= rows,
            share >= ceil_div(rows, threads),
            threads > 0,
    ;
    lemma_ceil_div_least(rows, share, threads);
}

/// Whether an even share exists and is a machine word.
pub fn share_fits(rows: usize, threads: usize, gran: usize) -> (r: bool)
    ensures
        r == (threads > 0 && even_share(rows as nat, threads as nat, gran as nat) <= usize::MAX),
{
    if threads == 0 {
        return false;
    }
    let per: usize = max_usize(div_ceil(rows, threads), 1);
    gran <= 1 || rounds_up(per, gran)
}

/// Even shares: one run of consecutive rows per worker.
pub struct Chunk;

impl Strategy for Chunk {
    const NAME: &'static str = "chunk";

    const MULTI: bool = false;

    open spec fn fits(rows: usize, threads: usize, gran: usize) -> bool {
        threads > 0 && even_share(rows as nat, threads as nat, gran as nat) <= usize::MAX
    }

    open spec fn table(rows: usize, threads: usize, gran: usize) -> Seq<Job> {
        block_table(rows as nat, even_share(rows as nat, threads as nat, gran as nat))
    }

    fn can_plan(rows: usize, threads: usize, gran: usize) -> (r: bool) {
        share_fits(rows, threads, gran)
    }

    fn plan(rows: usize, threads: usize, gran: usize) -> (jobs: Jobs) {
        let per: usize = max_usize(div_ceil(rows, threads), 1);
        let share: usize = if gran > 1 {
            next_multiple_of(per, gran)
        } else {
            per
        };
        proof {
            lemma_even_share(rows as nat, threads as nat, gran as nat);
            lemma_block_table_covers(rows as nat, share as nat);
            lemma_block_table_aligned(rows as nat, share as nat, gran as nat);
        }
        cut(rows, share)
    }
}

/// Even shares that are always aligned to the row granularity.
pub struct RowBlock;

impl Strategy for RowBlock {
    const NAME: &'static str = "row-block";

    const MULTI: bool = false;

    open spec fn fits(rows: usize, threads: usize, gran: usize) -> bool {
        threads > 0 && even_share(rows as nat, threads as nat, gran as nat) <= usize::MAX
    }

    open spec fn table(rows: usize, threads: usize, gran: usize) -> Seq<Job> {
        block_table(rows as nat, even_share(rows as nat, threads as nat, gran as nat))
    }

    fn can_plan(rows: usize, threads: usize, gran: usize) -> (r: bool) {
        share_fits(rows, threads, gran)
    }

    fn plan(rows: usize, threads: usize, gran: usize) -> (jobs: Jobs) {
        Chunk::plan(rows, threads, max_usize(gran, 1))
    }
}

/// The block length used for a requested one: at least one row, rounded up to `gran`.
pub open spec fn block_len(block_rows: nat, gran: nat) -> nat {
    let g = max_nat(gran as int, 1) as nat;
    round_up(max_nat(block_rows as int, 1) as nat, g)
}

/// Whether the block length used for a requested one is a machine word.
pub fn block_fits(block_rows: usize, gran: usize) -> (r: bool)
    ensures
        r == (block_len(block_rows as nat, gran as nat) <= usize::MAX),
{
    rounds_up(max_usize(block_rows, 1), max_usize(gran, 1))
}

/// Blocks of a fixed number of rows; there may be more of them than workers.
pub struct Blocked<const BLOCK: usize>;

impl<const BLOCK: usize> Strategy for Blocked<BLOCK> {
    const NAME: &'static str = "blocked";

    const MULTI: bool = true;

    open spec fn fits(rows: usize, threads: usize, gran: usize) -> bool {
        block_len(max_nat(BLOCK as int, gran as int) as nat, gran as nat) <= usize::MAX
    }

    open spec fn table(rows: usize, threads: usize, gran: usize) -> Seq<Job> {
        block_table(
            rows as nat,
            block_len(max_nat(BLOCK as int, gran as int) as nat, gran as nat),
        )
    }

    fn can_plan(rows: usize, threads: usize, gran: usize) -> (r: bool) {
        block_fits(max_usize(BLOCK, gran), gran)
    }

    fn plan(rows: usize, threads: usize, gran: usize) -> (jobs: Jobs) {
        proof {
            assert(max_nat(max_nat(BLOCK as int, max_nat(gran as int, 1)), 1) == max_nat(
                max_nat(BLOCK as int, gran as int),
                1,
            ));
        }
        plan_blocked(rows, max_usize(BLOCK, max_usize(gran, 1)), gran)
    }
}

/// Law: fixed blocks do not depend on the number of workers, which may be zero. They cover
/// the rows in order, and every block but the last is at least the requested length and a
/// whole number of `gran` rows long.
pub proof fn law_blocked_ignores_threads<const BLOCK: usize>(
    rows: usize,
    t1: usize,
    t2: usize,
    gran: usize,
)
    ensures
        Blocked::<BLOCK>::fits(rows, t1, gran) == Blocked::<BLOCK>::fits(rows, t2, gran),
        Blocked::<BLOCK>::table(rows, t1, gran) == Blocked::<BLOCK>::table(rows, t2, gran),
        covers(Blocked::<BLOCK>::table(rows, t1, gran), rows as nat),
        forall|i: int|
            0 <= i < Blocked::<BLOCK>::table(rows, t1, gran).len() - 1 ==> {
                &&& (#[trigger] Blocked::<BLOCK>::table(rows, t1, gran)[i]).rows >= BLOCK
                &&& Blocked::<BLOCK>::table(rows, t1, gran)[i].rows as int % max_nat(
                    gran as int,
                    1,
                ) == 0
            },
{
    let g = max_nat(gran as int, 1) as nat;
    let wanted = max_nat(max_nat(BLOCK as int, gran as int), 1) as nat;
    let per = block_len(max_nat(BLOCK as int, gran as int) as nat, gran as nat);
    lemma_round_up(wanted, g);
    lemma_block_table_covers(rows as nat, per);
    let t = Blocked::<BLOCK>::table(rows, t1, gran);
    assert forall|i: int| 0 <= i < t.len() - 1 implies (#[trigger] t[i]).rows == per by {
        let next = t[i + 1];
        assert((i + 1) * per == i * per + per) by (nonlinear_arith);
        assert((i + 1) * per < rows);
    }
}

/// Cuts `rows` rows into blocks of `block_rows` rows, rounded up to a multiple of
/// `gran`; the last block takes the remainder.
pub fn plan_blocked(rows: usize, block_rows: usize, gran: usize) -> (jobs: Jobs)
    requires
        block_len(block_rows as nat, gran as nat) <= usize::MAX,
    ensures
        jobs@ == block_table(rows as nat, block_len(block_rows as nat, gran as nat)),
        covers(jobs@, rows as nat),
        aligned_to(jobs@, rows as nat, gran as nat),
{
    let g: usize = max_usize(gran, 1);
    let wanted: usize = max_usize(block_rows, 1);
    proof {
        lemma_round_up(wanted as nat, g as nat);
    }
    let block: usize = max_usize(next_multiple_of(wanted, g), g);
    proof {
        lemma_block_table_covers(rows as nat, block as nat);
        lemma_block_table_aligned(rows as nat, block as nat, gran as nat);
    }
    cut(rows, block)
}

/// The strategy chosen for one dispatch.
#[derive(Clone, Copy, Debug, PartialEq, Eq, Structural)]
pub enum Pick {
    /// Even shares.
    Chunk,
    /// Even shares aligned to the row granularity.
    RowBlock,
    /// Fixed blocks dealt out in rotation.
    Blocked {
        /// Rows per block.
        block_rows: usize,
    },
    /// Fixed blocks claimed one at a time.
    Dynamic {
        /// Rows per block.
        block_rows: usize,
    },
}

impl Pick {
    /// Name for diagnostics.
    pub fn name(self) -> (r: &'static str)
        ensures
            r@ == (match self {
                Pick::Chunk => "chunk"@,
                Pick::RowBlock => "row-block"@,
                Pick::Blocked { block_rows } => "blocked"@,
                Pick::Dynamic { block_rows } => "dynamic"@,
            }),
    {
        match self {
            Pick::Chunk => "chunk",
            Pick::RowBlock => "row-block",
            Pick::Blocked { .. } => "blocked",
            Pick::Dynamic { .. } => "dynamic",
        }
    }
}

/// A quarter of a worker's share, at least `g` rows, rounded up to a multiple of `g`.
pub open spec fn quarter_share(per: nat, g: nat) -> nat {
    round_up(max_nat((per / 4) as int, g as int) as nat, g)
}

/// The rule behind [`pick_rows`].
pub open spec fn picked(rows: nat, threads: nat, gran: nat) -> Pick {
    let per = max_nat(ceil_div(rows, threads) as int, 1) as nat;
    if threads <= 1 || rows <= 1 {
        Pick::RowBlock
    } else if gran >= 4 {
        if threads >= 20 && per >= 32 {
            Pick::Dynamic { block_rows: quarter_share(per, gran) as usize }
        } else {
            Pick::RowBlock
        }
    } else if per <= 2 {
        Pick::Chunk
    } else if per >= 64 {
        Pick::Dynamic { block_rows: quarter_share(per, 4) as usize }
    } else {
        Pick::Blocked { block_rows: quarter_share(per, 4) as usize }
    }
}

fn quarter(per: usize, g: usize) -> (r: usize)
    requires
        g > 0,
    ensures
        r == quarter_share(per as nat, g as nat),
{
    let wanted: usize = max_usize(per / 4, g);
    proof {
        lemma_round_up(wanted as nat, g as nat);
        if wanted == g {
            vstd::arithmetic::div_mod::lemma_mod_self_0(g as int);
            crate::math::lemma_round_up_multiple(wanted as nat, g as nat);
        }
    }
    next_multiple_of(wanted, g)
}

/// Chooses a strategy from the number of rows, of workers, and the row granularity.
///
/// A single worker or a single row is not cut. Row-structured kernels
/// (`gran >= 4`) keep one aligned block per worker unless there are many workers with
/// many rows each; other kernels go from even shares over fixed blocks to claimed
/// blocks as the share of a worker grows.
pub fn pick_rows(rows: usize, threads: usize, gran: usize) -> (r: Pick)
    ensures
        r == picked(rows as nat, threads as nat, gran as nat),
{
    if threads <= 1 || rows <= 1 {
        return Pick::RowBlock;
    }
    let per: usize = max_usize(div_ceil(rows, threads), 1);
    if gran >= 4 {
        if threads >= 20 && per >= 32 {
            return Pick::Dynamic { block_rows: quarter(per, gran) };
        }
        return Pick::RowBlock;
    }
    if per <= 2 {
        return Pick::Chunk;
    }
    if per >= 64 {
        return Pick::Dynamic { block_rows: quarter(per, 4) };
    }
    Pick::Blocked { block_rows: quarter(per, 4) }
}

} // verus!
