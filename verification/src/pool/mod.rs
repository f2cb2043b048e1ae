//! A pool of workers: how a call is cut up, which worker runs which block, and what each
//! worker does next.
//!
//! Threads, locks and sleeping are the caller's; the functions here make the decisions.
pub mod sched;
pub mod worker;

use crate::math::{ceil_div, max_nat, max_usize, min_nat, saturating_mul};
use crate::math::{lemma_ceil_div, lemma_round_up, lemma_round_up_multiple};
use crate::pool::sched::{block_len, block_table, even_share, plan_blocked, quarter_share};
use crate::pool::sched::{aligned_to, block_fits, covers, picked, share_fits, Chunk, RowBlock};
use vstd::prelude::*;

pub use crate::pool::sched::{pick_rows, Job, Jobs, Pick, Strategy};

verus! {

/// Looks at the epoch before a worker goes to sleep.
pub const SPIN_LIMIT: u32 = 1024;

/// Calls that touch fewer elements run on the calling thread.
pub const MIN_PARALLEL_LEN: usize = 4096;

/// Most arrays that one call may cut up together.
pub const MAX_ARRAYS: usize = 16;

/// How one call is carried out.
#[derive(Debug)]
pub enum Round {
    /// On the calling thread, all rows as one block.
    Serial,
    /// By the workers, block by block.
    Table {
        /// The blocks.
        jobs: Jobs,
        /// Whether the blocks are claimed one at a time; otherwise they are dealt out in
        /// rotation.
        dynamic: bool,
    },
}

impl Round {
    /// The blocks of the call.
    pub open spec fn blocks(self, rows: nat) -> Seq<Job> {
        match self {
            Round::Serial => seq![Job { start: 0, rows: rows as usize }],
            Round::Table { jobs, .. } => jobs@,
        }
    }

    /// Blocks of `per` rows each.
    pub open spec fn cut(self, rows: nat, per: nat, by_claim: bool) -> bool {
        match self {
            Round::Serial => false,
            Round::Table { jobs, dynamic } => jobs@ == block_table(rows, per) && dynamic
                == by_claim,
        }
    }
}

/// A pool of a fixed number of workers, at least one.
#[derive(Debug)]
pub struct WorkerPool {
    threads: usize,
}

impl WorkerPool {
    /// There is at least one worker.
    pub open spec fn wf(&self) -> bool {
        self.workers() >= 1
    }

    /// Number of workers.
    pub closed spec fn workers(&self) -> nat {
        self.threads as nat
    }

    /// A pool of `threads` workers; of one worker for zero.
    pub fn new(threads: usize) -> (r: Self)
        ensures
            r.wf(),
            r.workers() == max_nat(threads as int, 1),
    {
        WorkerPool { threads: max_usize(threads, 1) }
    }

    /// A pool with one worker per available processor, given their number where it is
    /// known.
    pub fn auto(available: Option<usize>) -> (r: Self)
        ensures
            r.wf(),
            r.workers() == (match available {
                Some(n) => max_nat(n as int, 1),
                None => 1,
            }),
    {
        match available {
            Some(n) => WorkerPool::new(n),
            None => WorkerPool::new(1),
        }
    }

    /// Number of workers.
    pub fn threads(&self) -> (r: usize)
        ensures
            r == self.workers(),
    {
        self.threads
    }

    /// What [`WorkerPool::chunk_round`] does: equal runs of `arrays` arrays of `len`
    /// elements each.
    pub open spec fn chunked(&self, len: nat, arrays: nat, round: Round) -> bool {
        if self.workers() == 1 || len * arrays < MIN_PARALLEL_LEN {
            round == Round::Serial
        } else {
            round.cut(len, max_nat(ceil_div(len, self.workers()) as int, 1) as nat, false)
        }
    }

    /// How `arrays` arrays of `len` elements each are cut into runs of elements.
    pub fn chunk_round(&self, len: usize, arrays: usize) -> (r: Round)
        requires
            self.wf(),
        ensures
            self.chunked(len as nat, arrays as nat, r),
            covers(r.blocks(len as nat), len as nat) || len == 0,
    {
        let total: usize = saturating_mul(len, arrays);
        if self.threads == 1 || total < MIN_PARALLEL_LEN {
            proof {
                lemma_one_block(len as nat);
            }
            return Round::Serial;
        }
        proof {
            lemma_share_fits(len as nat, self.threads as nat, 1);
        }
        let jobs: Jobs = Chunk::plan(len, self.threads, 1);
        Round::Table { jobs, dynamic: false }
    }

    /// The blocks of a call on `rows` rows.
    pub fn blocks_of(round: Round, rows: usize) -> (r: Jobs)
        ensures
            r@ == round.blocks(rows as nat),
    {
        match round {
            Round::Serial => {
                let mut jobs: Jobs = Vec::new();
                jobs.push(Job { start: 0, rows });
                proof {
                    assert(jobs@ =~= Round::Serial.blocks(rows as nat));
                }
                jobs
            },
            Round::Table { jobs, dynamic: _ } => jobs,
        }
    }

    /// Whether a call on `rows` rows and `total` elements stays on the calling thread.
    pub open spec fn serial(&self, rows: nat, total: nat) -> bool {
        self.workers() == 1 || rows < 2 || total < MIN_PARALLEL_LEN
    }

    /// Whether a call on `rows` rows and `total` elements stays on the calling thread.
    pub fn is_serial(&self, rows: usize, total: usize) -> (r: bool)
        ensures
            r == self.serial(rows as nat, total as nat),
    {
        self.threads == 1 || rows < 2 || total < MIN_PARALLEL_LEN
    }

    /// What [`WorkerPool::row_round`] does: one run of rows per worker, a multiple of
    /// `gran` rows long.
    pub open spec fn row_blocked(&self, rows: nat, gran: nat, total: nat, round: Round) -> bool {
        if self.serial(rows, total) {
            round == Round::Serial
        } else {
            round.cut(rows, even_share(rows, self.workers(), gran), false)
        }
    }

    /// How `rows` rows with `total` elements in all are cut into one block per worker.
    pub fn row_round(&self, rows: usize, gran: usize, total: usize) -> (r: Round)
        requires
            self.wf(),
            0 < gran,
            !self.serial(rows as nat, total as nat) ==> even_share(
                rows as nat,
                self.workers(),
                gran as nat,
            ) <= usize::MAX,
        ensures
            self.row_blocked(rows as nat, gran as nat, total as nat, r),
            covers(r.blocks(rows as nat), rows as nat) || rows == 0,
    {
        if self.is_serial(rows, total) {
            proof {
                lemma_one_block(rows as nat);
            }
            return Round::Serial;
        }
        let jobs: Jobs = Chunk::plan(rows, self.threads, gran);
        Round::Table { jobs, dynamic: false }
    }

    /// How `rows` rows are cut by a strategy that is fixed at compile time.
    pub fn strategy_round<S: Strategy>(&self, rows: usize, gran: usize, total: usize) -> (r: Round)
        requires
            self.wf(),
            0 < gran,
            !self.serial(rows as nat, total as nat) ==> S::fits(
                rows,
                self.workers() as usize,
                gran,
            ),
        ensures
            self.serial(rows as nat, total as nat) ==> r == Round::Serial,
            !self.serial(rows as nat, total as nat) ==> {
                &&& r matches Round::Table { jobs, dynamic }
                &&& !dynamic
                &&& jobs@ == S::table(rows, self.workers() as usize, gran)
                &&& aligned_to(jobs@, rows as nat, gran as nat)
                &&& !S::MULTI ==> jobs@.len() <= self.workers()
            },
            covers(r.blocks(rows as nat), rows as nat) || rows == 0,
    {
        if self.is_serial(rows, total) {
            proof {
                lemma_one_block(rows as nat);
            }
            return Round::Serial;
        }
        let jobs: Jobs = S::plan(rows, self.threads, gran);
        Round::Table { jobs, dynamic: false }
    }

    /// The block length that a pick leads to.
    pub open spec fn picked_len(&self, rows: nat, gran: nat, pick: Pick) -> nat {
        match pick {
            Pick::Chunk => even_share(rows, self.workers(), gran),
            Pick::RowBlock => even_share(rows, self.workers(), gran),
            Pick::Blocked { block_rows } => block_len(block_rows as nat, gran),
            Pick::Dynamic { block_rows } => block_len(block_rows as nat, gran),
        }
    }

    /// Whether the block length that a pick leads to is a machine word.
    pub fn pick_fits(&self, rows: usize, gran: usize, pick: Pick) -> (r: bool)
        requires
            self.wf(),
        ensures
            r == (self.picked_len(rows as nat, gran as nat, pick) <= usize::MAX),
    {
        match pick {
            Pick::Chunk => share_fits(rows, self.threads, gran),
            Pick::RowBlock => share_fits(rows, self.threads, gran),
            Pick::Blocked { block_rows } => block_fits(block_rows, gran),
            Pick::Dynamic { block_rows } => block_fits(block_rows, gran),
        }
    }

    /// What [`WorkerPool::picked_round`] does.
    pub open spec fn cut_as_picked(
        &self,
        rows: nat,
        gran: nat,
        total: nat,
        pick: Pick,
        round: Round,
    ) -> bool {
        if self.serial(rows, total) {
            round == Round::Serial
        } else {
            round.cut(rows, self.picked_len(rows, gran, pick), pick is Dynamic)
        }
    }

    /// How `rows` rows are cut by a strategy that was picked at run time.
    pub fn picked_round(&self, rows: usize, gran: usize, total: usize, pick: Pick) -> (r: Round)
        requires
            self.wf(),
            0 < gran,
            !self.serial(rows as nat, total as nat) ==> self.picked_len(
                rows as nat,
                gran as nat,
                pick,
            ) <= usize::MAX,
        ensures
            self.cut_as_picked(rows as nat, gran as nat, total as nat, pick, r),
            covers(r.blocks(rows as nat), rows as nat) || rows == 0,
    {
        if self.is_serial(rows, total) {
            proof {
                lemma_one_block(rows as nat);
            }
            return Round::Serial;
        }
        match pick {
            Pick::Chunk => Round::Table {
                jobs: Chunk::plan(rows, self.threads, gran),
                dynamic: false,
            },
            Pick::RowBlock => Round::Table {
                jobs: RowBlock::plan(rows, self.threads, gran),
                dynamic: false,
            },
            Pick::Blocked { block_rows } => Round::Table {
                jobs: plan_blocked(rows, block_rows, gran),
                dynamic: false,
            },
            Pick::Dynamic { block_rows } => Round::Table {
                jobs: plan_blocked(rows, block_rows, gran),
                dynamic: true,
            },
        }
    }
}

/// All rows as one block cover the rows, if there are any.
proof fn lemma_one_block(rows: nat)
    requires
        rows <= usize::MAX,
    ensures
        rows > 0 ==> covers(Round::Serial.blocks(rows), rows),
{
    if rows > 0 {
        let jobs = Round::Serial.blocks(rows);
        assert forall|x: int| 0 <= x < rows implies #[trigger] sched::in_some_job(jobs, x) by {
            assert(jobs[0].holds(x));
        }
    }
}

/// The share of one of several workers fits in a machine word.
pub proof fn lemma_share_fits(rows: nat, threads: nat, gran: nat)
    requires
        threads >= 2,
        gran <= 4,
        rows <= usize::MAX,
    ensures
        even_share(rows, threads, gran) <= usize::MAX,
{
    lemma_ceil_div(rows, threads);
    let q = ceil_div(rows, threads);
    if q >= 1 {
        assert((q - 1) * threads >= (q - 1) * 2) by (nonlinear_arith)
            requires
                threads >= 2,
                q >= 1,
        ;
    }
    let per = max_nat(q as int, 1) as nat;
    if gran > 1 {
        lemma_round_up(per, gran);
    }
}

/// The block length that [`pick_rows`] leads to fits in a machine word.
pub proof fn lemma_pick_fits(pool: &WorkerPool, rows: nat, gran: nat)
    requires
        pool.workers() >= 1,
        gran == 4,
        rows <= usize::MAX,
        pool.workers() > 1,
    ensures
        pool.picked_len(rows, gran, picked(rows, pool.workers(), gran)) <= usize::MAX,
{
    lemma_share_fits(rows, pool.workers(), gran);
    let per = max_nat(ceil_div(rows, pool.workers()) as int, 1) as nat;
    lemma_ceil_div(rows, pool.workers());
    let wanted = max_nat((per / 4) as int, gran as int) as nat;
    lemma_round_up(wanted, gran);
    let share = quarter_share(per, gran);
    lemma_round_up_multiple(share, gran);
}

/// The total number of elements of arrays that are cut by rows, each given by its length
/// and its row width; the largest word where it does not fit. Nothing if the granularity
/// is zero, or an array is not `rows` rows long.
pub open spec fn rows_total(
    rows: int,
    gran: int,
    arrays: Seq<(usize, usize)>,
    count: int,
) -> Option<
    int,
>
    decreases count,
{
    if gran <= 0 {
        None
    } else if count <= 0 {
        Some(0)
    } else {
        let (len, width) = arrays[count - 1];
        match rows_total(rows, gran, arrays, count - 1) {
            None => None,
            Some(t) => if rows * width == len {
                Some(min_nat(t + len, usize::MAX as int))
            } else {
                None
            },
        }
    }
}

/// Computes [`rows_total`] of all arrays.
pub fn row_elements(rows: usize, gran: usize, arrays: &[(usize, usize)]) -> (r: Option<usize>)
    ensures
        match r {
            Some(t) => rows_total(rows as int, gran as int, arrays@, arrays@.len() as int) == Some(
                t as int,
            ),
            None => rows_total(rows as int, gran as int, arrays@, arrays@.len() as int) is None,
        },
{
    if gran == 0 {
        return None;
    }
    let mut total: usize = 0;
    let mut i: usize = 0;
    let mut fit: bool = true;
    while i < arrays.len()
        invariant
            0 < gran,
            i <= arrays@.len(),
            match rows_total(rows as int, gran as int, arrays@, i as int) {
                Some(t) => fit && total == t,
                None => !fit,
            },
        decreases arrays@.len() - i,
    {
        let (len, width) = arrays[i];
        match rows.checked_mul(width) {
            Some(want) => {
                if want != len {
                    fit = false;
                }
            },
            None => {
                fit = false;
            },
        }
        total = total.saturating_add(len);
        i = i + 1;
    }
    if fit {
        Some(total)
    } else {
        None
    }
}

/// Whether arrays of these lengths can be cut together: they are all as long as the first.
pub fn same_lengths(lens: &[usize]) -> (r: bool)
    requires
        lens@.len() > 0,
    ensures
        r == forall|i: int| 0 <= i < lens@.len() ==> #[trigger] lens@[i] == lens@[0],
{
    let mut i: usize = 1;
    while i < lens.len()
        invariant
            1 <= i <= lens@.len(),
            forall|j: int| 0 <= j < i ==> #[trigger] lens@[j] == lens@[0],
        decreases lens@.len() - i,
    {
        if lens[i] != lens[0] {
            return false;
        }
        i = i + 1;
    }
    true
}

/// Creates the shared pool, unless there is one; says whether it did.
pub fn init_global(global: &mut Option<WorkerPool>, threads: usize) -> (r: bool)
    ensures
        r == (*old(global) is None),
        r ==> {
            &&& *final(global) matches Some(p)
            &&& p.wf()
            &&& p.workers() == max_nat(threads as int, 1)
        },
        !r ==> *final(global) == *old(global),
{
    if global.is_some() {
        return false;
    }
    *global = Some(WorkerPool::new(threads));
    true
}

/// Marks a thread as dispatching; refused if it already is, since a dispatch inside a
/// dispatch would wait for itself.
pub fn enter_dispatch(dispatching: &mut bool) -> (r: bool)
    ensures
        r == !*old(dispatching),
        *final(dispatching),
{
    let free: bool = !*dispatching;
    *dispatching = true;
    free
}

} // verus!
