//! Kernels cut into blocks for a pool of workers.
//!
//! A call is a list of rounds; in each round every block of rows gets the same columns
//! computed. Blocks write disjoint rows and read only what no block writes, so that the
//! workers may run them in any order: every output is computed as on one thread.
use crate::api::{lemma_same_len, product_len, product_shape};
use crate::arch::{HwCaps, SimdPath, ThreadMode};
use crate::error::{
    expect_len, expect_same_len, len_result, same_len_result, Error,
};
use crate::math::{lemma_round_up_multiple, lemma_row_fits, max_nat, min_nat, min_usize};
use crate::ops::lanes::zeros;
use crate::ops::matmul::{
    at, columns, enough_work, entry, fused_limit, is_packed, is_product, law_paths_agree,
    lemma_all_blocks, lemma_beside, lemma_columns_held, lemma_limits, lemma_panel_fits, pack_b,
    pack_strips, packed_rows, product_block, row, strip_limit, strips_of_panel, tails, PACK_MIN_K,
    PACK_MIN_M, PACK_MIN_WORK,
};
use crate::ops::orbit::rk4_step_all;
use crate::plan::PackedKernel;
use crate::pool::sched::{
    block_table, covers, lemma_block_table_covers, lemma_contiguous, pick_rows, plan_blocked, Job,
    Jobs, Pick,
};
use crate::pool::{lemma_pick_fits, lemma_share_fits, Round, WorkerPool};
use crate::scalar::Double;
use vstd::prelude::*;

verus! {

/// Whether the workers share packed panels: with fewer rows each, packing does not pay.
pub fn need_shared_pack(m: usize, threads: usize, pack_min_m: usize) -> (r: bool)
    ensures
        r == (threads > 1 && m as int / threads as int >= pack_min_m),
{
    threads > 1 && m / threads >= pack_min_m
}

/// What one round computes in every block of rows.
pub enum Work<'a, T> {
    /// The columns of a packed panel.
    Panel {
        /// First column.
        jb: usize,
        /// Number of strips.
        strips: usize,
        /// The panel.
        packed: &'a [T],
    },
    /// The columns right of the last whole strip.
    Tail {
        /// First column.
        from: usize,
    },
    /// All columns.
    Whole {
        /// Whether the shape is judged as that of a double-precision product.
        double: bool,
    },
}

impl<'a, T: PackedKernel> Work<'a, T> {
    /// First column.
    pub open spec fn first(self) -> int {
        match self {
            Work::Panel { jb, .. } => jb as int,
            Work::Tail { from } => from as int,
            Work::Whole { .. } => 0,
        }
    }

    /// The column after the last one.
    pub open spec fn end(self, n: int) -> int {
        match self {
            Work::Panel { jb, strips, .. } => jb + strips * T::STRIP,
            _ => n,
        }
    }

    /// The work fits a matrix with columns `cols`.
    pub open spec fn fits(self, cols: Seq<Seq<T>>, k: int, n: int) -> bool {
        match self {
            Work::Panel { jb, strips, packed } => {
                &&& jb + strips * T::STRIP <= strip_limit::<T>(n)
                &&& is_packed(packed@, cols, k, T::STRIP as int, jb as int, strips as int)
            },
            Work::Tail { from } => from == strip_limit::<T>(n),
            Work::Whole { .. } => true,
        }
    }
}

/// Computes the columns of `work` in one block of rows.
pub fn run_block<T: PackedKernel>(
    work: &Work<T>,
    rows: usize,
    k: usize,
    n: usize,
    b: &[T],
    a: &[T],
    c: &mut [T],
)
    requires
        0 < k,
        a@.len() == rows * k,
        b@.len() == k * n,
        old(c)@.len() == rows * n,
        work.fits(columns(b@, k as int, n as int), k as int, n as int),
    ensures
        product_block(
            old(c)@,
            final(c)@,
            n as int,
            a@,
            k as int,
            columns(b@, k as int, n as int),
            fused_limit::<T>(n as int),
            0,
            rows as int,
            work.first(),
            work.end(n as int),
        ),
{
    let ghost cols = columns(b@, k as int, n as int);
    let ghost c0 = c@;
    proof {
        T::layout();
        lemma_limits::<T>(n as int);
        lemma_columns_held(b@, k as int, n as int);
    }
    match work {
        Work::Panel { jb, strips, packed } => {
            packed_rows(rows, k, n, *jb, *strips, packed, a, c, Ghost(cols));
        },
        Work::Tail { from } => {
            tails(
                0,
                rows,
                *from,
                n,
                T::LANES,
                b,
                0,
                n,
                a,
                k,
                c,
                n,
                Ghost(rows as int),
                Ghost(cols),
            );
        },
        Work::Whole { double } => {
            if *double {
                crate::ops::matmul::matmul_f64(rows, k, n, a, b, c);
            } else {
                crate::ops::matmul::matmul_f32(rows, k, n, a, b, c);
            }
            proof {
                lemma_product_is_block(c0, c@, rows as int, n as int, a@, k as int, cols);
            }
        },
    }
}

/// A product fills the full rectangle.
proof fn lemma_product_is_block<T: PackedKernel>(
    c0: Seq<T>,
    c1: Seq<T>,
    m: int,
    n: int,
    a: Seq<T>,
    k: int,
    cols: Seq<Seq<T>>,
)
    requires
        0 <= m,
        0 <= n,
        c0.len() == m * n,
        crate::ops::matmul::is_product_of(a, cols, m, k, n, c1),
    ensures
        product_block(c0, c1, n, a, k, cols, fused_limit::<T>(n), 0, m, 0, n),
{
    assert forall|i: int, j: int|
        #![trigger at(c1, n, i, j)]
        0 <= i && 0 <= j < n && i * n + j < c0.len() implies at(c1, n, i, j) == if 0 <= i < m && 0
        <= j < n {
        entry(row(a, k, i), cols[j], k, j, fused_limit::<T>(n))
    } else {
        at(c0, n, i, j)
    } by {
        lemma_row_exists(i, j, m, n);
    }
}

/// An element of an `m × n` matrix lies in one of its rows.
proof fn lemma_row_exists(i: int, j: int, m: int, n: int)
    requires
        0 <= i,
        0 <= j < n,
        i * n + j < m * n,
    ensures
        i < m,
{
    if i >= m {
        assert(i * n >= m * n) by (nonlinear_arith)
            requires
                i >= m,
                n > 0,
        ;
    }
}

/// Outputs written in a block of rows are outputs of the whole.
proof fn lemma_block_in_whole<T: PackedKernel>(
    c0: Seq<T>,
    c1: Seq<T>,
    new: Seq<T>,
    m: int,
    n: int,
    a: Seq<T>,
    k: int,
    cols: Seq<Seq<T>>,
    lim: int,
    i0: int,
    i1: int,
    j0: int,
    j1: int,
)
    requires
        0 <= i0 <= i1 <= m,
        0 <= n,
        0 <= k,
        c0.len() == m * n,
        a.len() == m * k,
        product_block(
            c0.subrange(i0 * n, i1 * n),
            new,
            n,
            a.subrange(i0 * k, i1 * k),
            k,
            cols,
            lim,
            0,
            i1 - i0,
            j0,
            j1,
        ),
        c1 == c0.subrange(0, i0 * n) + (new + c0.subrange(i1 * n, m * n)),
    ensures
        product_block(c0, c1, n, a, k, cols, lim, i0, i1, j0, j1),
{
    let block = c0.subrange(i0 * n, i1 * n);
    let part = a.subrange(i0 * k, i1 * k);
    lemma_stretch(i0, i1, m, n);
    lemma_stretch(i0, i1, m, k);
    assert forall|i: int, j: int|
        #![trigger at(c1, n, i, j)]
        0 <= i && 0 <= j < n && i * n + j < c0.len() implies at(c1, n, i, j) == if i0 <= i < i1
        && j0 <= j < j1 {
        entry(row(a, k, i), cols[j], k, j, lim)
    } else {
        at(c0, n, i, j)
    } by {
        lemma_row_exists(i, j, m, n);
        lemma_row_fits(i, m, n);
        if i < i0 {
            lemma_row_fits(i, i0, n);
        } else if i < i1 {
            lemma_row_fits(i - i0, i1 - i0, n);
            lemma_row_fits(i - i0, i1 - i0, k);
            assert(i * n == i0 * n + (i - i0) * n) by (nonlinear_arith);
            assert(i * k == i0 * k + (i - i0) * k) by (nonlinear_arith);
            assert(at(c1, n, i, j) == at(new, n, i - i0, j));
            assert(at(block, n, i - i0, j) == at(c0, n, i, j));
            assert(row(part, k, i - i0) =~= row(a, k, i));
        } else {
            assert(i * n >= i1 * n) by (nonlinear_arith)
                requires
                    i >= i1,
                    n >= 0,
            ;
        }
    }
}

/// Rows `[i0, i1)` of a matrix with rows of `n` elements.
proof fn lemma_stretch(i0: int, i1: int, m: int, n: int)
    requires
        0 <= i0 <= i1 <= m,
        0 <= n,
    ensures
        0 <= i0 * n <= i1 * n <= m * n,
        i1 * n - i0 * n == (i1 - i0) * n,
{
    assert(i1 * n - i0 * n == (i1 - i0) * n) by (nonlinear_arith);
    assert(0 <= i0 * n <= i1 * n <= m * n) by (nonlinear_arith)
        requires
            0 <= i0 <= i1 <= m,
            0 <= n,
    ;
}

/// Two blocks of rows written one after the other, the second below the first.
proof fn lemma_next_rows<T: PackedKernel>(
    c0: Seq<T>,
    c1: Seq<T>,
    c2: Seq<T>,
    n: int,
    a: Seq<T>,
    k: int,
    cols: Seq<Seq<T>>,
    lim: int,
    i1: int,
    i2: int,
    j0: int,
    j1: int,
)
    requires
        product_block(c0, c1, n, a, k, cols, lim, 0, i1, j0, j1),
        product_block(c1, c2, n, a, k, cols, lim, i1, i2, j0, j1),
        0 <= i1 <= i2,
    ensures
        product_block(c0, c2, n, a, k, cols, lim, 0, i2, j0, j1),
{
    assert forall|i: int, j: int|
        #![trigger at(c2, n, i, j)]
        0 <= i && 0 <= j < n && i * n + j < c0.len() implies at(c2, n, i, j) == if 0 <= i < i2
        && j0 <= j < j1 {
        entry(row(a, k, i), cols[j], k, j, lim)
    } else {
        at(c0, n, i, j)
    } by {
        let mid = at(c1, n, i, j);
    }
}

/// Runs every block of a round.
fn run_round<T: PackedKernel>(
    jobs: &Jobs,
    work: &Work<T>,
    m: usize,
    k: usize,
    n: usize,
    b: &[T],
    a: &[T],
    c: &mut [T],
)
    requires
        0 < k,
        0 < m,
        covers(jobs@, m as nat),
        a@.len() == m * k,
        b@.len() == k * n,
        old(c)@.len() == m * n,
        work.fits(columns(b@, k as int, n as int), k as int, n as int),
    ensures
        product_block(
            old(c)@,
            final(c)@,
            n as int,
            a@,
            k as int,
            columns(b@, k as int, n as int),
            fused_limit::<T>(n as int),
            0,
            m as int,
            work.first(),
            work.end(n as int),
        ),
{
    let ghost cols = columns(b@, k as int, n as int);
    let ghost c0 = c@;
    let ghost lim = fused_limit::<T>(n as int);
    let ghost (mm, nn, kk) = (m as int, n as int, k as int);
    let ghost (j0, j1) = (work.first(), work.end(nn));
    let mut q: usize = 0;
    let ghost mut upto: int = 0;
    while q < jobs.len()
        invariant
            0 < k,
            q <= jobs@.len(),
            covers(jobs@, m as nat),
            mm == m,
            nn == n,
            kk == k,
            a.len() == m * k,
            b@.len() == k * n,
            c.len() == m * n,
            c0.len() == m * n,
            cols == columns(b@, kk, nn),
            lim == fused_limit::<T>(nn),
            work.fits(cols, kk, nn),
            j0 == work.first(),
            j1 == work.end(nn),
            0 <= upto <= m,
            upto == (if q == 0 {
                0
            } else {
                jobs@[q - 1].end()
            }),
            product_block(c0, c@, nn, a@, kk, cols, lim, 0, upto, j0, j1),
        decreases jobs@.len() - q,
    {
        let job: Job = jobs[q];
        proof {
            lemma_contiguous(jobs@, m as nat, q as int);
            assert(jobs@[q as int].end() <= m);
            lemma_stretch(job.start as int, job.end(), mm, nn);
            lemma_stretch(job.start as int, job.end(), mm, kk);
        }
        let ghost before = c@;
        let (_, a_rest) = a.split_at(job.start * k);
        let (a_block, _) = a_rest.split_at(job.rows * k);
        let (_, c_rest) = c.split_at_mut(job.start * n);
        let (c_block, _) = c_rest.split_at_mut(job.rows * n);
        proof {
            assert(a_block@ =~= a@.subrange(job.start * k, job.end() * k));
            assert(c_block@ =~= before.subrange(job.start * n, job.end() * n));
        }
        run_block(work, job.rows, k, n, b, a_block, c_block);
        let ghost new = c_block@;
        proof {
            assert(c@ =~= before.subrange(0, job.start * n) + (new + before.subrange(
                job.end() * n,
                mm * nn,
            )));
            lemma_block_in_whole(
                before,
                c@,
                new,
                mm,
                nn,
                a@,
                kk,
                cols,
                lim,
                job.start as int,
                job.end(),
                j0,
                j1,
            );
            lemma_next_rows(
                c0,
                before,
                c@,
                nn,
                a@,
                kk,
                cols,
                lim,
                upto,
                job.end(),
                j0,
                j1,
            );
            upto = job.end();
        }
        q = q + 1;
    }
    proof {
        if jobs@.len() == 0 {
            assert(crate::pool::sched::in_some_job(jobs@, 0));
        } else {
            lemma_contiguous(jobs@, m as nat, jobs@.len() - 1);
        }
    }
}

/// Whether the workers share packed panels for a product of this shape.
pub open spec fn shares<T: PackedKernel>(threads: int, m: int, k: int, n: int) -> bool {
    &&& threads > 1
    &&& m / threads >= PACK_MIN_M
    &&& k >= PACK_MIN_K
    &&& n >= T::STRIP
    &&& m * k * n >= PACK_MIN_WORK
}

/// Whether a pooled product of this shape is cut as its pick says: the workers share panels,
/// and there is enough to do for several of them.
pub open spec fn heeds_pick<T: PackedKernel>(pool: &WorkerPool, m: int, k: int, n: int) -> bool {
    &&& shares::<T>(pool.workers() as int, m, k, n)
    &&& !pool.serial(m as nat, (m * k + m * n) as nat)
}

/// The first column right of the last strip of a matrix of `n` columns, if there is one.
pub open spec fn tail_column<T: PackedKernel>(n: int) -> Option<usize> {
    if strip_limit::<T>(n) < n {
        Some(strip_limit::<T>(n) as usize)
    } else {
        None
    }
}

/// How a product is carried out.
pub enum Task {
    /// There is nothing to compute.
    Nothing,
    /// Every output is zero.
    Zero,
    /// Panel by panel, then the columns right of the last strip; given are the first strip
    /// and the number of strips of every panel.
    Shared {
        /// The panels.
        panels: Jobs,
        /// The first column right of the last strip, if there is one.
        tail: Option<usize>,
    },
    /// All columns at once.
    Whole,
}

/// Decides how a product of this shape is carried out by `threads` workers.
pub fn product_task<T: PackedKernel>(threads: usize, m: usize, k: usize, n: usize) -> (r: Task)
    requires
        m * k <= usize::MAX,
    ensures
        match r {
            Task::Nothing => m == 0 || n == 0,
            Task::Zero => 0 < m && 0 < n && k == 0,
            Task::Shared { panels, tail } => {
                &&& 0 < m && 0 < n && 0 < k
                &&& tail == tail_column::<T>(n as int)
                &&& shares::<T>(threads as int, m as int, k as int, n as int)
                &&& panels@ == block_table(
                    (n as int / T::STRIP as int) as nat,
                    strips_of_panel::<T>(k as int) as nat,
                )
            },
            Task::Whole => {
                &&& 0 < m && 0 < n && 0 < k
                &&& !shares::<T>(threads as int, m as int, k as int, n as int)
            },
        },
{
    if m == 0 || n == 0 {
        return Task::Nothing;
    }
    if k == 0 {
        return Task::Zero;
    }
    if need_shared_pack(m, threads, PACK_MIN_M) && k >= PACK_MIN_K && n >= T::STRIP
        && enough_work(m, k, n) {
        proof {
            T::layout();
            lemma_limits::<T>(n as int);
        }
        let per_panel: usize = pack_strips::<T>(k);
        proof {
            lemma_round_up_multiple(per_panel as nat, 1);
            assert(max_nat(per_panel as int, 1) == per_panel);
        }
        let panels: Jobs = plan_blocked(n / T::STRIP, per_panel, 1);
        let from: usize = n / T::STRIP * T::STRIP;
        let tail: Option<usize> = if from < n {
            Some(from)
        } else {
            None
        };
        return Task::Shared { panels, tail };
    }
    Task::Whole
}

/// The product from shared panels: while the blocks of one panel are computed, the next
/// panel is packed into the other of two buffers.
fn shared_product<T: PackedKernel>(
    pool: &WorkerPool,
    m: usize,
    k: usize,
    n: usize,
    a: &[T],
    b: &[T],
    c: &mut [T],
    pick: Pick,
    panels: &Jobs,
    tail: Option<usize>,
)
    requires
        pool.wf(),
        0 < k,
        0 < m,
        T::STRIP <= n,
        panels@ == block_table(
            (n as int / T::STRIP as int) as nat,
            strips_of_panel::<T>(k as int) as nat,
        ),
        tail == tail_column::<T>(n as int),
        a@.len() == m * k,
        b@.len() == k * n,
        old(c)@.len() == m * n,
        !pool.serial(m as nat, a@.len() + old(c)@.len()) ==> pool.picked_len(m as nat, 4, pick)
            <= usize::MAX,
    ensures
        is_product(a@, b@, m as int, k as int, n as int, final(c)@),
{
    let ghost cols = columns(b@, k as int, n as int);
    let ghost c0 = c@;
    let ghost lim = fused_limit::<T>(n as int);
    let ghost (mm, nn, kk, strip) = (m as int, n as int, k as int, T::STRIP as int);
    proof {
        T::layout();
        lemma_limits::<T>(nn);
        lemma_columns_held(b@, kk, nn);
        vstd::arithmetic::div_mod::lemma_div_non_zero(nn, strip);
    }
    let total: usize = a.len().saturating_add(c.len());
    let strips_total: usize = n / T::STRIP;
    let per_panel: usize = pack_strips::<T>(k);
    proof {
        lemma_block_table_covers(strips_total as nat, per_panel as nat);
        lemma_panel_fits(
            0,
            if per_panel <= strips_total {
                per_panel as int
            } else {
                strips_total as int
            },
            strips_total as int,
            strip,
            kk,
            nn,
        );
        assert(b.len() == b@.len());
    }
    let widest: usize = min_usize(per_panel, strips_total);
    let cap: usize = k * (widest * T::STRIP);
    let mut buf_a: Vec<T> = zeros(cap);
    let mut buf_b: Vec<T> = zeros(cap);
    proof {
        if panels@.len() == 0 {
            assert(crate::pool::sched::in_some_job(panels@, 0));
        }
        lemma_panel_at::<T>(panels@, strips_total, per_panel, widest, 0, kk, nn);
    }
    pack_b(k, n, 0, panels[0].rows, b, buf_a.as_mut_slice());
    let mut i: usize = 0;
    while i < panels.len()
        invariant
            pool.wf(),
            0 < k,
            0 < m,
            0 < T::STRIP <= 64,
            0 < per_panel,
            mm == m,
            nn == n,
            kk == k,
            strip == T::STRIP,
            strips_total == nn / strip,
            strip_limit::<T>(nn) == strips_total * strip,
            panels@ == block_table(strips_total as nat, per_panel as nat),
            covers(panels@, strips_total as nat),
            widest == (if per_panel <= strips_total {
                per_panel
            } else {
                strips_total
            }),
            cap == k * (widest * T::STRIP),
            buf_a@.len() == cap,
            buf_b@.len() == cap,
            a@.len() == m * k,
            b.len() == k * n,
            c@.len() == m * n,
            cols == columns(b@, kk, nn),
            lim == fused_limit::<T>(nn),
            total == min_nat((a@.len() + c@.len()) as int, usize::MAX as int),
            !pool.serial(m as nat, a@.len() + c@.len()) ==> pool.picked_len(m as nat, 4, pick)
                <= usize::MAX,
            i <= panels@.len(),
            i < panels@.len() && i % 2 == 0 ==> is_packed(
                buf_a@,
                cols,
                kk,
                strip,
                panels@[i as int].start * strip,
                panels@[i as int].rows as int,
            ),
            i < panels@.len() && i % 2 == 1 ==> is_packed(
                buf_b@,
                cols,
                kk,
                strip,
                panels@[i as int].start * strip,
                panels@[i as int].rows as int,
            ),
            product_block(
                c0,
                c@,
                nn,
                a@,
                kk,
                cols,
                lim,
                0,
                mm,
                0,
                if i == 0 {
                    0
                } else {
                    panels@[i - 1].end() * strip
                },
            ),
        decreases panels@.len() - i,
    {
        let round: Round = pool.picked_round(m, 4, total, pick);
        let jobs: Jobs = WorkerPool::blocks_of(round, m);
        proof {
            lemma_contiguous(panels@, strips_total as nat, i as int);
            lemma_panel_at::<T>(panels@, strips_total, per_panel, widest, i as int, kk, nn);
            if i + 1 < panels@.len() {
                lemma_contiguous(panels@, strips_total as nat, i + 1);
                lemma_panel_at::<T>(panels@, strips_total, per_panel, widest, i + 1, kk, nn);
            }
        }
        let strips: usize = panels[i].rows;
        let jb: usize = panels[i].start * T::STRIP;
        let ghost c1 = c@;
        if i % 2 == 0 {
            let work = Work::Panel { jb, strips, packed: buf_a.as_slice() };
            run_round(&jobs, &work, m, k, n, b, a, c);
            if i + 1 < panels.len() {
                let next: Job = panels[i + 1];
                pack_b(k, n, next.start * T::STRIP, next.rows, b, buf_b.as_mut_slice());
            }
        } else {
            let work = Work::Panel { jb, strips, packed: buf_b.as_slice() };
            run_round(&jobs, &work, m, k, n, b, a, c);
            if i + 1 < panels.len() {
                let next: Job = panels[i + 1];
                pack_b(k, n, next.start * T::STRIP, next.rows, b, buf_a.as_mut_slice());
            }
        }
        proof {
            lemma_beside(
                c0,
                c1,
                c@,
                nn,
                a@,
                kk,
                cols,
                lim,
                0,
                mm,
                0,
                jb as int,
                panels@[i as int].end() * strip,
            );
        }
        i = i + 1;
    }
    proof {
        lemma_contiguous(panels@, strips_total as nat, panels@.len() - 1);
    }
    if let Some(n_strip) = tail {
        let ghost c1 = c@;
        let round: Round = pool.picked_round(m, 4, total, pick);
        let jobs: Jobs = WorkerPool::blocks_of(round, m);
        let work: Work<T> = Work::Tail { from: n_strip };
        run_round(&jobs, &work, m, k, n, b, a, c);
        proof {
            lemma_beside(c0, c1, c@, nn, a@, kk, cols, lim, 0, mm, 0, n_strip as int, nn);
        }
    }
    proof {
        lemma_all_blocks(c0, c@, mm, nn, a@, kk, cols);
    }
}

/// Where panel `i` lies, and that it fits in the buffers.
proof fn lemma_panel_at<T: PackedKernel>(
    panels: Seq<Job>,
    strips_total: usize,
    per_panel: usize,
    widest: usize,
    i: int,
    k: int,
    n: int,
)
    requires
        0 < T::STRIP <= 64,
        0 < per_panel,
        0 <= k,
        0 <= n,
        strips_total == n / T::STRIP as int,
        panels == block_table(strips_total as nat, per_panel as nat),
        0 <= i < panels.len(),
        widest == (if per_panel <= strips_total {
            per_panel
        } else {
            strips_total
        }),
    ensures
        panels[i].rows <= widest,
        panels[i].end() <= strips_total,
        0 <= panels[i].start * T::STRIP,
        panels[i].start * T::STRIP + panels[i].rows * T::STRIP == panels[i].end() * T::STRIP,
        panels[i].end() * T::STRIP <= strip_limit::<T>(n) <= n,
        0 <= k * (panels[i].rows * T::STRIP) <= k * (widest * T::STRIP),
{
    let strip = T::STRIP as int;
    lemma_block_table_covers(strips_total as nat, per_panel as nat);
    let job = panels[i];
    assert(0 <= i * per_panel) by (nonlinear_arith)
        requires
            0 <= i,
            0 < per_panel,
    ;
    lemma_panel_fits(job.start as int, job.rows as int, strips_total as int, strip, k, n);
    assert(k * (job.rows * strip) <= k * (widest * strip)) by (nonlinear_arith)
        requires
            0 <= k,
            job.rows <= widest,
            0 < strip,
    ;
}

/// What the pooled products check: [`product_shape`], then that `c` is `m × n`.
pub open spec fn pooled_shape(
    op: &'static str,
    m: int,
    k: int,
    n: int,
    a: nat,
    b: nat,
    c: nat,
) -> Result<(), Error> {
    match product_shape(op, m, k, n, a, b) {
        Err(e) => Err(e),
        Ok(_) => len_result(op, "c", c, (m * n) as nat),
    }
}

/// Checks [`pooled_shape`].
pub fn check_pooled(
    op: &'static str,
    m: usize,
    k: usize,
    n: usize,
    a: usize,
    b: usize,
    c: usize,
) -> (r: Result<(), Error>)
    ensures
        r == pooled_shape(op, m as int, k as int, n as int, a as nat, b as nat, c as nat),
{
    match product_len(op, m, k, n, a, b) {
        Ok(mn) => expect_len(op, "c", c, mn),
        Err(e) => Err(e),
    }
}

/// Writes the product over no steps, which is zero everywhere.
fn fill_zero<T: PackedKernel>(m: usize, n: usize, a: &[T], b: &[T], c: &mut [T])
    requires
        old(c)@.len() == m * n,
    ensures
        is_product(a@, b@, m as int, 0, n as int, final(c)@),
{
    let len: usize = c.len();
    let mut x: usize = 0;
    while x < len
        invariant
            x <= len,
            c@.len() == len,
            forall|y: int| 0 <= y < x ==> #[trigger] c@[y] == T::of_raw_spec(0),
        decreases len - x,
    {
        c[x] = T::of_raw(0);
        x = x + 1;
    }
    proof {
        let cols = columns(b@, 0, n as int);
        assert forall|i: int, j: int| 0 <= i < m && 0 <= j < n implies #[trigger] at(
            c@,
            n as int,
            i,
            j,
        ) == entry(row(a@, 0, i), cols[j], 0, j, fused_limit::<T>(n as int)) by {
            lemma_row_fits(i, m as int, n as int);
        }
    }
}

/// The pooled product with a given pick.
fn matmul_picked<T: PackedKernel>(
    pool: &WorkerPool,
    double: bool,
    m: usize,
    k: usize,
    n: usize,
    a: &[T],
    b: &[T],
    c: &mut [T],
    pick: Pick,
    op: &'static str,
) -> (r: Result<(), Error>)
    requires
        pool.wf(),
        pooled_shape(
            op,
            m as int,
            k as int,
            n as int,
            a@.len(),
            b@.len(),
            old(c)@.len(),
        ) is Ok && heeds_pick::<T>(pool, m as int, k as int, n as int) ==> pool.picked_len(
            m as nat,
            4,
            pick,
        ) <= usize::MAX,
    ensures
        r == pooled_shape(
            op,
            m as int,
            k as int,
            n as int,
            a@.len(),
            b@.len(),
            old(c)@.len(),
        ),
        r is Ok ==> is_product(a@, b@, m as int, k as int, n as int, final(c)@),
        r is Err ==> final(c)@ == old(c)@,
{
    match check_pooled(op, m, k, n, a.len(), b.len(), c.len()) {
        Ok(_) => (),
        Err(e) => return Err(e),
    }
    match product_task::<T>(pool.threads(), m, k, n) {
        Task::Nothing => {
            proof {
                assert(m * n == 0) by (nonlinear_arith)
                    requires
                        m == 0 || n == 0,
                ;
            }
            return Ok(());
        },
        Task::Zero => {
            fill_zero(m, n, a, b, c);
            return Ok(());
        },
        Task::Shared { panels, tail } => {
            shared_product(pool, m, k, n, a, b, c, pick, &panels, tail);
            return Ok(());
        },
        Task::Whole => (),
    }
    let ghost c0 = c@;
    let total: usize = a.len().saturating_add(c.len());
    proof {
        if pool.workers() >= 2 {
            lemma_share_fits(m as nat, pool.workers(), 4);
        }
    }
    let round: Round = pool.row_round(m, 4, total);
    let jobs: Jobs = WorkerPool::blocks_of(round, m);
    let work: Work<T> = Work::Whole { double };
    run_round(&jobs, &work, m, k, n, b, a, c);
    proof {
        lemma_all_blocks(
            c0,
            c@,
            m as int,
            n as int,
            a@,
            k as int,
            columns(b@, k as int, n as int),
        );
    }
    Ok(())
}

/// `C[m×n] = A[m×k] · B[k×n]`, cut into blocks of rows.
pub fn matmul_f32<T: PackedKernel>(
    pool: &WorkerPool,
    m: usize,
    k: usize,
    n: usize,
    a: &[T],
    b: &[T],
    c: &mut [T],
) -> (r: Result<(), Error>)
    requires
        pool.wf(),
    ensures
        r == pooled_shape(
            "matmul_f32",
            m as int,
            k as int,
            n as int,
            a@.len(),
            b@.len(),
            old(c)@.len(),
        ),
        r is Ok ==> is_product(a@, b@, m as int, k as int, n as int, final(c)@),
        r is Err ==> final(c)@ == old(c)@,
{
    let pick: Pick = pick_rows(m, pool.threads(), 4);
    proof {
        if pool.workers() > 1 {
            lemma_pick_fits(pool, m as nat, 4);
        }
    }
    matmul_picked(pool, false, m, k, n, a, b, c, pick, "matmul_f32")
}

/// [`matmul_f32`] with the pick given by the caller.
pub fn matmul_f32_with_pick<T: PackedKernel>(
    pool: &WorkerPool,
    m: usize,
    k: usize,
    n: usize,
    a: &[T],
    b: &[T],
    c: &mut [T],
    pick: Pick,
) -> (r: Result<(), Error>)
    requires
        pool.wf(),
        pooled_shape(
            "matmul_f32_with_pick",
            m as int,
            k as int,
            n as int,
            a@.len(),
            b@.len(),
            old(c)@.len(),
        ) is Ok && heeds_pick::<T>(pool, m as int, k as int, n as int) ==> pool.picked_len(
            m as nat,
            4,
            pick,
        ) <= usize::MAX,
    ensures
        r == pooled_shape(
            "matmul_f32_with_pick",
            m as int,
            k as int,
            n as int,
            a@.len(),
            b@.len(),
            old(c)@.len(),
        ),
        r is Ok ==> is_product(a@, b@, m as int, k as int, n as int, final(c)@),
        r is Err ==> final(c)@ == old(c)@,
{
    matmul_picked(pool, false, m, k, n, a, b, c, pick, "matmul_f32_with_pick")
}

/// [`matmul_f32`] in double precision.
pub fn matmul_f64<T: PackedKernel>(
    pool: &WorkerPool,
    m: usize,
    k: usize,
    n: usize,
    a: &[T],
    b: &[T],
    c: &mut [T],
) -> (r: Result<(), Error>)
    requires
        pool.wf(),
    ensures
        r == pooled_shape(
            "matmul_f64",
            m as int,
            k as int,
            n as int,
            a@.len(),
            b@.len(),
            old(c)@.len(),
        ),
        r is Ok ==> is_product(a@, b@, m as int, k as int, n as int, final(c)@),
        r is Err ==> final(c)@ == old(c)@,
{
    let pick: Pick = pick_rows(m, pool.threads(), 4);
    proof {
        if pool.workers() > 1 {
            lemma_pick_fits(pool, m as nat, 4);
        }
    }
    matmul_picked(pool, true, m, k, n, a, b, c, pick, "matmul_f64")
}

/// Law: neither the pool nor the pick shows in a product, nor what the output held before.
/// Whatever a pooled call leaves is what any other product of the same matrices leaves, the
/// one on a single thread with it.
pub proof fn law_pool_does_not_show<T: PackedKernel>(
    a: Seq<T>,
    b: Seq<T>,
    m: int,
    k: int,
    n: int,
    pooled: Seq<T>,
    other: Seq<T>,
)
    requires
        0 <= m,
        0 <= n,
        is_product(a, b, m, k, n, pooled),
        is_product(a, b, m, k, n, other),
    ensures
        pooled == other,
{
    law_paths_agree(a, columns(b, k, n), m, k, n, pooled, other);
}

/// Law: blocks that write disjoint rows may run in any order. Whichever of two blocks of
/// rows is written first, the outcome is the same.
pub proof fn law_blocks_commute<T: PackedKernel>(
    c0: Seq<T>,
    c1: Seq<T>,
    c12: Seq<T>,
    c2: Seq<T>,
    c21: Seq<T>,
    m: int,
    n: int,
    a: Seq<T>,
    k: int,
    cols: Seq<Seq<T>>,
    lim: int,
    p: Job,
    q: Job,
    j0: int,
    j1: int,
)
    requires
        0 <= m,
        0 <= n,
        c0.len() == m * n,
        p.end() <= q.start || q.end() <= p.start,
        product_block(c0, c1, n, a, k, cols, lim, p.start as int, p.end(), j0, j1),
        product_block(c1, c12, n, a, k, cols, lim, q.start as int, q.end(), j0, j1),
        product_block(c0, c2, n, a, k, cols, lim, q.start as int, q.end(), j0, j1),
        product_block(c2, c21, n, a, k, cols, lim, p.start as int, p.end(), j0, j1),
    ensures
        c12 == c21,
{
    assert forall|x: int| 0 <= x < c12.len() implies c12[x] == c21[x] by {
        if n == 0 {
            assert(m * n == 0) by (nonlinear_arith)
                requires
                    n == 0,
            ;
        }
        let (i, j) = (x / n, x % n);
        vstd::arithmetic::div_mod::lemma_fundamental_div_mod(x, n);
        vstd::arithmetic::div_mod::lemma_mod_bound(x, n);
        assert(n * i == i * n) by (nonlinear_arith);
        assert(0 <= i) by (nonlinear_arith)
            requires
                0 <= x,
                0 < n,
                i == x / n,
        ;
        let (v1, v2) = (at(c1, n, i, j), at(c2, n, i, j));
        assert(at(c12, n, i, j) == at(c21, n, i, j));
    }
    assert(c12 =~= c21);
}

/// Elements up to `upto` are those of `want`, the others those of `before`.
pub open spec fn stepped_to<S>(now: Seq<S>, want: Seq<S>, before: Seq<S>, upto: int) -> bool {
    &&& now.len() == before.len()
    &&& want.len() == before.len()
    &&& forall|t: int|
        0 <= t < before.len() ==> #[trigger] now[t] == if t < upto {
            want[t]
        } else {
            before[t]
        }
}

/// Advances every orbit by one step, cut into runs of orbits. The workers take the widest
/// path of the machine, whatever the calling thread is held to.
pub fn rk4_j2_step_batch<S: Double>(
    pool: &WorkerPool,
    caps: HwCaps,
    mu: S,
    j2: S,
    re: S,
    dt: S,
    rx: &mut [S],
    ry: &mut [S],
    rz: &mut [S],
    vx: &mut [S],
    vy: &mut [S],
    vz: &mut [S],
) -> (r: Result<(), Error>)
    requires
        pool.wf(),
    ensures
        match same_len_result(
            "rk4_j2_step_batch",
            seq![
                ("rx", old(rx)@.len() as usize),
                ("ry", old(ry)@.len() as usize),
                ("rz", old(rz)@.len() as usize),
                ("vx", old(vx)@.len() as usize),
                ("vy", old(vy)@.len() as usize),
                ("vz", old(vz)@.len() as usize),
            ],
        ) {
            Err(e) => {
                &&& r is Err && r->Err_0 == e
                &&& final(rx)@ == old(rx)@
                &&& final(ry)@ == old(ry)@
                &&& final(rz)@ == old(rz)@
                &&& final(vx)@ == old(vx)@
                &&& final(vy)@ == old(vy)@
                &&& final(vz)@ == old(vz)@
            },
            Ok(_) => {
                &&& r is Ok
                &&& (final(rx)@, final(ry)@, final(rz)@, final(vx)@, final(vy)@, final(vz)@)
                    == rk4_step_all(
                    (old(rx)@, old(ry)@, old(rz)@, old(vx)@, old(vy)@, old(vz)@),
                    mu,
                    j2,
                    re,
                    dt,
                )
            },
        },
{
    let lens = [
        ("rx", rx.len()),
        ("ry", ry.len()),
        ("rz", rz.len()),
        ("vx", vx.len()),
        ("vy", vy.len()),
        ("vz", vz.len()),
    ];
    proof {
        assert(
            lens@ =~= seq![
                ("rx", rx@.len() as usize),
                ("ry", ry@.len() as usize),
                ("rz", rz@.len() as usize),
                ("vx", vx@.len() as usize),
                ("vy", vy@.len() as usize),
                ("vz", vz@.len() as usize),
            ]
        );
        lemma_same_len(lens@);
    }
    let n: usize = match expect_same_len("rk4_j2_step_batch", &lens) {
        Ok(v) => v,
        Err(e) => return Err(e),
    };
    assert(lens@[1].1 == lens@[0].1);
    assert(lens@[2].1 == lens@[0].1);
    assert(lens@[3].1 == lens@[0].1);
    assert(lens@[4].1 == lens@[0].1);
    assert(lens@[5].1 == lens@[0].1);
    let ghost before = (rx@, ry@, rz@, vx@, vy@, vz@);
    let ghost want = rk4_step_all(before, mu, j2, re, dt);
    if n == 0 {
        proof {
            assert(rx@ =~= want.0);
            assert(ry@ =~= want.1);
            assert(rz@ =~= want.2);
            assert(vx@ =~= want.3);
            assert(vy@ =~= want.4);
            assert(vz@ =~= want.5);
        }
        return Ok(());
    }
    let mode = ThreadMode { force_lsx: false };
    let path: SimdPath = SimdPath::detect(caps, &mode);
    let round: Round = pool.chunk_round(n, 6);
    let jobs: Jobs = WorkerPool::blocks_of(round, n);
    let mut q: usize = 0;
    let ghost mut upto: int = 0;
    while q < jobs.len()
        invariant
            q <= jobs@.len(),
            covers(jobs@, n as nat),
            want == rk4_step_all(before, mu, j2, re, dt),
            rx.len() == n,
            before.0.len() == n,
            stepped_to(rx@, want.0, before.0, upto),
            ry.len() == n,
            before.1.len() == n,
            stepped_to(ry@, want.1, before.1, upto),
            rz.len() == n,
            before.2.len() == n,
            stepped_to(rz@, want.2, before.2, upto),
            vx.len() == n,
            before.3.len() == n,
            stepped_to(vx@, want.3, before.3, upto),
            vy.len() == n,
            before.4.len() == n,
            stepped_to(vy@, want.4, before.4, upto),
            vz.len() == n,
            before.5.len() == n,
            stepped_to(vz@, want.5, before.5, upto),
            0 <= upto <= n,
            upto == (if q == 0 {
                0
            } else {
                jobs@[q - 1].end()
            }),
        decreases jobs@.len() - q,
    {
        let job: Job = jobs[q];
        proof {
            lemma_contiguous(jobs@, n as nat, q as int);
            assert(jobs@[q as int].end() <= n);
        }
        let ghost mid = (rx@, ry@, rz@, vx@, vy@, vz@);
        let (_, rx_rest) = rx.split_at_mut(job.start);
        let (rx_run, _) = rx_rest.split_at_mut(job.rows);
        let (_, ry_rest) = ry.split_at_mut(job.start);
        let (ry_run, _) = ry_rest.split_at_mut(job.rows);
        let (_, rz_rest) = rz.split_at_mut(job.start);
        let (rz_run, _) = rz_rest.split_at_mut(job.rows);
        let (_, vx_rest) = vx.split_at_mut(job.start);
        let (vx_run, _) = vx_rest.split_at_mut(job.rows);
        let (_, vy_rest) = vy.split_at_mut(job.start);
        let (vy_run, _) = vy_rest.split_at_mut(job.rows);
        let (_, vz_rest) = vz.split_at_mut(job.start);
        let (vz_run, _) = vz_rest.split_at_mut(job.rows);
        let ghost from = (rx_run@, ry_run@, rz_run@, vx_run@, vy_run@, vz_run@);
        crate::ops::orbit::rk4_j2_step_batch(
            path,
            rx_run,
            ry_run,
            rz_run,
            vx_run,
            vy_run,
            vz_run,
            mu,
            j2,
            re,
            dt,
        );
        let ghost to = (rx_run@, ry_run@, rz_run@, vx_run@, vy_run@, vz_run@);
        proof {
            assert(rx@ =~= mid.0.subrange(0, job.start as int) + (to.0 + mid.0.subrange(
                job.end(),
                n as int,
            )));
            assert forall|t: int| 0 <= t < n implies #[trigger] rx@[t] == if t < job.end() {
                want.0[t]
            } else {
                before.0[t]
            } by {
                if job.start <= t < job.end() {
                    assert(to.0[t - job.start] == rk4_step_all(from, mu, j2, re, dt).0[t
                        - job.start]);
                    assert(from.0[t - job.start] == before.0[t]);
                    assert(from.1[t - job.start] == before.1[t]);
                    assert(from.2[t - job.start] == before.2[t]);
                    assert(from.3[t - job.start] == before.3[t]);
                    assert(from.4[t - job.start] == before.4[t]);
                    assert(from.5[t - job.start] == before.5[t]);
                }
            }
            assert(ry@ =~= mid.1.subrange(0, job.start as int) + (to.1 + mid.1.subrange(
                job.end(),
                n as int,
            )));
            assert forall|t: int| 0 <= t < n implies #[trigger] ry@[t] == if t < job.end() {
                want.1[t]
            } else {
                before.1[t]
            } by {
                if job.start <= t < job.end() {
                    assert(to.1[t - job.start] == rk4_step_all(from, mu, j2, re, dt).1[t
                        - job.start]);
                    assert(from.0[t - job.start] == before.0[t]);
                    assert(from.1[t - job.start] == before.1[t]);
                    assert(from.2[t - job.start] == before.2[t]);
                    assert(from.3[t - job.start] == before.3[t]);
                    assert(from.4[t - job.start] == before.4[t]);
                    assert(from.5[t - job.start] == before.5[t]);
                }
            }
            assert(rz@ =~= mid.2.subrange(0, job.start as int) + (to.2 + mid.2.subrange(
                job.end(),
                n as int,
            )));
            assert forall|t: int| 0 <= t < n implies #[trigger] rz@[t] == if t < job.end() {
                want.2[t]
            } else {
                before.2[t]
            } by {
                if job.start <= t < job.end() {
                    assert(to.2[t - job.start] == rk4_step_all(from, mu, j2, re, dt).2[t
                        - job.start]);
                    assert(from.0[t - job.start] == before.0[t]);
                    assert(from.1[t - job.start] == before.1[t]);
                    assert(from.2[t - job.start] == before.2[t]);
                    assert(from.3[t - job.start] == before.3[t]);
                    assert(from.4[t - job.start] == before.4[t]);
                    assert(from.5[t - job.start] == before.5[t]);
                }
            }
            assert(vx@ =~= mid.3.subrange(0, job.start as int) + (to.3 + mid.3.subrange(
                job.end(),
                n as int,
            )));
            assert forall|t: int| 0 <= t < n implies #[trigger] vx@[t] == if t < job.end() {
                want.3[t]
            } else {
                before.3[t]
            } by {
                if job.start <= t < job.end() {
                    assert(to.3[t - job.start] == rk4_step_all(from, mu, j2, re, dt).3[t
                        - job.start]);
                    assert(from.0[t - job.start] == before.0[t]);
                    assert(from.1[t - job.start] == before.1[t]);
                    assert(from.2[t - job.start] == before.2[t]);
                    assert(from.3[t - job.start] == before.3[t]);
                    assert(from.4[t - job.start] == before.4[t]);
                    assert(from.5[t - job.start] == before.5[t]);
                }
            }
            assert(vy@ =~= mid.4.subrange(0, job.start as int) + (to.4 + mid.4.subrange(
                job.end(),
                n as int,
            )));
            assert forall|t: int| 0 <= t < n implies #[trigger] vy@[t] == if t < job.end() {
                want.4[t]
            } else {
                before.4[t]
            } by {
                if job.start <= t < job.end() {
                    assert(to.4[t - job.start] == rk4_step_all(from, mu, j2, re, dt).4[t
                        - job.start]);
                    assert(from.0[t - job.start] == before.0[t]);
                    assert(from.1[t - job.start] == before.1[t]);
                    assert(from.2[t - job.start] == before.2[t]);
                    assert(from.3[t - job.start] == before.3[t]);
                    assert(from.4[t - job.start] == before.4[t]);
                    assert(from.5[t - job.start] == before.5[t]);
                }
            }
            assert(vz@ =~= mid.5.subrange(0, job.start as int) + (to.5 + mid.5.subrange(
                job.end(),
                n as int,
            )));
            assert forall|t: int| 0 <= t < n implies #[trigger] vz@[t] == if t < job.end() {
                want.5[t]
            } else {
                before.5[t]
            } by {
                if job.start <= t < job.end() {
                    assert(to.5[t - job.start] == rk4_step_all(from, mu, j2, re, dt).5[t
                        - job.start]);
                    assert(from.0[t - job.start] == before.0[t]);
                    assert(from.1[t - job.start] == before.1[t]);
                    assert(from.2[t - job.start] == before.2[t]);
                    assert(from.3[t - job.start] == before.3[t]);
                    assert(from.4[t - job.start] == before.4[t]);
                    assert(from.5[t - job.start] == before.5[t]);
                }
            }
            upto = job.end();
        }
        q = q + 1;
    }
    proof {
        if jobs@.len() == 0 {
            assert(crate::pool::sched::in_some_job(jobs@, 0));
        } else {
            lemma_contiguous(jobs@, n as nat, jobs@.len() - 1);
        }
        assert(rx@ =~= want.0);
        assert(ry@ =~= want.1);
        assert(rz@ =~= want.2);
        assert(vx@ =~= want.3);
        assert(vy@ =~= want.4);
        assert(vz@ =~= want.5);
    }
    Ok(())
}

} // verus!
