//! Pools of workers: rounds, blocks, and the machine that every worker runs, driven here
//! on one thread in many different interleavings.
use lasx_rs::math::{div_ceil, next_multiple_of};
use lasx_rs::pool::sched::{Blocked, Chunk, RowBlock};
use lasx_rs::pool::worker::{Action, Gate, Phase, Worker};
use lasx_rs::pool::{
    enter_dispatch, init_global, pick_rows, row_elements, same_lengths, Job, Pick, Round,
    WorkerPool, MAX_ARRAYS, MIN_PARALLEL_LEN, SPIN_LIMIT,
};

/// Pseudo-random choices of the worker that moves next.
struct Dice(u64);

impl Dice {
    fn below(&mut self, n: usize) -> usize {
        self.0 = self
            .0
            .wrapping_mul(6364136223846793005)
            .wrapping_add(1442695040888963407);
        (self.0 >> 33) as usize % n
    }
}

/// Runs one round: every step, some worker does what its machine says. Returns how often
/// each block was run, and whether a panic has to be passed on.
fn play(
    threads: usize,
    jobs: usize,
    dynamic: bool,
    dice: &mut Dice,
    panics: &[usize],
    mut run: impl FnMut(usize),
) -> bool {
    let mut gate = Gate::new();
    let mut workers: Vec<Worker> = (0..threads).map(|w| Worker::new(w, threads)).collect();
    let mut actions = vec![Action::Spin; threads];
    let mut bad = vec![false; threads];
    let mut next = 0usize;
    gate.publish();
    while gate.busy(threads) {
        let w = dice.below(threads);
        actions[w] = match actions[w] {
            Action::Spin | Action::Park | Action::Sleep => {
                if matches!(workers[w].phase, Phase::Waiting { .. } | Phase::Parked) {
                    workers[w].look(gate.epoch, false)
                } else {
                    actions[w]
                }
            }
            Action::Read => workers[w].read(jobs, dynamic),
            Action::Claim => {
                let at = next;
                next += 1;
                workers[w].claimed(at)
            }
            Action::Run { at } => {
                run(at);
                let panicked = panics.contains(&at);
                bad[w] = bad[w] || panicked;
                workers[w].ran(panicked)
            }
            Action::Count => {
                gate.count(bad[w]);
                workers[w].counted();
                Action::Spin
            }
            Action::Exit => unreachable!(),
        };
    }
    gate.finish()
}

/// Runs the blocks of a round by a team of workers, each block exactly once.
fn run_blocks(
    pool: &WorkerPool,
    round: Round,
    rows: usize,
    mut f: impl FnMut(usize, usize),
) -> usize {
    let (jobs, dynamic) = match round {
        Round::Serial => {
            f(0, rows);
            return 1;
        }
        Round::Table { jobs, dynamic } => (jobs, dynamic),
    };
    let mut dice = Dice(0x51ed ^ rows as u64);
    let mut calls = 0usize;
    let table = jobs.clone();
    let passed = play(pool.threads(), jobs.len(), dynamic, &mut dice, &[], |at| {
        calls += 1;
        f(table[at].start, table[at].rows);
    });
    assert!(!passed);
    calls
}

fn chunks(pool: &WorkerPool, data: &mut [u64], mut f: impl FnMut(&mut [u64])) -> usize {
    let round = pool.chunk_round(data.len(), 1);
    run_blocks(pool, round, data.len(), |start, rows| f(&mut data[start..start + rows]))
}

fn every_element_once() {
    for &threads in &[1usize, 2, 3, 8] {
        for &len in &[
            0usize,
            1,
            7,
            MIN_PARALLEL_LEN - 1,
            MIN_PARALLEL_LEN,
            10_000,
            65_537,
        ] {
            let pool = WorkerPool::new(threads);
            let mut data: Vec<u64> = vec![0; len];
            let calls = chunks(&pool, &mut data, |chunk| {
                for v in chunk.iter_mut() {
                    *v += 1;
                }
            });
            assert!(
                data.iter().all(|&v| v == 1),
                "threads={threads} len={len}: 有人被处理了 0 次或多次"
            );
            if len >= MIN_PARALLEL_LEN && threads > 1 {
                assert!(calls > 1, "len={len} 未被切块");
            }
        }
    }
}

#[test]
fn mod_test_every_element_processed_exactly_once() {
    every_element_once();
}

#[test]
fn pool_test_every_element_processed_exactly_once() {
    every_element_once();
}

fn arrays_in_step() {
    let pool = WorkerPool::new(4);
    let n = 50_000usize;
    let (mut a, mut b, mut c) = (vec![0u32; n], vec![0u32; n], vec![0u32; n]);
    assert!(same_lengths(&[a.len(), b.len(), c.len()]));
    let round = pool.chunk_round(n, 3);
    run_blocks(&pool, round, n, |start, rows| {
        let (x, y, z) = (
            &mut a[start..start + rows],
            &mut b[start..start + rows],
            &mut c[start..start + rows],
        );
        assert_eq!(x.len(), y.len());
        assert_eq!(y.len(), z.len());
        for i in 0..x.len() {
            x[i] += 1;
            y[i] += 1;
            z[i] += 1;
        }
    });
    for i in 0..n {
        assert_eq!((a[i], b[i], c[i]), (1, 1, 1), "下标 {i} 未被处理或重复处理");
    }
}

#[test]
fn mod_test_multi_array_chunks_are_aligned_and_disjoint() {
    arrays_in_step();
}

#[test]
fn pool_test_multi_array_chunks_are_aligned_and_disjoint() {
    arrays_in_step();
}

#[test]
fn test_row_blocks_pair_arrays_by_row_range() {
    let pool = WorkerPool::new(5);
    let (m, k, n) = (1000usize, 7usize, 11usize);
    let a: Vec<u64> = (0..m * k).map(|i| (i / k) as u64).collect();
    let mut c: Vec<u64> = (0..m * n).map(|i| (i / n) as u64).collect();
    let mut seen = Vec::new();

    let total = row_elements(m, 4, &[(a.len(), k), (c.len(), n)]).unwrap();
    let round = pool.row_round(m, 4, total);
    run_blocks(&pool, round, m, |start, r| {
        let ab = &a[start * k..(start + r) * k];
        let cb = &mut c[start * n..(start + r) * n];
        assert_eq!(ab.len(), r * k, "A 块长度与块内行数不符");
        assert_eq!(cb.len(), r * n, "C 块长度与块内行数不符");
        let row0 = ab[0] as usize;
        assert_eq!(cb[0], row0 as u64, "两个数组的行区间没对齐");
        for i in 0..r {
            assert_eq!(ab[i * k], (row0 + i) as u64, "A 块内行号不连续");
            assert_eq!(cb[i * n], (row0 + i) as u64, "C 块内行号不连续");
            for j in 0..n {
                cb[i * n + j] += 1;
            }
        }
        seen.push((row0, r));
    });

    seen.sort_unstable();
    let mut next = 0usize;
    for (row0, r) in seen {
        assert_eq!(row0, next, "行区间有重叠或空洞");
        next = row0 + r;
    }
    assert_eq!(next, m, "没有覆盖全部行");
    let want: Vec<u64> = (0..m * n).map(|i| (i / n) as u64 + 1).collect();
    assert_eq!(c, want, "行块写回的位置不对");
}

fn sum_of_chunks() {
    let pool = WorkerPool::new(6);
    let n = 100_003usize;
    let data: Vec<f64> = (0..n).map(|i| i as f64 * 0.5).collect();
    let want: f64 = data.iter().sum();
    let mut got = 0f64;
    let round = pool.chunk_round(n, 1);
    run_blocks(&pool, round, n, |start, rows| {
        let s: f64 = data[start..start + rows].iter().sum();
        got += s;
    });
    assert!((got - want).abs() < 1e-6, "并行求和 {got} != 串行 {want}");
}

#[test]
fn mod_test_sum_matches_serial() {
    sum_of_chunks();
}

#[test]
fn pool_test_sum_matches_serial() {
    sum_of_chunks();
}

fn reused_pool() {
    let pool = WorkerPool::new(4);
    let mut data = vec![0u64; 20_000];
    for round in 0..50 {
        chunks(&pool, &mut data, |chunk| {
            for v in chunk.iter_mut() {
                *v += 1;
            }
        });
        assert!(
            data.iter().all(|&v| v == round + 1),
            "第 {round} 轮结果不对——池跨调用复用有问题"
        );
    }
}

#[test]
fn mod_test_pool_is_reusable_across_many_calls() {
    reused_pool();
}

#[test]
fn pool_test_pool_is_reusable_across_many_calls() {
    reused_pool();
}

#[test]
fn row_block_strategies_visit_every_row_once() {
    let pool = WorkerPool::new(5);
    let (rows, width) = (2000usize, 3usize);
    let picks = [
        Pick::Chunk,
        Pick::RowBlock,
        Pick::Blocked { block_rows: 7 },
        Pick::Dynamic { block_rows: 7 },
    ];
    for pick in picks {
        let mut data = vec![0usize; rows * width];
        let total = row_elements(rows, 1, &[(data.len(), width)]).unwrap();
        let round = pool.picked_round(rows, 1, total, pick);
        run_blocks(&pool, round, rows, |start, n| {
            let d = &mut data[start * width..(start + n) * width];
            for i in 0..n {
                for k in 0..width {
                    d[i * width + k] += 1;
                }
            }
        });
        assert!(
            data.iter().all(|&v| v == 1),
            "{}: 有行没跑到或跑了多次",
            pick.name()
        );
    }
}

#[test]
fn test_row_block_start_matches_slice() {
    let pool = WorkerPool::new(5);
    let (rows, width) = (2048usize, 3usize);
    let mut data: Vec<usize> = (0..rows * width).collect();
    for pick in [
        Pick::Chunk,
        Pick::RowBlock,
        Pick::Blocked { block_rows: 7 },
        Pick::Dynamic { block_rows: 7 },
    ] {
        for (i, v) in data.iter_mut().enumerate() {
            *v = i / width;
        }
        let mut covered = 0usize;
        let round = pool.picked_round(rows, 1, data.len(), pick);
        run_blocks(&pool, round, rows, |start, n| {
            let d = &data[start * width..(start + n) * width];
            assert_eq!(d[0], start, "{}: 块的第一个元素不属于 start 行", pick.name());
            assert_eq!(
                d[(n - 1) * width],
                start + n - 1,
                "{}: 块的最后一个元素不属于 start+n-1 行",
                pick.name()
            );
            covered += n;
        });
        assert_eq!(covered, rows, "{}: 块没有恰好覆盖全部行", pick.name());
    }
}

/// Every block runs exactly once, dealt or claimed, in any interleaving.
#[test]
fn every_block_once_in_many_interleavings() {
    for seed in 0..200u64 {
        let mut dice = Dice(seed * 7919 + 3);
        let (threads, jobs) = (1 + dice.below(6), dice.below(20));
        for dynamic in [false, true] {
            let mut runs = vec![0; jobs];
            let passed = play(threads, jobs, dynamic, &mut dice, &[], |at| runs[at] += 1);
            assert!(!passed);
            assert!(runs.iter().all(|&r| r == 1), "{threads} {jobs} {dynamic} {runs:?}");
        }
    }
}

/// A block that panics ends its worker's round, not the pool's: the round ends, the panic
/// is passed on, and no block runs twice.
#[test]
fn a_panic_does_not_hang_the_round() {
    for seed in 0..100u64 {
        let mut dice = Dice(seed * 104729 + 1);
        let (threads, jobs) = (1 + dice.below(5), 3 + dice.below(12));
        for dynamic in [false, true] {
            let mut runs = vec![0; jobs];
            let passed = play(threads, jobs, dynamic, &mut dice, &[0], |at| runs[at] += 1);
            assert!(passed);
            assert_eq!(runs[0], 1);
            assert!(runs.iter().all(|&r| r <= 1));
        }
    }
}

/// A worker without work looks `SPIN_LIMIT` times, parks, sleeps, and stops when told to.
#[test]
fn a_worker_waits_parks_and_exits() {
    let mut w = Worker::new(0, 2);
    for _ in 0..SPIN_LIMIT - 1 {
        assert_eq!(w.look(0, false), Action::Spin);
    }
    assert_eq!(w.look(0, false), Action::Park);
    assert_eq!(w.look(0, false), Action::Sleep);
    let mut parked = w;
    assert_eq!(parked.look(0, true), Action::Exit);
    assert_eq!(w.look(1, false), Action::Read);
    assert_eq!(w.read(1, false), Action::Run { at: 0 });
    assert_eq!(w.ran(false), Action::Count);
    w.counted();
    assert_eq!(w.look(1, true), Action::Exit);

    let mut idle = Worker::new(1, 2);
    assert_eq!(idle.look(1, false), Action::Read);
    assert_eq!(idle.read(1, false), Action::Count);

    let mut dealt = Worker::new(1, 2);
    assert_eq!(dealt.look(1, false), Action::Read);
    assert_eq!(dealt.read(6, false), Action::Run { at: 1 });
    assert_eq!(dealt.ran(false), Action::Run { at: 3 });
    assert_eq!(dealt.ran(false), Action::Run { at: 5 });
    assert_eq!(dealt.ran(false), Action::Count);
}

/// Short calls and single workers stay on the calling thread.
#[test]
fn short_calls_are_serial() {
    let pool = WorkerPool::new(8);
    assert!(matches!(pool.chunk_round(MIN_PARALLEL_LEN - 1, 1), Round::Serial));
    assert!(matches!(pool.chunk_round(MIN_PARALLEL_LEN, 1), Round::Table { .. }));
    assert!(matches!(pool.chunk_round(MIN_PARALLEL_LEN / 4, 4), Round::Table { .. }));
    assert!(matches!(pool.row_round(1, 4, 1 << 20), Round::Serial));
    assert!(matches!(pool.picked_round(64, 4, 100, Pick::Chunk), Round::Serial));
    let one = WorkerPool::new(0);
    assert_eq!(one.threads(), 1);
    assert!(matches!(one.chunk_round(1 << 20, 1), Round::Serial));
    assert_eq!(WorkerPool::auto(Some(3)).threads(), 3);
    assert_eq!(WorkerPool::auto(None).threads(), 1);
    assert_eq!(MAX_ARRAYS, 16);
    let jobs = WorkerPool::blocks_of(Round::Serial, 9);
    assert_eq!(jobs, vec![Job { start: 0, rows: 9 }]);
}

/// Blocks of the compile-time strategies.
#[test]
fn strategies_cut_as_documented() {
    let pool = WorkerPool::new(12);
    let rounds = [
        pool.strategy_round::<Chunk>(256, 4, 1 << 20),
        pool.strategy_round::<RowBlock>(256, 4, 1 << 20),
        pool.row_round(256, 4, 1 << 20),
    ];
    for round in rounds {
        let jobs = WorkerPool::blocks_of(round, 256);
        assert_eq!(jobs[0], Job { start: 0, rows: 24 });
        assert_eq!(jobs.len(), 11);
        assert_eq!(jobs[10], Job { start: 240, rows: 16 });
    }
    let jobs = WorkerPool::blocks_of(pool.strategy_round::<Blocked<10>>(256, 4, 1 << 20), 256);
    assert_eq!(jobs.len(), 22);
    assert_eq!(jobs[0].rows, 12);
    assert_eq!(next_multiple_of(div_ceil(256, 12), 4), 24);
    assert_eq!(pick_rows(256, 12, 4), Pick::RowBlock);
}

/// A call knows beforehand whether it stays on one thread and whether its blocks fit.
#[test]
fn calls_are_tested_before_they_are_cut() {
    let pool = WorkerPool::new(3);
    assert!(pool.is_serial(1, 1 << 20));
    assert!(pool.is_serial(64, 4095));
    assert!(!pool.is_serial(64, 4096));
    assert!(WorkerPool::new(1).is_serial(64, 1 << 20));
    assert!(pool.pick_fits(64, 4, Pick::Chunk));
    assert!(pool.pick_fits(64, usize::MAX, Pick::RowBlock));
    assert!(pool.pick_fits(64, 4, Pick::Dynamic { block_rows: 0 }));
    assert!(!pool.pick_fits(64, 4, Pick::Blocked { block_rows: usize::MAX }));
    assert!(pool.pick_fits(64, 1, Pick::Blocked { block_rows: usize::MAX }));
    let long = Pick::Dynamic { block_rows: usize::MAX };
    assert!(!pool.pick_fits(64, 2, long));
    assert!(matches!(pool.picked_round(64, 2, 100, long), Round::Serial));
}

/// Arrays that do not have the declared number of rows are refused.
#[test]
fn row_shapes_are_checked() {
    assert_eq!(row_elements(10, 4, &[(100, 10), (100, 10)]), Some(200));
    assert_eq!(row_elements(10, 4, &[(100, 10), (99, 10)]), None);
    assert_eq!(row_elements(10, 0, &[(100, 10)]), None);
    assert_eq!(row_elements(usize::MAX, 1, &[(0, 2)]), None);
    assert_eq!(row_elements(1, 1, &[(usize::MAX, usize::MAX), (1, 1)]), Some(usize::MAX));
    assert!(!same_lengths(&[10, 11]));
}

/// There is something to wait for until the last worker has been counted, and a panic of any
/// of them is passed on.
#[test]
fn a_round_waits_for_every_worker() {
    for bad in [None, Some(0), Some(2)] {
        let mut gate = Gate::new();
        assert!(!gate.busy(3));
        gate.publish();
        let mut workers: Vec<Worker> = (0..3).map(|i| Worker::new(i, 3)).collect();
        let mut finished = vec![0; 7];
        for (i, w) in workers.iter_mut().enumerate() {
            assert!(gate.busy(3));
            assert_eq!(w.look(gate.epoch, false), Action::Read);
            let mut action = w.read(7, false);
            let mut failed = false;
            while let Action::Run { at } = action {
                failed = bad == Some(i);
                finished[at] += usize::from(!failed);
                action = w.ran(failed);
            }
            assert_eq!(action, Action::Count);
            assert!(gate.busy(3));
            gate.count(failed);
            w.counted();
            assert_eq!((w.seen, w.phase), (gate.epoch, Phase::Waiting { spins: 0 }));
        }
        assert!(!gate.busy(3));
        assert_eq!(gate.finish(), bad.is_some());
        if bad.is_none() {
            assert_eq!(finished, vec![1; 7]);
        }
    }
}

/// The shared pool is made once; a dispatch inside a dispatch is refused.
#[test]
fn shared_pool_and_reentry() {
    let mut global = None;
    assert!(init_global(&mut global, 3));
    assert!(!init_global(&mut global, 5));
    assert_eq!(global.unwrap().threads(), 3);
    let mut dispatching = false;
    assert!(enter_dispatch(&mut dispatching));
    assert!(!enter_dispatch(&mut dispatching));
}
