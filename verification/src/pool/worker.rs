//! What a worker does next, and what holds of all workers together.
//!
//! A worker waits for a new round, runs its blocks, counts itself as done and waits again.
//! [`Worker`] holds where it stands; its methods take what the worker has just seen and
//! say what to do.
use crate::math::min_nat;
use crate::pool::SPIN_LIMIT;
use vstd::prelude::*;

verus! {

/// Where a worker stands.
#[derive(Clone, Copy, Debug, PartialEq, Eq, Structural)]
pub enum Phase {
    /// Looking for a new round.
    Waiting {
        /// Looks in vain so far.
        spins: u32,
    },
    /// Asleep until the next round is published.
    Parked,
    /// A new round has been seen.
    Starting,
    /// About to claim a block.
    Claiming {
        /// Blocks of the round.
        jobs: usize,
    },
    /// Running block `at`.
    Running {
        /// Blocks of the round.
        jobs: usize,
        /// The block.
        at: usize,
        /// Whether blocks are claimed.
        dynamic: bool,
    },
    /// Through with the round, about to be counted.
    Counting,
    /// Stopped for good.
    Exited,
}

/// What a worker does next.
#[derive(Clone, Copy, Debug, PartialEq, Eq, Structural)]
pub enum Action {
    /// Look again.
    Spin,
    /// Take the lock and look again.
    Park,
    /// Sleep until woken, then look again.
    Sleep,
    /// Find out what the round is.
    Read,
    /// Claim a block.
    Claim,
    /// Run a block.
    Run {
        /// The block.
        at: usize,
    },
    /// Count as done.
    Count,
    /// Stop for good.
    Exit,
}

/// One worker of a pool.
#[derive(Clone, Copy, Debug, PartialEq, Eq, Structural)]
pub struct Worker {
    /// Which worker it is.
    pub index: usize,
    /// Number of workers.
    pub threads: usize,
    /// The last round that it has seen.
    pub seen: usize,
    /// Where it stands.
    pub phase: Phase,
}

impl Worker {
    /// The worker, moved to `phase`.
    pub open spec fn moved(self, phase: Phase) -> Worker {
        Worker { phase, ..self }
    }

    /// What follows when the worker has seen the number of the current round, and whether
    /// the pool is being closed.
    pub open spec fn after_look(self, epoch: usize, stop: bool) -> (Worker, Action) {
        if epoch != self.seen || (self.phase is Parked && stop) {
            let w = Worker { seen: epoch, ..self };
            if stop {
                (w.moved(Phase::Exited), Action::Exit)
            } else {
                (w.moved(Phase::Starting), Action::Read)
            }
        } else {
            match self.phase {
                Phase::Waiting { spins } => if stop {
                    (self.moved(Phase::Exited), Action::Exit)
                } else if spins + 1 < SPIN_LIMIT {
                    (self.moved(Phase::Waiting { spins: (spins + 1) as u32 }), Action::Spin)
                } else {
                    (self.moved(Phase::Parked), Action::Park)
                },
                _ => (self, Action::Sleep),
            }
        }
    }

    /// What follows when the worker has read how many blocks the round has, and whether
    /// they are claimed.
    pub open spec fn after_read(self, jobs: usize, dynamic: bool) -> (Worker, Action) {
        if dynamic {
            (self.moved(Phase::Claiming { jobs }), Action::Claim)
        } else if self.index < jobs {
            (
                self.moved(Phase::Running { jobs, at: self.index, dynamic }),
                Action::Run { at: self.index },
            )
        } else {
            (self.moved(Phase::Counting), Action::Count)
        }
    }

    /// What follows when the worker has been given number `at`.
    pub open spec fn after_claim(self, at: usize) -> (Worker, Action) {
        match self.phase {
            Phase::Claiming { jobs } => if at < jobs {
                (self.moved(Phase::Running { jobs, at, dynamic: true }), Action::Run { at })
            } else {
                (self.moved(Phase::Counting), Action::Count)
            },
            _ => (self, Action::Count),
        }
    }

    /// What follows when a block has been run.
    pub open spec fn after_run(self, panicked: bool) -> (Worker, Action) {
        match self.phase {
            Phase::Running { jobs, at, dynamic } => if panicked {
                (self.moved(Phase::Counting), Action::Count)
            } else if dynamic {
                (self.moved(Phase::Claiming { jobs }), Action::Claim)
            } else if at + self.threads < jobs {
                let next = (at + self.threads) as usize;
                (
                    self.moved(Phase::Running { jobs, at: next, dynamic }),
                    Action::Run { at: next },
                )
            } else {
                (self.moved(Phase::Counting), Action::Count)
            },
            _ => (self, Action::Count),
        }
    }

    /// Worker `index` of `threads`, which has seen no round yet.
    pub fn new(index: usize, threads: usize) -> (r: Self)
        ensures
            r == (Worker { index, threads, seen: 0, phase: Phase::Waiting { spins: 0 } }),
    {
        Worker { index, threads, seen: 0, phase: Phase::Waiting { spins: 0 } }
    }

    /// The worker has seen that round `epoch` is the current one, and whether the pool is
    /// being closed.
    pub fn look(&mut self, epoch: usize, stop: bool) -> (r: Action)
        requires
            old(self).phase is Waiting || old(self).phase is Parked,
        ensures
            (*final(self), r) == old(self).after_look(epoch, stop),
    {
        let parked: bool = matches!(self.phase, Phase::Parked);
        if epoch != self.seen || (parked && stop) {
            self.seen = epoch;
            if stop {
                self.phase = Phase::Exited;
                return Action::Exit;
            }
            self.phase = Phase::Starting;
            return Action::Read;
        }
        match self.phase {
            Phase::Waiting { spins } => {
                if stop {
                    self.phase = Phase::Exited;
                    return Action::Exit;
                }
                if spins < SPIN_LIMIT - 1 {
                    self.phase = Phase::Waiting { spins: spins + 1 };
                    return Action::Spin;
                }
                self.phase = Phase::Parked;
                Action::Park
            },
            _ => Action::Sleep,
        }
    }

    /// The worker has read how many blocks the round has, and whether they are claimed.
    pub fn read(&mut self, jobs: usize, dynamic: bool) -> (r: Action)
        requires
            old(self).phase is Starting,
        ensures
            (*final(self), r) == old(self).after_read(jobs, dynamic),
    {
        if dynamic {
            self.phase = Phase::Claiming { jobs };
            return Action::Claim;
        }
        if self.index < jobs {
            self.phase = Phase::Running { jobs, at: self.index, dynamic };
            return Action::Run { at: self.index };
        }
        self.phase = Phase::Counting;
        Action::Count
    }

    /// The worker has been given number `at`.
    pub fn claimed(&mut self, at: usize) -> (r: Action)
        requires
            old(self).phase is Claiming,
        ensures
            (*final(self), r) == old(self).after_claim(at),
    {
        if let Phase::Claiming { jobs } = self.phase {
            if at < jobs {
                self.phase = Phase::Running { jobs, at, dynamic: true };
                return Action::Run { at };
            }
        }
        self.phase = Phase::Counting;
        Action::Count
    }

    /// The worker has run its block, to the end or until it panicked.
    pub fn ran(&mut self, panicked: bool) -> (r: Action)
        requires
            old(self).phase is Running,
        ensures
            (*final(self), r) == old(self).after_run(panicked),
    {
        if let Phase::Running { jobs, at, dynamic } = self.phase {
            if !panicked && dynamic {
                self.phase = Phase::Claiming { jobs };
                return Action::Claim;
            }
            if !panicked && at < jobs && self.threads < jobs - at {
                let next: usize = at + self.threads;
                self.phase = Phase::Running { jobs, at: next, dynamic };
                return Action::Run { at: next };
            }
        }
        self.phase = Phase::Counting;
        Action::Count
    }

    /// The worker has been counted, and waits again.
    pub fn counted(&mut self)
        requires
            old(self).phase is Counting,
        ensures
            *final(self) == old(self).moved(Phase::Waiting { spins: 0 }),
    {
        self.phase = Phase::Waiting { spins: 0 };
    }
}

/// The counters that a round is published and finished with.
#[derive(Clone, Copy, Debug, PartialEq, Eq, Structural)]
pub struct Gate {
    /// Number of the current round.
    pub epoch: usize,
    /// Workers that are through with it.
    pub done: usize,
    /// Whether a block panicked.
    pub panicked: bool,
    /// Whether the round has been published and not been waited for.
    pub in_flight: bool,
}

impl Gate {
    /// The counters once the next round has been published.
    pub open spec fn published(self) -> Gate {
        Gate { epoch: self.epoch.wrapping_add(1), done: 0, panicked: false, in_flight: true }
    }

    /// The counters once one more worker has been counted.
    pub open spec fn counted(self, panicked: bool) -> Gate {
        Gate {
            done: (self.done + 1) as usize,
            panicked: self.panicked || panicked,
            ..self
        }
    }

    /// There is a round to be waited for, and some worker is not through with it.
    pub open spec fn awaits(self, threads: int) -> bool {
        self.in_flight && self.done < threads
    }

    /// Before the first round.
    pub fn new() -> (r: Self)
        ensures
            r == (Gate { epoch: 0, done: 0, panicked: false, in_flight: false }),
    {
        Gate { epoch: 0, done: 0, panicked: false, in_flight: false }
    }

    /// Publishes the next round.
    pub fn publish(&mut self)
        ensures
            *final(self) == old(self).published(),
            final(self).epoch != old(self).epoch,
    {
        self.epoch = self.epoch.wrapping_add(1);
        self.done = 0;
        self.panicked = false;
        self.in_flight = true;
    }

    /// Counts a worker as through with the round.
    pub fn count(&mut self, panicked: bool)
        requires
            old(self).done < usize::MAX,
        ensures
            *final(self) == old(self).counted(panicked),
    {
        self.done = self.done + 1;
        self.panicked = self.panicked || panicked;
    }

    /// Whether there is a round to be waited for, and some worker is not through with it.
    pub fn busy(&self, threads: usize) -> (r: bool)
        ensures
            r == self.awaits(threads as int),
    {
        self.in_flight && self.done < threads
    }

    /// Ends the round; says whether a panic has to be passed on.
    pub fn finish(&mut self) -> (r: bool)
        ensures
            r == (old(self).in_flight && old(self).panicked),
            *final(self) == (Gate {
                in_flight: false,
                panicked: old(self).panicked && !old(self).in_flight,
                ..*old(self)
            }),
    {
        let pass_on: bool = self.in_flight && self.panicked;
        if self.in_flight {
            self.panicked = false;
        }
        self.in_flight = false;
        pass_on
    }
}

/// All workers of a pool in one round.
pub struct Team {
    /// The workers.
    pub workers: Seq<Worker>,
    /// The counters of the round.
    pub gate: Gate,
    /// Blocks of the round.
    pub jobs: int,
    /// Whether the blocks are claimed.
    pub dynamic: bool,
    /// The next number to be claimed.
    pub next: int,
    /// The next block that a worker would be dealt.
    pub fronts: Seq<int>,
    /// How often each block has been started.
    pub starts: Seq<int>,
    /// Whether each block has been run to its end.
    pub finished: Seq<bool>,
    /// Who started it last.
    pub owner: Seq<int>,
    /// Whether a block of the worker panicked.
    pub panicked: Seq<bool>,
}

/// What one worker of a team may do.
pub enum Move {
    /// Look for a new round.
    Look,
    /// Read what the round is.
    Read,
    /// Claim a block.
    Claim,
    /// End a block.
    Run {
        /// Whether it panicked.
        panicked: bool,
    },
    /// Be counted.
    Count,
}

/// The worker waits, awake or asleep.
pub open spec fn idle(worker: Worker) -> bool {
    worker.phase is Waiting || worker.phase is Parked
}

/// The worker waits, and the last round that it has seen is `epoch`: it is through with it.
pub open spec fn through(worker: Worker, epoch: usize) -> bool {
    idle(worker) && worker.seen == epoch
}

/// How many of the first `count` workers are through with round `epoch`.
pub open spec fn number_through(workers: Seq<Worker>, epoch: usize, count: int) -> int
    decreases count,
{
    if count <= 0 {
        0
    } else {
        number_through(workers, epoch, count - 1) + (if through(workers[count - 1], epoch) {
            1int
        } else {
            0int
        })
    }
}

/// The workers of a pool between two rounds: all of them are through with round `epoch`.
pub open spec fn at_rest(workers: Seq<Worker>, epoch: usize) -> bool {
    &&& 1 <= workers.len() <= usize::MAX
    &&& forall|w: int|
        0 <= w < workers.len() ==> {
            &&& (#[trigger] workers[w]).index == w
            &&& workers[w].threads == workers.len()
            &&& through(workers[w], epoch)
        }
}

/// The team when a round has just been published through `gate`.
pub open spec fn assembled(workers: Seq<Worker>, gate: Gate, jobs: usize, dynamic: bool) -> Team {
    Team {
        workers,
        gate: gate.published(),
        jobs: jobs as int,
        dynamic,
        next: 0,
        fronts: Seq::new(workers.len(), |w: int| w),
        starts: Seq::new(jobs as nat, |j: int| 0),
        finished: Seq::new(jobs as nat, |j: int| false),
        owner: Seq::new(jobs as nat, |j: int| 0),
        panicked: Seq::new(workers.len(), |w: int| false),
    }
}

impl Team {
    /// The phase of worker `w`.
    pub open spec fn phase(self, w: int) -> Phase {
        self.workers[w].phase
    }

    /// Worker `w` has been counted in this round.
    pub open spec fn is_through(self, w: int) -> bool {
        through(self.workers[w], self.gate.epoch)
    }

    /// Whether worker `w` may do `mv`.
    pub open spec fn enabled(self, w: int, mv: Move) -> bool {
        &&& 0 <= w < self.workers.len()
        &&& match mv {
            Move::Look => idle(self.workers[w]),
            Move::Read => self.phase(w) is Starting,
            Move::Claim => self.phase(w) is Claiming,
            Move::Run { .. } => self.phase(w) is Running,
            Move::Count => self.phase(w) is Counting,
        }
    }

    /// The number that the next claim gets; the largest word where there is none.
    pub open spec fn ticket(self) -> usize {
        min_nat(self.next, usize::MAX as int) as usize
    }

    /// The worker and its action after `mv`.
    pub open spec fn outcome(self, w: int, mv: Move) -> (Worker, Action) {
        match mv {
            Move::Look => self.workers[w].after_look(self.gate.epoch, false),
            Move::Read => self.workers[w].after_read(self.jobs as usize, self.dynamic),
            Move::Claim => self.workers[w].after_claim(self.ticket()),
            Move::Run { panicked } => self.workers[w].after_run(panicked),
            Move::Count => (self.workers[w].moved(Phase::Waiting { spins: 0 }), Action::Spin),
        }
    }

    /// The team after worker `w` did `mv`.
    pub open spec fn after(self, w: int, mv: Move) -> Team {
        let (worker, action) = self.outcome(w, mv);
        let moved = Team {
            workers: self.workers.update(w, worker),
            gate: if mv is Count {
                self.gate.counted(self.panicked[w])
            } else {
                self.gate
            },
            next: if mv is Claim {
                self.next + 1
            } else {
                self.next
            },
            finished: match (mv, self.phase(w)) {
                (
                    Move::Run { panicked: false },
                    Phase::Running { jobs: _, at, dynamic: _ },
                ) => self.finished.update(at as int, true),
                _ => self.finished,
            },
            panicked: if mv matches Move::Run { panicked } && panicked {
                self.panicked.update(w, true)
            } else {
                self.panicked
            },
            ..self
        };
        match action {
            Action::Run { at } => Team {
                starts: self.starts.update(at as int, self.starts[at as int] + 1),
                owner: self.owner.update(at as int, w),
                fronts: if self.dynamic {
                    self.fronts
                } else {
                    self.fronts.update(w, at + self.workers.len())
                },
                ..moved
            },
            _ => moved,
        }
    }

    /// Whether block `j` has been handed out.
    pub open spec fn handed_out(self, j: int) -> bool {
        if self.dynamic {
            j < self.next
        } else {
            j < self.fronts[j % self.workers.len() as int]
        }
    }

    /// Nothing is left to be handed to worker `w`, or a block of it panicked.
    pub open spec fn used_up(self, w: int) -> bool {
        self.panicked[w] || (if self.dynamic {
            self.next >= self.jobs
        } else {
            self.fronts[w] >= self.jobs
        })
    }

    /// Worker `w` is running block `j`.
    pub open spec fn runs(self, w: int, j: int) -> bool {
        self.phase(w) is Running && self.phase(w)->at == j
    }

    /// Worker `w` stands where the counters say.
    pub open spec fn in_place(self, w: int) -> bool {
        let threads = self.workers.len() as int;
        if idle(self.workers[w]) {
            if self.is_through(w) {
                self.used_up(w) && (self.panicked[w] ==> self.gate.panicked)
            } else {
                self.fronts[w] == w
            }
        } else {
            &&& self.workers[w].seen == self.gate.epoch
            &&& match self.phase(w) {
                Phase::Starting => self.fronts[w] == w,
                Phase::Claiming { jobs } => self.dynamic && jobs == self.jobs,
                Phase::Running { jobs, at, dynamic } => {
                    &&& jobs == self.jobs
                    &&& dynamic == self.dynamic
                    &&& at < self.jobs
                    &&& self.owner[at as int] == w
                    &&& self.handed_out(at as int)
                    &&& !dynamic ==> at as int % threads == w && self.fronts[w] == at + threads
                },
                Phase::Counting => self.used_up(w),
                _ => false,
            }
        }
    }

    /// Block `j` has been started as often as it has been handed out, and once it has been
    /// started, it is finished, or running, or its worker's panic is on record.
    pub open spec fn accounted(self, j: int) -> bool {
        &&& self.starts[j] == if self.handed_out(j) {
            1int
        } else {
            0int
        }
        &&& self.handed_out(j) ==> {
            &&& 0 <= self.owner[j] < self.workers.len()
            &&& self.finished[j] || self.panicked[self.owner[j]] || self.runs(self.owner[j], j)
        }
        &&& self.finished[j] ==> self.handed_out(j)
    }

    /// What holds of the team at any time during a round.
    pub open spec fn wf(self) -> bool {
        let threads = self.workers.len() as int;
        &&& 1 <= threads <= usize::MAX
        &&& 0 <= self.jobs <= usize::MAX
        &&& self.fronts.len() == threads
        &&& self.panicked.len() == threads
        &&& self.starts.len() == self.jobs
        &&& self.finished.len() == self.jobs
        &&& self.owner.len() == self.jobs
        &&& 0 <= self.next
        &&& self.gate.in_flight
        &&& self.gate.done == number_through(self.workers, self.gate.epoch, threads)
        &&& self.gate.panicked ==> exists|w: int| 0 <= w < threads && #[trigger] self.panicked[w]
        &&& forall|w: int|
            0 <= w < threads ==> (#[trigger] self.workers[w]).index == w && self.workers[w].threads
                == threads
        &&& forall|w: int|
            0 <= w < threads ==> 0 <= #[trigger] self.fronts[w] && self.fronts[w] % threads == w
        &&& forall|j: int| 0 <= j < self.jobs ==> #[trigger] self.accounted(j)
        &&& forall|w: int| 0 <= w < threads ==> #[trigger] self.in_place(w)
    }
}

/// The number of workers that are through lies between none and all.
proof fn lemma_number_through(workers: Seq<Worker>, epoch: usize, count: int)
    requires
        0 <= count <= workers.len(),
    ensures
        0 <= number_through(workers, epoch, count) <= count,
        number_through(workers, epoch, count) == count <==> forall|w: int|
            0 <= w < count ==> through(#[trigger] workers[w], epoch),
        number_through(workers, epoch, count) == 0 <==> forall|w: int|
            0 <= w < count ==> !through(#[trigger] workers[w], epoch),
    decreases count,
{
    if count > 0 {
        lemma_number_through(workers, epoch, count - 1);
        let last = workers[count - 1];
    }
}

/// The number changes by what the worker that was replaced and the new one make.
proof fn lemma_number_replaced(
    workers: Seq<Worker>,
    epoch: usize,
    count: int,
    w: int,
    worker: Worker,
)
    requires
        0 <= w < workers.len(),
        0 <= count <= workers.len(),
    ensures
        number_through(workers.update(w, worker), epoch, count) == number_through(
            workers,
            epoch,
            count,
        ) + (if w < count && through(worker, epoch) {
            1int
        } else {
            0int
        }) - (if w < count && through(workers[w], epoch) {
            1int
        } else {
            0int
        }),
    decreases count,
{
    if count > 0 {
        lemma_number_replaced(workers, epoch, count - 1, w, worker);
    }
}

/// Law: the workers of a new pool are at rest, and no round has been published.
pub proof fn law_pool_begins_at_rest(threads: usize)
    requires
        threads >= 1,
    ensures
        at_rest(
            Seq::new(
                threads as nat,
                |w: int| Worker {
                    index: w as usize,
                    threads,
                    seen: 0,
                    phase: Phase::Waiting { spins: 0 },
                },
            ),
            0,
        ),
{
}

/// Law: a round that is published while the workers are at rest starts well.
pub proof fn law_round_begins(workers: Seq<Worker>, gate: Gate, jobs: usize, dynamic: bool)
    requires
        at_rest(workers, gate.epoch),
    ensures
        assembled(workers, gate, jobs, dynamic).wf(),
{
    let threads = workers.len() as int;
    let t = assembled(workers, gate, jobs, dynamic);
    assert(t.gate.epoch != gate.epoch);
    assert forall|w: int| 0 <= w < threads implies !through(
        #[trigger] workers[w],
        t.gate.epoch,
    ) by {
        assert(through(workers[w], gate.epoch));
    }
    lemma_number_through(workers, t.gate.epoch, threads);
    assert forall|w: int| 0 <= w < threads implies 0 <= #[trigger] t.fronts[w] && t.fronts[w]
        % threads == w by {
        vstd::arithmetic::div_mod::lemma_small_mod(w as nat, threads as nat);
    }
    assert forall|w: int| 0 <= w < threads implies #[trigger] t.in_place(w) by {
        assert(!through(workers[w], t.gate.epoch));
        assert(through(workers[w], gate.epoch));
    }
    assert forall|j: int| 0 <= j < jobs implies #[trigger] t.accounted(j) by {
        if !dynamic {
            lemma_residue(j, threads);
        }
    }
}

/// A number is at least its remainder.
proof fn lemma_residue(j: int, threads: int)
    requires
        0 <= j,
        0 < threads,
    ensures
        0 <= j % threads < threads,
        j % threads <= j,
{
    vstd::arithmetic::div_mod::lemma_mod_bound(j, threads);
    vstd::arithmetic::div_mod::lemma_mod_decreases(j as nat, threads as nat);
}

/// Of `threads` consecutive numbers only one has a given remainder.
proof fn lemma_one_per_stretch(a: int, j: int, threads: int)
    requires
        0 < threads,
        a <= j < a + threads,
        a % threads == j % threads,
    ensures
        a == j,
{
    vstd::arithmetic::div_mod::lemma_fundamental_div_mod(a, threads);
    vstd::arithmetic::div_mod::lemma_fundamental_div_mod(j, threads);
    let (p, q) = (a / threads, j / threads);
    assert(a == j) by (nonlinear_arith)
        requires
            a == threads * p + a % threads,
            j == threads * q + j % threads,
            a % threads == j % threads,
            a <= j < a + threads,
            0 < threads,
    ;
}

/// Law: whatever a worker does, the team stays in order.
pub proof fn law_round_goes_on(t: Team, w: int, mv: Move)
    requires
        t.wf(),
        t.enabled(w, mv),
    ensures
        t.after(w, mv).wf(),
{
    let threads = t.workers.len() as int;
    let epoch = t.gate.epoch;
    let u = t.after(w, mv);
    let (worker, action) = t.outcome(w, mv);
    assert(t.in_place(w));
    assert(t.workers[w].index == w && t.workers[w].threads == threads);
    assert(t.fronts[w] % threads == w);
    lemma_number_through(t.workers, epoch, threads);
    lemma_number_replaced(t.workers, epoch, threads, w, worker);
    if let Action::Run { at } = action {
        let a = at as int;
        assert(0 <= a < t.jobs);
        if !t.dynamic {
            if mv is Read {
                vstd::arithmetic::div_mod::lemma_small_mod(w as nat, threads as nat);
            } else {
                vstd::arithmetic::div_mod::lemma_mod_add_multiples_vanish(a - threads, threads);
            }
            assert(a % threads == w);
            assert(a == t.fronts[w]);
            vstd::arithmetic::div_mod::lemma_mod_add_multiples_vanish(a, threads);
        }
        assert(!t.handed_out(a));
        assert(t.accounted(a));
    }
    assert forall|j: int| 0 <= j < u.jobs implies #[trigger] u.accounted(j) by {
        assert(t.accounted(j));
        lemma_residue(j, threads);
        if let Action::Run { at } = action {
            if !t.dynamic && j % threads == w && at <= j < at + threads {
                lemma_one_per_stretch(at as int, j, threads);
            }
        }
    }
    assert forall|v: int| 0 <= v < threads implies #[trigger] u.in_place(v) by {
        assert(t.in_place(v));
        if let Phase::Running { jobs, at, dynamic } = t.phase(v) {
            lemma_residue(at as int, threads);
        }
        if v == w {
            if let Action::Run { at } = action {
                lemma_residue(at as int, threads);
            }
        }
    }
    assert forall|v: int| 0 <= v < threads implies 0 <= #[trigger] u.fronts[v] && u.fronts[v]
        % threads == v by {
        assert(t.fronts[v] % threads == v);
    }
    if u.gate.panicked {
        if t.gate.panicked {
            let v = choose|v: int| 0 <= v < threads && #[trigger] t.panicked[v];
            assert(u.panicked[v]);
        } else {
            assert(u.panicked[w]);
        }
    }
}

/// Law: no block is ever started twice, and no two workers run the same block.
pub proof fn law_no_block_twice(t: Team, v: int, w: int, j: int)
    requires
        t.wf(),
        0 <= v < t.workers.len(),
        0 <= w < t.workers.len(),
        0 <= j < t.jobs,
    ensures
        t.starts[j] <= 1,
        v != w ==> !(t.runs(v, j) && t.runs(w, j)),
{
    assert(t.in_place(v) && t.in_place(w));
    assert(t.accounted(j));
}

/// Law: the workers that are through are counted, no more and no fewer. There is
/// something to wait for exactly as long as some worker is not.
pub proof fn law_gate_counts_workers(t: Team)
    requires
        t.wf(),
    ensures
        t.gate.done == number_through(t.workers, t.gate.epoch, t.workers.len() as int),
        t.gate.done <= t.workers.len(),
        t.gate.awaits(t.workers.len() as int) <==> exists|w: int|
            0 <= w < t.workers.len() && !#[trigger] t.is_through(w),
{
    let threads = t.workers.len() as int;
    lemma_number_through(t.workers, t.gate.epoch, threads);
    if t.gate.awaits(threads) {
        let w = choose|w: int|
            0 <= w < threads && !through(#[trigger] t.workers[w], t.gate.epoch);
        assert(!t.is_through(w));
    }
}

/// Law: a call returns only when all of its work is done. Once there is nothing to wait for,
/// no worker runs a block any more, and every block has been started exactly once and run to
/// its end, unless a panic is passed on.
pub proof fn law_call_waits_for_all(t: Team)
    requires
        t.wf(),
        !t.gate.awaits(t.workers.len() as int),
    ensures
        forall|w: int| 0 <= w < t.workers.len() ==> #[trigger] t.is_through(w),
        forall|w: int, j: int| 0 <= w < t.workers.len() ==> !#[trigger] t.runs(w, j),
        t.gate.panicked <==> exists|w: int| 0 <= w < t.workers.len() && #[trigger] t.panicked[w],
        !t.gate.panicked ==> forall|j: int|
            0 <= j < t.jobs ==> #[trigger] t.starts[j] == 1 && t.finished[j],
{
    let threads = t.workers.len() as int;
    law_gate_counts_workers(t);
    assert forall|w: int| 0 <= w < threads && #[trigger] t.panicked[w] implies t.gate.panicked by {
        assert(t.is_through(w));
        assert(t.in_place(w));
    }
    assert forall|w: int, j: int| 0 <= w < threads implies !#[trigger] t.runs(w, j) by {
        assert(t.is_through(w));
    }
    if !t.gate.panicked {
        assert forall|j: int| 0 <= j < t.jobs implies #[trigger] t.starts[j] == 1
            && t.finished[j] by {
            law_every_block_once(t, j);
        }
    }
}

/// Law: once every worker is through and no block panicked, every block has been started
/// exactly once and run to its end.
pub proof fn law_every_block_once(t: Team, j: int)
    requires
        t.wf(),
        forall|w: int| 0 <= w < t.workers.len() ==> #[trigger] t.is_through(w),
        forall|w: int| 0 <= w < t.workers.len() ==> !#[trigger] t.panicked[w],
        0 <= j < t.jobs,
    ensures
        t.starts[j] == 1,
        t.finished[j],
{
    let threads = t.workers.len() as int;
    lemma_residue(j, threads);
    let w = j % threads;
    assert(t.is_through(w));
    assert(t.in_place(w));
    assert(!t.panicked[w]);
    assert(t.handed_out(j));
    assert(t.accounted(j));
    let v = t.owner[j];
    assert(t.is_through(v));
    assert(!t.panicked[v]);
}

/// Law: a round leaves the workers as the next one needs them, after a panic too.
pub proof fn law_rounds_follow(t: Team)
    requires
        t.wf(),
        !t.gate.awaits(t.workers.len() as int),
    ensures
        at_rest(t.workers, t.gate.epoch),
{
    law_gate_counts_workers(t);
    assert forall|w: int| 0 <= w < t.workers.len() implies through(
        #[trigger] t.workers[w],
        t.gate.epoch,
    ) by {
        assert(t.is_through(w));
    }
}

/// Moves that a worker has left at most, apart from claims.
pub open spec fn moves_left(worker: Worker, epoch: usize, jobs: int) -> int {
    if idle(worker) {
        if worker.seen == epoch {
            0
        } else {
            jobs + 5
        }
    } else {
        match worker.phase {
            Phase::Starting => jobs + 4,
            Phase::Claiming { .. } => 2,
            Phase::Running { at, dynamic, .. } => if dynamic {
                3
            } else {
                jobs - at + 2
            },
            Phase::Counting => 1,
            _ => 0,
        }
    }
}

/// The sum of [`moves_left`] over the first `count` workers.
pub open spec fn all_moves_left(
    workers: Seq<Worker>,
    epoch: usize,
    jobs: int,
    count: int,
) -> int
    decreases count,
{
    if count <= 0 {
        0
    } else {
        all_moves_left(workers, epoch, jobs, count - 1) + moves_left(
            workers[count - 1],
            epoch,
            jobs,
        )
    }
}

impl Team {
    /// Moves that the team has left at most, looks of workers that are through not counted.
    pub open spec fn measure(self) -> int {
        all_moves_left(self.workers, self.gate.epoch, self.jobs, self.workers.len() as int) + 3 * (
        if self.next < self.jobs {
            self.jobs - self.next
        } else {
            0
        })
    }
}

/// The sum changes by as much as the worker that was replaced.
proof fn lemma_replaced(
    workers: Seq<Worker>,
    epoch: usize,
    jobs: int,
    count: int,
    w: int,
    worker: Worker,
)
    requires
        0 <= w < workers.len(),
        0 <= count <= workers.len(),
    ensures
        all_moves_left(workers.update(w, worker), epoch, jobs, count) == all_moves_left(
            workers,
            epoch,
            jobs,
            count,
        ) + (if w < count {
            moves_left(worker, epoch, jobs) - moves_left(workers[w], epoch, jobs)
        } else {
            0
        }),
    decreases count,
{
    if count > 0 {
        lemma_replaced(workers, epoch, jobs, count - 1, w, worker);
    }
}

/// The sum is not negative.
proof fn lemma_moves_left(t: Team, count: int)
    requires
        t.wf(),
        0 <= count <= t.workers.len(),
    ensures
        0 <= all_moves_left(t.workers, t.gate.epoch, t.jobs, count),
    decreases count,
{
    if count > 0 {
        lemma_moves_left(t, count - 1);
        assert(t.in_place(count - 1));
    }
}

/// Law: a round ends. Every move of a worker that is not through uses up one of finitely
/// many, panics included; a worker that is through can only look, which changes nothing.
pub proof fn law_round_ends(t: Team, w: int, mv: Move)
    requires
        t.wf(),
        t.enabled(w, mv),
    ensures
        !t.is_through(w) ==> 0 <= t.after(w, mv).measure() < t.measure(),
        t.is_through(w) ==> mv is Look && t.after(w, mv).measure() == t.measure()
            && t.after(w, mv).is_through(w),
{
    law_round_goes_on(t, w, mv);
    let u = t.after(w, mv);
    assert(t.in_place(w));
    assert(t.workers[w].index == w && t.workers[w].threads == t.workers.len());
    lemma_moves_left(u, u.workers.len() as int);
    lemma_replaced(
        t.workers,
        t.gate.epoch,
        t.jobs,
        t.workers.len() as int,
        w,
        t.outcome(w, mv).0,
    );
}

/// Law: no worker is stuck. One that is not through can always move, whatever the others do.
pub proof fn law_worker_can_move(t: Team, w: int)
    requires
        t.wf(),
        0 <= w < t.workers.len(),
        !t.is_through(w),
    ensures
        exists|mv: Move| #[trigger] t.enabled(w, mv),
{
    assert(t.in_place(w));
    if idle(t.workers[w]) {
        assert(t.enabled(w, Move::Look));
    } else if t.phase(w) is Starting {
        assert(t.enabled(w, Move::Read));
    } else if t.phase(w) is Claiming {
        assert(t.enabled(w, Move::Claim));
    } else if t.phase(w) is Running {
        assert(t.enabled(w, Move::Run { panicked: false }));
    } else {
        assert(t.enabled(w, Move::Count));
    }
}

} // verus!
