use vstd::prelude::*;
use vstd::set_lib::{lemma_int_range, set_int_range};

use crate::queue::{Claim, QueueState};
use crate::worker::{Phase, TaskOutcome, WorkerState};

verus! {

/// The mathematical content of a pool: its queue, what each worker is doing,
/// and the history of the tasks that went through it.
///
/// A task is named by its ticket, the number of tasks accepted before it, so
/// `accepted[t]` is the task with ticket `t`.
pub struct PoolState<T> {
    /// The job queue.
    pub queue: QueueState<T>,
    /// The phase of each worker, by worker number.
    pub workers: Seq<Phase>,
    /// Every task that was ever accepted, in the order of submission.
    pub accepted: Seq<T>,
    /// The tickets of the tasks whose execution has ended, in the order of completion.
    pub finished: Seq<int>,
    /// How many executions ended in a fault.
    pub faults: nat,
}

/// The number of workers among `workers` that are in `state`.
pub open spec fn count_in(workers: Seq<Phase>, state: WorkerState) -> nat
    decreases workers.len(),
{
    if workers.len() == 0 {
        0
    } else {
        count_in(workers.drop_last(), state) + if workers.last().state() == state {
            1nat
        } else {
            0nat
        }
    }
}

impl<T> PoolState<T> {
    /// A new pool of `size` workers: all idle, nothing accepted yet.
    pub open spec fn init(size: nat) -> Self {
        PoolState {
            queue: QueueState::empty(),
            workers: Seq::new(size, |w: int| Phase::Idle),
            accepted: Seq::empty(),
            finished: Seq::empty(),
            faults: 0,
        }
    }

    /// Whether `w` is the number of a worker of this pool.
    pub open spec fn has_worker(self, w: int) -> bool {
        0 <= w < self.workers.len()
    }

    /// How many tasks have been handed to a worker so far. It is also the
    /// ticket of the task at the head of the queue, if there is one.
    pub open spec fn claimed(self) -> int {
        self.accepted.len() - self.queue.pending.len()
    }

    /// Whether worker `w` executes the task with ticket `t`.
    pub open spec fn runs(self, w: int, t: int) -> bool {
        self.has_worker(w) && self.workers[w] == (Phase::Running { ticket: t })
    }

    /// Whether some worker executes the task with ticket `t`.
    pub open spec fn in_flight(self, t: int) -> bool {
        exists|w: int| self.runs(w, t)
    }

    /// Whether some worker has stopped.
    pub open spec fn some_stopped(self) -> bool {
        exists|w: int| self.has_worker(w) && #[trigger] self.workers[w] is Stopped
    }

    /// The number of workers that are in `state`.
    pub open spec fn count(self, state: WorkerState) -> nat {
        count_in(self.workers, state)
    }

    /// The number of workers that have not stopped.
    pub open spec fn active(self) -> nat {
        self.count(WorkerState::Idle) + self.count(WorkerState::Running)
    }

    /// How many steps the workers of a pool that is shutting down still
    /// have to take: a request and a report for each task that is pending or
    /// running, and for each idle worker the request that tells it to stop.
    pub open spec fn steps_left(self) -> nat {
        2 * (self.queue.pending.len() + self.count(WorkerState::Running)) + self.count(
            WorkerState::Idle,
        )
    }

    /// Whether every worker has stopped.
    pub open spec fn terminated(self) -> bool {
        forall|w: int| self.has_worker(w) ==> #[trigger] self.workers[w] is Stopped
    }

    /// Whether every accepted task has been executed, each exactly once:
    /// nothing is pending, and each ticket of an accepted task occurs once
    /// among the finished ones, which hold nothing else.
    pub open spec fn all_ran_once(self) -> bool {
        &&& self.queue.pending.len() == 0
        &&& self.finished.no_duplicates()
        &&& self.finished.len() == self.accepted.len()
        &&& forall|t: int| 0 <= t < self.accepted.len() <==> #[trigger] self.finished.contains(t)
    }

    /// The pool after `task` was submitted: accepted at the tail of the queue
    /// while the queue is open, refused without a trace once it is closed.
    pub open spec fn execute(self, task: T) -> Self {
        if self.queue.closed {
            self
        } else {
            PoolState {
                queue: self.queue.submit(task),
                accepted: self.accepted.push(task),
                ..self
            }
        }
    }

    /// The pool after shutdown has begun: the queue is closed.
    pub open spec fn shutdown(self) -> Self {
        PoolState { queue: self.queue.close(), ..self }
    }

    /// What worker `w` is told when it asks for work.
    ///
    /// An idle worker is told what the queue holds for it. A worker that
    /// still runs a task is told to wait, and one that has stopped, or that
    /// the pool does not have, is told to stop.
    pub open spec fn offer(self, w: int) -> Claim<T> {
        if !self.has_worker(w) {
            Claim::Stop
        } else {
            match self.workers[w] {
                Phase::Idle => self.queue.next(),
                Phase::Running { .. } => Claim::Wait,
                Phase::Stopped => Claim::Stop,
            }
        }
    }

    /// The pool after worker `w` has asked for work.
    pub open spec fn claim(self, w: int) -> Self {
        if self.has_worker(w) && self.workers[w] is Idle {
            PoolState {
                queue: self.queue.take(),
                workers: self.workers.update(
                    w,
                    self.workers[w].after_claim(self.queue.next(), self.claimed()),
                ),
                ..self
            }
        } else {
            self
        }
    }

    /// The pool after worker `w` has reported the end of its task.
    ///
    /// Whatever the outcome, the worker is idle again and the task's ticket
    /// joins the finished ones. A report from a worker that runs no task
    /// changes nothing.
    pub open spec fn finish(self, w: int, outcome: TaskOutcome) -> Self {
        if self.has_worker(w) && self.workers[w] is Running {
            PoolState {
                workers: self.workers.update(w, self.workers[w].after_finish()),
                finished: self.finished.push(self.workers[w]->ticket),
                faults: if outcome == TaskOutcome::Failed {
                    self.faults + 1
                } else {
                    self.faults
                },
                ..self
            }
        } else {
            self
        }
    }

    /// Whether worker `w` can be retired when only the first `started`
    /// workers have an execution unit: it has none, it is idle, and the
    /// queue holds nothing that it would have to run.
    pub open spec fn retires(self, w: int, started: int) -> bool {
        &&& self.has_worker(w)
        &&& w >= started
        &&& self.workers[w] is Idle
        &&& self.queue.pending.len() == 0
    }

    /// The pool after its startup was concluded with the first `started`
    /// workers started.
    ///
    /// If every worker was started, nothing changes. If not, the startup has
    /// failed: the queue is closed, and each worker that can be retired has
    /// stopped.
    pub open spec fn confirm_startup(self, started: int) -> Self {
        if started >= self.workers.len() {
            self
        } else {
            PoolState {
                queue: self.queue.close(),
                workers: Seq::new(
                    self.workers.len(),
                    |w: int|
                        if self.retires(w, started) {
                            Phase::Stopped
                        } else {
                            self.workers[w]
                        },
                ),
                ..self
            }
        }
    }

    /// What holds of a pool at every moment of its life.
    ///
    /// The pending tasks are the accepted ones that no worker has claimed
    /// yet, in order. Each claimed task is either finished or in the hands of
    /// exactly one running worker, never both, and no ticket is finished
    /// twice. A worker stops only when the queue is closed and empty.
    pub open spec fn inv(self) -> bool {
        &&& self.workers.len() > 0
        &&& 0 <= self.claimed()
        &&& self.queue.pending == self.accepted.skip(self.claimed())
        &&& self.finished.no_duplicates()
        &&& forall|i: int|
            0 <= i < self.finished.len() ==> 0 <= #[trigger] self.finished[i] < self.claimed()
        &&& forall|w: int, t: int| #[trigger]
            self.runs(w, t) ==> 0 <= t < self.claimed() && !self.finished.contains(t)
        &&& forall|v: int, w: int, t: int| #[trigger]
            self.runs(v, t) && #[trigger] self.runs(w, t) ==> v == w
        &&& forall|t: int|
            0 <= t < self.claimed() ==> #[trigger] self.finished.contains(t) || self.in_flight(t)
        &&& self.some_stopped() ==> self.queue.closed && self.queue.pending.len() == 0
    }
}

/// A new pool is in order, and all its workers are active.
pub proof fn lemma_init<T>(size: nat)
    requires
        size > 0,
    ensures
        PoolState::<T>::init(size).inv(),
        PoolState::<T>::init(size).active() == size,
        !PoolState::<T>::init(size).queue.closed,
{
    let s = PoolState::<T>::init(size);
    assert(s.queue.pending =~= s.accepted.skip(s.claimed()));
    lemma_count_in_all(s.workers, WorkerState::Idle);
    lemma_count_in_total(s.workers);
}

/// Workers that are all in one state are counted in full for that state.
pub proof fn lemma_count_in_all(workers: Seq<Phase>, state: WorkerState)
    requires
        forall|w: int| 0 <= w < workers.len() ==> (#[trigger] workers[w]).state() == state,
    ensures
        count_in(workers, state) == workers.len(),
    decreases workers.len(),
{
    if workers.len() > 0 {
        lemma_count_in_all(workers.drop_last(), state);
    }
}

/// No worker is in a state for which none is counted.
pub proof fn lemma_count_in_none(workers: Seq<Phase>, state: WorkerState)
    ensures
        count_in(workers, state) == 0 <==> forall|w: int|
            0 <= w < workers.len() ==> (#[trigger] workers[w]).state() != state,
    decreases workers.len(),
{
    if workers.len() > 0 {
        let front = workers.drop_last();
        lemma_count_in_none(front, state);
        if count_in(workers, state) == 0 {
            assert forall|w: int| 0 <= w < workers.len() implies (#[trigger] workers[w]).state()
                != state by {
                if w < front.len() {
                    assert(front[w] == workers[w]);
                }
            }
        } else if workers.last().state() != state {
            let w = choose|w: int| 0 <= w < front.len() && (#[trigger] front[w]).state() == state;
            assert(workers[w] == front[w]);
        }
    }
}

/// Every worker is idle, running or stopped.
pub proof fn lemma_count_in_total(workers: Seq<Phase>)
    ensures
        count_in(workers, WorkerState::Idle) + count_in(workers, WorkerState::Running) + count_in(
            workers,
            WorkerState::Stopped,
        ) == workers.len(),
    decreases workers.len(),
{
    if workers.len() > 0 {
        lemma_count_in_total(workers.drop_last());
    }
}

/// When one worker changes its phase, it leaves the count of the state it
/// was in and joins the count of the state it is in now.
pub proof fn lemma_count_in_update(workers: Seq<Phase>, w: int, phase: Phase, state: WorkerState)
    requires
        0 <= w < workers.len(),
    ensures
        count_in(workers.update(w, phase), state) == count_in(workers, state) - (if workers[w].state()
            == state {
            1int
        } else {
            0int
        }) + (if phase.state() == state {
            1int
        } else {
            0int
        }),
    decreases workers.len(),
{
    let updated = workers.update(w, phase);
    if w == workers.len() - 1 {
        assert(updated.drop_last() =~= workers.drop_last());
    } else {
        lemma_count_in_update(workers.drop_last(), w, phase, state);
        assert(updated.drop_last() =~= workers.drop_last().update(w, phase));
    }
}

/// Submitting a task keeps the pool in order.
pub proof fn lemma_execute_keeps_inv<T>(s: PoolState<T>, task: T)
    requires
        s.inv(),
    ensures
        s.execute(task).inv(),
{
    let n = s.execute(task);
    if !s.queue.closed {
        assert(n.queue.pending =~= n.accepted.skip(n.claimed()));
        assert forall|w: int, t: int| #[trigger] n.runs(w, t) implies 0 <= t < n.claimed()
            && !n.finished.contains(t) by {
            assert(s.runs(w, t));
        }
        assert forall|x: int, y: int, t: int| #[trigger]
            n.runs(x, t) && #[trigger] n.runs(y, t) implies x == y by {
            assert(s.runs(x, t));
            assert(s.runs(y, t));
        }
        assert forall|t: int| 0 <= t < n.claimed() implies #[trigger] n.finished.contains(t)
            || n.in_flight(t) by {
            if !s.finished.contains(t) {
                let w = choose|w: int| s.runs(w, t);
                assert(n.runs(w, t));
            }
        }
        if n.some_stopped() {
            let x = choose|x: int| n.has_worker(x) && #[trigger] n.workers[x] is Stopped;
            assert(s.workers[x] is Stopped);
            assert(s.some_stopped());
        }
    }
}

/// Beginning shutdown keeps the pool in order.
pub proof fn lemma_shutdown_keeps_inv<T>(s: PoolState<T>)
    requires
        s.inv(),
    ensures
        s.shutdown().inv(),
{
    let n = s.shutdown();
    assert forall|w: int, t: int| #[trigger] n.runs(w, t) implies 0 <= t < n.claimed()
        && !n.finished.contains(t) by {
        assert(s.runs(w, t));
    }
    assert forall|x: int, y: int, t: int| #[trigger]
        n.runs(x, t) && #[trigger] n.runs(y, t) implies x == y by {
        assert(s.runs(x, t));
        assert(s.runs(y, t));
    }
    assert forall|t: int| 0 <= t < n.claimed() implies #[trigger] n.finished.contains(t)
        || n.in_flight(t) by {
        if !s.finished.contains(t) {
            let w = choose|w: int| s.runs(w, t);
            assert(n.runs(w, t));
        }
    }
    if n.some_stopped() {
        let x = choose|x: int| n.has_worker(x) && #[trigger] n.workers[x] is Stopped;
        assert(s.workers[x] is Stopped);
        assert(s.some_stopped());
    }
}

/// A worker's request for work keeps the pool in order.
pub proof fn lemma_claim_keeps_inv<T>(s: PoolState<T>, w: int)
    requires
        s.inv(),
    ensures
        s.claim(w).inv(),
{
    let n = s.claim(w);
    if s.has_worker(w) && s.workers[w] is Idle {
        if s.queue.pending.len() > 0 {
            let head = s.claimed();
            assert(n.queue.pending =~= n.accepted.skip(n.claimed()));
            assert(n.runs(w, head));
            assert(!s.finished.contains(head));
            assert forall|x: int, t: int| #[trigger] n.runs(x, t) implies 0 <= t < n.claimed()
                && !n.finished.contains(t) by {
                if x != w {
                    assert(s.runs(x, t));
                }
            }
            assert forall|x: int, y: int, t: int| #[trigger]
                n.runs(x, t) && #[trigger] n.runs(y, t) implies x == y by {
                if x != w {
                    assert(s.runs(x, t));
                }
                if y != w {
                    assert(s.runs(y, t));
                }
            }
            assert forall|t: int| 0 <= t < n.claimed() implies #[trigger] n.finished.contains(t)
                || n.in_flight(t) by {
                if t != head && !s.finished.contains(t) {
                    let x = choose|x: int| s.runs(x, t);
                    assert(n.runs(x, t));
                }
            }
            if n.some_stopped() {
                let x = choose|x: int| n.has_worker(x) && #[trigger] n.workers[x] is Stopped;
                assert(s.workers[x] is Stopped);
                assert(s.some_stopped());
            }
        } else {
            assert forall|x: int, t: int| #[trigger] n.runs(x, t) implies 0 <= t < n.claimed()
                && !n.finished.contains(t) by {
                assert(s.runs(x, t));
            }
            assert forall|x: int, y: int, t: int| #[trigger]
                n.runs(x, t) && #[trigger] n.runs(y, t) implies x == y by {
                assert(s.runs(x, t));
                assert(s.runs(y, t));
            }
            assert forall|t: int| 0 <= t < n.claimed() implies #[trigger] n.finished.contains(t)
                || n.in_flight(t) by {
                if !s.finished.contains(t) {
                    let x = choose|x: int| s.runs(x, t);
                    assert(n.runs(x, t));
                }
            }
            if n.some_stopped() && !s.queue.closed {
                let x = choose|x: int| n.has_worker(x) && #[trigger] n.workers[x] is Stopped;
                assert(s.workers[x] is Stopped);
                assert(s.some_stopped());
            }
        }
    }
}

/// A worker's report that its task has ended keeps the pool in order.
pub proof fn lemma_finish_keeps_inv<T>(s: PoolState<T>, w: int, outcome: TaskOutcome)
    requires
        s.inv(),
    ensures
        s.finish(w, outcome).inv(),
{
    let n = s.finish(w, outcome);
    if s.has_worker(w) && s.workers[w] is Running {
        let done = s.workers[w]->ticket;
        assert(s.runs(w, done));
        assert(n.finished.last() == done);
        assert forall|i: int, j: int|
            0 <= i < n.finished.len() && 0 <= j < n.finished.len() && i != j implies n.finished[i]
            != n.finished[j] by {
            if i < s.finished.len() && j < s.finished.len() {
                assert(s.finished[i] != s.finished[j]);
            } else if i < s.finished.len() {
                assert(s.finished.contains(s.finished[i]));
            } else {
                assert(s.finished.contains(s.finished[j]));
            }
        }
        assert forall|x: int, t: int| #[trigger] n.runs(x, t) implies 0 <= t < n.claimed()
            && !n.finished.contains(t) by {
            assert(s.runs(x, t));
            if n.finished.contains(t) {
                let i = choose|i: int| 0 <= i < n.finished.len() && n.finished[i] == t;
                if i < s.finished.len() {
                    assert(s.finished.contains(t));
                }
            }
        }
        assert forall|x: int, y: int, t: int| #[trigger]
            n.runs(x, t) && #[trigger] n.runs(y, t) implies x == y by {
            assert(s.runs(x, t));
            assert(s.runs(y, t));
        }
        assert forall|t: int| 0 <= t < n.claimed() implies #[trigger] n.finished.contains(t)
            || n.in_flight(t) by {
            if s.finished.contains(t) {
                let i = choose|i: int| 0 <= i < s.finished.len() && s.finished[i] == t;
                assert(n.finished[i] == t);
            } else {
                let x = choose|x: int| s.runs(x, t);
                if x == w {
                    assert(n.finished[n.finished.len() - 1] == t);
                } else {
                    assert(n.runs(x, t));
                }
            }
        }
        if n.some_stopped() {
            let x = choose|x: int| n.has_worker(x) && #[trigger] n.workers[x] is Stopped;
            assert(s.workers[x] is Stopped);
            assert(s.some_stopped());
        }
    }
}

/// Concluding the startup keeps the pool in order.
pub proof fn lemma_confirm_startup_keeps_inv<T>(s: PoolState<T>, started: int)
    requires
        s.inv(),
    ensures
        s.confirm_startup(started).inv(),
{
    let n = s.confirm_startup(started);
    if started < s.workers.len() {
        assert forall|x: int, t: int| #[trigger] n.runs(x, t) implies 0 <= t < n.claimed()
            && !n.finished.contains(t) by {
            assert(s.runs(x, t));
        }
        assert forall|x: int, y: int, t: int| #[trigger]
            n.runs(x, t) && #[trigger] n.runs(y, t) implies x == y by {
            assert(s.runs(x, t));
            assert(s.runs(y, t));
        }
        assert forall|t: int| 0 <= t < n.claimed() implies #[trigger] n.finished.contains(t)
            || n.in_flight(t) by {
            if !s.finished.contains(t) {
                let x = choose|x: int| s.runs(x, t);
                assert(n.runs(x, t));
            }
        }
        if n.some_stopped() {
            let x = choose|x: int| n.has_worker(x) && #[trigger] n.workers[x] is Stopped;
            if !s.retires(x, started) {
                assert(s.workers[x] is Stopped);
                assert(s.some_stopped());
            }
        }
    }
}

/// Once every worker has stopped, every task that the pool accepted has
/// been executed exactly once, in whatever order the executions ended.
pub proof fn lemma_terminated_all_ran_once<T>(s: PoolState<T>)
    requires
        s.inv(),
        s.terminated(),
    ensures
        s.queue.closed,
        s.all_ran_once(),
{
    let n = s.accepted.len() as int;
    assert(s.workers[0] is Stopped);
    assert(s.some_stopped());
    assert(s.claimed() == n);
    assert forall|t: int| 0 <= t < n <==> #[trigger] s.finished.contains(t) by {
        if 0 <= t < n && !s.finished.contains(t) {
            let w = choose|w: int| s.runs(w, t);
            assert(s.workers[w] is Stopped);
        }
    }
    assert(s.finished.to_set() =~= set_int_range(0, n));
    s.finished.unique_seq_to_set();
    lemma_int_range(0, n);
}

} // verus!
