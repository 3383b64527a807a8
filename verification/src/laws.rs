use vstd::prelude::*;

use crate::model::{
    count_in, lemma_claim_keeps_inv, lemma_confirm_startup_keeps_inv, lemma_count_in_none,
    lemma_count_in_total, lemma_count_in_update, lemma_execute_keeps_inv, lemma_finish_keeps_inv,
    lemma_init, lemma_shutdown_keeps_inv, lemma_terminated_all_ran_once, PoolState,
};
use crate::queue::Claim;
use crate::worker::{Phase, TaskOutcome, WorkerState};

verus! {

/// One thing that can happen to a pool.
pub enum Step<T> {
    /// A producer submits a task.
    Execute(T),
    /// Shutdown begins.
    Shutdown,
    /// The worker with this number asks for work.
    Claim(int),
    /// The worker with this number reports the end of its task.
    Finish(int, TaskOutcome),
    /// The startup is concluded with this many workers started.
    ConfirmStartup(int),
}

impl<T> PoolState<T> {
    /// The pool after `step`.
    pub open spec fn step(self, step: Step<T>) -> Self {
        match step {
            Step::Execute(task) => self.execute(task),
            Step::Shutdown => self.shutdown(),
            Step::Claim(w) => self.claim(w),
            Step::Finish(w, outcome) => self.finish(w, outcome),
            Step::ConfirmStartup(started) => self.confirm_startup(started),
        }
    }

    /// The pool after every step of `steps`, taken in turn.
    pub open spec fn run(self, steps: Seq<Step<T>>) -> Self
        decreases steps.len(),
    {
        if steps.len() == 0 {
            self
        } else {
            self.run(steps.drop_last()).step(steps.last())
        }
    }

    /// Whether two pools differ at most in their count of faults.
    pub open spec fn same_schedule(self, other: Self) -> bool {
        &&& self.queue == other.queue
        &&& self.workers == other.workers
        &&& self.accepted == other.accepted
        &&& self.finished == other.finished
    }
}

/// Whatever happens to a pool that is in order, in whatever order, leaves it
/// in order, with the workers it had.
pub proof fn lemma_run_keeps_inv<T>(s: PoolState<T>, steps: Seq<Step<T>>)
    requires
        s.inv(),
    ensures
        s.run(steps).inv(),
        s.run(steps).workers.len() == s.workers.len(),
    decreases steps.len(),
{
    if steps.len() > 0 {
        let before = s.run(steps.drop_last());
        lemma_run_keeps_inv(s, steps.drop_last());
        match steps.last() {
            Step::Execute(task) => lemma_execute_keeps_inv(before, task),
            Step::Shutdown => lemma_shutdown_keeps_inv(before),
            Step::Claim(w) => lemma_claim_keeps_inv(before, w),
            Step::Finish(w, outcome) => lemma_finish_keeps_inv(before, w, outcome),
            Step::ConfirmStartup(started) => lemma_confirm_startup_keeps_inv(before, started),
        }
    }
}

/// A pool of `size` workers, `size` being positive, starts with exactly
/// `size` active workers, all idle, and an open queue.
pub proof fn lemma_new_pool_is_fully_active<T>(size: nat)
    requires
        size > 0,
    ensures
        PoolState::<T>::init(size).inv(),
        PoolState::<T>::init(size).workers.len() == size,
        PoolState::<T>::init(size).active() == size,
        forall|w: int| 0 <= w < size ==> PoolState::<T>::init(size).workers[w] is Idle,
        !PoolState::<T>::init(size).queue.closed,
{
    lemma_init::<T>(size);
}

/// Take a pool of any positive size and let anything happen to it: tasks
/// are submitted, workers claim and finish them in any interleaving,
/// shutdown begins at any moment. If every worker has stopped in the end,
/// then every task that was accepted has been executed exactly once.
pub proof fn lemma_every_task_runs_once<T>(size: nat, steps: Seq<Step<T>>)
    requires
        size > 0,
        PoolState::<T>::init(size).run(steps).terminated(),
    ensures
        PoolState::<T>::init(size).run(steps).all_ran_once(),
{
    lemma_init::<T>(size);
    lemma_run_keeps_inv(PoolState::<T>::init(size), steps);
    lemma_terminated_all_ran_once(PoolState::<T>::init(size).run(steps));
}

/// Tasks leave the queue in the order of their submission: an idle worker
/// that asks while something is pending is handed the oldest accepted task
/// that no worker has claimed before, and nobody else will get that task
/// again.
pub proof fn lemma_claims_follow_submissions<T>(s: PoolState<T>, w: int)
    requires
        s.inv(),
        s.has_worker(w),
        s.workers[w] is Idle,
        s.queue.pending.len() > 0,
    ensures
        s.offer(w) == Claim::Task(s.accepted[s.claimed()]),
        s.claim(w).workers[w] == (Phase::Running { ticket: s.claimed() }),
        s.claim(w).claimed() == s.claimed() + 1,
        s.claim(w).accepted == s.accepted,
{
}

/// Workers run side by side: an idle worker that asks while a task is
/// pending is handed a task at once, however many other workers are running
/// theirs, and from then on one more task is running.
pub proof fn lemma_workers_run_side_by_side<T>(s: PoolState<T>, w: int)
    requires
        s.has_worker(w),
        s.workers[w] is Idle,
        s.queue.pending.len() > 0,
    ensures
        s.offer(w) is Task,
        s.claim(w).count(WorkerState::Running) == s.count(WorkerState::Running) + 1,
        s.claim(w).queue.pending.len() == s.queue.pending.len() - 1,
{
    lemma_count_in_update(
        s.workers,
        w,
        Phase::Running { ticket: s.claimed() },
        WorkerState::Running,
    );
}

/// A failed startup leaves no worker behind: in a new pool of which only
/// the first `started` workers were started, the others have stopped, and
/// each of the started ones is told to stop as soon as it asks. Nothing was
/// accepted, so nothing is lost.
pub proof fn lemma_failed_startup_stops_everyone<T>(size: nat, started: nat)
    requires
        started < size,
    ensures
        PoolState::<T>::init(size).confirm_startup(started as int).inv(),
        PoolState::<T>::init(size).confirm_startup(started as int).queue.closed,
        PoolState::<T>::init(size).confirm_startup(started as int).accepted.len() == 0,
        forall|w: int|
            started <= w < size ==> #[trigger] PoolState::<T>::init(size).confirm_startup(
                started as int,
            ).workers[w] is Stopped,
        forall|w: int| #[trigger]
            PoolState::<T>::init(size).confirm_startup(started as int).offer(w) == Claim::<
                T,
            >::Stop,
{
    lemma_init::<T>(size);
    lemma_confirm_startup_keeps_inv(PoolState::<T>::init(size), started as int);
}

/// The end of a task never costs the pool a worker, whether the task
/// completed or failed: the worker that ran it is idle again, and as many
/// workers are active as before.
pub proof fn lemma_finish_keeps_capacity<T>(s: PoolState<T>, w: int, outcome: TaskOutcome)
    requires
        s.has_worker(w),
        s.workers[w] is Running,
    ensures
        s.finish(w, outcome).workers[w] is Idle,
        s.finish(w, outcome).active() == s.active(),
        s.finish(w, outcome).count(WorkerState::Stopped) == s.count(WorkerState::Stopped),
        s.finish(w, outcome).queue == s.queue,
{
    lemma_count_in_update(s.workers, w, Phase::Idle, WorkerState::Idle);
    lemma_count_in_update(s.workers, w, Phase::Idle, WorkerState::Running);
    lemma_count_in_update(s.workers, w, Phase::Idle, WorkerState::Stopped);
}

/// In a pool that is shutting down, no step of a worker is in vain: the
/// request of an idle worker and the report of a running one each leave one
/// step less to take.
pub proof fn lemma_worker_step_counts_down<T>(s: PoolState<T>, w: int, outcome: TaskOutcome)
    requires
        s.queue.closed,
        s.has_worker(w),
    ensures
        s.workers[w] is Idle ==> s.claim(w).steps_left() == s.steps_left() - 1,
        s.workers[w] is Running ==> s.finish(w, outcome).steps_left() == s.steps_left() - 1,
        s.workers[w] is Stopped ==> s.claim(w) == s && s.finish(w, outcome) == s,
{
    let after_claim = s.workers[w].after_claim(s.queue.next(), s.claimed());
    lemma_count_in_update(s.workers, w, after_claim, WorkerState::Idle);
    lemma_count_in_update(s.workers, w, after_claim, WorkerState::Running);
    lemma_count_in_update(s.workers, w, Phase::Idle, WorkerState::Idle);
    lemma_count_in_update(s.workers, w, Phase::Idle, WorkerState::Running);
}

/// The steps that are left are taken exactly when every worker has stopped.
pub proof fn lemma_no_step_left_at_the_end<T>(s: PoolState<T>)
    requires
        s.inv(),
    ensures
        s.steps_left() == 0 <==> s.terminated(),
{
    lemma_count_in_total(s.workers);
    lemma_count_in_none(s.workers, WorkerState::Idle);
    lemma_count_in_none(s.workers, WorkerState::Running);
    if s.terminated() {
        assert(s.workers[0] is Stopped);
        assert(s.some_stopped());
    }
    if s.steps_left() == 0 {
        assert forall|x: int| s.has_worker(x) implies #[trigger] s.workers[x] is Stopped by {
            assert(s.workers[x].state() != WorkerState::Idle);
            assert(s.workers[x].state() != WorkerState::Running);
        }
    }
}

/// Once shutdown has begun, nothing that happens to the pool adds to the
/// steps that are left. With the two laws above: after shutdown the workers
/// stop after exactly `steps_left` steps of theirs, whoever takes them.
pub proof fn lemma_shutdown_adds_no_step<T>(s: PoolState<T>, step: Step<T>)
    requires
        s.queue.closed,
    ensures
        s.step(step).queue.closed,
        s.step(step).steps_left() <= s.steps_left(),
{
    match step {
        Step::Execute(_) => {},
        Step::Shutdown => {},
        Step::Claim(w) => {
            if s.has_worker(w) {
                lemma_worker_step_counts_down(s, w, TaskOutcome::Completed);
            }
        },
        Step::Finish(w, outcome) => {
            if s.has_worker(w) {
                lemma_worker_step_counts_down(s, w, outcome);
            }
        },
        Step::ConfirmStartup(started) => {
            lemma_retiring_adds_no_step(s.workers, s.confirm_startup(started).workers);
        },
    }
}

/// Retiring idle workers leaves as many running and no more idle ones.
pub proof fn lemma_retiring_adds_no_step(before: Seq<Phase>, after: Seq<Phase>)
    requires
        before.len() == after.len(),
        forall|w: int|
            0 <= w < before.len() ==> #[trigger] after[w] == before[w] || (before[w] is Idle
                && after[w] is Stopped),
    ensures
        count_in(after, WorkerState::Running) == count_in(before, WorkerState::Running),
        count_in(after, WorkerState::Idle) <= count_in(before, WorkerState::Idle),
    decreases before.len(),
{
    if before.len() > 0 {
        assert(after.last() == after[after.len() - 1]);
        let b = before.drop_last();
        let a = after.drop_last();
        assert forall|w: int| 0 <= w < b.len() implies #[trigger] a[w] == b[w] || (b[w] is Idle
            && a[w] is Stopped) by {
            assert(after[w] == before[w] || (before[w] is Idle && after[w] is Stopped));
        }
        lemma_retiring_adds_no_step(b, a);
    }
}

/// A fault is contained: after a task has failed, whatever happens to the
/// pool happens exactly as if the task had completed. The same tasks are
/// accepted, the same workers are handed the same tasks, and the same tasks
/// finish; only the count of faults tells the two apart.
pub proof fn lemma_fault_is_contained<T>(s: PoolState<T>, w: int, steps: Seq<Step<T>>)
    ensures
        s.finish(w, TaskOutcome::Failed).run(steps).same_schedule(
            s.finish(w, TaskOutcome::Completed).run(steps),
        ),
        forall|x: int|
            s.finish(w, TaskOutcome::Failed).run(steps).offer(x) == s.finish(
                w,
                TaskOutcome::Completed,
            ).run(steps).offer(x),
{
    lemma_same_schedule_runs(
        s.finish(w, TaskOutcome::Failed),
        s.finish(w, TaskOutcome::Completed),
        steps,
    );
}

/// A fault keeps no later task from running. Let anything happen to a new
/// pool, let then a task fail on worker `w`, and let anything happen after
/// that, submissions included: the worker is idle right after the fault, and
/// if every worker has stopped in the end, then every task that was
/// accepted, before the fault or after it, has been executed exactly once.
pub proof fn lemma_tasks_after_a_fault_still_run<T>(
    size: nat,
    before: Seq<Step<T>>,
    w: int,
    after: Seq<Step<T>>,
)
    requires
        size > 0,
        PoolState::<T>::init(size).run(before).has_worker(w),
        PoolState::<T>::init(size).run(before).workers[w] is Running,
    ensures
        PoolState::<T>::init(size).run(before).finish(w, TaskOutcome::Failed).workers[w] is Idle,
        PoolState::<T>::init(size).run(before).finish(w, TaskOutcome::Failed).run(
            after,
        ).terminated() ==> PoolState::<T>::init(size).run(before).finish(
            w,
            TaskOutcome::Failed,
        ).run(after).all_ran_once(),
{
    let at_fault = PoolState::<T>::init(size).run(before);
    lemma_init::<T>(size);
    lemma_run_keeps_inv(PoolState::<T>::init(size), before);
    lemma_finish_keeps_inv(at_fault, w, TaskOutcome::Failed);
    lemma_run_keeps_inv(at_fault.finish(w, TaskOutcome::Failed), after);
    if at_fault.finish(w, TaskOutcome::Failed).run(after).terminated() {
        lemma_terminated_all_ran_once(at_fault.finish(w, TaskOutcome::Failed).run(after));
    }
}

/// Two pools that differ at most in their count of faults still do so
/// after the same steps.
pub proof fn lemma_same_schedule_runs<T>(a: PoolState<T>, b: PoolState<T>, steps: Seq<Step<T>>)
    requires
        a.same_schedule(b),
    ensures
        a.run(steps).same_schedule(b.run(steps)),
    decreases steps.len(),
{
    if steps.len() > 0 {
        lemma_same_schedule_runs(a, b, steps.drop_last());
        let x = a.run(steps.drop_last());
        let y = b.run(steps.drop_last());
        match steps.last() {
            Step::ConfirmStartup(started) => {
                assert(x.confirm_startup(started).workers =~= y.confirm_startup(started).workers);
            },
            _ => {},
        }
    }
}

/// Shutdown is final: once it has begun, whatever happens next, the queue
/// stays closed, a submitted task is refused and leaves no trace, and the
/// tasks that the pool has accepted are those it had accepted when shutdown
/// began. Beginning it a second time changes nothing.
pub proof fn lemma_shutdown_is_final<T>(s: PoolState<T>, steps: Seq<Step<T>>, task: T)
    ensures
        s.shutdown().run(steps).queue.closed,
        s.shutdown().run(steps).execute(task) == s.shutdown().run(steps),
        s.shutdown().run(steps).accepted == s.accepted,
        s.shutdown().shutdown() == s.shutdown(),
{
    lemma_closed_stays_closed(s.shutdown(), steps);
}

/// A closed pool stays closed and accepts nothing more.
pub proof fn lemma_closed_stays_closed<T>(s: PoolState<T>, steps: Seq<Step<T>>)
    requires
        s.queue.closed,
    ensures
        s.run(steps).queue.closed,
        s.run(steps).accepted == s.accepted,
    decreases steps.len(),
{
    if steps.len() > 0 {
        lemma_closed_stays_closed(s, steps.drop_last());
    }
}

} // verus!
