use vstd::prelude::*;

use crate::error::PoolError;
use crate::model::{
    count_in, lemma_claim_keeps_inv, lemma_confirm_startup_keeps_inv, lemma_count_in_total,
    lemma_execute_keeps_inv, lemma_finish_keeps_inv, lemma_init, lemma_shutdown_keeps_inv,
    lemma_terminated_all_ran_once, PoolState,
};
use crate::queue::{Claim, JobQueue};
use crate::worker::{Phase, TaskOutcome, Worker, WorkerState};

verus! {

/// A fixed set of workers and the queue that feeds them.
///
/// The pool holds no execution unit and never blocks. Whoever runs the
/// workers calls `claim` for a worker that is free, runs the task it is
/// handed, and calls `finish` when the task has ended.
///
/// Shutdown is graceful and may be begun more than once: the tasks that
/// were accepted before it are still run, and none is accepted after it.
pub struct Pool<T> {
    queue: JobQueue<T>,
    workers: Vec<Worker>,
    faults: u64,
    accepted: Ghost<Seq<T>>,
    finished: Ghost<Seq<int>>,
    fault_count: Ghost<nat>,
}

impl<T> View for Pool<T> {
    type V = PoolState<T>;

    closed spec fn view(&self) -> PoolState<T> {
        PoolState {
            queue: self.queue@,
            workers: Seq::new(self.workers@.len(), |w: int| self.workers@[w].phase()),
            accepted: self.accepted@,
            finished: self.finished@,
            faults: self.fault_count@,
        }
    }
}

impl<T> Pool<T> {
    /// Whether the pool's fields agree with each other.
    pub closed spec fn coherent(&self) -> bool {
        &&& forall|w: int|
            0 <= w < self.workers@.len() ==> (#[trigger] self.workers@[w]).number() == w
        &&& self.faults == if self.fault_count@ <= u64::MAX {
            self.fault_count@
        } else {
            u64::MAX as nat
        }
    }

    /// Whether the pool is well formed.
    pub open spec fn wf(&self) -> bool {
        self.coherent() && self@.inv()
    }

    /// Creates a pool of `size` idle workers with an open, empty queue.
    pub fn new(size: usize) -> (result: Result<Pool<T>, PoolError>)
        ensures
            size == 0 <==> (result matches Err(e) && e == PoolError::InvalidPoolSize),
            size > 0 <==> (result matches Ok(pool) && pool.wf() && pool@ == PoolState::<T>::init(
                size as nat,
            )),
            result matches Ok(pool) ==> pool@.workers.len() == size && pool@.active() == size,
    {
        if size == 0 {
            return Err(PoolError::InvalidPoolSize);
        }
        let mut workers: Vec<Worker> = Vec::new();
        let mut id: usize = 0;
        while id < size
            invariant
                id <= size,
                workers@.len() == id,
                forall|w: int| 0 <= w < id ==> (#[trigger] workers@[w]).number() == w,
                forall|w: int| 0 <= w < id ==> (#[trigger] workers@[w]).phase() == Phase::Idle,
            decreases size - id,
        {
            workers.push(Worker::new(id));
            id += 1;
        }
        let pool = Pool {
            queue: JobQueue::new(),
            workers,
            faults: 0,
            accepted: Ghost(Seq::empty()),
            finished: Ghost(Seq::empty()),
            fault_count: Ghost(0),
        };
        proof {
            lemma_init::<T>(size as nat);
            assert(pool@.workers =~= PoolState::<T>::init(size as nat).workers);
        }
        Ok(pool)
    }

    /// Submits `task`: it joins the tail of the queue, unless shutdown has begun.
    pub fn execute(&mut self, task: T) -> (result: Result<(), PoolError>)
        requires
            old(self).wf(),
        ensures
            final(self).wf(),
            final(self)@ == old(self)@.execute(task),
            old(self)@.queue.closed <==> result == Err::<(), PoolError>(
                PoolError::SubmissionRejected,
            ),
            !old(self)@.queue.closed <==> result == Ok::<(), PoolError>(()),
    {
        proof {
            lemma_execute_keeps_inv(self@, task);
        }
        match self.queue.submit(task) {
            Ok(()) => {
                proof {
                    self.accepted@ = self.accepted@.push(task);
                }
                Ok(())
            },
            Err(_) => Err(PoolError::SubmissionRejected),
        }
    }

    /// Begins shutdown: from now on no task is accepted, and each worker is
    /// told to stop once nothing is pending. Doing so again changes nothing.
    pub fn shutdown(&mut self)
        requires
            old(self).wf(),
        ensures
            final(self).wf(),
            final(self)@ == old(self)@.shutdown(),
    {
        proof {
            lemma_shutdown_keeps_inv(self@);
        }
        self.queue.close();
    }

    /// Asks for work on behalf of the worker with the number `worker`.
    pub fn claim(&mut self, worker: usize) -> (claim: Claim<T>)
        requires
            old(self).wf(),
        ensures
            final(self).wf(),
            claim == old(self)@.offer(worker as int),
            final(self)@ == old(self)@.claim(worker as int),
            claim matches Claim::Task(task) ==> task == old(self)@.accepted[old(self)@.claimed()],
    {
        proof {
            lemma_claim_keeps_inv(self@, worker as int);
        }
        if worker >= self.workers.len() {
            return Claim::Stop;
        }
        match self.workers[worker].state() {
            WorkerState::Running => Claim::Wait,
            WorkerState::Stopped => Claim::Stop,
            WorkerState::Idle => {
                let ghost ticket = self@.claimed();
                let offer = self.queue.take();
                self.workers[worker].claimed(&offer, Ghost(ticket));
                proof {
                    assert(self@.workers =~= old(self)@.claim(worker as int).workers);
                }
                offer
            },
        }
    }

    /// Reports that the task of the worker with the number `worker` has
    /// ended with `outcome`. Returns whether that worker was running a task.
    pub fn finish(&mut self, worker: usize, outcome: TaskOutcome) -> (taken: bool)
        requires
            old(self).wf(),
        ensures
            final(self).wf(),
            taken == (old(self)@.has_worker(worker as int) && old(self)@.workers[worker as int] is Running),
            final(self)@ == old(self)@.finish(worker as int, outcome),
    {
        proof {
            lemma_finish_keeps_inv(self@, worker as int, outcome);
        }
        if worker >= self.workers.len() {
            return false;
        }
        match self.workers[worker].state() {
            WorkerState::Running => {
                let ghost ticket = self@.workers[worker as int]->ticket;
                self.workers[worker].finished();
                match outcome {
                    TaskOutcome::Failed => {
                        if self.faults < u64::MAX {
                            self.faults = self.faults + 1;
                        }
                        proof {
                            self.fault_count@ = self.fault_count@ + 1;
                        }
                    },
                    TaskOutcome::Completed => {},
                }
                proof {
                    self.finished@ = self.finished@.push(ticket);
                    assert(self@.workers =~= old(self)@.finish(worker as int, outcome).workers);
                }
                true
            },
            _ => false,
        }
    }

    /// Concludes the startup of a pool of which the first `started` workers
    /// got an execution unit.
    ///
    /// If every worker got one, nothing changes. If not, the startup has
    /// failed: the queue is closed, so that the workers that did start are
    /// told to stop, and each of the others is retired on the spot if it is
    /// idle and nothing is pending.
    pub fn confirm_startup(&mut self, started: usize) -> (result: Result<(), PoolError>)
        requires
            old(self).wf(),
        ensures
            final(self).wf(),
            started >= old(self)@.workers.len() <==> result == Ok::<(), PoolError>(()),
            started < old(self)@.workers.len() <==> result == Err::<(), PoolError>(
                PoolError::WorkerStartupFailure,
            ),
            final(self)@ == old(self)@.confirm_startup(started as int),
    {
        if started >= self.workers.len() {
            return Ok(());
        }
        proof {
            lemma_confirm_startup_keeps_inv(self@, started as int);
        }
        self.queue.close();
        if self.queue.is_empty() {
            let mut w: usize = started;
            while w < self.workers.len()
                invariant
                    started <= w,
                    self.queue@ == old(self).queue@.close(),
                    self.faults == old(self).faults,
                    self.accepted == old(self).accepted,
                    self.finished == old(self).finished,
                    self.fault_count == old(self).fault_count,
                    self.workers@.len() == old(self).workers@.len(),
                    forall|x: int|
                        0 <= x < self.workers@.len() ==> (#[trigger] self.workers@[x]).number()
                            == old(self).workers@[x].number(),
                    forall|x: int|
                        0 <= x < self.workers@.len() ==> (#[trigger] self.workers@[x]).phase() == if started
                            <= x < w && old(self).workers@[x].phase() is Idle {
                            Phase::Stopped
                        } else {
                            old(self).workers@[x].phase()
                        },
                decreases self.workers@.len() - w,
            {
                match self.workers[w].state() {
                    WorkerState::Idle => {
                        self.workers[w].retired();
                    },
                    _ => {},
                }
                w += 1;
            }
        }
        proof {
            assert(self@.workers =~= old(self)@.confirm_startup(started as int).workers);
        }
        Err(PoolError::WorkerStartupFailure)
    }

    /// The number of workers, which never changes.
    pub fn size(&self) -> (n: usize)
        ensures
            n == self@.workers.len(),
    {
        self.workers.len()
    }

    /// The number of tasks that wait for a worker.
    pub fn queued(&self) -> (n: usize)
        ensures
            n == self@.queue.pending.len(),
    {
        self.queue.len()
    }

    /// Whether shutdown has begun.
    pub fn is_shut_down(&self) -> (b: bool)
        ensures
            b == self@.queue.closed,
    {
        self.queue.is_closed()
    }

    /// The worker with the number `worker`, if the pool has one.
    pub fn worker(&self, worker: usize) -> (found: Option<&Worker>)
        requires
            self.wf(),
        ensures
            self@.has_worker(worker as int) <==> found is Some,
            found matches Some(w) ==> w.number() == worker && w.phase() == self@.workers[worker as int],
    {
        if worker < self.workers.len() {
            Some(&self.workers[worker])
        } else {
            None
        }
    }

    /// How many executions ended in a fault; the count stops at `u64::MAX`.
    pub fn faults(&self) -> (n: u64)
        requires
            self.wf(),
        ensures
            n == if self@.faults <= u64::MAX {
                self@.faults
            } else {
                u64::MAX as nat
            },
    {
        self.faults
    }

    /// The number of workers that are in `state`.
    pub fn count_workers(&self, state: WorkerState) -> (n: usize)
        ensures
            n == self@.count(state),
    {
        let mut n: usize = 0;
        let mut w: usize = 0;
        while w < self.workers.len()
            invariant
                w <= self.workers@.len(),
                n <= w,
                n == count_in(self@.workers.take(w as int), state),
            decreases self.workers@.len() - w,
        {
            proof {
                assert(self@.workers.take(w + 1).drop_last() =~= self@.workers.take(w as int));
            }
            if self.workers[w].state() == state {
                n += 1;
            }
            w += 1;
        }
        proof {
            assert(self@.workers.take(w as int) =~= self@.workers);
        }
        n
    }

    /// The number of workers that have not stopped.
    pub fn active_workers(&self) -> (n: usize)
        ensures
            n == self@.active(),
    {
        proof {
            lemma_count_in_total(self@.workers);
        }
        self.workers.len() - self.count_workers(WorkerState::Stopped)
    }

    /// Whether every worker has stopped. From then on nothing changes any
    /// more, and every task that was accepted has been executed exactly once.
    pub fn is_terminated(&self) -> (b: bool)
        requires
            self.wf(),
        ensures
            b == self@.terminated(),
            b ==> self@.queue.closed && self@.all_ran_once(),
    {
        let mut w: usize = 0;
        while w < self.workers.len()
            invariant
                w <= self.workers@.len(),
                forall|x: int| 0 <= x < w ==> (#[trigger] self@.workers[x]) is Stopped,
            decreases self.workers@.len() - w,
        {
            match self.workers[w].state() {
                WorkerState::Stopped => {},
                _ => {
                    assert(!(self@.workers[w as int] is Stopped));
                    return false;
                },
            }
            w += 1;
        }
        proof {
            lemma_terminated_all_ran_once(self@);
        }
        true
    }
}

} // verus!
