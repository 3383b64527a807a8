use std::collections::VecDeque;
use vstd::prelude::*;

use crate::error::QueueError;

verus! {

/// What a worker gets when it asks the queue for work.
pub enum Claim<T> {
    /// The oldest pending task, now owned by the worker that asked.
    Task(T),
    /// Nothing is pending, but more may come: ask again later.
    Wait,
    /// Nothing is pending and nothing will come: stop.
    Stop,
}

/// The mathematical content of a job queue.
pub struct QueueState<T> {
    /// The tasks that wait for a worker, oldest first.
    pub pending: Seq<T>,
    /// Whether the queue has been closed to further submissions.
    pub closed: bool,
}

impl<T> QueueState<T> {
    /// The queue as it is created: nothing pending, open.
    pub open spec fn empty() -> Self {
        QueueState { pending: Seq::empty(), closed: false }
    }

    /// The queue after a submission: the task joins the tail unless the queue is closed.
    pub open spec fn submit(self, task: T) -> Self {
        if self.closed {
            self
        } else {
            QueueState { pending: self.pending.push(task), closed: self.closed }
        }
    }

    /// What a worker that asks now is told.
    pub open spec fn next(self) -> Claim<T> {
        if self.pending.len() > 0 {
            Claim::Task(self.pending[0])
        } else if self.closed {
            Claim::Stop
        } else {
            Claim::Wait
        }
    }

    /// The queue after a worker has asked: the head is gone if there was one.
    pub open spec fn take(self) -> Self {
        if self.pending.len() > 0 {
            QueueState { pending: self.pending.drop_first(), closed: self.closed }
        } else {
            self
        }
    }

    /// The queue after closing: what is pending stays, nothing more gets in.
    pub open spec fn close(self) -> Self {
        QueueState { pending: self.pending, closed: true }
    }

    /// The queue after every task of `tasks` has been submitted in turn.
    pub open spec fn submit_all(self, tasks: Seq<T>) -> Self
        decreases tasks.len(),
    {
        if tasks.len() == 0 {
            self
        } else {
            self.submit_all(tasks.drop_last()).submit(tasks.last())
        }
    }

    /// The queue after `n` workers have asked in turn.
    pub open spec fn take_n(self, n: nat) -> Self
        decreases n,
    {
        if n == 0 {
            self
        } else {
            self.take_n((n - 1) as nat).take()
        }
    }
}

/// An unbounded first-in, first-out queue of tasks that can be closed.
///
/// The queue never blocks. A worker that is told to wait suspends outside the
/// queue and asks again when it is woken.
pub struct JobQueue<T> {
    pending: VecDeque<T>,
    closed: bool,
}

impl<T> View for JobQueue<T> {
    type V = QueueState<T>;

    closed spec fn view(&self) -> QueueState<T> {
        QueueState { pending: self.pending@, closed: self.closed }
    }
}

impl<T> JobQueue<T> {
    /// Creates an open queue with nothing pending.
    pub fn new() -> (queue: Self)
        ensures
            queue@ == QueueState::<T>::empty(),
    {
        JobQueue { pending: VecDeque::new(), closed: false }
    }

    /// Enqueues `task` at the tail, or refuses it if the queue is closed.
    pub fn submit(&mut self, task: T) -> (result: Result<(), QueueError>)
        ensures
            final(self)@ == old(self)@.submit(task),
            old(self)@.closed <==> result == Err::<(), QueueError>(QueueError::QueueClosed),
            !old(self)@.closed <==> result == Ok::<(), QueueError>(()),
    {
        if self.closed {
            Err(QueueError::QueueClosed)
        } else {
            self.pending.push_back(task);
            Ok(())
        }
    }

    /// Hands out the oldest pending task; with none pending, tells the caller
    /// to wait, or to stop once the queue is closed.
    pub fn take(&mut self) -> (claim: Claim<T>)
        ensures
            claim == old(self)@.next(),
            final(self)@ == old(self)@.take(),
    {
        match self.pending.pop_front() {
            Some(task) => Claim::Task(task),
            None => {
                if self.closed {
                    Claim::Stop
                } else {
                    Claim::Wait
                }
            },
        }
    }

    /// Closes the queue. Closing a closed queue changes nothing.
    pub fn close(&mut self)
        ensures
            final(self)@ == old(self)@.close(),
    {
        self.closed = true;
    }

    /// The number of pending tasks.
    pub fn len(&self) -> (n: usize)
        ensures
            n == self@.pending.len(),
    {
        self.pending.len()
    }

    /// Whether nothing is pending.
    pub fn is_empty(&self) -> (b: bool)
        ensures
            b == (self@.pending.len() == 0),
    {
        self.pending.len() == 0
    }

    /// Whether the queue has been closed.
    pub fn is_closed(&self) -> (b: bool)
        ensures
            b == self@.closed,
    {
        self.closed
    }
}

/// Submissions to an open queue line up behind what is pending, in the
/// order in which they were made.
pub proof fn lemma_submissions_line_up<T>(queue: QueueState<T>, tasks: Seq<T>)
    requires
        !queue.closed,
    ensures
        queue.submit_all(tasks).pending == queue.pending + tasks,
        !queue.submit_all(tasks).closed,
    decreases tasks.len(),
{
    if tasks.len() > 0 {
        lemma_submissions_line_up(queue, tasks.drop_last());
        assert(queue.pending + tasks =~= (queue.pending + tasks.drop_last()).push(tasks.last()));
    } else {
        assert(queue.pending + tasks =~= queue.pending);
    }
}

/// The queue is first in, first out: of the tasks that were submitted to
/// an empty open queue, the first `n` workers that ask get the first `n`,
/// each the next one in the order of submission, and the rest stays
/// pending. Closing the queue in between takes nothing away.
pub proof fn lemma_first_in_first_out<T>(tasks: Seq<T>, n: nat)
    requires
        n < tasks.len(),
    ensures
        QueueState::<T>::empty().submit_all(tasks).take_n(n).next() == Claim::Task(tasks[n as int]),
        QueueState::<T>::empty().submit_all(tasks).take_n(n).pending == tasks.skip(n as int),
        QueueState::<T>::empty().submit_all(tasks).close().take_n(n).next() == Claim::Task(
            tasks[n as int],
        ),
{
    let filled = QueueState::<T>::empty().submit_all(tasks);
    lemma_submissions_line_up(QueueState::<T>::empty(), tasks);
    assert(filled.pending =~= tasks);
    lemma_takes_skip(filled, n);
    lemma_takes_skip(filled.close(), n);
}

/// After `n` workers have asked, the first `n` pending tasks are gone and
/// the others are pending as before.
pub proof fn lemma_takes_skip<T>(queue: QueueState<T>, n: nat)
    requires
        n <= queue.pending.len(),
    ensures
        queue.take_n(n).pending == queue.pending.skip(n as int),
        queue.take_n(n).closed == queue.closed,
    decreases n,
{
    if n > 0 {
        lemma_takes_skip(queue, (n - 1) as nat);
        assert(queue.pending.skip(n - 1).drop_first() =~= queue.pending.skip(n as int));
    } else {
        assert(queue.pending.skip(0) =~= queue.pending);
    }
}

/// A closed queue refuses every task and, once empty, tells every worker to stop.
pub proof fn lemma_closed_queue_refuses<T>(queue: QueueState<T>, task: T)
    requires
        queue.closed,
    ensures
        queue.submit(task) == queue,
        queue.pending.len() == 0 ==> queue.next() == Claim::<T>::Stop,
{
}

} // verus!
