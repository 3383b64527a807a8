use vstd::prelude::*;

use crate::queue::Claim;

verus! {

/// What a worker is doing, as the pool's users see it.
#[derive(Debug, Clone, Copy, PartialEq, Eq, Structural)]
pub enum WorkerState {
    /// The worker waits for a task.
    Idle,
    /// The worker executes a task.
    Running,
    /// The worker has left its loop for good.
    Stopped,
}

/// How the execution of a task ended.
#[derive(Debug, Clone, Copy, PartialEq, Eq, Structural)]
pub enum TaskOutcome {
    /// The task ran to its end.
    Completed,
    /// The task ended in a fault, which the worker contained.
    Failed,
}

/// What a worker is doing, together with the task it holds.
///
/// A task is named by its ticket: the number of tasks that the pool had
/// accepted before it.
pub enum Phase {
    /// The worker waits for a task.
    Idle,
    /// The worker executes the task with this ticket.
    Running { ticket: int },
    /// The worker has left its loop for good.
    Stopped,
}

impl Phase {
    /// The phase without the ticket.
    pub open spec fn state(self) -> WorkerState {
        match self {
            Phase::Idle => WorkerState::Idle,
            Phase::Running { .. } => WorkerState::Running,
            Phase::Stopped => WorkerState::Stopped,
        }
    }

    /// The phase after the worker has asked for work and was told `offer`,
    /// where `ticket` names the task at the head of the queue.
    ///
    /// Only an idle worker moves: to running when it is handed a task, to
    /// stopped when it is told to stop.
    pub open spec fn after_claim<T>(self, offer: Claim<T>, ticket: int) -> Phase {
        match self {
            Phase::Idle => match offer {
                Claim::Task(_) => Phase::Running { ticket },
                Claim::Wait => Phase::Idle,
                Claim::Stop => Phase::Stopped,
            },
            _ => self,
        }
    }

    /// The phase after the task in hand has ended, however it ended: a
    /// running worker is idle again, any other stays as it was.
    pub open spec fn after_finish(self) -> Phase {
        match self {
            Phase::Running { .. } => Phase::Idle,
            _ => self,
        }
    }
}

/// One worker of a pool: its number and what it is doing.
pub struct Worker {
    id: usize,
    state: WorkerState,
    ticket: Ghost<int>,
}

impl Worker {
    /// The worker's phase: its state, and the ticket of its task while it runs one.
    pub closed spec fn phase(&self) -> Phase {
        match self.state {
            WorkerState::Idle => Phase::Idle,
            WorkerState::Running => Phase::Running { ticket: self.ticket@ },
            WorkerState::Stopped => Phase::Stopped,
        }
    }

    /// The worker's number, as a mathematical integer.
    pub closed spec fn number(&self) -> int {
        self.id as int
    }

    /// Creates an idle worker with the number `id`.
    pub fn new(id: usize) -> (worker: Worker)
        ensures
            worker.number() == id,
            worker.phase() == Phase::Idle,
    {
        Worker { id, state: WorkerState::Idle, ticket: Ghost(0) }
    }

    /// The worker's number, which never changes.
    pub fn id(&self) -> (id: usize)
        ensures
            id == self.number(),
    {
        self.id
    }

    /// What the worker is doing.
    pub fn state(&self) -> (state: WorkerState)
        ensures
            state == self.phase().state(),
    {
        self.state
    }

    /// Records that the worker asked for work and was told `offer`.
    pub(crate) fn claimed<T>(&mut self, offer: &Claim<T>, ticket: Ghost<int>)
        ensures
            final(self).number() == old(self).number(),
            final(self).phase() == old(self).phase().after_claim(*offer, ticket@),
    {
        match self.state {
            WorkerState::Idle => match offer {
                Claim::Task(_) => {
                    self.state = WorkerState::Running;
                    self.ticket = ticket;
                },
                Claim::Wait => {},
                Claim::Stop => {
                    self.state = WorkerState::Stopped;
                },
            },
            _ => {},
        }
    }

    /// Records that the task in hand has ended.
    pub(crate) fn finished(&mut self)
        ensures
            final(self).number() == old(self).number(),
            final(self).phase() == old(self).phase().after_finish(),
    {
        match self.state {
            WorkerState::Running => {
                self.state = WorkerState::Idle;
            },
            _ => {},
        }
    }

    /// Records that the worker will never ask for work again.
    pub(crate) fn retired(&mut self)
        ensures
            final(self).number() == old(self).number(),
            final(self).phase() == Phase::Stopped,
    {
        self.state = WorkerState::Stopped;
    }
}

} // verus!
