use vstd::prelude::*;

verus! {

/// Why the pool refused an operation.
#[derive(Debug, Clone, Copy, PartialEq, Eq, Structural)]
pub enum PoolError {
    /// A pool was requested with no workers at all.
    InvalidPoolSize,
    /// A worker could not be given an execution unit of its own.
    WorkerStartupFailure,
    /// A task was submitted after shutdown had begun.
    SubmissionRejected,
}

/// The one way a submission to a job queue fails: the queue was closed before.
#[derive(Debug, Clone, Copy, PartialEq, Eq, Structural)]
pub enum QueueError {
    /// The queue takes no further task.
    QueueClosed,
}

impl PoolError {
    /// A short description, for logs.
    pub fn message(&self) -> (text: &'static str)
        ensures
            text@ == self.message_text(),
    {
        match self {
            PoolError::InvalidPoolSize => "a pool needs at least one worker",
            PoolError::WorkerStartupFailure => "a worker could not be started",
            PoolError::SubmissionRejected => "the pool is shutting down and takes no further task",
        }
    }

    /// What `message` returns, as a sequence of characters.
    pub open spec fn message_text(&self) -> Seq<char> {
        match self {
            PoolError::InvalidPoolSize => "a pool needs at least one worker"@,
            PoolError::WorkerStartupFailure => "a worker could not be started"@,
            PoolError::SubmissionRejected => "the pool is shutting down and takes no further task"@,
        }
    }
}

} // verus!
