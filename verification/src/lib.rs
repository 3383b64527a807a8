//! The bookkeeping of a fixed-size worker pool, and the small rules of the
//! web server that runs on it.
//!
//! A [`Pool`] owns a first-in, first-out [`JobQueue`] of tasks and a fixed
//! set of workers. It holds no thread and never blocks: whoever runs the
//! workers asks the pool, under a lock of its own, what a free worker is to
//! do next ([`Pool::claim`]), runs the task outside the lock, and reports
//! its end ([`Pool::finish`]). A worker that is told to wait is parked until
//! a task is submitted or shutdown begins.
//!
//! Shutdown is graceful: [`Pool::shutdown`] closes the queue, the tasks that
//! were accepted before are still handed out, and each worker is told to
//! stop once nothing is pending. It may be begun any number of times. The
//! pool has come to its end when [`Pool::is_terminated`] says so; by then
//! every accepted task has been executed exactly once.
//!
//! A task that ends in a fault is reported like any other
//! ([`TaskOutcome::Failed`]): the worker is idle again, and the fault is
//! counted.
//!
//! The module [`model`] states what a pool is in mathematical terms, and
//! [`laws`] what follows for every pool. [`http`] resolves request lines and
//! frames responses; [`capture`] holds the decisions around taking a picture.

pub mod capture;
pub mod error;
pub mod http;
pub mod laws;
pub mod model;
pub mod pool;
pub mod queue;
pub mod worker;

pub use error::{PoolError, QueueError};
pub use pool::Pool;
pub use queue::{Claim, JobQueue};
pub use worker::{TaskOutcome, Worker, WorkerState};
