use campi::{Claim, Pool, PoolError, TaskOutcome, WorkerState};
use std::cell::RefCell;
use std::rc::Rc;

type Task = Box<dyn FnOnce() -> TaskOutcome>;

/// A task that adds one to `slot` of `counts` when it runs.
fn counting(counts: &Rc<RefCell<Vec<u32>>>, slot: usize) -> Task {
    let counts = Rc::clone(counts);
    Box::new(move || {
        counts.borrow_mut()[slot] += 1;
        TaskOutcome::Completed
    })
}

/// A task that ends in a fault after it has marked `slot`.
fn failing(counts: &Rc<RefCell<Vec<u32>>>, slot: usize) -> Task {
    let counts = Rc::clone(counts);
    Box::new(move || {
        counts.borrow_mut()[slot] += 1;
        TaskOutcome::Failed
    })
}

/// Lets worker `w` ask once; runs and reports the task if it got one.
/// Returns the state of the worker afterwards.
fn turn(pool: &mut Pool<Task>, w: usize) -> WorkerState {
    if let Claim::Task(task) = pool.claim(w) {
        assert_eq!(pool.worker(w).unwrap().state(), WorkerState::Running);
        let outcome = task();
        assert!(pool.finish(w, outcome));
    }
    pool.worker(w).unwrap().state()
}

/// Gives the workers turns, one after the other, until all have stopped.
fn run_to_the_end(pool: &mut Pool<Task>) {
    let mut rounds = 0;
    while !pool.is_terminated() {
        for w in 0..pool.size() {
            turn(pool, w);
        }
        rounds += 1;
        assert!(rounds < 10_000, "the pool does not come to an end");
    }
}

#[test]
fn new_pool_has_exactly_size_active_workers() {
    for size in 1..=16usize {
        let pool: Pool<u32> = match Pool::new(size) {
            Ok(pool) => pool,
            Err(e) => panic!("size {} was refused: {:?}", size, e),
        };
        assert_eq!(pool.size(), size);
        assert_eq!(pool.active_workers(), size);
        assert_eq!(pool.queued(), 0);
        assert!(!pool.is_shut_down());
        assert!(!pool.is_terminated());
        assert_eq!(pool.faults(), 0);
        for w in 0..size {
            let worker = pool.worker(w).unwrap();
            assert_eq!(worker.id(), w);
            assert_eq!(worker.state(), WorkerState::Idle);
        }
        assert!(pool.worker(size).is_none());
    }
}

#[test]
fn new_pool_of_size_zero_is_refused() {
    assert!(matches!(Pool::<u32>::new(0), Err(PoolError::InvalidPoolSize)));
}

#[test]
fn idle_worker_waits_while_nothing_is_pending() {
    let mut pool: Pool<u32> = Pool::new(2).ok().unwrap();
    assert!(matches!(pool.claim(0), Claim::Wait));
    assert!(matches!(pool.claim(1), Claim::Wait));
    assert_eq!(pool.worker(0).unwrap().state(), WorkerState::Idle);
    assert_eq!(pool.active_workers(), 2);
}

#[test]
fn tasks_are_handed_out_in_submission_order() {
    let mut pool: Pool<u32> = Pool::new(3).ok().unwrap();
    for task in [30u32, 10, 20, 10] {
        assert_eq!(pool.execute(task), Ok(()));
    }
    assert_eq!(pool.queued(), 4);
    assert!(matches!(pool.claim(2), Claim::Task(30)));
    assert!(matches!(pool.claim(0), Claim::Task(10)));
    assert!(matches!(pool.claim(1), Claim::Task(20)));
    assert_eq!(pool.queued(), 1);
    assert!(pool.finish(0, TaskOutcome::Completed));
    assert!(matches!(pool.claim(0), Claim::Task(10)));
    assert_eq!(pool.queued(), 0);
}

#[test]
fn every_task_runs_exactly_once() {
    for size in 1..=4usize {
        for n in [0usize, 1, 2, 7, 50] {
            let counts = Rc::new(RefCell::new(vec![0u32; n]));
            let mut pool: Pool<Task> = Pool::new(size).ok().unwrap();
            for slot in 0..n {
                assert!(pool.execute(counting(&counts, slot)).is_ok());
            }
            pool.shutdown();
            run_to_the_end(&mut pool);
            assert!(pool.is_terminated());
            assert_eq!(pool.queued(), 0);
            assert_eq!(pool.active_workers(), 0);
            assert_eq!(*counts.borrow(), vec![1u32; n]);
        }
    }
}

#[test]
fn every_task_runs_exactly_once_whatever_the_order_of_completion() {
    let counts = Rc::new(RefCell::new(vec![0u32; 6]));
    let mut pool: Pool<Task> = Pool::new(3).ok().unwrap();
    for slot in 0..6 {
        assert!(pool.execute(counting(&counts, slot)).is_ok());
    }
    // All three workers hold a task; they finish in the reverse order.
    let mut held: Vec<(usize, Task)> = Vec::new();
    for w in 0..3 {
        match pool.claim(w) {
            Claim::Task(task) => held.push((w, task)),
            _ => panic!("worker {} got no task", w),
        }
    }
    while let Some((w, task)) = held.pop() {
        let outcome = task();
        assert!(pool.finish(w, outcome));
    }
    assert_eq!(*counts.borrow(), vec![1, 1, 1, 0, 0, 0]);
    // The last worker takes all that is left, while the others are idle.
    pool.shutdown();
    assert_eq!(turn(&mut pool, 2), WorkerState::Idle);
    assert_eq!(turn(&mut pool, 2), WorkerState::Idle);
    assert_eq!(turn(&mut pool, 2), WorkerState::Idle);
    assert_eq!(turn(&mut pool, 2), WorkerState::Stopped);
    assert!(!pool.is_terminated());
    run_to_the_end(&mut pool);
    assert_eq!(*counts.borrow(), vec![1u32; 6]);
}

#[test]
fn shutdown_drains_what_is_pending_before_workers_stop() {
    let mut pool: Pool<u32> = Pool::new(1).ok().unwrap();
    assert_eq!(pool.execute(1), Ok(()));
    assert_eq!(pool.execute(2), Ok(()));
    pool.shutdown();
    assert!(pool.is_shut_down());
    assert_eq!(pool.queued(), 2);
    assert!(matches!(pool.claim(0), Claim::Task(1)));
    assert!(pool.finish(0, TaskOutcome::Completed));
    assert!(matches!(pool.claim(0), Claim::Task(2)));
    assert!(!pool.is_terminated());
    assert!(pool.finish(0, TaskOutcome::Completed));
    assert!(matches!(pool.claim(0), Claim::Stop));
    assert_eq!(pool.worker(0).unwrap().state(), WorkerState::Stopped);
    assert!(pool.is_terminated());
}

#[test]
fn failed_task_does_not_cost_the_pool_a_worker() {
    let counts = Rc::new(RefCell::new(vec![0u32; 3]));
    let mut pool: Pool<Task> = Pool::new(1).ok().unwrap();
    assert!(pool.execute(failing(&counts, 0)).is_ok());
    assert_eq!(turn(&mut pool, 0), WorkerState::Idle);
    assert_eq!(pool.faults(), 1);
    assert_eq!(pool.active_workers(), 1);
    // Tasks submitted after the fault run as usual, on the same worker.
    assert!(pool.execute(counting(&counts, 1)).is_ok());
    assert!(pool.execute(failing(&counts, 2)).is_ok());
    assert_eq!(turn(&mut pool, 0), WorkerState::Idle);
    assert_eq!(turn(&mut pool, 0), WorkerState::Idle);
    assert_eq!(*counts.borrow(), vec![1, 1, 1]);
    assert_eq!(pool.faults(), 2);
    assert_eq!(pool.active_workers(), 1);
    assert!(!pool.is_shut_down());
}

#[test]
fn execute_after_shutdown_is_rejected_and_does_not_run() {
    let counts = Rc::new(RefCell::new(vec![0u32; 2]));
    let mut pool: Pool<Task> = Pool::new(2).ok().unwrap();
    assert!(pool.execute(counting(&counts, 0)).is_ok());
    pool.shutdown();
    assert!(matches!(
        pool.execute(counting(&counts, 1)),
        Err(PoolError::SubmissionRejected)
    ));
    assert_eq!(pool.queued(), 1);
    run_to_the_end(&mut pool);
    assert!(matches!(
        pool.execute(counting(&counts, 1)),
        Err(PoolError::SubmissionRejected)
    ));
    assert_eq!(pool.queued(), 0);
    assert_eq!(*counts.borrow(), vec![1, 0]);
}

#[test]
fn shutdown_twice_is_shutdown_once() {
    let mut pool: Pool<u32> = Pool::new(2).ok().unwrap();
    assert_eq!(pool.execute(5), Ok(()));
    pool.shutdown();
    pool.shutdown();
    assert!(pool.is_shut_down());
    assert_eq!(pool.queued(), 1);
    assert_eq!(pool.active_workers(), 2);
    assert!(matches!(pool.claim(1), Claim::Task(5)));
}

#[test]
fn two_workers_run_four_tasks_in_two_rounds() {
    let counter = Rc::new(RefCell::new(vec![0u32; 1]));
    let mut pool: Pool<Task> = Pool::new(2).ok().unwrap();
    for _ in 0..4 {
        assert!(pool.execute(counting(&counter, 0)).is_ok());
    }
    pool.shutdown();
    let mut rounds = 0;
    while pool.queued() > 0 {
        // Both workers hold a task at the same time.
        let first = match pool.claim(0) {
            Claim::Task(task) => task,
            _ => panic!("worker 0 got no task"),
        };
        let second = match pool.claim(1) {
            Claim::Task(task) => task,
            _ => panic!("worker 1 got no task"),
        };
        assert_eq!(pool.worker(0).unwrap().state(), WorkerState::Running);
        assert_eq!(pool.worker(1).unwrap().state(), WorkerState::Running);
        assert!(pool.finish(0, first()));
        assert!(pool.finish(1, second()));
        rounds += 1;
    }
    assert_eq!(rounds, 2);
    assert_eq!(counter.borrow()[0], 4);
    run_to_the_end(&mut pool);
    assert_eq!(counter.borrow()[0], 4);
}

#[test]
fn worker_that_is_not_idle_is_handed_nothing() {
    let mut pool: Pool<u32> = Pool::new(2).ok().unwrap();
    assert_eq!(pool.execute(1), Ok(()));
    assert_eq!(pool.execute(2), Ok(()));
    assert!(matches!(pool.claim(0), Claim::Task(1)));
    // Worker 0 still runs its task.
    assert!(matches!(pool.claim(0), Claim::Wait));
    assert_eq!(pool.queued(), 1);
    // The pool has no worker 2.
    assert!(matches!(pool.claim(2), Claim::Stop));
    assert_eq!(pool.queued(), 1);
    // Worker 1 runs nothing, so it has nothing to report.
    assert!(!pool.finish(1, TaskOutcome::Failed));
    assert!(!pool.finish(7, TaskOutcome::Completed));
    assert_eq!(pool.faults(), 0);
    assert!(pool.finish(0, TaskOutcome::Completed));
    assert!(!pool.finish(0, TaskOutcome::Completed));
    // A stopped worker is told to stop again, whatever comes.
    pool.shutdown();
    assert!(matches!(pool.claim(1), Claim::Task(2)));
    assert!(matches!(pool.claim(0), Claim::Stop));
    assert!(matches!(pool.claim(0), Claim::Stop));
    assert_eq!(pool.active_workers(), 1);
}

#[test]
fn startup_with_every_worker_started_is_confirmed() {
    let mut pool: Pool<u32> = Pool::new(3).ok().unwrap();
    assert_eq!(pool.confirm_startup(3), Ok(()));
    assert_eq!(pool.confirm_startup(4), Ok(()));
    assert!(!pool.is_shut_down());
    assert_eq!(pool.count_workers(WorkerState::Idle), 3);
    assert_eq!(pool.execute(1), Ok(()));
    assert!(matches!(pool.claim(2), Claim::Task(1)));
}

#[test]
fn failed_startup_is_reported_and_retires_the_missing_workers() {
    let mut pool: Pool<u32> = Pool::new(3).ok().unwrap();
    assert_eq!(pool.confirm_startup(1), Err(PoolError::WorkerStartupFailure));
    assert!(pool.is_shut_down());
    assert_eq!(pool.worker(0).unwrap().state(), WorkerState::Idle);
    assert_eq!(pool.worker(1).unwrap().state(), WorkerState::Stopped);
    assert_eq!(pool.worker(2).unwrap().state(), WorkerState::Stopped);
    assert_eq!(pool.active_workers(), 1);
    assert_eq!(pool.execute(1), Err(PoolError::SubmissionRejected));
    // The worker that did start is told to stop, and the pool is at its end.
    assert!(matches!(pool.claim(0), Claim::Stop));
    assert!(pool.is_terminated());
}

#[test]
fn failed_startup_with_no_worker_started_ends_the_pool_at_once() {
    let mut pool: Pool<u32> = Pool::new(2).ok().unwrap();
    assert_eq!(pool.confirm_startup(0), Err(PoolError::WorkerStartupFailure));
    assert!(pool.is_terminated());
    assert_eq!(pool.active_workers(), 0);
}

#[test]
fn failed_startup_drops_no_pending_task() {
    let mut pool: Pool<u32> = Pool::new(2).ok().unwrap();
    assert_eq!(pool.execute(9), Ok(()));
    assert_eq!(pool.confirm_startup(1), Err(PoolError::WorkerStartupFailure));
    // Something is pending, so nobody is retired yet.
    assert_eq!(pool.worker(1).unwrap().state(), WorkerState::Idle);
    assert_eq!(pool.queued(), 1);
    assert!(matches!(pool.claim(0), Claim::Task(9)));
    assert!(pool.finish(0, TaskOutcome::Completed));
    assert!(matches!(pool.claim(0), Claim::Stop));
    assert_eq!(pool.confirm_startup(1), Err(PoolError::WorkerStartupFailure));
    assert!(pool.is_terminated());
}

#[test]
fn workers_are_counted_by_state() {
    let mut pool: Pool<u32> = Pool::new(4).ok().unwrap();
    assert_eq!(pool.count_workers(WorkerState::Idle), 4);
    assert_eq!(pool.count_workers(WorkerState::Running), 0);
    assert_eq!(pool.count_workers(WorkerState::Stopped), 0);
    assert_eq!(pool.execute(1), Ok(()));
    assert_eq!(pool.execute(2), Ok(()));
    assert!(matches!(pool.claim(3), Claim::Task(1)));
    assert!(matches!(pool.claim(1), Claim::Task(2)));
    pool.shutdown();
    assert!(matches!(pool.claim(0), Claim::Stop));
    assert_eq!(pool.count_workers(WorkerState::Idle), 1);
    assert_eq!(pool.count_workers(WorkerState::Running), 2);
    assert_eq!(pool.count_workers(WorkerState::Stopped), 1);
    assert_eq!(pool.active_workers(), 3);
    assert_eq!(pool.worker(2).unwrap().state(), WorkerState::Idle);
    assert_eq!(pool.worker(3).unwrap().state(), WorkerState::Running);
}

#[test]
fn shutdown_ends_after_as_many_steps_as_are_left() {
    // Two tasks pending, one running, one idle worker besides the running
    // one: two steps for each task and one for the idle worker.
    let mut pool: Pool<u32> = Pool::new(2).ok().unwrap();
    for task in 0..3u32 {
        assert_eq!(pool.execute(task), Ok(()));
    }
    assert!(matches!(pool.claim(0), Claim::Task(0)));
    pool.shutdown();
    let mut steps = 0;
    while !pool.is_terminated() {
        for w in 0..2 {
            match pool.worker(w).unwrap().state() {
                WorkerState::Idle => {
                    pool.claim(w);
                    steps += 1;
                }
                WorkerState::Running => {
                    assert!(pool.finish(w, TaskOutcome::Completed));
                    steps += 1;
                }
                WorkerState::Stopped => {}
            }
        }
    }
    assert_eq!(steps, 2 * (2 + 1) + 1);
}

#[test]
fn faults_are_counted() {
    let mut pool: Pool<u32> = Pool::new(2).ok().unwrap();
    for task in 0..5u32 {
        assert_eq!(pool.execute(task), Ok(()));
    }
    let outcomes = [
        TaskOutcome::Failed,
        TaskOutcome::Completed,
        TaskOutcome::Failed,
        TaskOutcome::Failed,
        TaskOutcome::Completed,
    ];
    for (i, outcome) in outcomes.iter().enumerate() {
        let w = i % 2;
        assert!(matches!(pool.claim(w), Claim::Task(t) if t == i as u32));
        assert!(pool.finish(w, *outcome));
    }
    assert_eq!(pool.faults(), 3);
    assert_eq!(pool.active_workers(), 2);
}
