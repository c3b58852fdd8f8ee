use threaddemo::worker::WorkerPhase;
use threaddemo::{PoolCreationError, ThreadPool};

#[test]
fn create_succeeds_for_positive_sizes() {
    for size in 1..=8usize {
        let pool = ThreadPool::<u64>::new(size).unwrap();
        assert_eq!(pool.worker_count(), size);
        assert!(!pool.shutting_down());
        assert_eq!(pool.queue_len(), 0);
        for w in 0..size {
            assert_eq!(pool.phase_of(w), WorkerPhase::Waiting);
            assert!(!pool.thread_taken(w));
        }
    }
}

#[test]
fn create_zero_workers_is_rejected() {
    let result = ThreadPool::<u64>::new(0);
    match result {
        Err(error) => {
            assert_eq!(error, PoolCreationError);
            assert_eq!(error.message(), "failed to create thread pool");
        }
        Ok(_) => panic!("a pool of zero workers must be refused"),
    }
}

#[test]
fn execute_enqueues_without_waiting() {
    let mut pool = ThreadPool::<u64>::new(2).unwrap();
    assert!(pool.execute(10));
    assert!(pool.execute(20));
    assert_eq!(pool.queue_len(), 2);
    // no worker has moved: enqueueing does not wait for execution
    assert_eq!(pool.phase_of(0), WorkerPhase::Waiting);
    assert_eq!(pool.phase_of(1), WorkerPhase::Waiting);
}

#[test]
fn each_job_is_received_by_exactly_one_worker() {
    let mut pool = ThreadPool::<u64>::new(2).unwrap();
    assert!(pool.execute(10));
    assert!(pool.execute(20));
    assert!(pool.execute(30));
    // single logical consumer: dequeue order is enqueue order, and each
    // message goes to exactly the worker that received it
    assert_eq!(pool.worker_receive(0), Some(10));
    pool.worker_finish(0);
    assert_eq!(pool.worker_receive(1), Some(20));
    pool.worker_finish(1);
    assert_eq!(pool.worker_receive(0), Some(30));
    pool.worker_finish(0);
    assert_eq!(pool.queue_len(), 0);
}

#[test]
fn two_jobs_can_be_mid_execution_at_once() {
    let mut pool = ThreadPool::<u64>::new(2).unwrap();
    assert!(pool.execute(1));
    assert!(pool.execute(2));
    // the queue lock is released before a job runs, so the second worker can
    // receive while the first is still busy
    let first = pool.worker_receive(0);
    let second = pool.worker_receive(1);
    assert_eq!(first, Some(1));
    assert_eq!(second, Some(2));
    assert_eq!(pool.phase_of(0), WorkerPhase::Busy);
    assert_eq!(pool.phase_of(1), WorkerPhase::Busy);
    pool.worker_finish(0);
    pool.worker_finish(1);
    assert_eq!(pool.phase_of(0), WorkerPhase::Waiting);
    assert_eq!(pool.phase_of(1), WorkerPhase::Waiting);
}

#[test]
fn teardown_sends_one_terminate_per_worker_and_joins_each() {
    let mut pool = ThreadPool::<u64>::new(3).unwrap();
    pool.begin_shutdown();
    assert!(pool.shutting_down());
    // exactly one termination message per worker
    assert_eq!(pool.queue_len(), 3);
    for w in 0..3 {
        assert_eq!(pool.worker_receive(w), None);
        assert_eq!(pool.phase_of(w), WorkerPhase::Terminated);
    }
    assert_eq!(pool.queue_len(), 0);
    // each thread handle is taken exactly once; a second take finds it gone
    for w in 0..3 {
        assert!(pool.worker_take_thread(w));
        assert!(pool.thread_taken(w));
        assert!(!pool.worker_take_thread(w));
    }
}

#[test]
fn submit_after_teardown_is_rejected_without_effect() {
    let mut pool = ThreadPool::<u64>::new(1).unwrap();
    pool.begin_shutdown();
    let before = pool.queue_len();
    assert!(!pool.execute(99));
    assert_eq!(pool.queue_len(), before);
    // the rejected job never reaches a worker
    assert_eq!(pool.worker_receive(0), None);
    assert_eq!(pool.queue_len(), 0);
}

#[test]
fn hundred_jobs_all_run_before_teardown_completes() {
    let mut pool = ThreadPool::<u64>::new(4).unwrap();
    for job in 0..100u64 {
        assert!(pool.execute(job));
    }
    pool.begin_shutdown();
    assert_eq!(pool.queue_len(), 104);
    let mut completed: usize = 0;
    let mut w: usize = 0;
    while pool.queue_len() > 0 {
        if pool.phase_of(w) == WorkerPhase::Waiting {
            match pool.worker_receive(w) {
                Some(_) => {
                    pool.worker_finish(w);
                    completed += 1;
                }
                None => {}
            }
        }
        w = (w + 1) % 4;
    }
    assert_eq!(completed, 100);
    for w in 0..4 {
        assert_eq!(pool.phase_of(w), WorkerPhase::Terminated);
        assert!(pool.worker_take_thread(w));
    }
}
