use std::sync::atomic::{AtomicUsize, Ordering};
use std::sync::{Arc, Mutex};
use web_server::pool::{Message, PoolError, ThreadPool, Worker, WorkerState};

type Job = Box<dyn FnOnce() + Send + 'static>;

/// Runs `jobs` on a pool of `size` workers, shuts down, and lets the workers
/// take messages in turn (worker `step % size` at each step, skipping ended
/// ones); a busy worker runs its job before its next turn. Returns the
/// number of workers that consumed a terminate message.
fn run_pool(size: usize, jobs: Vec<Job>, stride: usize) -> usize {
    let mut pool: ThreadPool<Job> = ThreadPool::new(size).unwrap();
    for job in jobs {
        pool.exec(job).unwrap();
    }
    pool.shutdown().unwrap();
    let mut ended = 0;
    let mut step = 0usize;
    while !pool.is_finished() {
        let id = (step * stride) % size;
        step += 1;
        match pool.take_next(id) {
            Some(Message::NewJob(job)) => {
                job();
                pool.finish_job(id);
            }
            Some(Message::Terminate) => ended += 1,
            None => {}
        }
        assert!(step < 100_000);
    }
    assert_eq!(pool.pending_len(), 0);
    ended
}

fn int_pool(size: usize) -> ThreadPool<u32> {
    ThreadPool::new(size).unwrap()
}

#[test]
fn every_job_runs_once_for_several_sizes() {
    for &size in &[1usize, 2, 4] {
        for &n in &[0usize, 1, 50] {
            let counter = Arc::new(AtomicUsize::new(0));
            let mut jobs: Vec<Job> = Vec::new();
            for _ in 0..n {
                let c = Arc::clone(&counter);
                jobs.push(Box::new(move || {
                    c.fetch_add(1, Ordering::SeqCst);
                }));
            }
            assert_eq!(run_pool(size, jobs, 1), size);
            assert_eq!(counter.load(Ordering::SeqCst), n);
        }
    }
}

#[test]
fn tagged_jobs_each_run_exactly_once() {
    let log = Arc::new(Mutex::new(Vec::new()));
    let mut jobs: Vec<Job> = Vec::new();
    for i in 0..200usize {
        let l = Arc::clone(&log);
        jobs.push(Box::new(move || l.lock().unwrap().push(i)));
    }
    assert_eq!(run_pool(3, jobs, 2), 3);
    let mut seen = log.lock().unwrap().clone();
    seen.sort();
    assert_eq!(seen, (0..200).collect::<Vec<usize>>());
}

#[test]
fn two_workers_five_jobs_log_each_once() {
    let log = Arc::new(Mutex::new(Vec::new()));
    let mut jobs: Vec<Job> = Vec::new();
    for i in 0..5usize {
        let l = Arc::clone(&log);
        jobs.push(Box::new(move || l.lock().unwrap().push(i)));
    }
    assert_eq!(run_pool(2, jobs, 1), 2);
    let mut seen = log.lock().unwrap().clone();
    seen.sort();
    assert_eq!(seen, vec![0, 1, 2, 3, 4]);
}

#[test]
fn jobs_leave_the_channel_in_submission_order() {
    let mut p = int_pool(2);
    for i in 0..5u32 {
        p.exec(i).unwrap();
    }
    let mut order = Vec::new();
    let mut turn = 0usize;
    while p.pending_len() > 0 {
        match p.take_next(turn) {
            Some(Message::NewJob(i)) => order.push(i),
            _ => panic!("expected a job"),
        }
        p.finish_job(turn);
        turn = 1 - turn;
    }
    assert_eq!(order, vec![0, 1, 2, 3, 4]);
}

#[test]
fn zero_size_is_refused() {
    assert!(matches!(ThreadPool::<u32>::new(0), Err(PoolError::InvalidSize)));
}

#[test]
fn new_pool_is_idle_and_open() {
    let p = int_pool(3);
    assert_eq!(p.worker_count(), 3);
    assert_eq!(p.pending_len(), 0);
    assert!(!p.is_shut_down());
    assert!(!p.is_finished());
    for id in 0..3 {
        assert_eq!(p.worker_state(id), Some(WorkerState::Idle));
    }
    assert_eq!(p.worker_state(3), None);
}

#[test]
fn idle_pool_of_three_shuts_down_with_three_terminates() {
    let mut p = int_pool(3);
    assert_eq!(p.shutdown(), Ok(()));
    assert_eq!(p.pending_len(), 3);
    for id in 0..3 {
        assert!(matches!(p.take_next(id), Some(Message::Terminate)));
        assert_eq!(p.worker_state(id), Some(WorkerState::Terminated));
    }
    assert_eq!(p.pending_len(), 0);
    assert!(p.is_finished());
    assert_eq!(run_pool(3, Vec::new(), 1), 3);
}

#[test]
fn terminates_come_after_pending_jobs() {
    let mut p = int_pool(1);
    p.exec(7).unwrap();
    p.shutdown().unwrap();
    assert_eq!(p.pending_len(), 2);
    assert!(matches!(p.take_next(0), Some(Message::NewJob(7))));
    assert_eq!(p.worker_state(0), Some(WorkerState::Busy));
    assert!(p.take_next(0).is_none());
    p.finish_job(0);
    assert!(matches!(p.take_next(0), Some(Message::Terminate)));
    assert!(p.is_finished());
}

#[test]
fn submitting_after_shutdown_is_an_error() {
    let mut p = int_pool(2);
    p.shutdown().unwrap();
    assert_eq!(p.exec(1), Err(PoolError::ShutDown));
    p.take_next(0);
    p.take_next(1);
    assert!(p.is_finished());
    assert_eq!(p.exec(2), Err(PoolError::ShutDown));
    assert_eq!(p.shutdown(), Err(PoolError::ShutDown));
    assert_eq!(p.pending_len(), 0);
}

#[test]
fn failed_worker_loses_its_slot_and_shutdown_completes() {
    let mut p = int_pool(2);
    p.exec(1).unwrap();
    assert!(matches!(p.take_next(0), Some(Message::NewJob(1))));
    p.fail_job(0);
    assert_eq!(p.worker_state(0), Some(WorkerState::Failed));
    p.exec(2).unwrap();
    assert!(p.take_next(0).is_none());
    assert!(matches!(p.take_next(1), Some(Message::NewJob(2))));
    p.finish_job(1);
    assert_eq!(p.shutdown(), Ok(()));
    assert_eq!(p.pending_len(), 2);
    assert!(p.take_next(0).is_none());
    assert!(matches!(p.take_next(1), Some(Message::Terminate)));
    assert!(p.is_finished());
    assert_eq!(p.pending_len(), 1);
}

#[test]
fn no_live_worker_disconnects() {
    let mut p = int_pool(1);
    p.exec(1).unwrap();
    p.take_next(0);
    p.fail_job(0);
    assert!(p.is_finished());
    assert_eq!(p.exec(2), Err(PoolError::Disconnected));
    assert_eq!(p.shutdown(), Err(PoolError::Disconnected));
    assert!(!p.is_shut_down());
}

#[test]
fn reports_from_idle_workers_change_nothing() {
    let mut p = int_pool(2);
    p.finish_job(0);
    p.fail_job(1);
    p.finish_job(9);
    assert_eq!(p.worker_state(0), Some(WorkerState::Idle));
    assert_eq!(p.worker_state(1), Some(WorkerState::Idle));
    assert!(p.take_next(0).is_none());
    assert!(p.take_next(5).is_none());
}

#[test]
fn worker_starts_idle_with_its_id() {
    let w = Worker::new(4);
    assert_eq!(w.get_id(), 4);
    assert_eq!(w.get_state(), WorkerState::Idle);
}
