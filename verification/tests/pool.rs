use std::cell::RefCell;
use std::rc::Rc;
use std::time::{Duration, Instant};

use workbench::pool::channel::{Delivery, WorkChannel};
use workbench::pool::worker::{Action, Worker, WorkerState};
use workbench::pool::{PoolClosed, ThreadPool};

type LocalJob = Box<dyn FnOnce()>;

fn recorder(record: &Rc<RefCell<Vec<usize>>>, index: usize) -> LocalJob {
    let record = Rc::clone(record);
    Box::new(move || record.borrow_mut().push(index))
}

#[test]
fn new_pool_has_size_waiting_workers() {
    for size in 1..6usize {
        let pool: ThreadPool<LocalJob> = ThreadPool::new(size);
        assert_eq!(pool.size(), size);
        assert!(pool.is_open());
        assert_eq!(pool.pending_jobs(), 0);
        for id in 0..size {
            assert_eq!(pool.worker_state(id), Some(WorkerState::Waiting));
        }
        assert_eq!(pool.worker_state(size), None);
        assert!(!pool.is_terminated());
    }
}

#[test]
fn ten_jobs_on_four_workers_each_run_once() {
    let record = Rc::new(RefCell::new(Vec::new()));
    let mut pool: ThreadPool<LocalJob> = ThreadPool::new(4);
    for index in 0..10 {
        assert!(pool.execute(recorder(&record, index)).is_ok());
    }
    assert_eq!(pool.pending_jobs(), 10);
    pool.shutdown();
    let mut seen = record.borrow().clone();
    assert_eq!(seen.len(), 10);
    seen.sort();
    assert_eq!(seen, (0..10).collect::<Vec<usize>>());
    assert_eq!(pool.pending_jobs(), 0);
    assert!(pool.is_terminated());
}

#[test]
fn single_worker_runs_jobs_in_submission_order() {
    let record: Rc<RefCell<Vec<&'static str>>> = Rc::new(RefCell::new(Vec::new()));
    let mut pool: ThreadPool<LocalJob> = ThreadPool::new(1);
    let a = Rc::clone(&record);
    let b = Rc::clone(&record);
    assert!(pool
        .execute(Box::new(move || {
            let start = Instant::now();
            while start.elapsed() < Duration::from_millis(50) {}
            a.borrow_mut().push("A");
        }))
        .is_ok());
    assert!(pool.execute(Box::new(move || b.borrow_mut().push("B"))).is_ok());
    pool.shutdown();
    assert_eq!(*record.borrow(), vec!["A", "B"]);
}

#[test]
fn shutdown_of_an_unused_pool_terminates_both_workers() {
    let mut pool: ThreadPool<LocalJob> = ThreadPool::new(2);
    pool.shutdown();
    assert!(!pool.is_open());
    assert!(pool.is_terminated());
    assert_eq!(pool.worker_state(0), Some(WorkerState::Terminated));
    assert_eq!(pool.worker_state(1), Some(WorkerState::Terminated));
}

#[test]
fn execute_after_shutdown_is_rejected_and_never_runs() {
    let record = Rc::new(RefCell::new(Vec::new()));
    let mut pool: ThreadPool<LocalJob> = ThreadPool::new(3);
    assert!(pool.execute(recorder(&record, 1)).is_ok());
    pool.shutdown();
    match pool.execute(recorder(&record, 2)) {
        Err(PoolClosed(job)) => drop(job),
        Ok(()) => panic!("a closed pool accepted a job"),
    }
    assert_eq!(pool.pending_jobs(), 0);
    pool.shutdown();
    assert_eq!(*record.borrow(), vec![1]);
}

#[test]
fn execute_after_begin_shutdown_is_rejected() {
    let mut pool: ThreadPool<usize> = ThreadPool::new(2);
    assert!(pool.execute(7).is_ok());
    pool.begin_shutdown();
    assert!(!pool.is_open());
    match pool.execute(8) {
        Err(PoolClosed(job)) => assert_eq!(job, 8),
        Ok(()) => panic!("a closed pool accepted a job"),
    }
    assert_eq!(pool.pending_jobs(), 1);
}

#[test]
fn second_shutdown_changes_nothing() {
    let record = Rc::new(RefCell::new(Vec::new()));
    let mut pool: ThreadPool<LocalJob> = ThreadPool::new(2);
    for index in 0..3 {
        assert!(pool.execute(recorder(&record, index)).is_ok());
    }
    pool.shutdown();
    pool.shutdown();
    assert_eq!(*record.borrow(), vec![0, 1, 2]);
    assert!(pool.is_terminated());
    assert!(!pool.is_open());
}

#[test]
fn workers_take_jobs_oldest_first() {
    let mut pool: ThreadPool<&'static str> = ThreadPool::new(2);
    assert!(pool.execute("first").is_ok());
    assert!(pool.execute("second").is_ok());
    assert!(pool.execute("third").is_ok());
    match pool.worker_poll(1) {
        Action::Run(job) => assert_eq!(job, "first"),
        _ => panic!("worker 1 was not handed a job"),
    }
    assert_eq!(pool.worker_state(1), Some(WorkerState::Executing));
    match pool.worker_poll(0) {
        Action::Run(job) => assert_eq!(job, "second"),
        _ => panic!("worker 0 was not handed a job"),
    }
    assert!(matches!(pool.worker_poll(1), Action::Wait));
    assert_eq!(pool.pending_jobs(), 1);
    pool.worker_finish(1);
    assert_eq!(pool.worker_state(1), Some(WorkerState::Waiting));
    match pool.worker_poll(1) {
        Action::Run(job) => assert_eq!(job, "third"),
        _ => panic!("worker 1 was not handed the last job"),
    }
    assert_eq!(pool.pending_jobs(), 0);
}

#[test]
fn worker_waits_on_open_pool_and_exits_on_closed_one() {
    let mut pool: ThreadPool<u8> = ThreadPool::new(2);
    assert!(matches!(pool.worker_poll(0), Action::Wait));
    assert_eq!(pool.worker_state(0), Some(WorkerState::Waiting));
    assert!(pool.execute(5).is_ok());
    pool.begin_shutdown();
    assert!(matches!(pool.worker_poll(0), Action::Run(5)));
    assert!(matches!(pool.worker_poll(1), Action::Exit));
    assert_eq!(pool.worker_state(1), Some(WorkerState::Terminated));
    assert!(matches!(pool.worker_poll(0), Action::Wait));
    pool.worker_finish(0);
    assert!(matches!(pool.worker_poll(0), Action::Exit));
    assert!(matches!(pool.worker_poll(0), Action::Exit));
    assert!(pool.is_terminated());
    assert!(matches!(pool.worker_poll(2), Action::Exit));
    pool.worker_finish(2);
    pool.worker_finish(0);
    assert!(pool.is_terminated());
}

#[test]
fn channel_delivers_in_order_and_drains_after_close() {
    let mut channel: WorkChannel<u32> = WorkChannel::new();
    assert!(channel.is_empty());
    assert!(!channel.is_closed());
    assert!(matches!(channel.recv(), Delivery::Empty));
    assert_eq!(channel.send(1), Ok(()));
    assert_eq!(channel.send(2), Ok(()));
    assert_eq!(channel.len(), 2);
    channel.close();
    assert!(channel.is_closed());
    assert_eq!(channel.send(3), Err(3));
    assert_eq!(channel.len(), 2);
    assert!(matches!(channel.recv(), Delivery::Job(1)));
    assert!(matches!(channel.recv(), Delivery::Job(2)));
    assert!(matches!(channel.recv(), Delivery::Closed));
    assert!(matches!(channel.recv(), Delivery::Closed));
    channel.close();
    assert!(channel.is_closed());
}

#[test]
fn worker_state_machine_follows_the_channel() {
    let mut channel: WorkChannel<char> = WorkChannel::new();
    let mut worker = Worker::new(3);
    assert_eq!(worker.id(), 3);
    assert_eq!(worker.state(), WorkerState::Waiting);
    assert!(matches!(worker.poll(&mut channel), Action::Wait));
    assert_eq!(worker.state(), WorkerState::Waiting);
    worker.finish();
    assert_eq!(worker.state(), WorkerState::Waiting);
    assert_eq!(channel.send('x'), Ok(()));
    assert_eq!(channel.send('y'), Ok(()));
    assert!(matches!(worker.poll(&mut channel), Action::Run('x')));
    assert_eq!(worker.state(), WorkerState::Executing);
    assert!(matches!(worker.poll(&mut channel), Action::Wait));
    assert_eq!(channel.len(), 1);
    worker.finish();
    assert_eq!(worker.state(), WorkerState::Waiting);
    channel.close();
    assert!(matches!(worker.poll(&mut channel), Action::Run('y')));
    worker.finish();
    assert!(matches!(worker.poll(&mut channel), Action::Exit));
    assert_eq!(worker.state(), WorkerState::Terminated);
    worker.finish();
    assert_eq!(worker.state(), WorkerState::Terminated);
    assert!(matches!(worker.poll(&mut channel), Action::Exit));
    assert_eq!(worker.id(), 3);
}

#[test]
fn interleaved_workers_run_every_job_once() {
    let record = Rc::new(RefCell::new(Vec::new()));
    let mut pool: ThreadPool<LocalJob> = ThreadPool::new(3);
    let mut held: Vec<Option<LocalJob>> = vec![None, None, None];
    let mut ran_by: Vec<Vec<usize>> = vec![Vec::new(), Vec::new(), Vec::new()];
    let mut submitted = 0usize;
    let mut round = 0usize;
    while !pool.is_terminated() {
        if submitted < 7 {
            assert!(pool.execute(recorder(&record, submitted)).is_ok());
            submitted += 1;
        } else {
            pool.begin_shutdown();
        }
        for id in 0..3usize {
            if (round + id) % 2 == 0 {
                if let Some(job) = held[id].take() {
                    let before = record.borrow().len();
                    job();
                    ran_by[id].push(record.borrow()[before]);
                    pool.worker_finish(id);
                }
            } else if held[id].is_none() {
                if let Action::Run(job) = pool.worker_poll(id) {
                    held[id] = Some(job);
                }
            }
        }
        round += 1;
        assert!(round < 1000);
    }
    let mut seen = record.borrow().clone();
    seen.sort();
    assert_eq!(seen, (0..7).collect::<Vec<usize>>());
    assert_eq!(ran_by.iter().map(|jobs| jobs.len()).sum::<usize>(), 7);
    assert!(held.iter().all(|slot| slot.is_none()));
    assert_eq!(pool.pending_jobs(), 0);
}
