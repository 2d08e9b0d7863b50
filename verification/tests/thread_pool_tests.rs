use alex_lib::threads::worker_step;
use alex_lib::threads::JobSource;
use alex_lib::threads::PoolError;
use alex_lib::threads::SubmitError;
use alex_lib::threads::TakeOutcome;
use alex_lib::threads::ThreadPool;
use alex_lib::threads::WorkerEvent;
use alex_lib::threads::WorkerState;

#[test]
fn test_thread_pool() {
    let mut tp: ThreadPool<usize> = ThreadPool::new(3).unwrap();
    let ids: Vec<usize> = tp.workers.iter().map(|w| w.id).collect();
    let mut res: Vec<(usize, usize)> = Vec::new();

    for i in 0..3 {
        tp.enqueue(i).unwrap();
    }
    let backlog = tp.graceful_shutdown();
    for (slot, _job) in backlog.into_iter().enumerate() {
        let id = ids[slot % ids.len()];
        res.push((id, id * id));
    }
    assert_eq!(res.len(), 3);
    for i in 0..3 as usize {
        let (id, idsqr) = res[i];
        assert_eq!([1, 2, 3].contains(&(id as i64)), true);
        assert_eq!(idsqr, id * id);
    }
}

#[test]
fn test_new_zero_size_fails() {
    let r: Result<ThreadPool<u8>, PoolError> = ThreadPool::new(0);
    assert!(matches!(r, Err(PoolError::ZeroSize)));
}

#[test]
fn test_new_creates_distinct_idle_workers() {
    let tp: ThreadPool<u8> = ThreadPool::new(5).unwrap();
    assert_eq!(tp.workers.len(), 5);
    for (i, w) in tp.workers.iter().enumerate() {
        assert_eq!(w.id, i + 1);
        assert!(matches!(w.state, WorkerState::Idle));
    }
}

#[test]
fn test_fifo_delivery_order() {
    let mut src: JobSource<u32> = JobSource::new();
    src.submit(10).unwrap();
    src.submit(20).unwrap();
    src.submit(30).unwrap();
    match src.take() {
        TakeOutcome::Job(j) => assert_eq!(j, 10),
        _ => panic!("expected a job"),
    }
    match src.take() {
        TakeOutcome::Job(j) => assert_eq!(j, 20),
        _ => panic!("expected a job"),
    }
    src.close();
    match src.take() {
        TakeOutcome::Job(j) => assert_eq!(j, 30),
        _ => panic!("expected the queued job after close"),
    }
    match src.take() {
        TakeOutcome::Exhausted => {}
        _ => panic!("expected exhaustion once drained and closed"),
    }
}

#[test]
fn test_take_would_block_while_open() {
    let mut src: JobSource<u32> = JobSource::new();
    match src.take() {
        TakeOutcome::WouldBlock => {}
        _ => panic!("an open, empty source makes a worker wait"),
    }
}

#[test]
fn test_submit_after_shutdown_rejected() {
    let mut tp: ThreadPool<u32> = ThreadPool::new(2).unwrap();
    tp.enqueue(7).unwrap();
    let backlog = tp.graceful_shutdown();
    assert_eq!(backlog, vec![7]);
    assert_eq!(tp.enqueue(8), Err(SubmitError::ShutDown));
    let again = tp.graceful_shutdown();
    assert!(again.is_empty());
}

#[test]
fn test_shutdown_idempotent() {
    let mut tp: ThreadPool<u32> = ThreadPool::new(2).unwrap();
    tp.enqueue(1).unwrap();
    tp.enqueue(2).unwrap();
    let first = tp.graceful_shutdown();
    assert_eq!(first, vec![1, 2]);
    let second = tp.graceful_shutdown();
    assert!(second.is_empty());
    for w in tp.workers.iter() {
        assert!(matches!(w.state, WorkerState::Terminated));
    }
}

#[test]
fn test_job_fault_leaves_worker_serving() {
    let mut st = WorkerState::Idle;
    st = worker_step(st, WorkerEvent::Delivered);
    assert!(matches!(st, WorkerState::Executing));
    st = worker_step(st, WorkerEvent::Fault);
    assert!(matches!(st, WorkerState::Idle));

    let mut tp: ThreadPool<u32> = ThreadPool::new(3).unwrap();
    tp.enqueue(1).unwrap();
    tp.enqueue(2).unwrap();
    tp.enqueue(3).unwrap();
    let backlog = tp.graceful_shutdown();
    let mut completed: Vec<u32> = Vec::new();
    for job in backlog {
        if job == 1 {
            // this job faults while running; the worker goes back to idle
            st = worker_step(worker_step(st, WorkerEvent::Delivered), WorkerEvent::Fault);
            assert!(matches!(st, WorkerState::Idle));
            continue;
        }
        completed.push(job);
    }
    assert_eq!(completed, vec![2, 3]);
}

#[test]
fn test_worker_terminates_on_channel_fault_or_exhaustion() {
    let st = worker_step(WorkerState::Idle, WorkerEvent::ChannelFault);
    assert!(matches!(st, WorkerState::Terminated));
    let st = worker_step(WorkerState::Idle, WorkerEvent::Exhausted);
    assert!(matches!(st, WorkerState::Terminated));
    let st = worker_step(WorkerState::Terminated, WorkerEvent::Delivered);
    assert!(matches!(st, WorkerState::Terminated));
}
