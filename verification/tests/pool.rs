use roadrunner::pool::ThreadPool;
use roadrunner::worker::Message;
use roadrunner::worker::Worker;
use roadrunner::worker::WorkerState;

#[test]
fn new_pool_has_as_many_idle_workers_as_asked() {
    for size in [1usize, 2, 4, 17] {
        let pool: ThreadPool<u32> = ThreadPool::new(size);
        assert_eq!(pool.size(), size);
        assert_eq!(pool.pending_len(), 0);
        assert!(!pool.is_shutting_down());
        assert!(!pool.all_terminated());
        let mut id = 0;
        while id < size {
            assert_eq!(pool.worker_state(id), WorkerState::Idle);
            id += 1;
        }
    }
}

#[test]
fn workers_are_numbered_in_the_order_they_were_made() {
    let pool: ThreadPool<u32> = ThreadPool::new(4);
    assert_eq!(pool.worker_ids(), vec![0, 1, 2, 3]);
    let single: ThreadPool<u32> = ThreadPool::new(1);
    assert_eq!(single.worker_ids(), vec![0]);
}

#[test]
fn execute_queues_without_running() {
    let mut pool: ThreadPool<&'static str> = ThreadPool::new(2);
    pool.execute("a");
    pool.execute("b");
    pool.execute("c");
    assert_eq!(pool.pending_len(), 3);
    assert_eq!(pool.worker_state(0), WorkerState::Idle);
    assert_eq!(pool.worker_state(1), WorkerState::Idle);
}

#[test]
fn jobs_leave_in_the_order_they_were_submitted() {
    let mut pool: ThreadPool<u32> = ThreadPool::new(1);
    let mut job = 0;
    while job < 50 {
        pool.execute(job);
        job += 1;
    }
    let mut expected = 0;
    while expected < 50 {
        assert_eq!(pool.receive(0), Some(Message::NewJob(expected)));
        assert_eq!(pool.worker_state(0), WorkerState::Executing);
        pool.finish(0);
        assert_eq!(pool.worker_state(0), WorkerState::Idle);
        expected += 1;
    }
    assert_eq!(pool.receive(0), None);
    assert_eq!(pool.pending_len(), 0);
}

#[test]
fn each_job_is_handed_out_once_whoever_asks() {
    let mut pool: ThreadPool<u32> = ThreadPool::new(3);
    for job in 0..6 {
        pool.execute(job);
    }
    assert_eq!(pool.receive(2), Some(Message::NewJob(0)));
    assert_eq!(pool.receive(0), Some(Message::NewJob(1)));
    pool.finish(2);
    assert_eq!(pool.receive(2), Some(Message::NewJob(2)));
    assert_eq!(pool.receive(1), Some(Message::NewJob(3)));
    pool.finish(0);
    pool.finish(1);
    assert_eq!(pool.receive(1), Some(Message::NewJob(4)));
    assert_eq!(pool.receive(0), Some(Message::NewJob(5)));
    pool.finish(0);
    assert_eq!(pool.receive(0), None);
    assert_eq!(pool.worker_state(0), WorkerState::Idle);
    assert_eq!(pool.worker_state(1), WorkerState::Executing);
    assert_eq!(pool.worker_state(2), WorkerState::Executing);
}

#[test]
fn receive_on_an_empty_queue_changes_nothing() {
    let mut pool: ThreadPool<u32> = ThreadPool::new(2);
    assert_eq!(pool.receive(1), None);
    assert_eq!(pool.worker_state(1), WorkerState::Idle);
    assert_eq!(pool.pending_len(), 0);
    pool.execute(5);
    assert_eq!(pool.receive(1), Some(Message::NewJob(5)));
}

#[test]
fn shutdown_queues_one_stop_for_each_worker() {
    let mut pool: ThreadPool<u32> = ThreadPool::new(3);
    pool.shutdown();
    assert!(pool.is_shutting_down());
    assert_eq!(pool.pending_len(), 3);
    assert_eq!(pool.receive(0), Some(Message::Terminate));
    assert_eq!(pool.worker_state(0), WorkerState::Terminated);
    assert!(!pool.all_terminated());
    assert_eq!(pool.receive(1), Some(Message::Terminate));
    assert_eq!(pool.receive(2), Some(Message::Terminate));
    assert_eq!(pool.pending_len(), 0);
    assert!(pool.all_terminated());
}

#[test]
fn pending_jobs_run_before_any_worker_stops() {
    let mut pool: ThreadPool<u32> = ThreadPool::new(2);
    pool.execute(10);
    pool.execute(11);
    pool.execute(12);
    pool.shutdown();
    assert_eq!(pool.pending_len(), 5);
    assert_eq!(pool.receive(0), Some(Message::NewJob(10)));
    assert_eq!(pool.receive(1), Some(Message::NewJob(11)));
    pool.finish(1);
    assert_eq!(pool.receive(1), Some(Message::NewJob(12)));
    pool.finish(0);
    assert_eq!(pool.receive(0), Some(Message::Terminate));
    assert_eq!(pool.worker_state(0), WorkerState::Terminated);
    assert!(!pool.all_terminated());
    pool.finish(1);
    assert_eq!(pool.receive(1), Some(Message::Terminate));
    assert!(pool.all_terminated());
    assert_eq!(pool.pending_len(), 0);
}

#[test]
fn a_fast_job_waits_behind_slow_jobs_on_a_full_pool() {
    let mut pool: ThreadPool<&'static str> = ThreadPool::new(2);
    pool.execute("slow");
    pool.execute("slow");
    pool.execute("fast");
    assert_eq!(pool.receive(0), Some(Message::NewJob("slow")));
    assert_eq!(pool.receive(1), Some(Message::NewJob("slow")));
    assert_eq!(pool.worker_state(0), WorkerState::Executing);
    assert_eq!(pool.worker_state(1), WorkerState::Executing);
    assert_eq!(pool.pending_len(), 1);
    pool.finish(1);
    assert_eq!(pool.receive(1), Some(Message::NewJob("fast")));
    assert_eq!(pool.pending_len(), 0);
}

#[test]
fn a_fast_job_runs_at_once_when_a_worker_is_free() {
    let mut pool: ThreadPool<&'static str> = ThreadPool::new(3);
    pool.execute("slow");
    pool.execute("slow");
    pool.execute("fast");
    assert_eq!(pool.receive(0), Some(Message::NewJob("slow")));
    assert_eq!(pool.receive(1), Some(Message::NewJob("slow")));
    assert_eq!(pool.receive(2), Some(Message::NewJob("fast")));
}

#[test]
fn jobs_need_not_be_copyable() {
    let mut pool: ThreadPool<Box<dyn FnOnce() -> u32 + Send>> = ThreadPool::new(1);
    pool.execute(Box::new(|| 41 + 1));
    match pool.receive(0) {
        Some(Message::NewJob(job)) => assert_eq!(job(), 42),
        _ => panic!("the job was not handed out"),
    }
    pool.finish(0);
    pool.shutdown();
    assert!(matches!(pool.receive(0), Some(Message::Terminate)));
    assert!(pool.all_terminated());
}

#[test]
fn a_worker_goes_from_idle_to_executing_and_back() {
    let mut worker = Worker::new(3);
    assert_eq!(worker.id, 3);
    assert_eq!(worker.state, WorkerState::Idle);
    worker.on_message(&Message::NewJob(1u8));
    assert_eq!(worker.state, WorkerState::Executing);
    worker.on_job_done();
    assert_eq!(worker.state, WorkerState::Idle);
    assert_eq!(worker.id, 3);
}

#[test]
fn a_worker_stops_on_terminate() {
    let mut worker = Worker::new(0);
    worker.on_message(&Message::<u8>::Terminate);
    assert_eq!(worker.state, WorkerState::Terminated);
    assert_eq!(worker.id, 0);
}
