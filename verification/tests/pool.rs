use web_server::message::Message;
use web_server::pool::ThreadPool;
use web_server::worker::Worker;

#[test]
fn pool_starts_requested_number_of_workers() {
    let pool = ThreadPool::<u64>::new(4);
    assert_eq!(pool.worker_count(), 4);
    for i in 0..4 {
        assert_eq!(pool.worker_id(i), i);
        assert!(!pool.worker_is_busy(i));
        assert!(!pool.worker_is_terminated(i));
    }
    assert_eq!(pool.queue_len(), 0);
    assert_eq!(pool.completed().len(), 0);
}

#[test]
fn pool_of_one_worker_is_allowed() {
    let pool = ThreadPool::<u64>::new(1);
    assert_eq!(pool.worker_count(), 1);
    assert_eq!(pool.worker_id(0), 0);
}

#[test]
fn execute_queues_without_needing_an_idle_worker() {
    let mut pool = ThreadPool::<u64>::new(1);
    pool.execute(10);
    pool.execute(20);
    pool.execute(30);
    assert_eq!(pool.queue_len(), 3);
    assert_eq!(pool.completed().len(), 0);
}

#[test]
fn all_submitted_jobs_executed_exactly_once() {
    let mut pool = ThreadPool::<u64>::new(2);
    for j in 1..=5 {
        pool.execute(j);
    }
    pool.shutdown();
    assert_eq!(pool.completed(), &vec![1, 2, 3, 4, 5]);
    assert_eq!(pool.queue_len(), 0);
}

#[test]
fn each_signal_taken_by_exactly_one_worker() {
    let mut pool = ThreadPool::<u64>::new(2);
    pool.execute(10);
    pool.execute(20);
    pool.take_signal(0);
    assert!(pool.worker_is_busy(0));
    assert_eq!(pool.queue_len(), 1);
    pool.take_signal(1);
    assert!(pool.worker_is_busy(1));
    assert_eq!(pool.queue_len(), 0);
    pool.complete(0);
    pool.complete(1);
    assert_eq!(pool.completed(), &vec![10, 20]);
}

#[test]
fn slow_job_blocks_neither_submission_nor_other_workers() {
    let mut pool = ThreadPool::<u64>::new(2);
    pool.execute(99); // a slow job
    pool.take_signal(0); // worker 0 picks it up and stays busy
    assert!(pool.worker_is_busy(0));
    pool.execute(1); // submission while a worker is busy: returns at once
    assert_eq!(pool.queue_len(), 1);
    pool.take_signal(1); // the idle worker drains the queue meanwhile
    pool.complete(1);
    assert_eq!(pool.completed(), &vec![1]); // fast job done, slow still running
    assert!(pool.worker_is_busy(0));
    pool.complete(0);
    assert_eq!(pool.completed(), &vec![1, 99]);
}

#[test]
fn four_workers_run_immediate_jobs_while_one_is_occupied() {
    let mut pool = ThreadPool::<u64>::new(4);
    pool.execute(100); // sleeps for a long while
    pool.take_signal(0);
    pool.execute(1);
    pool.execute(2);
    pool.execute(3);
    for w in 1..4 {
        pool.take_signal(w);
        pool.complete(w);
    }
    // all three immediate jobs completed while the sleeper still runs
    assert_eq!(pool.completed(), &vec![1, 2, 3]);
    assert!(pool.worker_is_busy(0));
    pool.complete(0);
    assert_eq!(pool.completed(), &vec![1, 2, 3, 100]);
}

#[test]
fn single_worker_serializes_jobs() {
    let mut pool = ThreadPool::<u64>::new(1);
    pool.execute(1); // job A
    pool.execute(2); // job B
    pool.take_signal(0);
    assert!(pool.worker_is_busy(0)); // A is running
    assert_eq!(pool.queue_len(), 1); // B waits: the only worker is taken
    pool.complete(0); // A returns
    assert_eq!(pool.completed(), &vec![1]);
    pool.take_signal(0); // only now can B begin
    pool.complete(0);
    assert_eq!(pool.completed(), &vec![1, 2]);
}

#[test]
fn teardown_terminates_every_worker() {
    let mut pool = ThreadPool::<u64>::new(3);
    pool.execute(7);
    pool.execute(8);
    pool.shutdown();
    for w in 0..3 {
        assert!(pool.worker_is_terminated(w));
    }
    assert_eq!(pool.queue_len(), 0);
    assert_eq!(pool.completed(), &vec![7, 8]);
}

#[test]
fn teardown_with_empty_queue_terminates_every_worker() {
    let mut pool = ThreadPool::<u64>::new(2);
    pool.shutdown();
    assert!(pool.worker_is_terminated(0));
    assert!(pool.worker_is_terminated(1));
    assert_eq!(pool.completed().len(), 0);
}

#[test]
fn teardown_finishes_in_flight_jobs_first() {
    let mut pool = ThreadPool::<u64>::new(2);
    pool.execute(1);
    pool.execute(2);
    pool.take_signal(0); // job 1 is in flight when teardown begins
    pool.shutdown();
    assert_eq!(pool.completed(), &vec![1, 2]);
    assert!(pool.worker_is_terminated(0));
    assert!(pool.worker_is_terminated(1));
}

#[test]
fn worker_starts_idle_with_given_identity() {
    let w = Worker::<u64>::new(3);
    assert_eq!(w.id, 3);
    assert!(!w.is_busy());
    assert!(!w.is_terminated());
}

#[test]
fn worker_runs_a_job_signal_and_goes_back_to_waiting() {
    let mut w = Worker::<u64>::new(0);
    w.on_signal(Message::NewJob(9));
    assert!(w.is_busy());
    let job = w.complete();
    assert_eq!(job, 9);
    assert!(!w.is_busy());
    assert!(!w.is_terminated());
}

#[test]
fn worker_exits_on_terminate_signal() {
    let mut w = Worker::<u64>::new(0);
    w.on_signal(Message::Terminate);
    assert!(w.is_terminated());
    assert!(!w.is_busy());
}

#[test]
fn message_carries_job_or_terminates() {
    let m: Message<u64> = Message::NewJob(42);
    match m {
        Message::NewJob(j) => assert_eq!(j, 42),
        Message::Terminate => panic!("a job signal is not a terminate signal"),
    }
    let t: Message<u64> = Message::Terminate;
    assert!(matches!(t, Message::Terminate));
}
