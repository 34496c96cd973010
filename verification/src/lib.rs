//! A fixed-size worker pool: a bounded set of long-lived workers consume
//! units of work from a single shared FIFO queue and support a clean,
//! deadlock-free shutdown.
//!
//! The pool is modelled as an explicit state machine. A `Message` is one
//! signal on the shared queue; a `Worker` is one consumer with a stable
//! identity; a `ThreadPool` owns the workers, the queue of pending signals
//! and a log of completed jobs. The surrounding runtime performs the actual
//! thread spawning, blocking receives and job calls, and drives this state
//! machine; every decision the pool makes (what a signal means, who may take
//! one, how teardown proceeds) is verified here.

pub mod message;
pub mod pool;
pub mod worker;
