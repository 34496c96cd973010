use vstd::prelude::*;
use crate::message::Message;

verus! {

/// What a worker is doing. `Idle` and `Busy` together are the running state
/// of the worker's loop; `Terminated` is terminal: the worker has left its
/// loop and will take no further signal.
pub enum WorkerState<J> {
    /// Waiting for the next signal.
    Idle,
    /// Executing the carried job; the worker holds the job exclusively.
    Busy(J),
    /// Told to terminate; the worker's loop has exited.
    Terminated,
}

/// One consumer of the shared queue. Its identity `id` is stable for its
/// lifetime and used only for diagnostics; `state` is the worker's position
/// in its receive-execute loop.
pub struct Worker<J> {
    /// Stable identity, fixed at construction.
    pub id: usize,
    /// Position in the receive-execute loop.
    pub state: WorkerState<J>,
}

impl<J> Worker<J> {
    /// Creates one worker. It begins running (idle, waiting for a signal).
    pub fn new(id: usize) -> (w: Worker<J>)
        ensures
            w.id == id,
            w.state is Idle,
    {
        Worker { id, state: WorkerState::Idle }
    }

    /// The worker-loop decision: inspect one signal taken from the queue.
    /// A job signal puts the worker to work on exactly that job; a terminate
    /// signal ends the loop. The worker's identity never changes.
    pub fn on_signal(&mut self, m: Message<J>)
        requires
            old(self).state is Idle,
        ensures
            final(self).id == old(self).id,
            m matches Message::NewJob(j) ==> final(self).state == WorkerState::Busy(j),
            m is Terminate ==> final(self).state is Terminated,
    {
        match m {
            Message::NewJob(j) => {
                self.state = WorkerState::Busy(j);
            },
            Message::Terminate => {
                self.state = WorkerState::Terminated;
            },
        }
    }

    /// Finishes the job the worker is busy with and hands it back to the
    /// caller (who runs it to completion). The worker returns to waiting
    /// for the next signal; it does not terminate by finishing work.
    pub fn complete(&mut self) -> (j: J)
        requires
            old(self).state is Busy,
        ensures
            final(self).id == old(self).id,
            final(self).state is Idle,
            old(self).state == WorkerState::Busy(j),
    {
        let mut s = WorkerState::Idle;
        core::mem::swap(&mut self.state, &mut s);
        match s {
            WorkerState::Busy(j) => j,
            _ => unreached(),
        }
    }

    /// True when the worker has been told to terminate and has exited.
    pub fn is_terminated(&self) -> (b: bool)
        ensures
            b == (self.state is Terminated),
    {
        match self.state {
            WorkerState::Terminated => true,
            _ => false,
        }
    }

    /// True when the worker is executing a job.
    pub fn is_busy(&self) -> (b: bool)
        ensures
            b == (self.state is Busy),
    {
        match self.state {
            WorkerState::Busy(_) => true,
            _ => false,
        }
    }
}

} // verus!
