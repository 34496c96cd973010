use vstd::prelude::*;
use crate::message::Message;
use crate::message::jobs_of;
use crate::worker::Worker;
use crate::worker::WorkerState;

verus! {

/// The jobs the given workers are busy with, in worker order. Idle and
/// terminated workers hold no job.
pub open spec fn in_flight<J>(ws: Seq<Worker<J>>) -> Seq<J>
    decreases ws.len(),
{
    if ws.len() == 0 {
        Seq::empty()
    } else {
        match ws[0].state {
            WorkerState::Busy(j) => seq![j] + in_flight(ws.drop_first()),
            _ => in_flight(ws.drop_first()),
        }
    }
}

/// A run of `c` terminate signals, as enqueued once per worker at teardown.
pub open spec fn terminate_signals<J>(c: nat) -> Seq<Message<J>> {
    Seq::new(c, |i: int| Message::Terminate)
}

/// Appending a worker appends exactly its in-flight job (if it is busy with
/// one) to the in-flight work of a worker sequence.
pub proof fn lemma_in_flight_push<J>(ws: Seq<Worker<J>>, w: Worker<J>)
    ensures
        w.state matches WorkerState::Busy(j) ==> in_flight(ws.push(w)) == in_flight(ws).push(j),
        !(w.state is Busy) ==> in_flight(ws.push(w)) == in_flight(ws),
    decreases ws.len(),
{
    let p = ws.push(w);
    if ws.len() == 0 {
        assert(p[0] == w);
        assert(p.drop_first() =~= Seq::<Worker<J>>::empty());
        match w.state {
            WorkerState::Busy(j) => {
                assert(in_flight(p) == seq![j] + in_flight(p.drop_first()));
                assert(in_flight(p) =~= in_flight(ws).push(j));
            },
            _ => {
                assert(in_flight(p) == in_flight(p.drop_first()));
            },
        }
    } else {
        assert(p[0] == ws[0]);
        assert(p.drop_first() =~= ws.drop_first().push(w));
        lemma_in_flight_push(ws.drop_first(), w);
        match w.state {
            WorkerState::Busy(j) => {
                match ws[0].state {
                    WorkerState::Busy(h) => {
                        assert(in_flight(p) == seq![h] + in_flight(ws.drop_first()).push(j));
                        assert(in_flight(p) =~= in_flight(ws).push(j));
                    },
                    _ => {
                        assert(in_flight(p) == in_flight(ws.drop_first()).push(j));
                        assert(in_flight(ws) == in_flight(ws.drop_first()));
                    },
                }
            },
            _ => {
                match ws[0].state {
                    WorkerState::Busy(h) => {
                        assert(in_flight(p) == seq![h] + in_flight(ws.drop_first()));
                    },
                    _ => {
                        assert(in_flight(p) == in_flight(ws.drop_first()));
                    },
                }
            },
        }
    }
}

/// The pool state machine: a fixed, ordered set of workers, the FIFO queue
/// of pending signals they share, and a log of the jobs completed so far.
///
/// The ghost enqueue history gives every signal an identity (its position in
/// the order of submission): `queue` is always the not-yet-taken suffix of
/// `history`, and `taken` counts the signals already delivered, so each
/// delivery hands out exactly one history position to exactly one worker.
pub struct ThreadPool<J> {
    workers: Vec<Worker<J>>,
    queue: Vec<Message<J>>,
    log: Vec<J>,
    history: Ghost<Seq<Message<J>>>,
    taken: Ghost<nat>,
}

impl<J> ThreadPool<J> {
    /// The workers, in construction order.
    pub closed spec fn workers_view(&self) -> Seq<Worker<J>> {
        self.workers@
    }

    /// The pending signals, front (next to be taken) first.
    pub closed spec fn queue_view(&self) -> Seq<Message<J>> {
        self.queue@
    }

    /// The jobs completed so far, in completion order.
    pub closed spec fn log_view(&self) -> Seq<J> {
        self.log@
    }

    /// Every signal ever enqueued, in submission order.
    pub closed spec fn history_view(&self) -> Seq<Message<J>> {
        self.history@
    }

    /// How many signals have been taken off the queue so far.
    pub closed spec fn taken_view(&self) -> nat {
        self.taken@
    }

    /// The fixed number of workers.
    pub open spec fn num_workers(&self) -> nat {
        self.workers_view().len()
    }

    /// Structural invariant: the pool has at least one worker, worker `k`
    /// has identity `k`, and the pending queue is exactly the suffix of the
    /// enqueue history that has not been taken yet.
    pub open spec fn inv(&self) -> bool {
        &&& self.num_workers() >= 1
        &&& forall|k: int|
            0 <= k < self.num_workers() ==> (#[trigger] self.workers_view()[k]).id == k
        &&& self.taken_view() <= self.history_view().len()
        &&& self.queue_view() == self.history_view().skip(self.taken_view() as int)
    }

    /// A live pool: no worker has terminated and no terminate signal is
    /// queued. This holds from construction until teardown begins.
    pub open spec fn live(&self) -> bool {
        &&& forall|k: int|
            0 <= k < self.num_workers() ==> !((#[trigger] self.workers_view()[k]).state
                is Terminated)
        &&& forall|i: int| 0 <= i < self.queue_view().len() ==> self.queue_view()[i] is NewJob
    }

    /// Well-formed: structurally sound and live.
    pub open spec fn wf(&self) -> bool {
        self.inv() && self.live()
    }

    /// Creates a pool of exactly `size` workers, each idle and waiting on
    /// the (empty) shared queue. A size of zero is a configuration error and
    /// is excluded outright: the caller must not proceed with no workers.
    pub fn new(size: usize) -> (p: ThreadPool<J>)
        requires
            size >= 1,
        ensures
            p.wf(),
            p.num_workers() == size,
            forall|k: int| 0 <= k < size ==> (#[trigger] p.workers_view()[k]).state is Idle,
            p.queue_view() == Seq::<Message<J>>::empty(),
            p.log_view() == Seq::<J>::empty(),
            p.history_view() == Seq::<Message<J>>::empty(),
            p.taken_view() == 0,
    {
        let mut workers: Vec<Worker<J>> = Vec::with_capacity(size);
        let mut id: usize = 0;
        while id < size
            invariant
                id <= size,
                workers@.len() == id,
                forall|k: int| 0 <= k < id ==> (#[trigger] workers@[k]).id == k,
                forall|k: int| 0 <= k < id ==> (#[trigger] workers@[k]).state is Idle,
            decreases size - id,
        {
            workers.push(Worker::new(id));
            id = id + 1;
        }
        let p = ThreadPool {
            workers,
            queue: Vec::new(),
            log: Vec::new(),
            history: Ghost(Seq::empty()),
            taken: Ghost(0),
        };
        proof {
            assert(p.queue_view() =~= p.history_view().skip(0));
        }
        p
    }

    /// Submits one job. The job is wrapped as a `NewJob` signal and appended
    /// to the back of the shared queue; nothing else changes. Submission
    /// never waits: it needs no idle worker, and a busy worker never blocks
    /// it.
    pub fn execute(&mut self, job: J)
        requires
            old(self).inv(),
        ensures
            final(self).inv(),
            old(self).wf() ==> final(self).wf(),
            final(self).queue_view() == old(self).queue_view().push(Message::NewJob(job)),
            final(self).history_view() == old(self).history_view().push(Message::NewJob(job)),
            final(self).workers_view() == old(self).workers_view(),
            final(self).log_view() == old(self).log_view(),
            final(self).taken_view() == old(self).taken_view(),
    {
        self.queue.push(Message::NewJob(job));
        proof {
            self.history@ = self.history@.push(Message::NewJob(job));
            assert(self.queue_view() =~= self.history_view().skip(self.taken_view() as int));
        }
    }

    /// Worker `i` takes the signal at the front of the queue. Taking is
    /// guarded: it removes the signal from the queue in the same step, so
    /// the signal is delivered to worker `i` and to no other worker, and the
    /// delivery counter advances past that signal's position in the enqueue
    /// history. The guard covers only the take itself — whether any other
    /// worker can take the next signal does not depend on what worker `i`
    /// does with this one.
    pub fn take_signal(&mut self, i: usize)
        requires
            old(self).inv(),
            i < old(self).num_workers(),
            old(self).workers_view()[i as int].state is Idle,
            old(self).queue_view().len() > 0,
        ensures
            final(self).inv(),
            final(self).num_workers() == old(self).num_workers(),
            final(self).queue_view() == old(self).queue_view().drop_first(),
            final(self).history_view() == old(self).history_view(),
            final(self).taken_view() == old(self).taken_view() + 1,
            old(self).queue_view()[0] == old(self).history_view()[old(self).taken_view() as int],
            final(self).log_view() == old(self).log_view(),
            forall|k: int|
                0 <= k < old(self).num_workers() && k != i ==> final(self).workers_view()[k]
                    == old(self).workers_view()[k],
            final(self).workers_view()[i as int].id == old(self).workers_view()[i as int].id,
            old(self).queue_view()[0] matches Message::NewJob(j) ==>
                final(self).workers_view()[i as int].state == WorkerState::Busy(j),
            old(self).queue_view()[0] is Terminate ==> final(self).workers_view()[i as int].state
                is Terminated,
            old(self).wf() ==> final(self).wf(),
    {
        let m = self.queue.remove(0);
        self.workers[i].on_signal(m);
        proof {
            self.taken@ = self.taken@ + 1;
            assert(old(self).queue_view()[0]
                == old(self).history_view()[old(self).taken_view() as int]);
            assert(self.queue_view() =~= self.history_view().skip(self.taken_view() as int));
            assert(self.queue_view() =~= old(self).queue_view().drop_first());
        }
    }

    /// Worker `i` finishes the job it is busy with: the job has run to
    /// completion, exactly once, and is appended to the completion log; the
    /// worker goes back to waiting. The queue, the history and every other
    /// worker are untouched: a job is executed synchronously on its worker
    /// alone.
    pub fn complete(&mut self, i: usize)
        requires
            old(self).inv(),
            i < old(self).num_workers(),
            old(self).workers_view()[i as int].state is Busy,
        ensures
            final(self).inv(),
            old(self).wf() ==> final(self).wf(),
            final(self).num_workers() == old(self).num_workers(),
            final(self).queue_view() == old(self).queue_view(),
            final(self).history_view() == old(self).history_view(),
            final(self).taken_view() == old(self).taken_view(),
            old(self).workers_view()[i as int].state matches WorkerState::Busy(j) ==>
                final(self).log_view() == old(self).log_view().push(j),
            forall|k: int|
                0 <= k < old(self).num_workers() && k != i ==> final(self).workers_view()[k]
                    == old(self).workers_view()[k],
            final(self).workers_view()[i as int].id == old(self).workers_view()[i as int].id,
            final(self).workers_view()[i as int].state is Idle,
    {
        let j = self.workers[i].complete();
        self.log.push(j);
    }

    /// Tears the pool down, deadlock-free. In-flight jobs run to completion;
    /// every job still queued is executed exactly once; then one terminate
    /// signal per worker is enqueued — all of them before any worker is
    /// waited on, since which worker sees which terminate is not under the
    /// pool's control — and every worker terminates. Afterwards the queue is
    /// empty, every signal ever enqueued has been delivered, and the log has
    /// grown by exactly the in-flight and queued jobs.
    pub fn shutdown(&mut self)
        requires
            old(self).wf(),
        ensures
            final(self).inv(),
            final(self).num_workers() == old(self).num_workers(),
            forall|k: int|
                0 <= k < final(self).num_workers()
                    ==> (#[trigger] final(self).workers_view()[k]).state is Terminated,
            final(self).queue_view().len() == 0,
            final(self).log_view() == old(self).log_view() + in_flight(old(self).workers_view())
                + jobs_of(old(self).queue_view()),
            final(self).history_view() == old(self).history_view() + terminate_signals::<J>(
                old(self).num_workers(),
            ),
            final(self).taken_view() == final(self).history_view().len(),
    {
        let ghost workers0 = self.workers_view();
        let ghost queue0 = self.queue_view();
        let ghost log0 = self.log_view();
        let ghost hist0 = self.history_view();
        let ghost taken0 = self.taken_view();
        let n = self.workers.len();
        let pending = self.queue.len();

        // Let every in-flight job finish: a worker never terminates mid-job.
        let mut i: usize = 0;
        while i < n
            invariant
                self.wf(),
                n == self.num_workers(),
                n == workers0.len(),
                i <= n,
                self.queue_view() == queue0,
                self.history_view() == hist0,
                self.taken_view() == taken0,
                forall|k: int| 0 <= k < i ==> (#[trigger] self.workers_view()[k]).state is Idle,
                forall|k: int| i <= k < n ==> self.workers_view()[k] == workers0[k],
                self.log_view() == log0 + in_flight(workers0.take(i as int)),
            decreases n - i,
        {
            proof {
                assert(workers0.take(i + 1) =~= workers0.take(i as int).push(workers0[i as int]));
                lemma_in_flight_push(workers0.take(i as int), workers0[i as int]);
            }
            if self.workers[i].is_busy() {
                self.complete(i);
                proof {
                    assert(self.log_view() =~= log0 + in_flight(workers0.take(i + 1)));
                }
            } else {
                assert(!(workers0[i as int].state is Busy));
            }
            i = i + 1;
        }
        proof {
            assert(workers0.take(n as int) =~= workers0);
        }
        let ghost log1 = self.log_view();

        // Signal-all: enqueue one terminate per worker before waiting on any.
        let mut c: usize = 0;
        while c < n
            invariant
                self.inv(),
                n == self.num_workers(),
                c <= n,
                self.queue_view() == queue0 + terminate_signals::<J>(c as nat),
                self.history_view() == hist0 + terminate_signals::<J>(c as nat),
                self.taken_view() == taken0,
                self.log_view() == log1,
                forall|k: int| 0 <= k < n ==> (#[trigger] self.workers_view()[k]).state is Idle,
                forall|qi: int| 0 <= qi < queue0.len() ==> queue0[qi] is NewJob,
            decreases n - c,
        {
            self.queue.push(Message::Terminate);
            proof {
                self.history@ = self.history@.push(Message::Terminate);
                assert(self.queue_view() =~= queue0 + terminate_signals::<J>((c + 1) as nat));
                assert(self.history_view() =~= hist0 + terminate_signals::<J>((c + 1) as nat));
                assert(self.queue_view() =~= self.history_view().skip(self.taken_view() as int));
            }
            c = c + 1;
        }
        let ghost hist1 = self.history_view();

        // Drain the pending jobs; each runs exactly once, in queue order.
        let mut k: usize = 0;
        while k < pending
            invariant
                self.inv(),
                n == self.num_workers(),
                k <= pending,
                pending == queue0.len(),
                self.queue_view() == queue0.skip(k as int) + terminate_signals::<J>(n as nat),
                self.history_view() == hist1,
                self.log_view() == log1 + jobs_of(queue0.take(k as int)),
                forall|kk: int| 0 <= kk < n ==> (#[trigger] self.workers_view()[kk]).state is Idle,
                forall|qi: int| 0 <= qi < queue0.len() ==> queue0[qi] is NewJob,
            decreases pending - k,
        {
            proof {
                assert(self.queue_view()[0] == queue0[k as int]);
                assert(queue0[k as int] is NewJob);
            }
            self.take_signal(0);
            self.complete(0);
            proof {
                assert(queue0.take(k + 1) =~= queue0.take(k as int).push(queue0[k as int]));
                crate::message::lemma_jobs_of_push(queue0.take(k as int), queue0[k as int]);
                assert(self.queue_view() =~= queue0.skip(k + 1) + terminate_signals::<J>(n as nat));
                assert(self.log_view() =~= log1 + jobs_of(queue0.take(k + 1)));
            }
            k = k + 1;
        }
        proof {
            assert(queue0.take(pending as int) =~= queue0);
            assert(queue0.skip(pending as int) + terminate_signals::<J>(n as nat)
                =~= terminate_signals::<J>(n as nat));
        }
        let ghost log_final = self.log_view();

        // Wait on every worker in turn; each take hands one terminate to
        // exactly one worker, and each worker sees exactly one of them.
        let mut t: usize = 0;
        while t < n
            invariant
                self.inv(),
                n == self.num_workers(),
                t <= n,
                self.queue_view() == terminate_signals::<J>((n - t) as nat),
                self.history_view() == hist1,
                self.log_view() == log_final,
                forall|kk: int|
                    0 <= kk < t ==> (#[trigger] self.workers_view()[kk]).state is Terminated,
                forall|kk: int| t <= kk < n ==> (#[trigger] self.workers_view()[kk]).state is Idle,
            decreases n - t,
        {
            proof {
                assert(self.queue_view()[0] is Terminate);
            }
            self.take_signal(t);
            proof {
                assert(self.queue_view() =~= terminate_signals::<J>((n - t - 1) as nat));
            }
            t = t + 1;
        }
        proof {
            assert(self.log_view() =~= old(self).log_view() + in_flight(old(self).workers_view())
                + jobs_of(old(self).queue_view()));
            assert(self.history_view().skip(self.taken_view() as int).len() == 0);
        }
    }

    /// The fixed number of workers, as a runtime value.
    pub fn worker_count(&self) -> (n: usize)
        ensures
            n == self.num_workers(),
    {
        self.workers.len()
    }

    /// How many signals are pending on the queue.
    pub fn queue_len(&self) -> (n: usize)
        ensures
            n == self.queue_view().len(),
    {
        self.queue.len()
    }

    /// The jobs completed so far, in completion order.
    pub fn completed(&self) -> (log: &Vec<J>)
        ensures
            log@ == self.log_view(),
    {
        &self.log
    }

    /// The stable identity of worker `i`.
    pub fn worker_id(&self, i: usize) -> (id: usize)
        requires
            i < self.num_workers(),
        ensures
            id == self.workers_view()[i as int].id,
    {
        self.workers[i].id
    }

    /// True when worker `i` is executing a job.
    pub fn worker_is_busy(&self, i: usize) -> (b: bool)
        requires
            i < self.num_workers(),
        ensures
            b == (self.workers_view()[i as int].state is Busy),
    {
        self.workers[i].is_busy()
    }

    /// True when worker `i` has terminated.
    pub fn worker_is_terminated(&self, i: usize) -> (b: bool)
        requires
            i < self.num_workers(),
        ensures
            b == (self.workers_view()[i as int].state is Terminated),
    {
        self.workers[i].is_terminated()
    }
}

/// Whether worker `w` may take the next signal: the pool is structurally
/// sound, `w` is one of its workers and is idle (waiting on the queue), and
/// a signal is pending. This is exactly `take_signal`'s precondition — note
/// that it says nothing about any other worker's state.
pub open spec fn can_take<J>(p: ThreadPool<J>, w: int) -> bool {
    &&& p.inv()
    &&& 0 <= w < p.num_workers()
    &&& p.workers_view()[w].state is Idle
    &&& p.queue_view().len() > 0
}

/// One delivery step by worker `w`, as `take_signal` ensures it: the front
/// signal — the one at history position `pre.taken_view()` — leaves the
/// queue, is handed to worker `w` and to no other, and the delivery counter
/// advances past it.
pub open spec fn delivers<J>(pre: ThreadPool<J>, post: ThreadPool<J>, w: int) -> bool {
    &&& can_take(pre, w)
    &&& post.history_view() == pre.history_view()
    &&& post.taken_view() == pre.taken_view() + 1
    &&& post.queue_view() == pre.queue_view().drop_first()
    &&& forall|k: int|
        0 <= k < pre.num_workers() && k != w ==> post.workers_view()[k] == pre.workers_view()[k]
}

/// A batch of jobs wrapped as job signals carries exactly those jobs, in
/// order. Together with the pool's contracts this says every submitted job
/// is executed exactly once: `execute` appends one `NewJob` signal per job,
/// and `shutdown` appends exactly `jobs_of` the queue to the completion log
/// — so a pool that starts empty, receives a batch of jobs and is torn down
/// completes each of them exactly once, none skipped, none repeated.
pub proof fn lemma_batch_executed_exactly_once<J>(jobs: Seq<J>)
    ensures
        jobs_of(jobs.map_values(|j: J| Message::NewJob(j))) == jobs,
    decreases jobs.len(),
{
    let q = jobs.map_values(|j: J| Message::NewJob(j));
    if jobs.len() == 0 {
        assert(jobs_of(q) =~= jobs);
    } else {
        assert(q[0] == Message::NewJob(jobs[0]));
        assert(q.drop_first() =~= jobs.drop_first().map_values(|j: J| Message::NewJob(j)));
        lemma_batch_executed_exactly_once(jobs.drop_first());
        assert(jobs_of(q) == seq![jobs[0]] + jobs_of(q.drop_first()));
        assert(jobs_of(q) =~= jobs);
    }
}

/// Every worker can service jobs independently: when a signal is pending
/// and the workers are waiting on the queue, any one of them — not some
/// designated one — may take it.
pub proof fn lemma_every_worker_can_serve<J>(p: ThreadPool<J>)
    requires
        p.inv(),
        p.queue_view().len() > 0,
        forall|k: int| 0 <= k < p.num_workers() ==> (#[trigger] p.workers_view()[k]).state is Idle,
    ensures
        forall|w: int| 0 <= w < p.num_workers() ==> can_take(p, w),
{
}

/// No signal is observed by two different workers. A signal's identity is
/// its position in the enqueue history; a delivery hands the signal at
/// position `taken` to exactly one worker and advances the counter, and no
/// pool operation ever rewinds it. So of two deliveries, the later one
/// observes a strictly later position: no position — no signal — is ever
/// observed twice, whether by two workers or by one worker twice.
pub proof fn lemma_no_signal_delivered_twice<J>(
    pre1: ThreadPool<J>,
    post1: ThreadPool<J>,
    w1: int,
    pre2: ThreadPool<J>,
    post2: ThreadPool<J>,
    w2: int,
)
    requires
        delivers(pre1, post1, w1),
        delivers(pre2, post2, w2),
        // the second delivery happens at or after the first one's end
        post1.taken_view() <= pre2.taken_view(),
    ensures
        pre2.taken_view() > pre1.taken_view(),
{
}

/// A slow job occupying one worker blocks nothing: submission needs no
/// idle worker, and an idle worker may take the next pending signal no
/// matter what every other worker is doing — the dequeue guard is held for
/// the take alone, never across a job's execution.
pub proof fn lemma_busy_worker_blocks_nothing<J>(p: ThreadPool<J>, busy: int, idle: int)
    requires
        p.inv(),
        0 <= busy < p.num_workers(),
        0 <= idle < p.num_workers(),
        p.workers_view()[busy].state is Busy,
        p.workers_view()[idle].state is Idle,
        p.queue_view().len() > 0,
    ensures
        can_take(p, idle),
{
}

/// With a single worker, jobs serialize: while the pool's only worker is
/// busy with one job, no signal can be taken at all, so a second job cannot
/// begin executing until the first has returned.
pub proof fn lemma_single_worker_serializes<J>(p: ThreadPool<J>)
    requires
        p.inv(),
        p.num_workers() == 1,
        p.workers_view()[0].state is Busy,
    ensures
        forall|w: int| !can_take(p, w),
{
    assert forall|w: int| !can_take(p, w) by {
        if can_take(p, w) {
            assert(w == 0);
        }
    }
}

} // verus!
