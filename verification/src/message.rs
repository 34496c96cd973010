use vstd::prelude::*;

verus! {

/// A signal on the shared job queue. The queue carries either one unit of
/// work for exactly one worker to run, or an instruction to shut down. The
/// job payload `J` is opaque to the pool: the pool neither knows nor cares
/// what a job does.
pub enum Message<J> {
    /// Carries exactly one job; consumed by a worker by running the job.
    NewJob(J),
    /// Carries no payload; consumed by a worker by exiting its loop.
    Terminate,
}

/// The job payloads of a queue of signals, in queue order. Terminate
/// signals carry no work, so they contribute nothing.
pub open spec fn jobs_of<J>(q: Seq<Message<J>>) -> Seq<J>
    decreases q.len(),
{
    if q.len() == 0 {
        Seq::empty()
    } else {
        match q[0] {
            Message::NewJob(j) => seq![j] + jobs_of(q.drop_first()),
            Message::Terminate => jobs_of(q.drop_first()),
        }
    }
}

/// Appending a signal `m` to the queue appends `m`'s payload (if any) to the
/// queue's work, and changes nothing else about it.
pub proof fn lemma_jobs_of_push<J>(q: Seq<Message<J>>, m: Message<J>)
    ensures
        m matches Message::NewJob(j) ==> jobs_of(q.push(m)) == jobs_of(q).push(j),
        m is Terminate ==> jobs_of(q.push(m)) == jobs_of(q),
    decreases q.len(),
{
    let p = q.push(m);
    if q.len() == 0 {
        assert(p[0] == m);
        assert(p.drop_first() =~= Seq::<Message<J>>::empty());
        match m {
            Message::NewJob(j) => {
                assert(jobs_of(p) == seq![j] + jobs_of(p.drop_first()));
                assert(jobs_of(p) =~= jobs_of(q).push(j));
            },
            Message::Terminate => {
                assert(jobs_of(p) == jobs_of(p.drop_first()));
            },
        }
    } else {
        assert(p[0] == q[0]);
        assert(p.drop_first() =~= q.drop_first().push(m));
        lemma_jobs_of_push(q.drop_first(), m);
        match m {
            Message::NewJob(j) => {
                match q[0] {
                    Message::NewJob(h) => {
                        assert(jobs_of(p) == seq![h] + jobs_of(q.drop_first()).push(j));
                        assert(jobs_of(p) =~= jobs_of(q).push(j));
                    },
                    Message::Terminate => {
                        assert(jobs_of(p) == jobs_of(q.drop_first()).push(j));
                        assert(jobs_of(q) == jobs_of(q.drop_first()));
                    },
                }
            },
            Message::Terminate => {
                match q[0] {
                    Message::NewJob(h) => {
                        assert(jobs_of(p) == seq![h] + jobs_of(q.drop_first()));
                    },
                    Message::Terminate => {
                        assert(jobs_of(p) == jobs_of(q.drop_first()));
                    },
                }
            },
        }
    }
}

} // verus!
