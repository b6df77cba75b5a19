//! The shared state of a worker pool: a FIFO queue of messages and the
//! state of each worker. Threads lock this state, ask it what to do next,
//! and report back; every decision is made here.
use std::collections::VecDeque;
use vstd::prelude::*;

verus! {

/// What travels through the queue: one job, or a request for one worker to stop.
pub enum Message<J> {
    Job { ticket: u64, job: J },
    Terminate,
}

/// What a worker is doing.
#[derive(Clone, Copy, Debug, PartialEq, Eq, Structural)]
pub enum Slot {
    /// Waiting for the next message.
    Idle,
    /// Running the job with this ticket.
    Busy(u64),
    /// Has taken a terminate message and left its loop.
    Stopped,
}

/// What a worker must do after asking the queue for work.
pub enum Dispatch<J> {
    /// Run this job to completion, then report with `finish`.
    Run { ticket: u64, job: J },
    /// Leave the run loop.
    Exit,
    /// Nothing queued: block until a message arrives, then ask again.
    Wait,
}

#[derive(Clone, Copy, Debug, PartialEq, Eq, Structural)]
pub enum PoolError {
    /// A pool needs at least one worker.
    ZeroSize,
    /// The pool has begun its shutdown and takes no more jobs.
    ShuttingDown,
}

/// Number of entries of `s` that satisfy `p`.
pub open spec fn count_where(s: Seq<Slot>, p: spec_fn(Slot) -> bool) -> nat
    decreases s.len(),
{
    if s.len() == 0 {
        0
    } else {
        count_where(s.drop_last(), p) + if p(s.last()) {
            1nat
        } else {
            0nat
        }
    }
}

pub open spec fn is_busy(s: Slot) -> bool {
    s is Busy
}

pub open spec fn is_live(s: Slot) -> bool {
    !(s is Stopped)
}

/// Workers that are running a job.
pub open spec fn count_busy(s: Seq<Slot>) -> nat {
    count_where(s, |x: Slot| is_busy(x))
}

/// Workers that have not yet left their loop.
pub open spec fn count_live(s: Seq<Slot>) -> nat {
    count_where(s, |x: Slot| is_live(x))
}

proof fn lemma_count_update(s: Seq<Slot>, p: spec_fn(Slot) -> bool, i: int, v: Slot)
    requires
        0 <= i < s.len(),
    ensures
        count_where(s.update(i, v), p) + (if p(s[i]) { 1int } else { 0int }) == count_where(s, p)
            + (if p(v) { 1int } else { 0int }),
    decreases s.len(),
{
    let t = s.update(i, v);
    if i == s.len() - 1 {
        assert(t.drop_last() =~= s.drop_last());
    } else {
        lemma_count_update(s.drop_last(), p, i, v);
        assert(t.drop_last() =~= s.drop_last().update(i, v));
    }
}

proof fn lemma_count_bounds(s: Seq<Slot>, p: spec_fn(Slot) -> bool, i: int)
    requires
        0 <= i < s.len(),
    ensures
        count_where(s, p) <= s.len(),
        p(s[i]) ==> count_where(s, p) >= 1,
        !p(s[i]) ==> count_where(s, p) < s.len(),
    decreases s.len(),
{
    if i < s.len() - 1 {
        lemma_count_bounds(s.drop_last(), p, i);
    } else if s.len() > 1 {
        lemma_count_bounds(s.drop_last(), p, 0);
    } else {
        assert(count_where(s.drop_last(), p) == 0);
    }
}

proof fn lemma_count_none(s: Seq<Slot>, p: spec_fn(Slot) -> bool)
    requires
        forall|i: int| 0 <= i < s.len() ==> !p(#[trigger] s[i]),
    ensures
        count_where(s, p) == 0,
    decreases s.len(),
{
    if s.len() > 0 {
        lemma_count_none(s.drop_last(), p);
    }
}

proof fn lemma_count_all(s: Seq<Slot>, p: spec_fn(Slot) -> bool)
    requires
        forall|i: int| 0 <= i < s.len() ==> p(#[trigger] s[i]),
    ensures
        count_where(s, p) == s.len(),
    decreases s.len(),
{
    if s.len() > 0 {
        lemma_count_all(s.drop_last(), p);
    }
}

/// The state that a pool's threads share: the message queue, one slot per
/// worker, and counters of the jobs submitted, handed out and completed.
pub struct PoolState<J> {
    queue: VecDeque<Message<J>>,
    slots: Vec<Slot>,
    submitted: u64,
    taken: u64,
    finished: u64,
    closing: bool,
}

impl<J> PoolState<J> {
    /// The messages waiting in the queue, oldest first.
    pub closed spec fn pending(&self) -> Seq<Message<J>> {
        self.queue@
    }

    /// The state of each worker, by worker id.
    pub closed spec fn workers(&self) -> Seq<Slot> {
        self.slots@
    }

    /// Jobs accepted so far; the next job gets this number as its ticket.
    pub closed spec fn n_submitted(&self) -> nat {
        self.submitted as nat
    }

    /// Jobs handed to a worker so far.
    pub closed spec fn n_taken(&self) -> nat {
        self.taken as nat
    }

    /// Jobs that a worker has run to completion.
    pub closed spec fn n_finished(&self) -> nat {
        self.finished as nat
    }

    /// Whether shutdown has begun.
    pub closed spec fn is_closing(&self) -> bool {
        self.closing
    }

    /// Jobs accepted but not yet handed out: they head the queue.
    pub open spec fn n_queued_jobs(&self) -> nat {
        (self.n_submitted() - self.n_taken()) as nat
    }

    /// The invariant of the shared state.
    ///
    /// The queue holds the waiting jobs in ticket order, then only terminate
    /// messages. Before shutdown there are none of those and every worker
    /// is live; once it has begun there is one per live worker, and once a
    /// worker has stopped no job is left. Tickets below `n_taken` were each
    /// handed out once: the busy workers hold distinct ones and the rest are
    /// finished.
    pub open spec fn well_formed(&self) -> bool {
        let q = self.pending();
        let w = self.workers();
        let k = self.n_queued_jobs();
        &&& w.len() > 0
        &&& self.n_taken() <= self.n_submitted() <= u64::MAX
        &&& k <= q.len()
        &&& forall|i: int|
            0 <= i < k ==> (#[trigger] q[i] is Job && q[i]->ticket == self.n_taken() + i)
        &&& forall|i: int| k <= i < q.len() ==> #[trigger] q[i] is Terminate
        &&& !self.is_closing() ==> {
            &&& q.len() == k
            &&& forall|j: int| 0 <= j < w.len() ==> is_live(#[trigger] w[j])
        }
        &&& self.is_closing() ==> q.len() - k == count_live(w)
        &&& self.is_closing() && count_live(w) < w.len() ==> k == 0
        &&& forall|j: int| 0 <= j < w.len() && #[trigger] w[j] is Busy ==> w[j]->0 < self.n_taken()
        &&& forall|a: int, b: int|
            0 <= a < w.len() && 0 <= b < w.len() && a != b && #[trigger] w[a] is Busy
                && #[trigger] w[b] is Busy ==> w[a]->0 != w[b]->0
        &&& self.n_finished() + count_busy(w) == self.n_taken()
    }

    /// Creates the state of a pool of `size` idle workers with an empty queue.
    pub fn new(size: usize) -> (r: Result<PoolState<J>, PoolError>)
        ensures
            size == 0 <==> r is Err,
            r is Err ==> r->Err_0 == PoolError::ZeroSize,
            r is Ok ==> {
                let p = r->Ok_0;
                &&& p.well_formed()
                &&& p.workers() == Seq::new(size as nat, |i: int| Slot::Idle)
                &&& p.pending().len() == 0
                &&& p.n_submitted() == 0
                &&& p.n_taken() == 0
                &&& p.n_finished() == 0
                &&& !p.is_closing()
            },
    {
        if size == 0 {
            return Err(PoolError::ZeroSize);
        }
        let mut slots: Vec<Slot> = Vec::with_capacity(size);
        let mut i: usize = 0;
        while i < size
            invariant
                i <= size,
                slots@ == Seq::new(i as nat, |j: int| Slot::Idle),
            decreases size - i,
        {
            slots.push(Slot::Idle);
            i = i + 1;
            assert(slots@ =~= Seq::new(i as nat, |j: int| Slot::Idle));
        }
        let p = PoolState {
            queue: VecDeque::new(),
            slots,
            submitted: 0,
            taken: 0,
            finished: 0,
            closing: false,
        };
        proof {
            lemma_count_none(p.slots@, |x: Slot| is_busy(x));
        }
        Ok(p)
    }

    /// Queues `job` under the next ticket, unless shutdown has begun.
    pub fn submit(&mut self, job: J) -> (r: Result<u64, PoolError>)
        requires
            old(self).well_formed(),
            old(self).n_submitted() < u64::MAX,
        ensures
            final(self).well_formed(),
            old(self).is_closing() ==> r == Err::<u64, PoolError>(PoolError::ShuttingDown)
                && *final(self) == *old(self),
            !old(self).is_closing() ==> {
                &&& r == Ok::<u64, PoolError>(old(self).n_submitted() as u64)
                &&& final(self).pending() == old(self).pending().push(
                    Message::Job { ticket: old(self).n_submitted() as u64, job },
                )
                &&& final(self).n_submitted() == old(self).n_submitted() + 1
                &&& final(self).workers() == old(self).workers()
                &&& final(self).n_taken() == old(self).n_taken()
                &&& final(self).n_finished() == old(self).n_finished()
                &&& !final(self).is_closing()
            },
    {
        if self.closing {
            return Err(PoolError::ShuttingDown);
        }
        let ticket = self.submitted;
        self.queue.push_back(Message::Job { ticket, job });
        self.submitted = self.submitted + 1;
        Ok(ticket)
    }

    /// A measure of the work left: every step that `take` or `finish`
    /// performs lowers it.
    pub open spec fn remaining_work(&self) -> nat {
        2 * self.pending().len() + count_busy(self.workers())
    }

    /// Worker `w`, idle, asks for its next message. The front message is
    /// removed and given to it alone: a job makes it busy with that job,
    /// a terminate message stops it. An empty queue leaves all unchanged.
    pub fn take(&mut self, w: usize) -> (r: Dispatch<J>)
        requires
            old(self).well_formed(),
            w < old(self).workers().len(),
            old(self).workers()[w as int] == Slot::Idle,
        ensures
            final(self).well_formed(),
            final(self).n_submitted() == old(self).n_submitted(),
            final(self).n_finished() == old(self).n_finished(),
            final(self).is_closing() == old(self).is_closing(),
            old(self).pending().len() == 0 ==> {
                &&& r is Wait
                &&& final(self).pending() == old(self).pending()
                &&& final(self).workers() == old(self).workers()
                &&& final(self).n_taken() == old(self).n_taken()
            },
            old(self).pending().len() > 0 ==> {
                &&& final(self).pending() == old(self).pending().drop_first()
                &&& final(self).remaining_work() < old(self).remaining_work()
                &&& match old(self).pending()[0] {
                    Message::Job { ticket, job } => {
                        &&& r == Dispatch::Run { ticket, job }
                        &&& ticket == old(self).n_taken()
                        &&& final(self).n_taken() == old(self).n_taken() + 1
                        &&& final(self).workers() == old(self).workers().update(
                            w as int,
                            Slot::Busy(ticket),
                        )
                    },
                    Message::Terminate => {
                        &&& r is Exit
                        &&& final(self).n_taken() == old(self).n_taken()
                        &&& final(self).workers() == old(self).workers().update(
                            w as int,
                            Slot::Stopped,
                        )
                    },
                }
            },
    {
        let ghost s0 = self.slots@;
        let ghost q0 = self.queue@;
        let ghost k = self.n_queued_jobs();
        match self.queue.pop_front() {
            None => Dispatch::Wait,
            Some(Message::Job { ticket, job }) => {
                proof {
                    if k == 0 {
                        assert(q0[0] is Terminate);
                    }
                    lemma_count_update(s0, |x: Slot| is_busy(x), w as int, Slot::Busy(ticket));
                    lemma_count_update(s0, |x: Slot| is_live(x), w as int, Slot::Busy(ticket));
                    if self.closing && count_live(s0) < s0.len() {
                        assert(k == 0);
                    }
                }
                self.slots[w] = Slot::Busy(ticket);
                self.taken = self.taken + 1;
                proof {
                    let q = self.queue@;
                    assert forall|i: int| 0 <= i < self.n_queued_jobs() implies (#[trigger] q[i] is Job
                        && q[i]->ticket == self.n_taken() + i) by {
                        assert(q[i] == q0[i + 1]);
                    }
                    assert forall|i: int| self.n_queued_jobs() <= i < q.len() implies #[trigger] q[i] is Terminate by {
                        assert(q[i] == q0[i + 1]);
                    }
                }
                Dispatch::Run { ticket, job }
            },
            Some(Message::Terminate) => {
                proof {
                    if k > 0 {
                        assert(q0[0] is Job);
                    }
                    lemma_count_update(s0, |x: Slot| is_busy(x), w as int, Slot::Stopped);
                    lemma_count_update(s0, |x: Slot| is_live(x), w as int, Slot::Stopped);
                }
                self.slots[w] = Slot::Stopped;
                proof {
                    let q = self.queue@;
                    assert forall|i: int| self.n_queued_jobs() <= i < q.len() implies #[trigger] q[i] is Terminate by {
                        assert(q[i] == q0[i + 1]);
                    }
                }
                Dispatch::Exit
            },
        }
    }

    /// Worker `w` reports that its job has run to completion: it is idle again.
    pub fn finish(&mut self, w: usize)
        requires
            old(self).well_formed(),
            w < old(self).workers().len(),
            old(self).workers()[w as int] is Busy,
        ensures
            final(self).well_formed(),
            final(self).workers() == old(self).workers().update(w as int, Slot::Idle),
            final(self).n_finished() == old(self).n_finished() + 1,
            final(self).pending() == old(self).pending(),
            final(self).n_submitted() == old(self).n_submitted(),
            final(self).n_taken() == old(self).n_taken(),
            final(self).is_closing() == old(self).is_closing(),
            final(self).remaining_work() < old(self).remaining_work(),
    {
        let ghost s0 = self.slots@;
        proof {
            lemma_count_update(s0, |x: Slot| is_busy(x), w as int, Slot::Idle);
            lemma_count_update(s0, |x: Slot| is_live(x), w as int, Slot::Idle);
        }
        self.slots[w] = Slot::Idle;
        self.finished = self.finished + 1;
    }

    /// Begins shutdown: queues one terminate message per worker, behind
    /// every job already queued, and refuses jobs from then on. Once begun,
    /// a second call changes nothing.
    pub fn begin_teardown(&mut self)
        requires
            old(self).well_formed(),
        ensures
            final(self).well_formed(),
            final(self).is_closing(),
            final(self).workers() == old(self).workers(),
            final(self).n_submitted() == old(self).n_submitted(),
            final(self).n_taken() == old(self).n_taken(),
            final(self).n_finished() == old(self).n_finished(),
            old(self).is_closing() ==> *final(self) == *old(self),
            !old(self).is_closing() ==> final(self).pending() == old(self).pending() + Seq::new(
                old(self).workers().len(),
                |i: int| Message::<J>::Terminate,
            ),
    {
        if self.closing {
            return;
        }
        let n = self.slots.len();
        let ghost q0 = self.queue@;
        let mut i: usize = 0;
        while i < n
            invariant
                self.slots@ == old(self).slots@,
                self.submitted == old(self).submitted,
                self.taken == old(self).taken,
                self.finished == old(self).finished,
                !self.closing,
                n == self.slots@.len(),
                i <= n,
                q0 == old(self).queue@,
                self.queue@ =~= q0 + Seq::new(i as nat, |j: int| Message::<J>::Terminate),
            decreases n - i,
        {
            self.queue.push_back(Message::Terminate);
            i = i + 1;
        }
        self.closing = true;
        proof {
            lemma_count_all(self.slots@, |x: Slot| is_live(x));
            let q = self.queue@;
            assert forall|j: int| self.n_queued_jobs() <= j < q.len() implies #[trigger] q[j] is Terminate by {
                if j >= q0.len() {
                    assert(q[j] == Message::<J>::Terminate);
                }
            }
            assert forall|j: int| 0 <= j < self.n_queued_jobs() implies (#[trigger] q[j] is Job
                && q[j]->ticket == self.n_taken() + j) by {
                assert(q[j] == q0[j]);
            }
        }
    }

    /// Number of workers.
    pub fn size(&self) -> (r: usize)
        requires
            self.well_formed(),
        ensures
            r == self.workers().len(),
    {
        self.slots.len()
    }

    /// The state of worker `w`.
    pub fn slot(&self, w: usize) -> (r: Slot)
        requires
            w < self.workers().len(),
        ensures
            r == self.workers()[w as int],
    {
        self.slots[w]
    }

    /// Number of jobs accepted so far.
    pub fn submitted(&self) -> (r: u64)
        ensures
            r == self.n_submitted(),
    {
        self.submitted
    }

    /// Number of jobs run to completion so far.
    pub fn finished(&self) -> (r: u64)
        ensures
            r == self.n_finished(),
    {
        self.finished
    }

    /// Whether shutdown has begun.
    pub fn closing(&self) -> (r: bool)
        ensures
            r == self.is_closing(),
    {
        self.closing
    }

    /// Number of messages waiting in the queue.
    pub fn pending_len(&self) -> (r: usize)
        ensures
            r == self.pending().len(),
    {
        self.queue.len()
    }
}

/// A job is never in two places: the jobs being run carry distinct
/// tickets, each below every ticket still queued, and every job handed out
/// is either running on exactly one worker or finished.
pub proof fn law_exclusive_dispatch<J>(p: PoolState<J>)
    requires
        p.well_formed(),
    ensures
        forall|a: int, b: int|
            0 <= a < p.workers().len() && 0 <= b < p.workers().len() && a != b
                && #[trigger] p.workers()[a] is Busy && #[trigger] p.workers()[b] is Busy
                ==> p.workers()[a]->0 != p.workers()[b]->0,
        forall|a: int, i: int|
            0 <= a < p.workers().len() && 0 <= i < p.n_queued_jobs() && #[trigger] p.workers()[a] is Busy
                ==> p.workers()[a]->0 < (#[trigger] p.pending()[i])->ticket,
        p.n_finished() + count_busy(p.workers()) == p.n_taken(),
{
    assert forall|a: int, i: int|
        0 <= a < p.workers().len() && 0 <= i < p.n_queued_jobs() && #[trigger] p.workers()[a] is Busy
            implies p.workers()[a]->0 < (#[trigger] p.pending()[i])->ticket by {
        assert(p.pending()[i] is Job);
    }
}

/// Once shutdown has begun and every worker has stopped, every job that was
/// accepted has run to completion and the queue is empty.
pub proof fn law_shutdown_complete<J>(p: PoolState<J>)
    requires
        p.well_formed(),
        p.is_closing(),
        forall|j: int| 0 <= j < p.workers().len() ==> #[trigger] p.workers()[j] is Stopped,
    ensures
        p.n_finished() == p.n_submitted(),
        p.n_taken() == p.n_submitted(),
        p.pending().len() == 0,
{
    lemma_count_none(p.workers(), |x: Slot| is_live(x));
    lemma_count_none(p.workers(), |x: Slot| is_busy(x));
}

/// During shutdown no live worker can wait forever: each one is running a
/// job, or finds a message in the queue. As `take` and `finish` each lower
/// `remaining_work`, shutdown ends once the running jobs return.
pub proof fn law_teardown_progress<J>(p: PoolState<J>, w: int)
    requires
        p.well_formed(),
        p.is_closing(),
        0 <= w < p.workers().len(),
        !(p.workers()[w] is Stopped),
    ensures
        p.workers()[w] is Busy || p.pending().len() > 0,
{
    lemma_count_bounds(p.workers(), |x: Slot| is_live(x), w);
}

/// Before shutdown the queue holds jobs only, so an idle worker that asks
/// for work while something is queued is handed a job at once.
pub proof fn law_open_pool_dispatches<J>(p: PoolState<J>)
    requires
        p.well_formed(),
        !p.is_closing(),
        p.pending().len() > 0,
    ensures
        p.pending()[0] is Job,
        p.pending()[0]->ticket == p.n_taken(),
{
    assert(p.pending()[0] is Job);
}


} // verus!
