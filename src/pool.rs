//! The controller of a fixed-size worker pool.
//!
//! A `ThreadPool` holds the control channel (a FIFO queue of messages), the
//! state of each worker, and whether shutdown has begun. The threads that run
//! jobs live outside this module: a worker thread asks `take_next` for its
//! next message while it holds the pool's lock, runs the job without the
//! lock, and reports back with `finish_job` or `fail_job`. Every decision of
//! the pool (what a worker receives, when a submission is refused, how many
//! terminate messages shutdown sends) is made here and proved.
use vstd::prelude::*;
use vstd::set_lib::{lemma_int_range, set_int_range};
use std::collections::VecDeque;

verus! {

/// A unit of delivery on the control channel.
pub enum Message<J> {
    NewJob(J),
    Terminate,
}

/// Where a worker stands in its life cycle.
#[derive(Clone, Copy, Debug, PartialEq, Eq, Structural)]
pub enum WorkerState {
    /// Waiting on the control channel for its next message.
    Idle,
    /// Running a job it has taken from the channel.
    Busy,
    /// Has consumed a terminate message and exited.
    Terminated,
    /// Its job failed and its thread ended abnormally; it never runs again.
    Failed,
}

/// Why the pool refused a request.
#[derive(Clone, Copy, Debug, PartialEq, Eq, Structural)]
pub enum PoolError {
    /// A pool needs at least one worker.
    InvalidSize,
    /// Shutdown has already begun: nothing more can be sent.
    ShutDown,
    /// No worker is left to receive from the channel.
    Disconnected,
}

/// One worker of the pool, known by its index.
pub struct Worker {
    id: usize,
    state: WorkerState,
    /// The index, in submission order, of the job this worker took last.
    job: Ghost<int>,
}

/// A worker that has not yet finished: it will still take messages.
pub open spec fn is_live(s: WorkerState) -> bool {
    s == WorkerState::Idle || s == WorkerState::Busy
}

/// A worker that took a job and did not complete it.
pub open spec fn holds_job(s: WorkerState) -> bool {
    s == WorkerState::Busy || s == WorkerState::Failed
}

/// How many of the workers `ws` are in state `s`.
pub open spec fn count_in(ws: Seq<Worker>, s: WorkerState) -> nat
    decreases ws.len(),
{
    if ws.len() == 0 {
        0
    } else {
        count_in(ws.drop_last(), s) + if ws.last().state() == s { 1nat } else { 0nat }
    }
}

/// Replacing one worker changes each count by what the swap takes away and
/// adds.
proof fn lemma_count_update(ws: Seq<Worker>, i: int, w: Worker, s: WorkerState)
    requires
        0 <= i < ws.len(),
    ensures
        count_in(ws.update(i, w), s) + (if ws[i].state() == s { 1int } else { 0int }) == count_in(
            ws,
            s,
        ) + (if w.state() == s { 1int } else { 0int }),
    decreases ws.len(),
{
    let u = ws.update(i, w);
    if i == ws.len() - 1 {
        assert(u.drop_last() =~= ws.drop_last());
    } else {
        assert(u.drop_last() =~= ws.drop_last().update(i, w));
        lemma_count_update(ws.drop_last(), i, w, s);
    }
}

/// The four states split the workers between them.
proof fn lemma_count_partition(ws: Seq<Worker>)
    ensures
        count_in(ws, WorkerState::Idle) + count_in(ws, WorkerState::Busy) + count_in(
            ws,
            WorkerState::Terminated,
        ) + count_in(ws, WorkerState::Failed) == ws.len(),
    decreases ws.len(),
{
    if ws.len() > 0 {
        lemma_count_partition(ws.drop_last());
    }
}

/// Worker `i` has index `i`.
pub open spec fn ids_in_order(ws: Seq<Worker>) -> bool {
    forall|i: int| 0 <= i < ws.len() ==> (#[trigger] ws[i]).id() == i
}

/// No worker of `ws` is in state `s`.
pub open spec fn none_in(ws: Seq<Worker>, s: WorkerState) -> bool {
    forall|i: int| 0 <= i < ws.len() ==> (#[trigger] ws[i]).state() != s
}

/// The channel `q` holds the jobs of `submitted` from index `taken` on, in
/// order, followed by terminate messages only.
pub open spec fn channel_holds<J>(q: Seq<Message<J>>, submitted: Seq<J>, taken: nat) -> bool {
    let n = submitted.len() - taken;
    &&& 0 <= n <= q.len()
    &&& forall|k: int| 0 <= k < q.len() ==> ((#[trigger] q[k] is NewJob) <==> k < n)
    &&& forall|k: int| 0 <= k < n ==> (#[trigger] q[k])->NewJob_0 == submitted[taken + k]
}

/// Each of the first `taken` jobs has completed (its index is in `done`), or
/// is held by exactly one of the workers `ws` that are busy or failed.
pub open spec fn jobs_accounted(ws: Seq<Worker>, taken: nat, done: Set<int>) -> bool {
    &&& done.finite()
    &&& forall|t: int| #[trigger] done.contains(t) ==> 0 <= t < taken
    &&& forall|i: int|
        0 <= i < ws.len() && holds_job(#[trigger] ws[i].state()) ==> 0 <= ws[i].job() < taken
            && !done.contains(ws[i].job())
    &&& forall|i: int, j: int|
        0 <= i < ws.len() && 0 <= j < ws.len() && i != j && holds_job(#[trigger] ws[i].state())
            && holds_job(#[trigger] ws[j].state()) ==> ws[i].job() != ws[j].job()
    &&& forall|t: int|
        0 <= t < taken && !(#[trigger] done.contains(t)) ==> exists|i: int|
            0 <= i < ws.len() && holds_job(#[trigger] ws[i].state()) && ws[i].job() == t
}

/// With no worker in state `s`, the count of `s` is zero.
proof fn lemma_count_none(ws: Seq<Worker>, s: WorkerState)
    requires
        none_in(ws, s),
    ensures
        count_in(ws, s) == 0,
    decreases ws.len(),
{
    if ws.len() > 0 {
        assert(none_in(ws.drop_last(), s)) by {
            assert forall|i: int| 0 <= i < ws.drop_last().len() implies (
            #[trigger] ws.drop_last()[i]).state() != s by {
                assert(ws.drop_last()[i] == ws[i]);
            }
        }
        lemma_count_none(ws.drop_last(), s);
    }
}

/// With every worker in state `s`, the count of `s` is the number of workers.
proof fn lemma_count_all(ws: Seq<Worker>, s: WorkerState)
    requires
        forall|i: int| 0 <= i < ws.len() ==> (#[trigger] ws[i]).state() == s,
    ensures
        count_in(ws, s) == ws.len(),
    decreases ws.len(),
{
    if ws.len() > 0 {
        assert forall|i: int| 0 <= i < ws.drop_last().len() implies (
        #[trigger] ws.drop_last()[i]).state() == s by {
            assert(ws.drop_last()[i] == ws[i]);
        }
        lemma_count_all(ws.drop_last(), s);
    }
}

/// Swapping a worker that holds no job for another that holds none keeps
/// the job accounting.
proof fn lemma_accounted_swap_idle(ws: Seq<Worker>, taken: nat, done: Set<int>, i: int, w: Worker)
    requires
        jobs_accounted(ws, taken, done),
        0 <= i < ws.len(),
        !holds_job(ws[i].state()),
        !holds_job(w.state()),
    ensures
        jobs_accounted(ws.update(i, w), taken, done),
{
    let u = ws.update(i, w);
    assert forall|t: int| 0 <= t < taken && !(#[trigger] done.contains(t)) implies exists|j: int|
        0 <= j < u.len() && holds_job(#[trigger] u[j].state()) && u[j].job() == t by {
        let j = choose|j: int| 0 <= j < ws.len() && holds_job(#[trigger] ws[j].state()) && ws[j].job() == t;
        assert(u[j] == ws[j]);
    }
}

/// Replacing a job holder by one that holds the same job keeps the job
/// accounting.
proof fn lemma_accounted_same_job(ws: Seq<Worker>, taken: nat, done: Set<int>, i: int, w: Worker)
    requires
        jobs_accounted(ws, taken, done),
        0 <= i < ws.len(),
        holds_job(ws[i].state()),
        holds_job(w.state()),
        w.job() == ws[i].job(),
    ensures
        jobs_accounted(ws.update(i, w), taken, done),
{
    let u = ws.update(i, w);
    assert forall|t: int| 0 <= t < taken && !(#[trigger] done.contains(t)) implies exists|j: int|
        0 <= j < u.len() && holds_job(#[trigger] u[j].state()) && u[j].job() == t by {
        let j = choose|j: int| 0 <= j < ws.len() && holds_job(#[trigger] ws[j].state()) && ws[j].job() == t;
        assert(holds_job(u[j].state()) && u[j].job() == t);
    }
}

impl Worker {
    /// A new worker with the given index, waiting for its first message.
    pub fn new(id: usize) -> (w: Worker)
        ensures
            w.id() == id,
            w.state() == WorkerState::Idle,
    {
        Worker { id, state: WorkerState::Idle, job: Ghost(0) }
    }

    pub closed spec fn id(&self) -> usize {
        self.id
    }

    pub closed spec fn state(&self) -> WorkerState {
        self.state
    }

    pub closed spec fn job(&self) -> int {
        self.job@
    }

    /// The worker's index.
    pub fn get_id(&self) -> (r: usize)
        ensures
            r == self.id(),
    {
        self.id
    }

    /// The worker's current state.
    pub fn get_state(&self) -> (r: WorkerState)
        ensures
            r == self.state(),
    {
        self.state
    }
}


/// The pool's controller: its workers, the control channel, and whether
/// shutdown has begun.
pub struct ThreadPool<J> {
    workers: Vec<Worker>,
    channel: VecDeque<Message<J>>,
    closed: bool,
    /// Every job accepted so far, in order of submission.
    submitted: Ghost<Seq<J>>,
    /// How many jobs have been taken from the channel.
    taken: Ghost<nat>,
    /// The submission indices of the jobs that have run to completion.
    done: Ghost<Set<int>>,
}

impl<J> ThreadPool<J> {
    /// The workers, in index order.
    pub closed spec fn workers(&self) -> Seq<Worker> {
        self.workers@
    }

    /// The number of workers, fixed at construction.
    pub open spec fn size(&self) -> nat {
        self.workers().len()
    }

    /// The state of worker `i`.
    pub open spec fn state_of(&self, i: int) -> WorkerState {
        self.workers()[i].state()
    }

    /// The submission index of the job that worker `i` took last.
    pub open spec fn job_of(&self, i: int) -> int {
        self.workers()[i].job()
    }

    /// The messages waiting on the control channel, head first.
    pub closed spec fn pending(&self) -> Seq<Message<J>> {
        self.channel@
    }

    /// Whether shutdown has begun.
    pub closed spec fn is_closed(&self) -> bool {
        self.closed
    }

    /// Every job accepted so far, in order of submission.
    pub closed spec fn submitted(&self) -> Seq<J> {
        self.submitted@
    }

    /// How many jobs workers have taken from the channel.
    pub closed spec fn taken(&self) -> nat {
        self.taken@
    }

    /// The submission indices of the jobs that have completed.
    pub closed spec fn done(&self) -> Set<int> {
        self.done@
    }

    /// How many accepted jobs still wait on the channel.
    pub open spec fn jobs_pending(&self) -> int {
        self.submitted().len() - self.taken()
    }

    /// How many terminate messages wait on the channel.
    pub open spec fn terminates_pending(&self) -> int {
        self.pending().len() - self.jobs_pending()
    }

    /// Whether some worker is still live.
    pub open spec fn has_live(&self) -> bool {
        exists|i: int| 0 <= i < self.size() && is_live(#[trigger] self.state_of(i))
    }

    /// The pool's invariant.
    pub open spec fn wf(&self) -> bool {
        &&& self.size() > 0
        &&& ids_in_order(self.workers())
        // The channel holds the jobs not yet taken, in order, and then only
        // terminate messages.
        &&& channel_holds(self.pending(), self.submitted(), self.taken())
        // Terminate messages are sent at shutdown alone, one per worker.
        &&& !self.is_closed() ==> self.terminates_pending() == 0 && none_in(
            self.workers(),
            WorkerState::Terminated,
        )
        &&& self.is_closed() ==> self.terminates_pending() + count_in(
            self.workers(),
            WorkerState::Terminated,
        ) == self.size()
        // A worker ends only after every job has left the channel.
        &&& !none_in(self.workers(), WorkerState::Terminated) ==> self.jobs_pending() == 0
        // Each job taken is completed, or held by exactly one worker.
        &&& jobs_accounted(self.workers(), self.taken(), self.done())
    }

    /// Creates a pool of `size` idle workers, with indices `0..size`, and an
    /// empty channel. A size of zero is refused before any worker exists.
    pub fn new(size: usize) -> (r: Result<ThreadPool<J>, PoolError>)
        ensures
            size == 0 <==> r is Err,
            r is Err ==> r->Err_0 == PoolError::InvalidSize,
            r is Ok ==> {
                let p = r->Ok_0;
                &&& p.wf()
                &&& p.size() == size
                &&& forall|i: int| 0 <= i < size ==> #[trigger] p.state_of(i) == WorkerState::Idle
                &&& p.has_live()
                &&& p.pending().len() == 0
                &&& !p.is_closed()
                &&& p.submitted().len() == 0
                &&& p.done().is_empty()
            },
    {
        if size == 0 {
            return Err(PoolError::InvalidSize);
        }
        let mut workers: Vec<Worker> = Vec::with_capacity(size);
        for id in 0..size
            invariant
                workers@.len() == id,
                forall|i: int| 0 <= i < id ==> (#[trigger] workers@[i]).id() == i,
                forall|i: int| 0 <= i < id ==> (#[trigger] workers@[i]).state() == WorkerState::Idle,
        {
            workers.push(Worker::new(id));
        }
        let pool = ThreadPool {
            workers,
            channel: VecDeque::new(),
            closed: false,
            submitted: Ghost(Seq::empty()),
            taken: Ghost(0),
            done: Ghost(Set::empty()),
        };
        assert(is_live(pool.state_of(0)));
        Ok(pool)
    }

    /// Whether some worker is still live.
    pub fn any_live(&self) -> (r: bool)
        ensures
            r == self.has_live(),
    {
        let n = self.workers.len();
        for i in 0..n
            invariant
                n == self.size(),
                forall|k: int| 0 <= k < i ==> !is_live(#[trigger] self.state_of(k)),
        {
            let s = self.workers[i].get_state();
            if s == WorkerState::Idle || s == WorkerState::Busy {
                assert(is_live(self.state_of(i as int)));
                return true;
            }
        }
        false
    }

    /// Submits a job. It is refused once shutdown has begun, or when no
    /// worker is left to receive it; otherwise it is appended to the channel.
    pub fn exec(&mut self, job: J) -> (r: Result<(), PoolError>)
        requires
            old(self).wf(),
        ensures
            final(self).wf(),
            r is Ok <==> !old(self).is_closed() && old(self).has_live(),
            old(self).is_closed() ==> r == Err::<(), PoolError>(PoolError::ShutDown),
            !old(self).is_closed() && !old(self).has_live() ==> r == Err::<(), PoolError>(
                PoolError::Disconnected,
            ),
            r is Err ==> *final(self) == *old(self),
            r is Ok ==> {
                &&& final(self).pending() == old(self).pending().push(Message::NewJob(job))
                &&& final(self).submitted() == old(self).submitted().push(job)
                &&& final(self).workers() == old(self).workers()
                &&& final(self).taken() == old(self).taken()
                &&& final(self).done() == old(self).done()
                &&& !final(self).is_closed()
            },
    {
        if self.closed {
            return Err(PoolError::ShutDown);
        }
        if !self.any_live() {
            return Err(PoolError::Disconnected);
        }
        proof {
            self.submitted@ = self.submitted@.push(job);
        }
        self.channel.push_back(Message::NewJob(job));
        proof {
            let o = old(self);
            assert forall|k: int| 0 <= k < self.jobs_pending() implies (
            #[trigger] self.pending()[k])->NewJob_0 == self.submitted()[self.taken() + k] by {
                if k < o.jobs_pending() {
                    assert(o.pending()[k] == self.pending()[k]);
                }
            }
        }
        Ok(())
    }

    /// Begins shutdown: sends one terminate message per worker, after every
    /// job already submitted. Refused when shutdown has already begun, or when
    /// no worker is left to receive.
    pub fn shutdown(&mut self) -> (r: Result<(), PoolError>)
        requires
            old(self).wf(),
        ensures
            final(self).wf(),
            r is Ok <==> !old(self).is_closed() && old(self).has_live(),
            old(self).is_closed() ==> r == Err::<(), PoolError>(PoolError::ShutDown),
            !old(self).is_closed() && !old(self).has_live() ==> r == Err::<(), PoolError>(
                PoolError::Disconnected,
            ),
            r is Err ==> *final(self) == *old(self),
            r is Ok ==> {
                &&& final(self).pending() == old(self).pending() + Seq::new(
                    old(self).size(),
                    |k: int| Message::<J>::Terminate,
                )
                &&& final(self).is_closed()
                &&& final(self).submitted() == old(self).submitted()
                &&& final(self).workers() == old(self).workers()
                &&& final(self).taken() == old(self).taken()
                &&& final(self).done() == old(self).done()
            },
    {
        if self.closed {
            return Err(PoolError::ShutDown);
        }
        if !self.any_live() {
            return Err(PoolError::Disconnected);
        }
        let n = self.workers.len();
        for i in 0..n
            invariant
                n == old(self).size(),
                self.workers == old(self).workers,
                self.closed == old(self).closed,
                self.submitted == old(self).submitted,
                self.taken == old(self).taken,
                self.done == old(self).done,
                self.channel@ == old(self).pending() + Seq::new(
                    i as nat,
                    |k: int| Message::<J>::Terminate,
                ),
        {
            self.channel.push_back(Message::Terminate);
            assert(self.channel@ =~= old(self).pending() + Seq::new(
                (i + 1) as nat,
                |k: int| Message::<J>::Terminate,
            ));
        }
        self.closed = true;
        proof {
            lemma_count_none(self.workers(), WorkerState::Terminated);
            let o = old(self);
            let q = self.pending();
            assert forall|k: int| 0 <= k < q.len() implies ((#[trigger] q[k] is NewJob) <==> k
                < self.jobs_pending()) by {
                if k < o.pending().len() {
                    assert(q[k] == o.pending()[k]);
                }
            }
            assert forall|k: int| 0 <= k < self.jobs_pending() implies (#[trigger] q[k])->NewJob_0
                == self.submitted()[self.taken() + k] by {
                assert(q[k] == o.pending()[k]);
            }
        }
        Ok(())
    }

    /// Worker `id` asks for its next message. An idle worker receives the
    /// message at the head of the channel, which leaves the channel: a job
    /// makes it busy, a terminate message ends it. In any other case nothing
    /// is received and nothing changes.
    pub fn take_next(&mut self, id: usize) -> (r: Option<Message<J>>)
        requires
            old(self).wf(),
        ensures
            final(self).wf(),
            r is Some <==> id < old(self).size() && old(self).state_of(id as int)
                == WorkerState::Idle && old(self).pending().len() > 0,
            r is None ==> *final(self) == *old(self),
            r is Some ==> {
                let m = r->Some_0;
                &&& m == old(self).pending()[0]
                &&& final(self).pending() == old(self).pending().drop_first()
                &&& final(self).size() == old(self).size()
                &&& forall|j: int|
                    0 <= j < old(self).size() && j != id ==> #[trigger] final(self).workers()[j]
                        == old(self).workers()[j]
                &&& final(self).is_closed() == old(self).is_closed()
                &&& final(self).submitted() == old(self).submitted()
                &&& final(self).done() == old(self).done()
                &&& m is NewJob ==> {
                    &&& m->NewJob_0 == old(self).submitted()[old(self).taken() as int]
                    &&& final(self).state_of(id as int) == WorkerState::Busy
                    &&& final(self).job_of(id as int) == old(self).taken()
                    &&& final(self).taken() == old(self).taken() + 1
                }
                &&& m is Terminate ==> {
                    &&& final(self).state_of(id as int) == WorkerState::Terminated
                    &&& final(self).taken() == old(self).taken()
                    &&& old(self).jobs_pending() == 0
                }
            },
    {
        if id >= self.workers.len() {
            return None;
        }
        if self.workers[id].get_state() != WorkerState::Idle || self.channel.len() == 0 {
            return None;
        }
        let m = match self.channel.pop_front() {
            None => {
                return None;
            },
            Some(m) => m,
        };
        let ghost o = *old(self);
        let ghost ws = o.workers();
        let ghost taken = o.taken();
        let ghost done = o.done();
        let is_job = match &m {
            Message::NewJob(_) => true,
            Message::Terminate => false,
        };
        if is_job {
            let w = Worker { id, state: WorkerState::Busy, job: Ghost(taken as int) };
            self.workers.set(id, w);
            proof {
                self.taken@ = taken + 1;
                let u = ws.update(id as int, w);
                assert(self.workers() == u);
                // The new job was never taken before.
                assert forall|i: int| 0 <= i < u.len() && holds_job(#[trigger] u[i].state())
                    implies 0 <= u[i].job() < taken + 1 && !done.contains(u[i].job()) by {
                    if i != id {
                        assert(u[i] == ws[i]);
                    }
                }
                assert forall|i: int, j: int|
                    0 <= i < u.len() && 0 <= j < u.len() && i != j && holds_job(
                        #[trigger] u[i].state(),
                    ) && holds_job(#[trigger] u[j].state()) implies u[i].job() != u[j].job() by {
                    if i != id {
                        assert(u[i] == ws[i]);
                    }
                    if j != id {
                        assert(u[j] == ws[j]);
                    }
                }
                assert forall|t: int| 0 <= t < taken + 1 && !(#[trigger] done.contains(t)) implies exists|
                    i: int,
                | 0 <= i < u.len() && holds_job(#[trigger] u[i].state()) && u[i].job() == t by {
                    if t == taken {
                        assert(holds_job(u[id as int].state()) && u[id as int].job() == t);
                    } else {
                        let i = choose|i: int|
                            0 <= i < ws.len() && holds_job(#[trigger] ws[i].state()) && ws[i].job()
                                == t;
                        assert(u[i] == ws[i]);
                    }
                }
                assert(jobs_accounted(u, taken + 1, done));
                assert forall|i: int| 0 <= i < u.len() implies (#[trigger] u[i]).id() == i by {
                    if i != id {
                        assert(u[i] == ws[i]);
                    }
                }
                lemma_count_update(ws, id as int, w, WorkerState::Terminated);
                let q = self.pending();
                assert forall|k: int| 0 <= k < q.len() implies ((#[trigger] q[k] is NewJob) <==> k
                    < self.jobs_pending()) by {
                    assert(q[k] == o.pending()[k + 1]);
                }
                assert forall|k: int| 0 <= k < self.jobs_pending() implies (
                #[trigger] q[k])->NewJob_0 == self.submitted()[self.taken() + k] by {
                    assert(q[k] == o.pending()[k + 1]);
                }
                if !none_in(u, WorkerState::Terminated) {
                    let i = choose|i: int| 0 <= i < u.len() && (#[trigger] u[i]).state()
                        == WorkerState::Terminated;
                    assert(u[i] == ws[i]);
                }
            }
        } else {
            let w = Worker { id, state: WorkerState::Terminated, job: self.workers[id].job };
            self.workers.set(id, w);
            proof {
                let u = ws.update(id as int, w);
                assert(self.workers() == u);
                assert(o.pending()[0] is Terminate);
                lemma_accounted_swap_idle(ws, taken, done, id as int, w);
                assert forall|i: int| 0 <= i < u.len() implies (#[trigger] u[i]).id() == i by {
                    if i != id {
                        assert(u[i] == ws[i]);
                    }
                }
                lemma_count_update(ws, id as int, w, WorkerState::Terminated);
                let q = self.pending();
                assert forall|k: int| 0 <= k < q.len() implies ((#[trigger] q[k] is NewJob) <==> k
                    < self.jobs_pending()) by {
                    assert(q[k] == o.pending()[k + 1]);
                }
                assert(!none_in(u, WorkerState::Terminated)) by {
                    assert(u[id as int].state() == WorkerState::Terminated);
                }
            }
        }
        Some(m)
    }

    /// Worker `id` reports that its job ran to completion; it is idle again.
    /// Nothing changes unless the worker is busy.
    pub fn finish_job(&mut self, id: usize)
        requires
            old(self).wf(),
        ensures
            final(self).wf(),
            final(self).pending() == old(self).pending(),
            final(self).is_closed() == old(self).is_closed(),
            final(self).submitted() == old(self).submitted(),
            final(self).taken() == old(self).taken(),
            final(self).size() == old(self).size(),
            id < old(self).size() && old(self).state_of(id as int) == WorkerState::Busy ==> {
                &&& final(self).state_of(id as int) == WorkerState::Idle
                &&& !old(self).done().contains(old(self).job_of(id as int))
                &&& final(self).done() == old(self).done().insert(old(self).job_of(id as int))
                &&& forall|j: int|
                    0 <= j < old(self).size() && j != id ==> #[trigger] final(self).workers()[j]
                        == old(self).workers()[j]
            },
            !(id < old(self).size() && old(self).state_of(id as int) == WorkerState::Busy)
                ==> *final(self) == *old(self),
    {
        if id >= self.workers.len() || self.workers[id].get_state() != WorkerState::Busy {
            return;
        }
        let ghost o = *old(self);
        let ghost ws = o.workers();
        let ghost done = o.done();
        let ghost taken = o.taken();
        let ghost t = ws[id as int].job();
        let w = Worker { id, state: WorkerState::Idle, job: self.workers[id].job };
        self.workers.set(id, w);
        proof {
            self.done@ = done.insert(t);
            let u = ws.update(id as int, w);
            let d = done.insert(t);
            assert(self.workers() == u);
            assert forall|i: int| 0 <= i < u.len() && holds_job(#[trigger] u[i].state()) implies 0
                <= u[i].job() < taken && !d.contains(u[i].job()) by {
                assert(u[i] == ws[i]);
            }
            assert forall|i: int, j: int|
                0 <= i < u.len() && 0 <= j < u.len() && i != j && holds_job(
                    #[trigger] u[i].state(),
                ) && holds_job(#[trigger] u[j].state()) implies u[i].job() != u[j].job() by {
                assert(u[i] == ws[i]);
                assert(u[j] == ws[j]);
            }
            assert forall|t2: int| 0 <= t2 < taken && !(#[trigger] d.contains(t2)) implies exists|
                i: int,
            | 0 <= i < u.len() && holds_job(#[trigger] u[i].state()) && u[i].job() == t2 by {
                let i = choose|i: int|
                    0 <= i < ws.len() && holds_job(#[trigger] ws[i].state()) && ws[i].job() == t2;
                assert(u[i] == ws[i]);
            }
            assert(jobs_accounted(u, taken, d));
            assert forall|i: int| 0 <= i < u.len() implies (#[trigger] u[i]).id() == i by {
                if i != id {
                    assert(u[i] == ws[i]);
                }
            }
            lemma_count_update(ws, id as int, w, WorkerState::Terminated);
            if !none_in(u, WorkerState::Terminated) {
                let i = choose|i: int| 0 <= i < u.len() && (#[trigger] u[i]).state()
                    == WorkerState::Terminated;
                assert(u[i] == ws[i]);
            }
        }
    }

    /// Worker `id` reports that its job failed and its thread is ending: the
    /// worker never runs again, and its job is never completed. Nothing
    /// changes unless the worker is busy.
    pub fn fail_job(&mut self, id: usize)
        requires
            old(self).wf(),
        ensures
            final(self).wf(),
            final(self).pending() == old(self).pending(),
            final(self).is_closed() == old(self).is_closed(),
            final(self).submitted() == old(self).submitted(),
            final(self).taken() == old(self).taken(),
            final(self).done() == old(self).done(),
            final(self).size() == old(self).size(),
            id < old(self).size() && old(self).state_of(id as int) == WorkerState::Busy ==> {
                &&& final(self).state_of(id as int) == WorkerState::Failed
                &&& final(self).job_of(id as int) == old(self).job_of(id as int)
                &&& forall|j: int|
                    0 <= j < old(self).size() && j != id ==> #[trigger] final(self).workers()[j]
                        == old(self).workers()[j]
            },
            !(id < old(self).size() && old(self).state_of(id as int) == WorkerState::Busy)
                ==> *final(self) == *old(self),
    {
        if id >= self.workers.len() || self.workers[id].get_state() != WorkerState::Busy {
            return;
        }
        let ghost ws = old(self).workers();
        let w = Worker { id, state: WorkerState::Failed, job: self.workers[id].job };
        self.workers.set(id, w);
        proof {
            let u = ws.update(id as int, w);
            assert(self.workers() == u);
            lemma_accounted_same_job(ws, old(self).taken(), old(self).done(), id as int, w);
            assert forall|i: int| 0 <= i < u.len() implies (#[trigger] u[i]).id() == i by {
                if i != id {
                    assert(u[i] == ws[i]);
                }
            }
            lemma_count_update(ws, id as int, w, WorkerState::Terminated);
            if !none_in(u, WorkerState::Terminated) {
                let i = choose|i: int| 0 <= i < u.len() && (#[trigger] u[i]).state()
                    == WorkerState::Terminated;
                assert(u[i] == ws[i]);
            }
        }
    }

    /// The number of workers.
    pub fn worker_count(&self) -> (r: usize)
        ensures
            r == self.size(),
    {
        self.workers.len()
    }

    /// The state of worker `id`, if there is such a worker.
    pub fn worker_state(&self, id: usize) -> (r: Option<WorkerState>)
        ensures
            id < self.size() ==> r == Some(self.state_of(id as int)),
            id >= self.size() ==> r is None,
    {
        if id < self.workers.len() {
            Some(self.workers[id].get_state())
        } else {
            None
        }
    }

    /// Whether shutdown has begun.
    pub fn is_shut_down(&self) -> (r: bool)
        ensures
            r == self.is_closed(),
    {
        self.closed
    }

    /// The number of messages waiting on the channel.
    pub fn pending_len(&self) -> (r: usize)
        ensures
            r == self.pending().len(),
    {
        self.channel.len()
    }

    /// Whether every worker has ended, by a terminate message or a failure.
    pub fn is_finished(&self) -> (r: bool)
        ensures
            r == !self.has_live(),
    {
        !self.any_live()
    }
}

/// Every job submitted runs exactly once: once every worker has consumed a
/// terminate message, the channel is empty, every job has been taken, and
/// the completed jobs are exactly those submitted, each counted once.
pub proof fn lemma_shutdown_runs_every_job<J>(p: ThreadPool<J>)
    requires
        p.wf(),
        forall|i: int| 0 <= i < p.size() ==> #[trigger] p.state_of(i) == WorkerState::Terminated,
    ensures
        p.pending().len() == 0,
        p.taken() == p.submitted().len(),
        p.done() == set_int_range(0, p.submitted().len() as int),
        p.done().len() == p.submitted().len(),
{
    let ws = p.workers();
    assert(p.state_of(0) == WorkerState::Terminated);
    assert(!none_in(ws, WorkerState::Terminated));
    assert forall|i: int| 0 <= i < ws.len() implies (#[trigger] ws[i]).state()
        == WorkerState::Terminated by {
        assert(p.state_of(i) == WorkerState::Terminated);
    }
    lemma_count_all(ws, WorkerState::Terminated);
    if !p.is_closed() {
        assert(ws[0].state() != WorkerState::Terminated);
    }
    let n = p.submitted().len() as int;
    assert forall|t: int| #[trigger] p.done().contains(t) <==> 0 <= t < n by {
        if 0 <= t < n && !p.done().contains(t) {
            let i = choose|i: int|
                0 <= i < ws.len() && holds_job(#[trigger] ws[i].state()) && ws[i].job() == t;
            assert(p.state_of(i) == WorkerState::Terminated);
        }
    }
    assert(p.done() =~= set_int_range(0, n));
    lemma_int_range(0, n);
}

/// Shutdown always sends enough: once it has begun, the terminate messages
/// still on the channel are at least as many as the workers still live, so
/// each of them will receive one, whichever worker takes which.
pub proof fn lemma_enough_terminates<J>(p: ThreadPool<J>)
    requires
        p.wf(),
        p.is_closed(),
    ensures
        p.terminates_pending() == p.size() - count_in(p.workers(), WorkerState::Terminated),
        p.terminates_pending() >= count_in(p.workers(), WorkerState::Idle) + count_in(
            p.workers(),
            WorkerState::Busy,
        ),
        forall|k: int|
            p.jobs_pending() <= k < p.pending().len() ==> #[trigger] p.pending()[k] is Terminate,
{
    lemma_count_partition(p.workers());
    assert forall|k: int| p.jobs_pending() <= k < p.pending().len() implies #[trigger] p.pending()[k] is Terminate by {
        assert(!(p.pending()[k] is NewJob));
    }
}

/// Shutting down a pool with no job left leaves exactly one terminate
/// message per worker on the channel, and nothing else: each idle worker
/// takes one and ends.
pub proof fn lemma_idle_pool_shutdown<J>(p: ThreadPool<J>)
    requires
        p.wf(),
        p.is_closed(),
        p.jobs_pending() == 0,
        forall|i: int| 0 <= i < p.size() ==> #[trigger] p.state_of(i) == WorkerState::Idle,
    ensures
        p.pending() == Seq::new(p.size(), |k: int| Message::<J>::Terminate),
{
    let ws = p.workers();
    assert forall|i: int| 0 <= i < ws.len() implies (#[trigger] ws[i]).state()
        != WorkerState::Terminated by {
        assert(p.state_of(i) == WorkerState::Idle);
    }
    lemma_count_none(ws, WorkerState::Terminated);
    assert forall|k: int| 0 <= k < p.pending().len() implies #[trigger] p.pending()[k]
        == Message::<J>::Terminate by {
        assert(!(p.pending()[k] is NewJob));
    }
    assert(p.pending() =~= Seq::new(p.size(), |k: int| Message::<J>::Terminate));
}

/// Dequeue is exclusive: two different workers never hold the same job, and
/// a job that a worker holds has not completed.
pub proof fn lemma_exclusive_dequeue<J>(p: ThreadPool<J>, i: int, j: int)
    requires
        p.wf(),
        0 <= i < p.size(),
        0 <= j < p.size(),
        i != j,
        p.state_of(i) == WorkerState::Busy,
        p.state_of(j) == WorkerState::Busy,
    ensures
        p.job_of(i) != p.job_of(j),
        !p.done().contains(p.job_of(i)),
        !p.done().contains(p.job_of(j)),
{
    let ws = p.workers();
    assert(holds_job(ws[i].state()) && holds_job(ws[j].state()));
}

/// A failed worker loses its job and nothing else: once no worker is live
/// and at least one has consumed a terminate message, the channel holds no
/// job, and each job submitted has either completed or is the one job of a
/// failed worker.
pub proof fn lemma_failures_lose_only_their_jobs<J>(p: ThreadPool<J>, k: int)
    requires
        p.wf(),
        !p.has_live(),
        0 <= k < p.size(),
        p.state_of(k) == WorkerState::Terminated,
    ensures
        p.taken() == p.submitted().len(),
        forall|t: int|
            0 <= t < p.submitted().len() && !(#[trigger] p.done().contains(t)) ==> exists|i: int|
                0 <= i < p.size() && p.state_of(i) == WorkerState::Failed && p.job_of(i) == t,
{
    let ws = p.workers();
    assert(!none_in(ws, WorkerState::Terminated)) by {
        assert(ws[k].state() == WorkerState::Terminated);
    }
    assert forall|t: int|
        0 <= t < p.submitted().len() && !(#[trigger] p.done().contains(t)) implies exists|i: int|
        0 <= i < p.size() && p.state_of(i) == WorkerState::Failed && p.job_of(i) == t by {
        let i = choose|i: int|
            0 <= i < ws.len() && holds_job(#[trigger] ws[i].state()) && ws[i].job() == t;
        assert(!is_live(p.state_of(i)));
    }
}

} // verus!
