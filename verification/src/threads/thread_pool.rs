//! A worker-pool model: a FIFO job source shared by a fixed set of workers,
//! with graceful, idempotent shutdown.
//!
//! The pool is modelled over plain job values. An embedding binary owns the
//! actual operating-system threads and drives them with the transition
//! functions verified here: the source decides which job is handed out next,
//! `worker_step` decides how a worker reacts to what it sees, and
//! `graceful_shutdown` decides what is left to run when the pool closes.

use vstd::prelude::*;

verus! {

/// The configuration error returned when a pool is requested with no workers.
#[derive(Clone, Copy, PartialEq, Eq, Structural, Debug)]
pub enum PoolError {
    ZeroSize,
}

/// The error returned when a job is submitted to a source that has closed.
#[derive(Clone, Copy, PartialEq, Eq, Structural, Debug)]
pub enum SubmitError {
    ShutDown,
}

/// The states a worker passes through: waiting for a job, running one, or
/// gone for good. A terminated worker is never restarted.
#[derive(Clone, Copy, PartialEq, Eq, Structural, Debug)]
pub enum WorkerState {
    Idle,
    Executing,
    Terminated,
}

/// What a worker can observe: a job arrived, the running job finished or
/// faulted, the source reported exhaustion, or the delivery channel itself
/// failed.
#[derive(Clone, Copy, PartialEq, Eq, Structural, Debug)]
pub enum WorkerEvent {
    Delivered,
    Finished,
    Fault,
    Exhausted,
    ChannelFault,
}

/// The transition table of one worker. A fault inside a job sends the worker
/// back to `Idle` — it keeps serving; a channel fault or exhaustion of the
/// source terminates it. An event that cannot reach a state leaves it alone.
pub open spec fn worker_step_spec(state: WorkerState, event: WorkerEvent) -> WorkerState {
    match (state, event) {
        (WorkerState::Idle, WorkerEvent::Delivered) => WorkerState::Executing,
        (WorkerState::Idle, WorkerEvent::Exhausted) => WorkerState::Terminated,
        (WorkerState::Idle, WorkerEvent::ChannelFault) => WorkerState::Terminated,
        (WorkerState::Executing, WorkerEvent::Finished) => WorkerState::Idle,
        (WorkerState::Executing, WorkerEvent::Fault) => WorkerState::Idle,
        (s, _) => s,
    }
}

/// Runs one step of the worker state machine.
pub fn worker_step(state: WorkerState, event: WorkerEvent) -> (r: WorkerState)
    ensures
        r == worker_step_spec(state, event),
{
    match (state, event) {
        (WorkerState::Idle, WorkerEvent::Delivered) => WorkerState::Executing,
        (WorkerState::Idle, WorkerEvent::Exhausted) => WorkerState::Terminated,
        (WorkerState::Idle, WorkerEvent::ChannelFault) => WorkerState::Terminated,
        (WorkerState::Executing, WorkerEvent::Finished) => WorkerState::Idle,
        (WorkerState::Executing, WorkerEvent::Fault) => WorkerState::Idle,
        (s, _) => s,
    }
}

/// One worker: a stable positive id, assigned at pool construction, and the
/// state its thread of execution is in.
#[derive(Clone, Copy, PartialEq, Eq, Structural, Debug)]
pub struct Worker {
    pub id: usize,
    pub state: WorkerState,
}

/// What a worker gets back when it asks the source for work.
pub enum TakeOutcome<T> {
    /// The oldest queued job.
    Job(T),
    /// Nothing queued yet, but the source is still open.
    WouldBlock,
    /// The source is closed and fully drained.
    Exhausted,
}

/// The shared hand-off point between submitters and workers: an ordered,
/// unbounded queue of pending jobs, plus the history of every job already
/// handed out, in the order it was handed out.
pub struct JobSource<T> {
    open: bool,
    pending: Vec<T>,
    delivered: Ghost<Seq<T>>,
}

impl<T> JobSource<T> {
    /// Whether the source still accepts submissions.
    pub closed spec fn is_open(&self) -> bool {
        self.open
    }

    /// The jobs waiting to be handed out, oldest first.
    pub closed spec fn pending_jobs(&self) -> Seq<T> {
        self.pending@
    }

    /// The jobs already handed out, in hand-out order.
    pub closed spec fn delivered_jobs(&self) -> Seq<T> {
        self.delivered@
    }

    /// Every job ever accepted, in submission order.
    pub open spec fn submitted_jobs(&self) -> Seq<T> {
        self.delivered_jobs() + self.pending_jobs()
    }

    /// A fresh, open, empty source.
    pub fn new() -> (r: JobSource<T>)
        ensures
            r.is_open(),
            r.pending_jobs().len() == 0,
            r.delivered_jobs().len() == 0,
    {
        JobSource { open: true, pending: Vec::new(), delivered: Ghost(Seq::empty()) }
    }

    /// Accepts a job while open, appending it behind every earlier submission;
    /// rejects it once closed, leaving the source untouched.
    pub fn submit(&mut self, job: T) -> (r: Result<(), SubmitError>)
        ensures
            final(self).is_open() == old(self).is_open(),
            final(self).delivered_jobs() == old(self).delivered_jobs(),
            old(self).is_open() ==> r is Ok && final(self).pending_jobs() == old(self).pending_jobs().push(job) && final(self).submitted_jobs() == old(self).submitted_jobs().push(job),
            !old(self).is_open() ==> r == Result::<(), SubmitError>::Err(SubmitError::ShutDown)
                && *final(self) == *old(self),
    {
        if self.open {
            self.pending.push(job);
            proof {
                assert(self.submitted_jobs() =~= old(self).submitted_jobs().push(job));
            }
            Ok(())
        } else {
            Err(SubmitError::ShutDown)
        }
    }

    /// Closes the source: no further submissions, queued jobs still deliverable.
    pub fn close(&mut self)
        ensures
            !final(self).is_open(),
            final(self).pending_jobs() == old(self).pending_jobs(),
            final(self).delivered_jobs() == old(self).delivered_jobs(),
    {
        self.open = false;
    }

    /// Hands out the oldest queued job, or reports why none can be handed out.
    /// Exactly one caller receives any given job, and hand-out order is
    /// submission order.
    pub fn take(&mut self) -> (r: TakeOutcome<T>)
        ensures
            final(self).is_open() == old(self).is_open(),
            final(self).submitted_jobs() == old(self).submitted_jobs(),
            old(self).pending_jobs().len() > 0 ==> (r matches TakeOutcome::Job(j) && j == old(self).pending_jobs()[0] && final(self).pending_jobs() == old(self).pending_jobs().remove(0)
                && final(self).delivered_jobs() == old(self).delivered_jobs().push(j)),
            old(self).pending_jobs().len() == 0 && old(self).is_open() ==> r is WouldBlock && *final(self) == *old(self),
            old(self).pending_jobs().len() == 0 && !old(self).is_open() ==> r is Exhausted && *final(self) == *old(self),
    {
        if self.pending.len() > 0 {
            let j = self.pending.remove(0);
            self.delivered = Ghost(self.delivered@.push(j));
            proof {
                assert(self.submitted_jobs() =~= old(self).submitted_jobs());
            }
            TakeOutcome::Job(j)
        } else if self.open {
            TakeOutcome::WouldBlock
        } else {
            TakeOutcome::Exhausted
        }
    }

    /// Removes every queued job at once, in submission order — the drain that
    /// a graceful shutdown performs.
    pub fn drain(&mut self) -> (r: Vec<T>)
        ensures
            final(self).is_open() == old(self).is_open(),
            final(self).submitted_jobs() == old(self).submitted_jobs(),
            r@ == old(self).pending_jobs(),
            final(self).pending_jobs().len() == 0,
            final(self).delivered_jobs() == old(self).delivered_jobs() + old(self).pending_jobs(),
    {
        let ghost orig_pending: Seq<T> = self.pending@;
        let ghost orig_delivered: Seq<T> = self.delivered@;
        let mut out: Vec<T> = Vec::new();
        while self.pending.len() > 0
            invariant
                self.open == old(self).is_open(),
                orig_pending == out@ + self.pending@,
                self.delivered@ == orig_delivered + out@,
            decreases self.pending@.len(),
        {
            let j = self.pending.remove(0);
            self.delivered = Ghost(self.delivered@.push(j));
            out.push(j);
            proof {
                assert(orig_pending =~= out@ + self.pending@);
                assert(self.delivered@ =~= orig_delivered + out@);
            }
        }
        proof {
            assert(out@ =~= orig_pending);
            assert(self.delivered_jobs() =~= old(self).delivered_jobs() + old(self).pending_jobs());
            assert(self.submitted_jobs() =~= old(self).submitted_jobs());
        }
        out
    }
}

/// Law: hand-out is first-in-first-out. At every moment the hand-out history
/// is a prefix of the submission history, so a job submitted strictly before
/// another is never handed out after it.
pub proof fn lemma_delivery_is_fifo<T>(s: JobSource<T>)
    ensures
        s.delivered_jobs() == s.submitted_jobs().take(s.delivered_jobs().len() as int),
        forall|i: int|
            0 <= i < s.delivered_jobs().len() ==> s.delivered_jobs()[i] == s.submitted_jobs()[i],
{
    assert(s.delivered_jobs() =~= s.submitted_jobs().take(s.delivered_jobs().len() as int));
}

/// Law: once the backlog is empty, every job ever submitted has been handed
/// out exactly once — the hand-out history equals the submission history, so
/// nothing was lost and nothing was handed out twice.
pub proof fn lemma_drained_source_delivered_everything<T>(s: JobSource<T>)
    requires
        s.pending_jobs().len() == 0,
    ensures
        s.delivered_jobs() == s.submitted_jobs(),
        s.delivered_jobs().to_multiset() == s.submitted_jobs().to_multiset(),
{
    assert(s.delivered_jobs() =~= s.submitted_jobs());
}

/// The pool: the submission handle of one job source and a fixed set of
/// workers, created together and shut down together.
pub struct ThreadPool<T> {
    pub source: JobSource<T>,
    pub workers: Vec<Worker>,
}

impl<T> ThreadPool<T> {
    /// The number of workers, fixed at construction.
    pub open spec fn size(&self) -> int {
        self.workers@.len() as int
    }

    /// Worker ids are dense: the i-th worker carries id i + 1, so ids are
    /// exactly 1..=size with no gaps or duplicates.
    pub open spec fn wf(&self) -> bool {
        &&& self.workers@.len() > 0
        &&& forall|i: int|
            0 <= i < self.workers@.len() ==> (#[trigger] self.workers@[i]).id == i + 1
    }

    /// Whether the pool still accepts submissions.
    pub open spec fn is_running(&self) -> bool {
        self.source.is_open()
    }

    pub open spec fn pending_jobs(&self) -> Seq<T> {
        self.source.pending_jobs()
    }

    pub open spec fn delivered_jobs(&self) -> Seq<T> {
        self.source.delivered_jobs()
    }

    pub open spec fn submitted_jobs(&self) -> Seq<T> {
        self.source.submitted_jobs()
    }

    /// Builds a pool of `size` workers with ids 1..=size, all idle, sharing
    /// one open, empty source. A size of zero is a configuration error and
    /// builds nothing.
    pub fn new(size: usize) -> (r: Result<ThreadPool<T>, PoolError>)
        ensures
            size == 0 ==> r == Result::<ThreadPool<T>, PoolError>::Err(PoolError::ZeroSize),
            size > 0 ==> (r matches Ok(p) && p.wf() && p.size() == size && p.is_running()
                && p.pending_jobs().len() == 0 && p.delivered_jobs().len() == 0 && forall|i: int|
                0 <= i < size ==> (#[trigger] p.workers@[i]).state == WorkerState::Idle),
    {
        if size == 0 {
            return Err(PoolError::ZeroSize);
        }
        let mut workers: Vec<Worker> = Vec::new();
        let mut i: usize = 0;
        while i < size
            invariant
                i <= size,
                workers@.len() == i as int,
                forall|k: int|
                    0 <= k < i ==> (#[trigger] workers@[k]).id == k + 1 && workers@[k].state
                        == WorkerState::Idle,
            decreases size - i,
        {
            workers.push(Worker { id: i + 1, state: WorkerState::Idle });
            i += 1;
        }
        Ok(ThreadPool { source: JobSource::new(), workers })
    }

    /// Hands a job to the source. While the pool runs the job is queued behind
    /// every earlier submission; once the pool has shut down the submission is
    /// rejected and nothing changes.
    pub fn enqueue(&mut self, job: T) -> (r: Result<(), SubmitError>)
        ensures
            final(self).workers@ == old(self).workers@,
            final(self).is_running() == old(self).is_running(),
            final(self).delivered_jobs() == old(self).delivered_jobs(),
            old(self).is_running() ==> r is Ok && final(self).pending_jobs() == old(self).pending_jobs().push(job) && final(self).submitted_jobs() == old(self).submitted_jobs().push(job),
            !old(self).is_running() ==> r == Result::<(), SubmitError>::Err(SubmitError::ShutDown)
                && *final(self) == *old(self),
    {
        self.source.submit(job)
    }

    /// Closes the source and drains what is queued: afterwards the pool
    /// accepts nothing further, the backlog is returned in submission order
    /// for its jobs to be run to completion, and every worker is terminated.
    /// Shutting an already shut-down pool again returns an empty backlog and
    /// changes nothing it finds.
    pub fn graceful_shutdown(&mut self) -> (r: Vec<T>)
        ensures
            !final(self).is_running(),
            final(self).pending_jobs().len() == 0,
            r@ == old(self).pending_jobs(),
            final(self).delivered_jobs() == old(self).delivered_jobs() + old(self).pending_jobs(),
            final(self).submitted_jobs() == old(self).submitted_jobs(),
            final(self).workers@.len() == old(self).workers@.len(),
            forall|i: int|
                0 <= i < old(self).workers@.len() ==> (#[trigger] final(self).workers@[i]).id == old(self).workers@[i].id && final(self).workers@[i].state == WorkerState::Terminated,
            final(self).wf() == old(self).wf(),
    {
        self.source.close();
        let backlog = self.source.drain();
        let mut terminated: Vec<Worker> = Vec::new();
        let mut i: usize = 0;
        while i < self.workers.len()
            invariant
                i <= self.workers@.len(),
                terminated@.len() == i as int,
                forall|k: int|
                    0 <= k < i ==> (#[trigger] terminated@[k]).id == self.workers@[k].id
                        && terminated@[k].state == WorkerState::Terminated,
            decreases self.workers@.len() - i,
        {
            let id = self.workers[i].id;
            terminated.push(Worker { id, state: WorkerState::Terminated });
            i += 1;
        }
        self.workers = terminated;
        proof {
            assert forall|k: int|
                0 <= k < self.workers@.len() implies (#[trigger] self.workers@[k]).id == old(
                self,
            ).workers@[k].id by {}
            if old(self).wf() {
                assert(self.wf());
            }
            if self.wf() {
                assert forall|k: int|
                    0 <= k < old(self).workers@.len() implies (#[trigger] old(
                    self,
                ).workers@[k]).id == k + 1 by {
                    assert(self.workers@[k].id == k + 1);
                }
                assert(old(self).wf());
            }
        }
        backlog
    }
}

/// Law: whenever the pool's backlog is empty — as it is once
/// `graceful_shutdown` returns — every job submitted up to that point has
/// been handed out exactly once, with no loss and no duplication.
pub proof fn lemma_shutdown_delivers_every_submission<T>(p: ThreadPool<T>)
    requires
        p.pending_jobs().len() == 0,
    ensures
        p.delivered_jobs() == p.submitted_jobs(),
        p.delivered_jobs().to_multiset() == p.submitted_jobs().to_multiset(),
{
    lemma_drained_source_delivered_everything(p.source);
}

/// Law: the pool hands jobs out in submission order — its hand-out history
/// is always a prefix of its submission history.
pub proof fn lemma_pool_delivery_is_fifo<T>(p: ThreadPool<T>)
    ensures
        p.delivered_jobs() == p.submitted_jobs().take(p.delivered_jobs().len() as int),
{
    lemma_delivery_is_fifo(p.source);
}

/// Law: in a well-formed pool the worker ids are distinct and every one lies
/// in the closed range [1, size], so a job always observes an id in range.
pub proof fn lemma_worker_ids_in_range<T>(p: ThreadPool<T>)
    requires
        p.wf(),
    ensures
        forall|i: int| 0 <= i < p.size() ==> 1 <= (#[trigger] p.workers@[i]).id <= p.size(),
        forall|i: int, j: int|
            0 <= i < j < p.size() ==> (#[trigger] p.workers@[i]).id != (#[trigger] p.workers@[j]).id,
{
}

} // verus!
