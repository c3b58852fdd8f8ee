//! The worker pool itself: the dispatch queue, the row of workers, submission,
//! teardown, and the conservation law that no submitted job is ever lost,
//! duplicated, or run by more than one worker.
//!
//! The pool is a state machine. The embedding program owns the operating-system
//! threads and the lock around the consuming end of the queue; each event it
//! observes (a worker received a message, a worker finished a job, a join
//! returned) is one method call here, and the contracts say exactly what the
//! event does to the pool. The conserved quantity is the multiset of jobs:
//! every job ever accepted is either still queued, in the hands of exactly one
//! worker, or recorded as executed by exactly one worker.

use crate::message::{jobs_of, lemma_push_job, lemma_push_terminate, terminate_count, Message};
use crate::worker::{
    held_jobs, job_in_hand, lemma_all_terminated, lemma_no_hands_no_held, lemma_worker_push,
    lemma_worker_update, terminated_count, Worker, WorkerPhase,
};
use vstd::multiset::Multiset;
use vstd::prelude::*;

verus! {

broadcast use vstd::seq_lib::group_to_multiset_ensures;

/// The failure reported when a pool is asked for without at least one worker.
#[derive(Debug, PartialEq, Eq, Structural)]
pub struct PoolCreationError;

impl PoolCreationError {
    /// A human-readable description of the failure, in place of a formatting
    /// trait.
    pub fn message(&self) -> (m: String)
        ensures
            m@ == "failed to create thread pool"@,
    {
        broadcast use vstd::string::to_string_from_display_ensures_for_str;

        "failed to create thread pool".to_string()
    }
}

/// A fixed-size worker pool over jobs of type `J`.
///
/// The queue field is the dispatch channel's contents in enqueue order; the
/// ghost fields record every job ever accepted and every job ever executed
/// (each with the index of the one worker that ran it).
pub struct ThreadPool<J> {
    workers: Vec<Worker<J>>,
    pending: Vec<Message<J>>,
    shutdown_started: bool,
    submitted: Ghost<Seq<J>>,
    executed: Ghost<Seq<(int, J)>>,
}

impl<J> ThreadPool<J> {
    /// How many workers the pool owns.
    pub closed spec fn num_workers(self) -> nat {
        self.workers@.len()
    }

    /// The messages on the dispatch queue, in enqueue order.
    pub closed spec fn msgs(self) -> Seq<Message<J>> {
        self.pending@
    }

    /// The jobs still queued, in enqueue order.
    pub closed spec fn queued_jobs(self) -> Seq<J> {
        jobs_of(self.pending@)
    }

    /// How many termination messages are still queued.
    pub closed spec fn queued_terminates(self) -> nat {
        terminate_count(self.pending@)
    }

    /// Whether teardown has begun.
    pub closed spec fn is_shutting_down(self) -> bool {
        self.shutdown_started
    }

    /// Every job the pool has ever accepted, in submission order.
    pub closed spec fn submitted_jobs(self) -> Seq<J> {
        self.submitted@
    }

    /// Every executed job, in completion order, each with the index of the one
    /// worker that ran it.
    pub closed spec fn executed_records(self) -> Seq<(int, J)> {
        self.executed@
    }

    /// Every executed job, in completion order.
    pub closed spec fn executed_jobs(self) -> Seq<J> {
        self.executed@.map_values(|e: (int, J)| e.1)
    }

    /// The phase of worker `w`'s receive loop.
    pub closed spec fn worker_phase(self, w: int) -> WorkerPhase {
        self.workers@[w].phase
    }

    /// The job worker `w` is running, if any.
    pub closed spec fn worker_holding(self, w: int) -> Option<J> {
        self.workers@[w].holding@
    }

    /// Whether worker `w`'s thread handle has been taken at teardown.
    pub closed spec fn worker_joined(self, w: int) -> bool {
        self.workers@[w].joined
    }

    /// The pool's invariant, established by construction and preserved by
    /// every event.
    ///
    /// - A worker runs a job exactly while its receive loop is busy.
    /// - Workers are numbered by their position in the row.
    /// - A thread handle is taken only once its receive loop has ended.
    /// - Each executed record names one worker of the pool.
    /// - Termination messages exist only during teardown, and during teardown
    ///   the terminations still queued and the workers already ended add up to
    ///   one termination per worker.
    /// - Conservation: the accepted jobs are exactly the executed jobs, the
    ///   jobs in workers' hands, and the jobs still queued.
    pub closed spec fn wf(self) -> bool {
        &&& forall|i: int|
            0 <= i < self.workers@.len() ==> ((#[trigger] self.workers@[i]).phase is Busy
                <==> self.workers@[i].holding@ is Some)
        &&& forall|i: int| 0 <= i < self.workers@.len() ==> (#[trigger] self.workers@[i]).id == i
        &&& forall|i: int|
            0 <= i < self.workers@.len() ==> ((#[trigger] self.workers@[i]).joined
                ==> self.workers@[i].phase is Terminated)
        &&& forall|k: int|
            0 <= k < self.executed@.len() ==> 0 <= (#[trigger] self.executed@[k]).0
                < self.workers@.len()
        &&& !self.shutdown_started ==> terminate_count(self.pending@) == 0
        &&& !self.shutdown_started ==> terminated_count(self.workers@) == 0
        &&& self.shutdown_started ==> terminate_count(self.pending@) + terminated_count(
            self.workers@,
        ) == self.workers@.len()
        &&& self.submitted@.to_multiset() == self.executed@.map_values(
            |e: (int, J)| e.1,
        ).to_multiset().add(held_jobs(self.workers@)).add(jobs_of(self.pending@).to_multiset())
    }

    /// Builds a pool of exactly `size` workers, all waiting, with an empty
    /// dispatch queue; a pool of no workers at all is refused. The caller's
    /// side of the construction (spawning one thread per worker) happens only
    /// on success.
    pub fn new(size: usize) -> (r: Result<ThreadPool<J>, PoolCreationError>)
        ensures
            size == 0 <==> r is Err,
            r matches Ok(p) ==> {
                &&& p.wf()
                &&& p.num_workers() == size
                &&& !p.is_shutting_down()
                &&& p.msgs() =~= Seq::<Message<J>>::empty()
                &&& p.queued_jobs() =~= Seq::<J>::empty()
                &&& p.queued_terminates() == 0
                &&& p.submitted_jobs() =~= Seq::<J>::empty()
                &&& p.executed_records() =~= Seq::<(int, J)>::empty()
                &&& p.executed_jobs() =~= Seq::<J>::empty()
                &&& forall|w: int| 0 <= w < size ==> (#[trigger] p.worker_phase(w)) is Waiting
                &&& forall|w: int| 0 <= w < size ==> !(#[trigger] p.worker_joined(w))
            },
    {
        if size == 0 {
            return Err(PoolCreationError);
        }
        let mut workers: Vec<Worker<J>> = Vec::new();
        let mut id: usize = 0;
        while id < size
            invariant
                id <= size,
                workers@.len() == id,
                forall|i: int|
                    0 <= i < id ==> {
                        &&& (#[trigger] workers@[i]).phase is Waiting
                        &&& workers@[i].holding@ is None
                        &&& workers@[i].id == i
                        &&& !workers@[i].joined
                    },
                held_jobs(workers@) =~= Multiset::<J>::empty(),
                terminated_count(workers@) == 0,
            decreases size - id,
        {
            let ghost before = workers@;
            let w = Worker::new(id);
            proof {
                lemma_worker_push(before, w);
            }
            workers.push(w);
            id += 1;
        }
        let pool = ThreadPool {
            workers,
            pending: Vec::new(),
            shutdown_started: false,
            submitted: Ghost(Seq::empty()),
            executed: Ghost(Seq::empty()),
        };
        proof {
            broadcast use vstd::multiset::lemma_multiset_empty_len;

            assert(pool.executed@.map_values(|e: (int, J)| e.1) =~= Seq::<J>::empty());
            assert(jobs_of(pool.pending@) =~= Seq::<J>::empty());
            assert(pool.submitted@.to_multiset() =~= pool.executed@.map_values(
                |e: (int, J)| e.1,
            ).to_multiset().add(held_jobs(pool.workers@)).add(
                jobs_of(pool.pending@).to_multiset(),
            ));
        }
        Ok(pool)
    }

    /// Submits one unit of work: wraps it as a work message and enqueues it.
    /// Enqueueing never waits for execution.
    ///
    /// Submission policy after teardown has begun: the job is rejected, the
    /// pool is left exactly as it was, and the caller learns so from the
    /// returned flag. Before teardown, every submission is accepted.
    pub fn execute(&mut self, job: J) -> (accepted: bool)
        requires
            old(self).wf(),
        ensures
            final(self).wf(),
            accepted == !old(self).is_shutting_down(),
            !accepted ==> *final(self) == *old(self),
            accepted ==> {
                &&& final(self).msgs() =~= old(self).msgs().push(Message::NewJob(job))
                &&& final(self).queued_jobs() =~= old(self).queued_jobs().push(job)
                &&& final(self).queued_terminates() == old(self).queued_terminates()
                &&& final(self).submitted_jobs() =~= old(self).submitted_jobs().push(job)
                &&& final(self).executed_records() == old(self).executed_records()
                &&& final(self).executed_jobs() == old(self).executed_jobs()
                &&& final(self).num_workers() == old(self).num_workers()
                &&& !final(self).is_shutting_down()
                &&& forall|i: int|
                    0 <= i < old(self).num_workers() ==> {
                        &&& final(self).worker_phase(i) == old(self).worker_phase(i)
                        &&& final(self).worker_holding(i) == old(self).worker_holding(i)
                        &&& final(self).worker_joined(i) == old(self).worker_joined(i)
                    }
            },
    {
        if self.shutdown_started {
            return false;
        }
        let ghost j = job;
        proof {
            self.submitted@ = self.submitted@.push(j);
        }
        let ghost before = self.pending@;
        self.pending.push(Message::NewJob(job));
        proof {
            lemma_push_job(before, j);
            assert(self.submitted@.to_multiset() =~= old(self).submitted@.to_multiset().insert(j));
            assert(jobs_of(self.pending@).to_multiset() =~= jobs_of(before).to_multiset().insert(
                j,
            ));
            assert(self.submitted@.to_multiset() =~= self.executed@.map_values(
                |e: (int, J)| e.1,
            ).to_multiset().add(held_jobs(self.workers@)).add(
                jobs_of(self.pending@).to_multiset(),
            ));
        }
        true
    }

    /// Begins teardown: sends exactly one termination message per worker, all
    /// before any worker thread is waited on, so that no join can begin while
    /// a worker still has no termination message queued behind the remaining
    /// work.
    pub fn begin_shutdown(&mut self)
        requires
            old(self).wf(),
            !old(self).is_shutting_down(),
        ensures
            final(self).wf(),
            final(self).is_shutting_down(),
            final(self).queued_terminates() == final(self).num_workers(),
            final(self).msgs() =~= old(self).msgs() + Seq::new(
                old(self).num_workers(),
                |k: int| Message::Terminate,
            ),
            final(self).msgs().len() == old(self).msgs().len() + old(self).num_workers(),
            final(self).queued_jobs() =~= old(self).queued_jobs(),
            final(self).submitted_jobs() == old(self).submitted_jobs(),
            final(self).executed_records() == old(self).executed_records(),
            final(self).executed_jobs() == old(self).executed_jobs(),
            final(self).num_workers() == old(self).num_workers(),
            forall|i: int|
                0 <= i < old(self).num_workers() ==> {
                    &&& final(self).worker_phase(i) == old(self).worker_phase(i)
                    &&& final(self).worker_holding(i) == old(self).worker_holding(i)
                    &&& final(self).worker_joined(i) == old(self).worker_joined(i)
                },
    {
        self.shutdown_started = true;
        let n = self.workers.len();
        let mut i: usize = 0;
        while i < n
            invariant
                i <= n,
                n == self.workers@.len(),
                self.workers@ == old(self).workers@,
                self.shutdown_started,
                self.submitted@ == old(self).submitted@,
                self.executed@ == old(self).executed@,
                jobs_of(self.pending@) =~= jobs_of(old(self).pending@),
                terminate_count(self.pending@) == terminate_count(old(self).pending@) + i,
                self.pending@ =~= old(self).pending@ + Seq::new(
                    i as nat,
                    |k: int| Message::Terminate,
                ),
                self.pending@.len() == old(self).pending@.len() + i,
            decreases n - i,
        {
            let ghost before = self.pending@;
            self.pending.push(Message::Terminate);
            proof {
                lemma_push_terminate(before);
            }
            i += 1;
        }
        proof {
            assert(jobs_of(self.pending@).to_multiset() == jobs_of(
                old(self).pending@,
            ).to_multiset());
        }
    }

    /// One worker receives the next message: the front of the queue is
    /// consumed by exactly worker `w`, no other worker changes, and the worker
    /// reacts as its receive loop says — a work message makes it busy with
    /// that job, a termination message ends its loop.
    ///
    /// The returned job is handed to the caller to run *after* this call, so
    /// the lock the caller holds around the queue is released before the job
    /// executes; `dispatch_transition` is the spec-level face of this event,
    /// used by the concurrency law.
    pub fn worker_receive(&mut self, w: usize) -> (job: Option<J>)
        requires
            old(self).wf(),
            w < old(self).num_workers(),
            old(self).worker_phase(w as int) is Waiting,
            old(self).msgs().len() > 0,
        ensures
            final(self).wf(),
            dispatch_transition(*old(self), w as int, *final(self)),
            final(self).msgs() =~= old(self).msgs().drop_first(),
            job == (match old(self).msgs().first() {
                Message::NewJob(j) => Some(j),
                Message::Terminate => None::<J>,
            }),
            (match old(self).msgs().first() {
                Message::NewJob(j) => {
                    &&& final(self).worker_phase(w as int) is Busy
                    &&& final(self).worker_holding(w as int) == Some(j)
                    &&& old(self).queued_jobs().len() > 0
                    &&& old(self).queued_jobs().first() == j
                    &&& final(self).queued_jobs() =~= old(self).queued_jobs().drop_first()
                    &&& final(self).queued_terminates() == old(self).queued_terminates()
                },
                Message::Terminate => {
                    &&& final(self).worker_phase(w as int) is Terminated
                    &&& final(self).queued_jobs() =~= old(self).queued_jobs()
                    &&& final(self).queued_terminates() + 1 == old(self).queued_terminates()
                },
            }),
            final(self).submitted_jobs() == old(self).submitted_jobs(),
            final(self).executed_records() == old(self).executed_records(),
            final(self).executed_jobs() == old(self).executed_jobs(),
            final(self).num_workers() == old(self).num_workers(),
            final(self).is_shutting_down() == old(self).is_shutting_down(),
            final(self).worker_joined(w as int) == old(self).worker_joined(w as int),
            forall|i: int|
                0 <= i < old(self).num_workers() && i != w ==> {
                    &&& final(self).worker_phase(i) == old(self).worker_phase(i)
                    &&& final(self).worker_holding(i) == old(self).worker_holding(i)
                    &&& final(self).worker_joined(i) == old(self).worker_joined(i)
                },
    {
        let ghost pending_before = self.pending@;
        let ghost ws_before = self.workers@;
        let msg = self.pending.remove(0);
        proof {
            assert(pending_before.remove(0) =~= pending_before.drop_first());
        }
        match msg {
            Message::NewJob(job) => {
                let ghost j = job;
                let wid = self.workers[w].id;
                let wjoined = self.workers[w].joined;
                let replacement = Worker {
                    id: wid,
                    phase: WorkerPhase::Busy,
                    holding: Ghost(Some(j)),
                    joined: wjoined,
                };
                let slot = &mut self.workers[w];
                *slot = replacement;
                proof {
                    lemma_worker_update(ws_before, w as int, replacement);
                    let qb = jobs_of(pending_before);
                    let qa = jobs_of(self.pending@);
                    assert(qb == seq![j] + jobs_of(pending_before.drop_first()));
                    assert(qa =~= qb.drop_first());
                    assert(qb[0] == j && qb.contains(j));
                    assert(qa =~= qb.remove(0));
                    assert(qa.to_multiset() =~= qb.to_multiset().remove(j));
                    assert(qb.to_multiset().count(j) > 0);
                    let held_before = held_jobs(ws_before);
                    let held_after = held_jobs(self.workers@);
                    assert(job_in_hand(ws_before[w as int]) =~= Multiset::<J>::empty());
                    assert(job_in_hand(replacement) =~= Multiset::<J>::empty().insert(j));
                    let exec_jobs = self.executed@.map_values(|e: (int, J)| e.1);
                    assert forall|v: J|
                        self.submitted@.to_multiset().count(v) == exec_jobs.to_multiset().add(
                            held_after,
                        ).add(qa.to_multiset()).count(v) by {
                        assert(held_after.add(job_in_hand(ws_before[w as int])).count(v)
                            == held_before.add(job_in_hand(replacement)).count(v));
                    }
                    assert(self.submitted@.to_multiset() =~= exec_jobs.to_multiset().add(
                        held_after,
                    ).add(qa.to_multiset()));
                }
                Some(job)
            },
            Message::Terminate => {
                let wid = self.workers[w].id;
                let wjoined = self.workers[w].joined;
                let replacement = Worker {
                    id: wid,
                    phase: WorkerPhase::Terminated,
                    holding: Ghost(None),
                    joined: wjoined,
                };
                let slot = &mut self.workers[w];
                *slot = replacement;
                proof {
                    lemma_worker_update(ws_before, w as int, replacement);
                    let qb = jobs_of(pending_before);
                    let qa = jobs_of(self.pending@);
                    assert(qb == jobs_of(pending_before.drop_first()));
                    assert(qa =~= qb);
                    assert(terminate_count(pending_before) == 1 + terminate_count(
                        pending_before.drop_first(),
                    ));
                    let held_before = held_jobs(ws_before);
                    let held_after = held_jobs(self.workers@);
                    assert(job_in_hand(ws_before[w as int]) =~= Multiset::<J>::empty());
                    assert(job_in_hand(replacement) =~= Multiset::<J>::empty());
                    assert forall|v: J| held_after.count(v) == held_before.count(v) by {
                        assert(held_after.add(job_in_hand(ws_before[w as int])).count(v)
                            == held_before.add(job_in_hand(replacement)).count(v));
                    }
                    assert(held_after =~= held_before);
                }
                None
            },
        }
    }

    /// One worker finishes the job it was running: the job moves from the
    /// worker's hands to the executed records, under that worker's index, and
    /// the worker goes back to waiting for its next message.
    pub fn worker_finish(&mut self, w: usize)
        requires
            old(self).wf(),
            w < old(self).num_workers(),
            old(self).worker_phase(w as int) is Busy,
        ensures
            final(self).wf(),
            final(self).worker_phase(w as int) is Waiting,
            final(self).worker_holding(w as int) is None,
            old(self).worker_holding(w as int) matches Some(j) ==> {
                &&& final(self).executed_records() =~= old(self).executed_records().push(
                    (w as int, j),
                )
                &&& final(self).executed_jobs() =~= old(self).executed_jobs().push(j)
            },
            final(self).msgs() == old(self).msgs(),
            final(self).queued_jobs() == old(self).queued_jobs(),
            final(self).queued_terminates() == old(self).queued_terminates(),
            final(self).submitted_jobs() == old(self).submitted_jobs(),
            final(self).num_workers() == old(self).num_workers(),
            final(self).is_shutting_down() == old(self).is_shutting_down(),
            final(self).worker_joined(w as int) == old(self).worker_joined(w as int),
            forall|i: int|
                0 <= i < old(self).num_workers() && i != w ==> {
                    &&& final(self).worker_phase(i) == old(self).worker_phase(i)
                    &&& final(self).worker_holding(i) == old(self).worker_holding(i)
                    &&& final(self).worker_joined(i) == old(self).worker_joined(i)
                },
    {
        let ghost ws_before = self.workers@;
        let ghost j = match self.workers@[w as int].holding@ {
            Some(held) => held,
            None => arbitrary(),
        };
        let wid = self.workers[w].id;
        let wjoined = self.workers[w].joined;
        let replacement = Worker {
            id: wid,
            phase: WorkerPhase::Waiting,
            holding: Ghost(None),
            joined: wjoined,
        };
        let slot = &mut self.workers[w];
        *slot = replacement;
        proof {
            let exec_before = self.executed@.map_values(|e: (int, J)| e.1);
            self.executed@ = self.executed@.push((w as int, j));
            let exec_after = self.executed@.map_values(|e: (int, J)| e.1);
            assert(exec_after =~= exec_before.push(j));
            lemma_worker_update(ws_before, w as int, replacement);
            let held_before = held_jobs(ws_before);
            let held_after = held_jobs(self.workers@);
            assert(job_in_hand(ws_before[w as int]) =~= Multiset::<J>::empty().insert(j));
            assert(job_in_hand(replacement) =~= Multiset::<J>::empty());
            let q = jobs_of(self.pending@);
            assert forall|v: J|
                self.submitted@.to_multiset().count(v) == exec_after.to_multiset().add(
                    held_after,
                ).add(q.to_multiset()).count(v) by {
                assert(held_after.add(job_in_hand(ws_before[w as int])).count(v)
                    == held_before.add(job_in_hand(replacement)).count(v));
                assert(exec_after.to_multiset() =~= exec_before.to_multiset().insert(j));
            }
            assert(self.submitted@.to_multiset() =~= exec_after.to_multiset().add(held_after).add(
                q.to_multiset(),
            ));
        }
    }

    /// Teardown takes each worker's thread handle exactly once, as the join on
    /// that thread returns; a second take finds the handle already gone and
    /// reports so, making the join step idempotent. A join returns only after
    /// the worker's receive loop has ended, so the handle is taken only from a
    /// terminated worker.
    pub fn worker_take_thread(&mut self, w: usize) -> (had: bool)
        requires
            old(self).wf(),
            w < old(self).num_workers(),
            old(self).worker_phase(w as int) is Terminated,
        ensures
            final(self).wf(),
            had == !old(self).worker_joined(w as int),
            final(self).worker_joined(w as int),
            final(self).worker_phase(w as int) is Terminated,
            final(self).worker_holding(w as int) == old(self).worker_holding(w as int),
            final(self).msgs() == old(self).msgs(),
            final(self).queued_jobs() == old(self).queued_jobs(),
            final(self).queued_terminates() == old(self).queued_terminates(),
            final(self).submitted_jobs() == old(self).submitted_jobs(),
            final(self).executed_records() == old(self).executed_records(),
            final(self).executed_jobs() == old(self).executed_jobs(),
            final(self).num_workers() == old(self).num_workers(),
            final(self).is_shutting_down() == old(self).is_shutting_down(),
            forall|i: int|
                0 <= i < old(self).num_workers() && i != w ==> {
                    &&& final(self).worker_phase(i) == old(self).worker_phase(i)
                    &&& final(self).worker_holding(i) == old(self).worker_holding(i)
                    &&& final(self).worker_joined(i) == old(self).worker_joined(i)
                },
    {
        let ghost ws_before = self.workers@;
        let ghost hold = self.workers@[w as int].holding@;
        let wid = self.workers[w].id;
        let had = !self.workers[w].joined;
        let replacement = Worker {
            id: wid,
            phase: WorkerPhase::Terminated,
            holding: Ghost(hold),
            joined: true,
        };
        let slot = &mut self.workers[w];
        *slot = replacement;
        proof {
            lemma_worker_update(ws_before, w as int, replacement);
            let held_before = held_jobs(ws_before);
            let held_after = held_jobs(self.workers@);
            assert(job_in_hand(ws_before[w as int]) == job_in_hand(replacement));
            assert forall|v: J| held_after.count(v) == held_before.count(v) by {
                assert(held_after.add(job_in_hand(ws_before[w as int])).count(v)
                    == held_before.add(job_in_hand(replacement)).count(v));
            }
            assert(held_after =~= held_before);
        }
        had
    }

    /// How many workers the pool owns.
    pub fn worker_count(&self) -> (n: usize)
        ensures
            n == self.num_workers(),
    {
        self.workers.len()
    }

    /// How many messages are still queued.
    pub fn queue_len(&self) -> (n: usize)
        ensures
            n == self.msgs().len(),
    {
        self.pending.len()
    }

    /// Whether teardown has begun.
    pub fn shutting_down(&self) -> (s: bool)
        ensures
            s == self.is_shutting_down(),
    {
        self.shutdown_started
    }

    /// The phase of worker `w`'s receive loop.
    pub fn phase_of(&self, w: usize) -> (p: WorkerPhase)
        requires
            w < self.num_workers(),
        ensures
            p == self.worker_phase(w as int),
    {
        self.workers[w].phase
    }

    /// Whether worker `w`'s thread handle has already been taken.
    pub fn thread_taken(&self, w: usize) -> (t: bool)
        requires
            w < self.num_workers(),
        ensures
            t == self.worker_joined(w as int),
    {
        self.workers[w].joined
    }

    /// Teardown is complete: it began, every worker's receive loop has ended,
    /// and every worker's thread handle has been taken after its join.
    pub open spec fn teardown_complete(self) -> bool {
        &&& self.is_shutting_down()
        &&& forall|w: int|
            0 <= w < self.num_workers() ==> #[trigger] self.worker_phase(w) is Terminated
        &&& forall|w: int| 0 <= w < self.num_workers() ==> #[trigger] self.worker_joined(w)
    }
}

/// The spec-level face of one `worker_receive` event: between `pre` and
/// `post`, exactly worker `w` consumed the front message of the queue, and
/// changed as its receive loop says — nothing else about the pool moved.
pub closed spec fn dispatch_transition<J>(pre: ThreadPool<J>, w: int, post: ThreadPool<J>) -> bool {
    &&& 0 <= w < pre.workers@.len()
    &&& pre.pending@.len() > 0
    &&& post.pending@ == pre.pending@.drop_first()
    &&& post.shutdown_started == pre.shutdown_started
    &&& post.submitted@ == pre.submitted@
    &&& post.executed@ == pre.executed@
    &&& post.workers@.len() == pre.workers@.len()
    &&& forall|i: int|
        0 <= i < pre.workers@.len() && i != w ==> (#[trigger] post.workers@[i]) == pre.workers@[i]
    &&& post.workers@[w].id == pre.workers@[w].id
    &&& post.workers@[w].joined == pre.workers@[w].joined
    &&& match pre.pending@.first() {
        Message::NewJob(j) => post.workers@[w].phase is Busy && post.workers@[w].holding@ == Some(
            j,
        ),
        Message::Terminate => post.workers@[w].phase is Terminated && post.workers@[w].holding@
            is None,
    }
}

/// Every accepted job is executed exactly once, by exactly one worker: once
/// the queue carries no more work and no worker is mid-job, the multiset of
/// executed jobs is exactly the multiset of submitted jobs, and each executed
/// record names the one worker of the pool that ran it.
pub proof fn lemma_every_job_executed_once<J>(p: ThreadPool<J>)
    requires
        p.wf(),
        p.queued_jobs().len() == 0,
        forall|w: int| 0 <= w < p.num_workers() ==> !(#[trigger] p.worker_phase(w) is Busy),
    ensures
        p.executed_jobs().to_multiset() == p.submitted_jobs().to_multiset(),
        forall|k: int|
            0 <= k < p.executed_records().len() ==> 0 <= (#[trigger] p.executed_records()[k]).0
                < p.num_workers(),
{
    broadcast use vstd::multiset::lemma_multiset_empty_len;

    assert forall|i: int|
        0 <= i < p.workers@.len() implies (#[trigger] p.workers@[i]).holding@ is None by {
        assert(!(p.worker_phase(i) is Busy));
    }
    lemma_no_hands_no_held(p.workers@);
    assert(jobs_of(p.pending@) =~= Seq::<J>::empty());
    assert(jobs_of(p.pending@).to_multiset().len() == 0);
    assert(p.executed_jobs().to_multiset() =~= p.submitted_jobs().to_multiset());
}

/// Two jobs can be mid-execution on two distinct workers at the same time.
/// Receiving a message moves only the receiving worker to busy, and the job
/// runs after the queue lock is released, so with at least two waiting workers
/// and two queued jobs, the second worker can receive the next message while
/// the first is still busy: after the two receive events, both workers hold a
/// job at once, each the one it dequeued.
pub proof fn lemma_two_jobs_run_concurrently<J>(
    p0: ThreadPool<J>,
    p1: ThreadPool<J>,
    p2: ThreadPool<J>,
    w1: int,
    w2: int,
)
    requires
        0 <= w1 < p0.num_workers(),
        0 <= w2 < p0.num_workers(),
        w1 != w2,
        p0.worker_phase(w1) is Waiting,
        p0.worker_phase(w2) is Waiting,
        p0.msgs().len() >= 2,
        p0.msgs()[0] is NewJob,
        p0.msgs()[1] is NewJob,
        dispatch_transition(p0, w1, p1),
        dispatch_transition(p1, w2, p2),
    ensures
        p2.worker_phase(w1) is Busy,
        p2.worker_phase(w2) is Busy,
        p0.msgs()[0] matches Message::NewJob(a) ==> p2.worker_holding(w1) == Some(a),
        p0.msgs()[1] matches Message::NewJob(b) ==> p2.worker_holding(w2) == Some(b),
{
    assert(p1.pending@ == p0.pending@.drop_first());
    assert(p1.pending@.first() == p0.pending@[1]);
    assert(p1.workers@[w1].phase is Busy);
    assert(p2.workers@[w1] == p1.workers@[w1]);
    assert(p2.workers@[w2].phase is Busy);
}

/// Once teardown has begun and the queue has drained, every worker has
/// received exactly one termination message and ended its receive loop: the
/// terminations sent equal the workers, and none is left waiting forever. Once
/// every worker's thread handle has also been taken after its join, teardown
/// as a whole is complete.
pub proof fn lemma_drained_teardown_terminates_all<J>(p: ThreadPool<J>)
    requires
        p.wf(),
        p.is_shutting_down(),
        p.msgs().len() == 0,
    ensures
        forall|w: int| 0 <= w < p.num_workers() ==> #[trigger] p.worker_phase(w) is Terminated,
        (forall|w: int| 0 <= w < p.num_workers() ==> #[trigger] p.worker_joined(w))
            ==> p.teardown_complete(),
{
    assert(terminate_count(p.pending@) == 0);
    assert(terminated_count(p.workers@) == p.workers@.len());
    lemma_all_terminated(p.workers@);
}

} // verus!
