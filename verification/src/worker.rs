//! One worker of the pool: its receive-loop lifecycle, and spec-level views
//! of a whole row of workers (the jobs they are running, how many have ended).

use vstd::multiset::Multiset;
use vstd::prelude::*;

verus! {

/// The lifecycle of one worker's receive loop.
#[derive(Clone, Copy, PartialEq, Eq, Structural, Debug)]
pub enum WorkerPhase {
    /// Waiting for the next message, inside the dequeue critical section.
    Waiting,
    /// Running one job, with the queue lock released.
    Busy,
    /// The receive loop has exited after a termination message.
    Terminated,
}

/// One worker: a numeric identity (diagnostics only, never used for routing),
/// the phase of its receive loop, the job it is running (ghost), and whether
/// its thread handle has been taken at teardown.
pub(crate) struct Worker<J> {
    pub(crate) id: usize,
    pub(crate) phase: WorkerPhase,
    pub(crate) holding: Ghost<Option<J>>,
    pub(crate) joined: bool,
}

impl<J> Worker<J> {
    /// A fresh worker: waiting for its first message, running nothing, with
    /// its thread handle still in place.
    pub(crate) fn new(id: usize) -> (w: Worker<J>)
        ensures
            w.id == id,
            w.phase is Waiting,
            w.holding@ is None,
            !w.joined,
    {
        Worker { id, phase: WorkerPhase::Waiting, holding: Ghost(None), joined: false }
    }
}

/// The job one worker is running, as a multiset of at most one element.
pub(crate) open spec fn job_in_hand<J>(w: Worker<J>) -> Multiset<J> {
    match w.holding@ {
        Some(j) => Multiset::singleton(j),
        None => Multiset::empty(),
    }
}

/// Every job some worker of the row is running.
pub(crate) open spec fn held_jobs<J>(ws: Seq<Worker<J>>) -> Multiset<J>
    decreases ws.len(),
{
    if ws.len() == 0 {
        Multiset::empty()
    } else {
        job_in_hand(ws.first()).add(held_jobs(ws.drop_first()))
    }
}

/// How many workers of the row have ended their receive loop.
pub(crate) open spec fn terminated_count<J>(ws: Seq<Worker<J>>) -> nat
    decreases ws.len(),
{
    if ws.len() == 0 {
        0
    } else {
        (if ws.first().phase is Terminated {
            1nat
        } else {
            0nat
        }) + terminated_count(ws.drop_first())
    }
}

/// Adding a worker to the row adds the job it runs and, where it has already
/// ended, one ended worker.
pub(crate) proof fn lemma_worker_push<J>(ws: Seq<Worker<J>>, w: Worker<J>)
    ensures
        held_jobs(ws.push(w)) =~= held_jobs(ws).add(job_in_hand(w)),
        terminated_count(ws.push(w)) == terminated_count(ws) + (if w.phase is Terminated {
            1nat
        } else {
            0nat
        }),
    decreases ws.len(),
{
    let pushed = ws.push(w);
    if ws.len() == 0 {
        assert(pushed.first() == w);
        assert(pushed.drop_first() =~= Seq::<Worker<J>>::empty());
        assert(held_jobs(pushed.drop_first()) =~= Multiset::<J>::empty());
        assert(terminated_count(pushed.drop_first()) == 0);
        assert(held_jobs(ws) =~= Multiset::<J>::empty());
        assert(held_jobs(pushed) =~= job_in_hand(w).add(Multiset::<J>::empty()));
        assert(held_jobs(pushed) =~= held_jobs(ws).add(job_in_hand(w)));
    } else {
        assert(pushed.first() == ws.first());
        assert(pushed.drop_first() =~= ws.drop_first().push(w));
        lemma_worker_push(ws.drop_first(), w);
        assert(held_jobs(pushed) =~= held_jobs(ws).add(job_in_hand(w)));
    }
}

/// Replacing one worker of the row swaps exactly its own contribution: the job
/// it runs, and whether it counts as ended.
pub(crate) proof fn lemma_worker_update<J>(ws: Seq<Worker<J>>, i: int, w: Worker<J>)
    requires
        0 <= i < ws.len(),
    ensures
        held_jobs(ws.update(i, w)).add(job_in_hand(ws[i])) =~= held_jobs(ws).add(job_in_hand(w)),
        terminated_count(ws.update(i, w)) + (if ws[i].phase is Terminated {
            1nat
        } else {
            0nat
        }) == terminated_count(ws) + (if w.phase is Terminated {
            1nat
        } else {
            0nat
        }),
    decreases ws.len(),
{
    let updated = ws.update(i, w);
    if i == 0 {
        assert(updated.first() == w);
        assert(ws.first() == ws[0]);
        assert(updated.drop_first() =~= ws.drop_first());
        assert(held_jobs(updated).add(job_in_hand(ws[0])) =~= held_jobs(ws).add(job_in_hand(w)));
    } else {
        assert(updated.first() == ws.first());
        assert(updated.drop_first() =~= ws.drop_first().update(i - 1, w));
        assert(ws.drop_first()[i - 1] == ws[i]);
        lemma_worker_update(ws.drop_first(), i - 1, w);
        assert(held_jobs(updated) == job_in_hand(ws.first()).add(
            held_jobs(ws.drop_first().update(i - 1, w)),
        ));
        assert(held_jobs(ws) == job_in_hand(ws.first()).add(held_jobs(ws.drop_first())));
        assert forall|v: J|
            held_jobs(updated).add(job_in_hand(ws[i])).count(v) == held_jobs(ws).add(
                job_in_hand(w),
            ).count(v) by {
            assert(held_jobs(ws.drop_first().update(i - 1, w)).add(job_in_hand(ws[i])).count(v)
                == held_jobs(ws.drop_first()).add(job_in_hand(w)).count(v));
        }
        assert(held_jobs(updated).add(job_in_hand(ws[i])) =~= held_jobs(ws).add(job_in_hand(w)));
    }
}

/// A row in which no worker runs anything holds no jobs.
pub(crate) proof fn lemma_no_hands_no_held<J>(ws: Seq<Worker<J>>)
    requires
        forall|i: int| 0 <= i < ws.len() ==> (#[trigger] ws[i]).holding@ is None,
    ensures
        held_jobs(ws) =~= Multiset::<J>::empty(),
    decreases ws.len(),
{
    if ws.len() > 0 {
        assert(ws.first() == ws[0]);
        assert(forall|i: int|
            0 <= i < ws.drop_first().len() ==> (#[trigger] ws.drop_first()[i]) == ws[i + 1]);
        lemma_no_hands_no_held(ws.drop_first());
    }
}

/// No more workers can have ended than the row holds.
pub(crate) proof fn lemma_terminated_count_le<J>(ws: Seq<Worker<J>>)
    ensures
        terminated_count(ws) <= ws.len(),
    decreases ws.len(),
{
    if ws.len() > 0 {
        lemma_terminated_count_le(ws.drop_first());
    }
}

/// Where every worker of the row counts as ended, each one has ended.
pub(crate) proof fn lemma_all_terminated<J>(ws: Seq<Worker<J>>)
    requires
        terminated_count(ws) == ws.len(),
    ensures
        forall|i: int| 0 <= i < ws.len() ==> (#[trigger] ws[i]).phase is Terminated,
    decreases ws.len(),
{
    if ws.len() > 0 {
        lemma_terminated_count_le(ws.drop_first());
        assert(ws.first().phase is Terminated);
        lemma_all_terminated(ws.drop_first());
        assert(forall|i: int|
            0 <= i < ws.drop_first().len() ==> (#[trigger] ws.drop_first()[i]) == ws[i + 1]);
        assert(forall|i: int|
            1 <= i < ws.len() ==> (#[trigger] ws[i]) == ws.drop_first()[i - 1]);
    }
}

} // verus!
