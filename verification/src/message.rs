//! Messages carried by the dispatch queue, and spec-level views of a queue's
//! contents: the jobs it carries and the termination messages it carries.

use vstd::prelude::*;

verus! {

/// One message on the dispatch queue: either a unit of work for whichever
/// worker dequeues it, or an instruction for exactly one worker to exit its
/// receive loop. A message is consumed by exactly one worker.
pub enum Message<J> {
    NewJob(J),
    Terminate,
}

/// The jobs carried by a queue of messages, in queue order.
pub open spec fn jobs_of<J>(ms: Seq<Message<J>>) -> Seq<J>
    decreases ms.len(),
{
    if ms.len() == 0 {
        Seq::empty()
    } else {
        match ms.first() {
            Message::NewJob(j) => seq![j] + jobs_of(ms.drop_first()),
            Message::Terminate => jobs_of(ms.drop_first()),
        }
    }
}

/// How many termination messages a queue of messages carries.
pub open spec fn terminate_count<J>(ms: Seq<Message<J>>) -> nat
    decreases ms.len(),
{
    if ms.len() == 0 {
        0
    } else {
        (if ms.first() is Terminate {
            1nat
        } else {
            0nat
        }) + terminate_count(ms.drop_first())
    }
}

/// Enqueueing a job appends it to the carried jobs and carries no termination.
pub proof fn lemma_push_job<J>(ms: Seq<Message<J>>, j: J)
    ensures
        jobs_of(ms.push(Message::NewJob(j))) =~= jobs_of(ms).push(j),
        terminate_count(ms.push(Message::NewJob(j))) == terminate_count(ms),
    decreases ms.len(),
{
    let pushed = ms.push(Message::NewJob(j));
    if ms.len() == 0 {
        assert(pushed.first() == Message::<J>::NewJob(j));
        assert(pushed.drop_first() =~= Seq::<Message<J>>::empty());
        assert(jobs_of(pushed.drop_first()) =~= Seq::<J>::empty());
        assert(terminate_count(pushed.drop_first()) == 0);
        assert(jobs_of(pushed) =~= seq![j] + Seq::<J>::empty());
    } else {
        assert(pushed.first() == ms.first());
        assert(pushed.drop_first() =~= ms.drop_first().push(Message::NewJob(j)));
        lemma_push_job(ms.drop_first(), j);
        assert(jobs_of(pushed) =~= jobs_of(ms).push(j));
    }
}

/// Enqueueing a termination message leaves the carried jobs unchanged and
/// raises the termination count by one.
pub proof fn lemma_push_terminate<J>(ms: Seq<Message<J>>)
    ensures
        jobs_of(ms.push(Message::Terminate)) =~= jobs_of(ms),
        terminate_count(ms.push(Message::Terminate)) == terminate_count(ms) + 1,
    decreases ms.len(),
{
    let pushed = ms.push(Message::Terminate);
    if ms.len() == 0 {
        assert(pushed.first() == Message::<J>::Terminate);
        assert(pushed.drop_first() =~= Seq::<Message<J>>::empty());
        assert(jobs_of(pushed.drop_first()) =~= Seq::<J>::empty());
        assert(terminate_count(pushed.drop_first()) == 0);
        assert(jobs_of(pushed) =~= jobs_of(ms));
    } else {
        assert(pushed.first() == ms.first());
        assert(pushed.drop_first() =~= ms.drop_first().push(Message::Terminate));
        lemma_push_terminate(ms.drop_first());
        assert(jobs_of(pushed) =~= jobs_of(ms));
    }
}

} // verus!
