//! Whole runs: the engine fed with a list of answers.
use crate::hsm::engine::{Reply, State};
use crate::hsm::event::Event;
use vstd::prelude::*;

verus! {

/// The state that `state` comes to when it is fed `replies` in order, and the
/// events reported on the way.
pub open spec fn run(state: State, replies: Seq<Reply>) -> (State, Seq<Event>)
    decreases replies.len(),
{
    if replies.len() == 0 {
        (state, Seq::empty())
    } else {
        let (reached, before) = run(state, replies.drop_last());
        let (next, now) = reached.step(replies.last());
        (next, before + now)
    }
}

/// A run is its first step followed by the run of the remaining replies.
pub proof fn lemma_run_first(state: State, replies: Seq<Reply>)
    requires
        replies.len() > 0,
    ensures
        run(state, replies) == ({
            let (next, now) = state.step(replies[0]);
            let (last, after) = run(next, replies.skip(1));
            (last, now + after)
        }),
    decreases replies.len(),
{
    let (next, now) = state.step(replies[0]);
    if replies.len() == 1 {
        assert(replies.drop_last() =~= Seq::<Reply>::empty());
        assert(replies.skip(1) =~= Seq::<Reply>::empty());
        assert(run(state, replies.drop_last()) == (state, Seq::<Event>::empty()));
        assert(run(next, replies.skip(1)) == (next, Seq::<Event>::empty()));
        assert(Seq::<Event>::empty() + now =~= now + Seq::<Event>::empty());
    } else {
        let front = replies.drop_last();
        let rest = replies.skip(1);
        lemma_run_first(state, front);
        assert(front.skip(1) =~= rest.drop_last());
        assert(front[0] == replies[0]);
        let (reached, before) = run(next, rest.drop_last());
        let (last, fresh) = reached.step(replies.last());
        assert(rest.last() == replies.last());
        assert(run(state, front) == (reached, now + before));
        assert(run(next, rest) == (last, before + fresh));
        assert(run(state, replies) == (last, (now + before) + fresh));
        assert((now + before) + fresh =~= now + (before + fresh));
    }
}

/// Once a run is over, further replies change nothing and report nothing.
pub proof fn lemma_finished_stays(state: State, replies: Seq<Reply>)
    requires
        state.phase is Finished,
    ensures
        run(state, replies) == (state, Seq::<Event>::empty()),
    decreases replies.len(),
{
    if replies.len() > 0 {
        lemma_finished_stays(state, replies.drop_last());
        assert(Seq::<Event>::empty() + Seq::<Event>::empty() =~= Seq::<Event>::empty());
    }
}

} // verus!
