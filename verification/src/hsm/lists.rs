//! The batches that a run announces and reports as passed, list by list.
use crate::hsm::batch::{batch_count, lemma_batches_cover, lemma_current_batch, nth_batch};
use crate::hsm::engine::{lemma_step_wf, Phase, Reply, State, TEST_BATCH_SIZE};
use crate::hsm::event::{Event, Outcome};
use crate::hsm::laws::{announced, lemma_run_inv};
use crate::hsm::run::run;
use vstd::prelude::*;

verus! {

/// The hart lists of the batches that the events announce, in order.
pub open spec fn begun_lists(events: Seq<Event>) -> Seq<Seq<usize>>
    decreases events.len(),
{
    if events.len() == 0 {
        Seq::empty()
    } else {
        match events.last() {
            Event::BatchBegin(ids) => begun_lists(events.drop_last()).push(ids),
            _ => begun_lists(events.drop_last()),
        }
    }
}

/// The hart lists of the batches that the events report as passed, in order.
pub open spec fn passed_lists(events: Seq<Event>) -> Seq<Seq<usize>>
    decreases events.len(),
{
    if events.len() == 0 {
        Seq::empty()
    } else {
        match events.last() {
            Event::BatchPass(ids) => passed_lists(events.drop_last()).push(ids),
            _ => passed_lists(events.drop_last()),
        }
    }
}

/// The first `n` batches of the eligible harts.
pub open spec fn batches_of(eligible: Seq<usize>, n: int) -> Seq<Seq<usize>> {
    Seq::new(n as nat, |k: int| nth_batch(eligible, k))
}

/// How many batches lie below index `index` of the eligible harts, a batch
/// that only begins below it counted too.
pub open spec fn batches_below(index: int) -> int {
    (index + TEST_BATCH_SIZE - 1) / (TEST_BATCH_SIZE as int)
}

/// What holds of the batch lists reported up to a state.
pub open spec fn lists_inv(state: State, events: Seq<Event>) -> bool {
    &&& begun_lists(events) == batches_of(state.eligible, batches_below(announced(state)))
    &&& passed_lists(events) == batches_of(state.eligible, batches_below(state.first))
}

proof fn lemma_lists_append(a: Seq<Event>, b: Seq<Event>)
    ensures
        begun_lists(a + b) == begun_lists(a) + begun_lists(b),
        passed_lists(a + b) == passed_lists(a) + passed_lists(b),
    decreases b.len(),
{
    if b.len() == 0 {
        assert(a + b =~= a);
        assert(begun_lists(a) + begun_lists(b) =~= begun_lists(a));
        assert(passed_lists(a) + passed_lists(b) =~= passed_lists(a));
    } else {
        lemma_lists_append(a, b.drop_last());
        assert((a + b).drop_last() =~= a + b.drop_last());
        assert((a + b).last() == b.last());
        match b.last() {
            Event::BatchBegin(ids) => {
                assert((begun_lists(a) + begun_lists(b.drop_last())).push(ids) =~= begun_lists(a)
                    + begun_lists(b.drop_last()).push(ids));
            },
            Event::BatchPass(ids) => {
                assert((passed_lists(a) + passed_lists(b.drop_last())).push(ids) =~= passed_lists(a)
                    + passed_lists(b.drop_last()).push(ids));
            },
            _ => {},
        }
    }
}

proof fn lemma_lists_push(events: Seq<Event>, event: Event)
    ensures
        begun_lists(events.push(event)) == match event {
            Event::BatchBegin(ids) => begun_lists(events).push(ids),
            _ => begun_lists(events),
        },
        passed_lists(events.push(event)) == match event {
            Event::BatchPass(ids) => passed_lists(events).push(ids),
            _ => passed_lists(events),
        },
{
    assert(events.push(event).drop_last() =~= events);
}

/// A step that neither begins nor ends a batch keeps what holds of the lists.
proof fn lemma_step_lists_plain(state: State, events: Seq<Event>, reply: Reply)
    requires
        state.wf(),
        lists_inv(state, events),
        !(state.phase is AwaitStopped),
        !(state.phase is Scan),
        !(state.phase is Probe),
    ensures
        lists_inv(state.step(reply).0, events + state.step(reply).1),
{
    let (next, now) = state.step(reply);
    let none = Seq::<Event>::empty();
    lemma_step_wf(state, reply);
    lemma_lists_append(events, now);
    if now.len() > 0 {
        assert(now =~= none.push(now[0]));
        lemma_lists_push(none, now[0]);
    }
    assert(begun_lists(events) + begun_lists(now) =~= begun_lists(events));
    assert(passed_lists(events) + passed_lists(now) =~= passed_lists(events));
}

/// A step of the probe or the scan keeps what holds of the lists.
proof fn lemma_step_lists_scan(state: State, events: Seq<Event>, reply: Reply)
    requires
        state.wf(),
        lists_inv(state, events),
        state.phase is Scan || state.phase is Probe,
    ensures
        lists_inv(state.step(reply).0, events + state.step(reply).1),
{
    let (next, now) = state.step(reply);
    let none = Seq::<Event>::empty();
    lemma_step_wf(state, reply);
    lemma_lists_append(events, now);
    assert(batches_of(state.eligible, 0) =~= Seq::<Seq<usize>>::empty());
    assert(batches_of(next.eligible, 0) =~= Seq::<Seq<usize>>::empty());
    if next.phase is Reset {
        let batch = next.batch();
        lemma_current_batch(next);
        let noted = now.drop_last();
        assert(now =~= noted.push(Event::BatchBegin(batch)));
        lemma_lists_push(noted, Event::BatchBegin(batch));
        if noted.len() > 0 {
            assert(noted =~= none.push(noted[0]));
            lemma_lists_push(none, noted[0]);
        }
        assert(begun_lists(now) =~= seq![batch]);
        assert(passed_lists(now) =~= Seq::<Seq<usize>>::empty());
        assert(batches_below(announced(next)) == 1);
        assert(batches_of(next.eligible, 1) =~= seq![batch]);
        assert(begun_lists(events) + begun_lists(now) =~= seq![batch]);
        assert(passed_lists(events) + passed_lists(now) =~= Seq::<Seq<usize>>::empty());
    } else {
        if now.len() == 1 {
            assert(now =~= none.push(now[0]));
            lemma_lists_push(none, now[0]);
        } else if now.len() == 2 {
            assert(now =~= none.push(now[0]).push(now[1]));
            lemma_lists_push(none, now[0]);
            lemma_lists_push(none.push(now[0]), now[1]);
        }
        assert(begun_lists(now) =~= Seq::<Seq<usize>>::empty());
        assert(passed_lists(now) =~= Seq::<Seq<usize>>::empty());
        assert(begun_lists(events) + begun_lists(now) =~= begun_lists(events));
        assert(passed_lists(events) + passed_lists(now) =~= passed_lists(events));
    }
}

/// The step that takes the status of a hart awaited stopped keeps what holds
/// of the lists.
proof fn lemma_step_lists_stopped(state: State, events: Seq<Event>, reply: Reply)
    requires
        state.wf(),
        lists_inv(state, events),
        state.phase is AwaitStopped,
    ensures
        lists_inv(state.step(reply).0, events + state.step(reply).1),
{
    let (next, now) = state.step(reply);
    let none = Seq::<Event>::empty();
    let empty = Seq::<Seq<usize>>::empty();
    lemma_step_wf(state, reply);
    lemma_lists_append(events, now);
    lemma_current_batch(state);
    let batch = state.batch();
    let before = state.first / (TEST_BATCH_SIZE as int);
    let stopped = none.push(Event::HartStopped(state.hart()));
    lemma_lists_push(none, Event::HartStopped(state.hart()));
    if now.len() <= 1 {
        if now.len() == 1 {
            assert(now =~= stopped);
        }
        assert(begun_lists(events) + begun_lists(now) =~= begun_lists(events));
        assert(passed_lists(events) + passed_lists(now) =~= passed_lists(events));
    } else {
        let done = stopped.push(Event::BatchPass(batch));
        lemma_lists_push(stopped, Event::BatchPass(batch));
        assert(batches_below(state.first) == before);
        assert(batches_below(state.batch_end()) == before + 1);
        assert(batches_of(state.eligible, before).push(batch) =~= batches_of(
            state.eligible,
            before + 1,
        ));
        if next.phase is Reset {
            let fresh = next.batch();
            lemma_current_batch(next);
            assert(now == done.push(Event::BatchBegin(fresh)));
            lemma_lists_push(done, Event::BatchBegin(fresh));
            assert(begun_lists(now) =~= seq![fresh]);
            assert(passed_lists(now) =~= seq![batch]);
            assert(batches_below(announced(next)) == before + 2);
            assert(batches_of(state.eligible, before + 1).push(fresh) =~= batches_of(
                state.eligible,
                before + 2,
            ));
            assert(begun_lists(events) + begun_lists(now) =~= begun_lists(events).push(fresh));
            assert(passed_lists(events) + passed_lists(now) =~= passed_lists(events).push(batch));
        } else {
            assert(now == done);
            assert(begun_lists(now) =~= empty);
            assert(passed_lists(now) =~= seq![batch]);
            assert(begun_lists(events) + begun_lists(now) =~= begun_lists(events));
            assert(passed_lists(events) + passed_lists(now) =~= passed_lists(events).push(batch));
        }
    }
}

/// What holds of the batch lists holds of every run from the beginning.
proof fn lemma_run_lists(primary: usize, mask: usize, base: usize, replies: Seq<Reply>)
    ensures
        lists_inv(
            run(State::initial(primary, mask, base), replies).0,
            run(State::initial(primary, mask, base), replies).1,
        ),
    decreases replies.len(),
{
    let start = State::initial(primary, mask, base);
    if replies.len() == 0 {
        assert(batches_of(start.eligible, 0) =~= Seq::<Seq<usize>>::empty());
    } else {
        lemma_run_lists(primary, mask, base, replies.drop_last());
        lemma_run_inv(primary, mask, base, replies.drop_last());
        let (reached, before) = run(start, replies.drop_last());
        if reached.phase is Scan || reached.phase is Probe {
            lemma_step_lists_scan(reached, before, replies.last());
        } else if reached.phase is AwaitStopped {
            lemma_step_lists_stopped(reached, before, replies.last());
        } else {
            lemma_step_lists_plain(reached, before, replies.last());
        }
    }
}

/// How the numbers of batches announced and passed stand to each other.
proof fn lemma_counts(state: State)
    requires
        state.wf(),
    ensures
        ({
            let begun = batches_below(announced(state));
            let passed = batches_below(state.first);
            &&& 0 <= passed <= begun <= passed + 1
            &&& begun <= batch_count(state.eligible)
            &&& begun == passed + 1 <==> state.phase.first_pass() || state.phase.second_pass()
                || state.outcome is Some && state.outcome->0 is HartStartFailed
            &&& state.outcome == Some(Outcome::Pass) ==> passed == batch_count(state.eligible)
        }),
{
}

/// Whatever the firmware answers, the batches that a run announces are, list
/// by list and in order, the first batches of the eligible harts, and the
/// batches that it reports as passed are the same lists, one for one, but for
/// a last announced batch that is still under way or failed to start. Every
/// list holds at least one hart, every list but the last batch of the
/// eligible harts holds exactly `TEST_BATCH_SIZE`, and none holds more. In a
/// run that ends in a pass, both are all the batches of the eligible harts.
pub proof fn lemma_batch_lists(primary: usize, mask: usize, base: usize, replies: Seq<Reply>)
    ensures
        ({
            let (state, events) = run(State::initial(primary, mask, base), replies);
            let begun = begun_lists(events);
            let passed = passed_lists(events);
            &&& passed.len() <= begun.len() <= passed.len() + 1
            &&& begun.len() <= batch_count(state.eligible)
            &&& begun.len() == passed.len() + 1 <==> state.phase.first_pass()
                || state.phase.second_pass() || state.outcome is Some
                && state.outcome->0 is HartStartFailed
            &&& forall|n: int| 0 <= n < passed.len() ==> #[trigger] passed[n] == begun[n]
            &&& forall|n: int|
                0 <= n < begun.len() ==> #[trigger] begun[n] == nth_batch(state.eligible, n)
            &&& forall|n: int|
                0 <= n < begun.len() ==> 0 < (#[trigger] begun[n]).len() <= TEST_BATCH_SIZE
            &&& forall|n: int|
                0 <= n < begun.len() && n + 1 < batch_count(state.eligible) ==> (
                #[trigger] begun[n]).len() == TEST_BATCH_SIZE
            &&& state.outcome == Some(Outcome::Pass) ==> begun == passed && begun.len()
                == batch_count(state.eligible)
        }),
{
    let (state, events) = run(State::initial(primary, mask, base), replies);
    lemma_run_inv(primary, mask, base, replies);
    lemma_run_lists(primary, mask, base, replies);
    lemma_counts(state);
    let begun = begun_lists(events);
    let passed = passed_lists(events);
    let b = batches_below(announced(state));
    let p = batches_below(state.first);
    assert(begun == batches_of(state.eligible, b));
    assert(passed == batches_of(state.eligible, p));
    assert(begun.len() == b && passed.len() == p);
    assert forall|n: int| 0 <= n < begun.len() implies #[trigger] begun[n] == nth_batch(
        state.eligible,
        n,
    ) by {}
    assert forall|n: int| 0 <= n < passed.len() implies #[trigger] passed[n] == begun[n] by {}
    assert forall|n: int| 0 <= n < begun.len() implies 0 < (#[trigger] begun[n]).len()
        <= TEST_BATCH_SIZE by {
        lemma_batches_cover(state.eligible);
        assert(begun[n] == nth_batch(state.eligible, n));
    }
    assert forall|n: int|
        0 <= n < begun.len() && n + 1 < batch_count(state.eligible) implies (
    #[trigger] begun[n]).len() == TEST_BATCH_SIZE by {
        lemma_batches_cover(state.eligible);
        assert(begun[n] == nth_batch(state.eligible, n));
    }
    if state.outcome == Some(Outcome::Pass) {
        assert(begun =~= passed);
    }
}

} // verus!
