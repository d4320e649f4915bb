//! The order in which a run reports the events of its batches.
use crate::hsm::batch::{batch_count, lemma_current_batch, nth_batch};
use crate::hsm::engine::{lemma_step_wf, Phase, Reply, State};
use crate::hsm::event::{Event, Outcome};
use crate::hsm::laws::{lemma_run_inv, run_inv};
use crate::hsm::lists::batches_below;
use crate::hsm::run::run;
use vstd::prelude::*;

verus! {

/// The events of a run without those of the scan: the batch and lifecycle
/// events and a failed start, in the order reported.
pub open spec fn lifecycle(events: Seq<Event>) -> Seq<Event>
    decreases events.len(),
{
    if events.len() == 0 {
        Seq::empty()
    } else if events.last().is_lifecycle() {
        lifecycle(events.drop_last()).push(events.last())
    } else {
        lifecycle(events.drop_last())
    }
}

/// What the first `n` harts of a batch report in their first pass: each its
/// start and then its suspension without retention, hart after hart.
pub open spec fn first_pass_events(batch: Seq<usize>, n: int) -> Seq<Event>
    decreases n,
{
    if n <= 0 {
        Seq::empty()
    } else {
        first_pass_events(batch, n - 1).push(Event::HartStarted(batch[n - 1])).push(
            Event::HartSuspendedNonretentive(batch[n - 1]),
        )
    }
}

/// What the first `n` harts of a batch report in their second pass: each its
/// resume, its suspension with retention and its stop, hart after hart.
pub open spec fn second_pass_events(batch: Seq<usize>, n: int) -> Seq<Event>
    decreases n,
{
    if n <= 0 {
        Seq::empty()
    } else {
        second_pass_events(batch, n - 1).push(Event::HartResumed(batch[n - 1])).push(
            Event::HartSuspendedRetentive(batch[n - 1]),
        ).push(Event::HartStopped(batch[n - 1]))
    }
}

/// What a batch reports up to the interrupt that resumes it: its beginning
/// and the first pass of all its harts.
pub open spec fn opening_events(batch: Seq<usize>, n: int) -> Seq<Event> {
    seq![Event::BatchBegin(batch)] + first_pass_events(batch, n)
}

/// Everything that a batch reports when it passes: its beginning, the first
/// pass of all its harts, the second pass of all its harts, and its end.
pub open spec fn batch_events(batch: Seq<usize>) -> Seq<Event> {
    (opening_events(batch, batch.len() as int) + second_pass_events(
        batch,
        batch.len() as int,
    )).push(Event::BatchPass(batch))
}

/// Everything that the first `n` batches of the eligible harts report when
/// they pass, batch after batch.
pub open spec fn batches_events(eligible: Seq<usize>, n: int) -> Seq<Event>
    decreases n,
{
    if n <= 0 {
        Seq::empty()
    } else {
        batches_events(eligible, n - 1) + batch_events(nth_batch(eligible, n - 1))
    }
}

/// What the batch under way has reported, by where the run stands.
pub open spec fn current_events(state: State) -> Seq<Event> {
    let batch = state.batch();
    let all = batch.len() as int;
    let hart = state.hart();
    match state.phase {
        Phase::Probe => Seq::empty(),
        Phase::Scan => Seq::empty(),
        Phase::Reset => opening_events(batch, 0),
        Phase::Start => opening_events(batch, 0),
        Phase::AwaitStarted => opening_events(batch, state.slot),
        Phase::WaitStart => opening_events(batch, state.slot).push(Event::HartStarted(hart)),
        Phase::SignalStart => opening_events(batch, state.slot).push(Event::HartStarted(hart)),
        Phase::AwaitSuspended => opening_events(batch, state.slot).push(Event::HartStarted(hart)),
        Phase::ResumeAll => opening_events(batch, all),
        Phase::AwaitResumed => opening_events(batch, all) + second_pass_events(batch, state.slot),
        Phase::WaitResume => (opening_events(batch, all) + second_pass_events(
            batch,
            state.slot,
        )).push(Event::HartResumed(hart)),
        Phase::SignalResume => (opening_events(batch, all) + second_pass_events(
            batch,
            state.slot,
        )).push(Event::HartResumed(hart)),
        Phase::AwaitRetentive => (opening_events(batch, all) + second_pass_events(
            batch,
            state.slot,
        )).push(Event::HartResumed(hart)),
        Phase::Settle => (opening_events(batch, all) + second_pass_events(
            batch,
            state.slot,
        )).push(Event::HartResumed(hart)).push(Event::HartSuspendedRetentive(hart)),
        Phase::Wake => (opening_events(batch, all) + second_pass_events(batch, state.slot)).push(
            Event::HartResumed(hart),
        ).push(Event::HartSuspendedRetentive(hart)),
        Phase::AwaitStopped => (opening_events(batch, all) + second_pass_events(
            batch,
            state.slot,
        )).push(Event::HartResumed(hart)).push(Event::HartSuspendedRetentive(hart)),
        Phase::Finished => match state.outcome {
            Some(Outcome::HartStartFailed { hartid, ret }) => opening_events(batch, 0).push(
                Event::HartStartFailed { hartid, ret },
            ),
            _ => Seq::empty(),
        },
    }
}

/// The batch and lifecycle events that a run in `state` has reported: those
/// of the batches that passed and those of the batch under way.
pub open spec fn reported_events(state: State) -> Seq<Event> {
    batches_events(state.eligible, batches_below(state.first)) + current_events(state)
}

proof fn lemma_life_append(a: Seq<Event>, b: Seq<Event>)
    ensures
        lifecycle(a + b) == lifecycle(a) + lifecycle(b),
    decreases b.len(),
{
    if b.len() == 0 {
        assert(a + b =~= a);
        assert(lifecycle(a) + lifecycle(b) =~= lifecycle(a));
    } else {
        lemma_life_append(a, b.drop_last());
        assert((a + b).drop_last() =~= a + b.drop_last());
        assert((a + b).last() == b.last());
        if b.last().is_lifecycle() {
            assert((lifecycle(a) + lifecycle(b.drop_last())).push(b.last()) =~= lifecycle(a)
                + lifecycle(b.drop_last()).push(b.last()));
        }
    }
}

proof fn lemma_life_push(events: Seq<Event>, event: Event)
    ensures
        lifecycle(events.push(event)) == if event.is_lifecycle() {
            lifecycle(events).push(event)
        } else {
            lifecycle(events)
        },
{
    assert(events.push(event).drop_last() =~= events);
}

/// The lifecycle part of the at most three events of one step.
proof fn lemma_life_of_step(now: Seq<Event>)
    requires
        now.len() <= 3,
    ensures
        now.len() == 0 ==> lifecycle(now) == Seq::<Event>::empty(),
        now.len() == 1 ==> lifecycle(now) == lifecycle(Seq::<Event>::empty().push(now[0])),
        now.len() == 1 && now[0].is_lifecycle() ==> lifecycle(now) == seq![now[0]],
        now.len() == 1 && !now[0].is_lifecycle() ==> lifecycle(now) == Seq::<Event>::empty(),
        now.len() == 2 && !now[0].is_lifecycle() && now[1].is_lifecycle() ==> lifecycle(now)
            == seq![now[1]],
        now.len() == 2 && !now[0].is_lifecycle() && !now[1].is_lifecycle() ==> lifecycle(now)
            == Seq::<Event>::empty(),
        now.len() == 2 && now[0].is_lifecycle() && now[1].is_lifecycle() ==> lifecycle(now)
            == seq![now[0], now[1]],
        now.len() == 3 && now[0].is_lifecycle() && now[1].is_lifecycle() && now[2].is_lifecycle()
            ==> lifecycle(now) == seq![now[0], now[1], now[2]],
{
    let none = Seq::<Event>::empty();
    if now.len() == 1 {
        assert(now =~= none.push(now[0]));
        lemma_life_push(none, now[0]);
        assert(none.push(now[0]) =~= seq![now[0]]);
    } else if now.len() == 2 {
        assert(now =~= none.push(now[0]).push(now[1]));
        lemma_life_push(none, now[0]);
        lemma_life_push(none.push(now[0]), now[1]);
        assert(none.push(now[1]) =~= seq![now[1]]);
        assert(none.push(now[0]).push(now[1]) =~= seq![now[0], now[1]]);
    } else if now.len() == 3 {
        assert(now =~= none.push(now[0]).push(now[1]).push(now[2]));
        lemma_life_push(none, now[0]);
        lemma_life_push(none.push(now[0]), now[1]);
        lemma_life_push(none.push(now[0]).push(now[1]), now[2]);
        assert(none.push(now[0]).push(now[1]).push(now[2]) =~= seq![now[0], now[1], now[2]]);
    }
}

/// A step of the probe or the scan keeps the order of the events.
proof fn lemma_step_order_scan(state: State, events: Seq<Event>, reply: Reply)
    requires
        state.wf(),
        lifecycle(events) == reported_events(state),
        state.phase is Probe || state.phase is Scan,
    ensures
        lifecycle(events + state.step(reply).1) == reported_events(state.step(reply).0),
{
    let (next, now) = state.step(reply);
    lemma_step_wf(state, reply);
    lemma_life_append(events, now);
    lemma_life_of_step(now);
    assert(batches_below(0) == 0);
    if next.phase is Reset {
        assert(first_pass_events(next.batch(), 0) =~= Seq::<Event>::empty());
        assert(lifecycle(now) =~= seq![Event::BatchBegin(next.batch())]);
        assert(lifecycle(events) + lifecycle(now) =~= reported_events(next));
    } else {
        assert(lifecycle(now) =~= Seq::<Event>::empty());
        assert(lifecycle(events) + lifecycle(now) =~= reported_events(next));
    }
}

/// A step of the first pass of a batch keeps the order of the events.
proof fn lemma_step_order_first(state: State, events: Seq<Event>, reply: Reply)
    requires
        state.wf(),
        lifecycle(events) == reported_events(state),
        state.phase.first_pass(),
    ensures
        lifecycle(events + state.step(reply).1) == reported_events(state.step(reply).0),
{
    let (next, now) = state.step(reply);
    let batch = state.batch();
    lemma_step_wf(state, reply);
    lemma_life_append(events, now);
    lemma_life_of_step(now);
    assert(next.batch() == batch);
    assert(batch[state.slot] == state.hart());
    assert(first_pass_events(batch, 0) =~= Seq::<Event>::empty());
    assert(second_pass_events(batch, 0) =~= Seq::<Event>::empty());
    let done = batches_events(state.eligible, batches_below(state.first));
    if next.phase == state.phase && next.slot == state.slot {
        assert(now.len() == 0);
        assert(lifecycle(events) + lifecycle(now) =~= reported_events(next));
    } else {
        assert(current_events(next) =~= current_events(state) + lifecycle(now));
        assert(done + (current_events(state) + lifecycle(now)) =~= (done + current_events(state))
            + lifecycle(now));
    }
}

/// A step of the second pass of a batch, but for the one that takes the status
/// of a hart awaited stopped, keeps the order of the events.
proof fn lemma_step_order_second(state: State, events: Seq<Event>, reply: Reply)
    requires
        state.wf(),
        lifecycle(events) == reported_events(state),
        state.phase.second_pass(),
        !(state.phase is AwaitStopped),
    ensures
        lifecycle(events + state.step(reply).1) == reported_events(state.step(reply).0),
{
    let (next, now) = state.step(reply);
    let batch = state.batch();
    lemma_step_wf(state, reply);
    lemma_life_append(events, now);
    lemma_life_of_step(now);
    assert(next.batch() == batch);
    assert(batch[state.slot] == state.hart());
    let done = batches_events(state.eligible, batches_below(state.first));
    if next.phase == state.phase && next.slot == state.slot {
        assert(now.len() == 0);
        assert(lifecycle(events) + lifecycle(now) =~= reported_events(next));
    } else {
        assert(current_events(next) =~= current_events(state) + lifecycle(now));
        assert(done + (current_events(state) + lifecycle(now)) =~= (done + current_events(state))
            + lifecycle(now));
    }
}

/// The step that takes the status of a hart awaited stopped keeps the order of
/// the events.
proof fn lemma_step_order_stopped(state: State, events: Seq<Event>, reply: Reply)
    requires
        state.wf(),
        lifecycle(events) == reported_events(state),
        state.phase is AwaitStopped,
    ensures
        lifecycle(events + state.step(reply).1) == reported_events(state.step(reply).0),
{
    let (next, now) = state.step(reply);
    let batch = state.batch();
    let all = batch.len() as int;
    let hart = state.hart();
    lemma_step_wf(state, reply);
    lemma_life_append(events, now);
    lemma_life_of_step(now);
    lemma_current_batch(state);
    assert(batch[state.slot] == hart);
    let before = batches_below(state.first);
    let done = batches_events(state.eligible, before);
    let so_far = opening_events(batch, all) + second_pass_events(batch, state.slot);
    let with_stop = so_far.push(Event::HartResumed(hart)).push(
        Event::HartSuspendedRetentive(hart),
    ).push(Event::HartStopped(hart));
    assert(with_stop =~= opening_events(batch, all) + second_pass_events(batch, state.slot + 1));
    if now.len() == 0 {
        assert(lifecycle(events) + lifecycle(now) =~= reported_events(next));
    } else if now.len() == 1 {
        assert(next.batch() == batch);
        assert(current_events(next) =~= current_events(state) + lifecycle(now));
        assert(done + (current_events(state) + lifecycle(now)) =~= (done + current_events(state))
            + lifecycle(now));
    } else {
        assert(state.slot + 1 == all);
        assert(before == state.first / 4);
        assert(batches_below(next.first) == before + 1);
        assert(batch == nth_batch(state.eligible, before));
        assert(batch_events(batch) =~= with_stop.push(Event::BatchPass(batch)));
        assert(batches_events(state.eligible, before + 1) == done + batch_events(batch));
        if now.len() == 2 {
            assert(current_events(next) =~= Seq::<Event>::empty());
            assert(lifecycle(now) =~= seq![Event::HartStopped(hart), Event::BatchPass(batch)]);
            assert((done + current_events(state)) + lifecycle(now) =~= (done + batch_events(batch))
                + Seq::<Event>::empty());
        } else {
            let fresh = next.batch();
            assert(first_pass_events(fresh, 0) =~= Seq::<Event>::empty());
            assert(current_events(next) =~= seq![Event::BatchBegin(fresh)]);
            assert(lifecycle(now) =~= seq![
                Event::HartStopped(hart),
                Event::BatchPass(batch),
                Event::BatchBegin(fresh),
            ]);
            assert((done + current_events(state)) + lifecycle(now) =~= (done + batch_events(batch))
                + seq![Event::BatchBegin(fresh)]);
        }
    }
}

/// The order of the events holds of every run from the beginning.
proof fn lemma_run_order(primary: usize, mask: usize, base: usize, replies: Seq<Reply>)
    ensures
        lifecycle(run(State::initial(primary, mask, base), replies).1) == reported_events(
            run(State::initial(primary, mask, base), replies).0,
        ),
    decreases replies.len(),
{
    let start = State::initial(primary, mask, base);
    if replies.len() == 0 {
        assert(batches_below(0) == 0);
        assert(reported_events(start) =~= Seq::<Event>::empty());
    } else {
        lemma_run_order(primary, mask, base, replies.drop_last());
        lemma_run_inv(primary, mask, base, replies.drop_last());
        let (reached, before) = run(start, replies.drop_last());
        if reached.phase is Probe || reached.phase is Scan {
            lemma_step_order_scan(reached, before, replies.last());
        } else if reached.phase is AwaitStopped {
            lemma_step_order_stopped(reached, before, replies.last());
        } else if reached.phase.first_pass() {
            lemma_step_order_first(reached, before, replies.last());
        } else if reached.phase.second_pass() {
            lemma_step_order_second(reached, before, replies.last());
        } else {
            assert(before + Seq::<Event>::empty() =~= before);
        }
    }
}

/// Whatever the firmware answers, the batch and lifecycle events of a run come
/// in one order only. Batch after batch, a batch reports its beginning; then
/// for each of its harts in turn the start and the suspension without
/// retention; then for each of its harts in turn the resume, the suspension
/// with retention and the stop; then its end. So every hart of a passed batch
/// is named by its five events once each and in this order, the events of one
/// kind come in the order of the batch, and every hart of a batch is suspended
/// without retention before any of them is resumed. A run that ends in a pass
/// has reported exactly this for all batches of the eligible harts, and a run
/// that has not ended has reported a front piece of it.
pub proof fn lemma_events_in_order(primary: usize, mask: usize, base: usize, replies: Seq<Reply>)
    ensures
        ({
            let (state, events) = run(State::initial(primary, mask, base), replies);
            &&& lifecycle(events) == reported_events(state)
            &&& state.outcome == Some(Outcome::Pass) ==> lifecycle(events) == batches_events(
                state.eligible,
                batch_count(state.eligible),
            )
        }),
{
    let (state, events) = run(State::initial(primary, mask, base), replies);
    lemma_run_inv(primary, mask, base, replies);
    lemma_run_order(primary, mask, base, replies);
    if state.outcome == Some(Outcome::Pass) {
        assert(batches_below(state.first) == batch_count(state.eligible));
        assert(reported_events(state) =~= batches_events(
            state.eligible,
            batch_count(state.eligible),
        ));
    }
}

/// The events of the scan among the events of a run: what was found running
/// before the test, and the end of a run that tested nothing.
pub open spec fn scan_part(events: Seq<Event>) -> Seq<Event>
    decreases events.len(),
{
    if events.len() == 0 {
        Seq::empty()
    } else if events.last().is_lifecycle() {
        scan_part(events.drop_last())
    } else {
        scan_part(events.drop_last()).push(events.last())
    }
}

/// Whether every event of the scan comes before every batch or lifecycle
/// event.
pub open spec fn scan_first(events: Seq<Event>) -> bool {
    forall|i: int, j: int|
        0 <= i < j < events.len() && (#[trigger] events[i]).is_lifecycle() ==> (
        #[trigger] events[j]).is_lifecycle()
}

/// Events whose scan comes first are the events of the scan followed by the
/// batch and lifecycle events.
proof fn lemma_scan_then_lifecycle(events: Seq<Event>)
    requires
        scan_first(events),
    ensures
        events == scan_part(events) + lifecycle(events),
    decreases events.len(),
{
    if events.len() == 0 {
        assert(events =~= scan_part(events) + lifecycle(events));
    } else {
        let front = events.drop_last();
        assert forall|i: int, j: int|
            0 <= i < j < front.len() && (#[trigger] front[i]).is_lifecycle() implies (
        #[trigger] front[j]).is_lifecycle() by {
            assert(events[i].is_lifecycle());
            assert(events[j].is_lifecycle());
        }
        lemma_scan_then_lifecycle(front);
        assert(events =~= front.push(events.last()));
        if events.last().is_lifecycle() {
            assert((scan_part(front) + lifecycle(front)).push(events.last()) =~= scan_part(front)
                + lifecycle(front).push(events.last()));
        } else {
            assert forall|i: int| 0 <= i < front.len() implies !(#[trigger] front[i]).is_lifecycle() by {
                if front[i].is_lifecycle() {
                    assert(events[i].is_lifecycle());
                    assert(events[events.len() - 1].is_lifecycle());
                }
            }
            lemma_no_lifecycle(front);
            assert(events =~= scan_part(front).push(events.last()) + lifecycle(front));
        }
    }
}

/// Events that are followed by an event of the scan hold no batch or lifecycle
/// event.
proof fn lemma_no_lifecycle(front: Seq<Event>)
    requires
        forall|i: int| 0 <= i < front.len() ==> !(#[trigger] front[i]).is_lifecycle(),
    ensures
        lifecycle(front) == Seq::<Event>::empty(),
    decreases front.len(),
{
    if front.len() > 0 {
        assert forall|i: int| 0 <= i < front.drop_last().len() implies !(
        #[trigger] front.drop_last()[i]).is_lifecycle() by {
            assert(!front[i].is_lifecycle());
        }
        lemma_no_lifecycle(front.drop_last());
    }
}

/// A step keeps the scan first.
proof fn lemma_step_scan_first(state: State, events: Seq<Event>, reply: Reply)
    requires
        state.wf(),
        run_inv(state, events),
        scan_first(events),
    ensures
        scan_first(events + state.step(reply).1),
{
    let (next, now) = state.step(reply);
    let all = events + now;
    lemma_step_wf(state, reply);
    assert forall|i: int, j: int|
        0 <= i < j < all.len() && (#[trigger] all[i]).is_lifecycle() implies (
    #[trigger] all[j]).is_lifecycle() by {
        if j < events.len() {
            assert(events[i].is_lifecycle() && events[j] == all[j]);
        } else {
            assert(all[j] == now[j - events.len()]);
            if i >= events.len() {
                assert(all[i] == now[i - events.len()]);
            } else {
                assert(events[i].is_lifecycle());
            }
        }
    }
}

/// Whatever the firmware answers, the events of a run are the events of the
/// scan, in the order of the candidates, followed by the batch and lifecycle
/// events in their one order: nothing of the scan is reported once a batch has
/// begun. A run that ends in a pass has reported what the scan found running
/// and then everything that the batches of the eligible harts report, and
/// nothing else.
pub proof fn lemma_whole_report(primary: usize, mask: usize, base: usize, replies: Seq<Reply>)
    ensures
        ({
            let (state, events) = run(State::initial(primary, mask, base), replies);
            &&& events == scan_part(events) + reported_events(state)
            &&& state.outcome == Some(Outcome::Pass) ==> events == scan_part(events)
                + batches_events(state.eligible, batch_count(state.eligible))
            &&& state.outcome == Some(Outcome::Pass) ==> forall|k: int|
                0 <= k < scan_part(events).len() ==> #[trigger] scan_part(
                    events,
                )[k] is HartStartedBeforeTest
        }),
{
    let (state, events) = run(State::initial(primary, mask, base), replies);
    lemma_run_scan_first(primary, mask, base, replies);
    lemma_scan_then_lifecycle(events);
    lemma_events_in_order(primary, mask, base, replies);
    if state.outcome == Some(Outcome::Pass) {
        crate::hsm::laws::lemma_fatal_event_ends_report(primary, mask, base, replies);
        lemma_scan_part_kinds(events);
        lemma_run_inv(primary, mask, base, replies);
        assert forall|k: int| 0 <= k < scan_part(events).len() implies #[trigger] scan_part(
            events,
        )[k] is HartStartedBeforeTest by {
            let at = choose|at: int| 0 <= at < events.len() && events[at] == scan_part(events)[k];
            assert(!events[at].failure());
            lemma_pass_has_no_empty_end(primary, mask, base, replies, at);
        }
    }
}

/// Every event of the scan part is an event of the scan that was reported.
proof fn lemma_scan_part_kinds(events: Seq<Event>)
    ensures
        forall|k: int|
            0 <= k < scan_part(events).len() ==> !(#[trigger] scan_part(events)[k]).is_lifecycle()
                && exists|at: int| 0 <= at < events.len() && events[at] == scan_part(events)[k],
    decreases events.len(),
{
    if events.len() > 0 {
        let front = events.drop_last();
        lemma_scan_part_kinds(front);
        assert forall|k: int| 0 <= k < scan_part(events).len() implies !(#[trigger] scan_part(
            events,
        )[k]).is_lifecycle() && exists|at: int|
            0 <= at < events.len() && events[at] == scan_part(events)[k] by {
            if k < scan_part(front).len() {
                let at = choose|at: int| 0 <= at < front.len() && front[at] == scan_part(front)[k];
                assert(events[at] == scan_part(events)[k]);
            } else {
                assert(events[events.len() - 1] == scan_part(events)[k]);
            }
        }
    }
}

/// A run that ended in a pass has not reported that no stopped hart was found.
proof fn lemma_pass_has_no_empty_end(
    primary: usize,
    mask: usize,
    base: usize,
    replies: Seq<Reply>,
    at: int,
)
    requires
        run(State::initial(primary, mask, base), replies).0.outcome == Some(Outcome::Pass),
        0 <= at < run(State::initial(primary, mask, base), replies).1.len(),
    ensures
        !(run(State::initial(primary, mask, base), replies).1[at] is NoStoppedHart),
    decreases replies.len(),
{
    let start = State::initial(primary, mask, base);
    if replies.len() > 0 {
        let (reached, before) = run(start, replies.drop_last());
        let (next, now) = reached.step(replies.last());
        lemma_run_inv(primary, mask, base, replies.drop_last());
        lemma_run_empty_end(primary, mask, base, replies.drop_last());
        if at >= before.len() {
            assert((before + now)[at] == now[at - before.len()]);
        } else {
            assert((before + now)[at] == before[at]);
        }
    }
}

/// Only a run that ended without a stopped hart has reported so.
proof fn lemma_run_empty_end(primary: usize, mask: usize, base: usize, replies: Seq<Reply>)
    ensures
        ({
            let (state, events) = run(State::initial(primary, mask, base), replies);
            state.outcome != Some(Outcome::NoStoppedHart) ==> forall|k: int|
                0 <= k < events.len() ==> !(#[trigger] events[k] is NoStoppedHart)
        }),
    decreases replies.len(),
{
    let start = State::initial(primary, mask, base);
    if replies.len() > 0 {
        let (reached, before) = run(start, replies.drop_last());
        let (next, now) = reached.step(replies.last());
        lemma_run_inv(primary, mask, base, replies.drop_last());
        lemma_run_empty_end(primary, mask, base, replies.drop_last());
        lemma_step_wf(reached, replies.last());
        if next.outcome != Some(Outcome::NoStoppedHart) {
            assert forall|k: int| 0 <= k < (before + now).len() implies !(#[trigger] (before
                + now)[k] is NoStoppedHart) by {
                if k >= before.len() {
                    assert((before + now)[k] == now[k - before.len()]);
                } else {
                    assert((before + now)[k] == before[k]);
                }
            }
        }
    }
}

/// The scan comes first in every run from the beginning.
proof fn lemma_run_scan_first(primary: usize, mask: usize, base: usize, replies: Seq<Reply>)
    ensures
        scan_first(run(State::initial(primary, mask, base), replies).1),
    decreases replies.len(),
{
    let start = State::initial(primary, mask, base);
    if replies.len() > 0 {
        lemma_run_scan_first(primary, mask, base, replies.drop_last());
        lemma_run_inv(primary, mask, base, replies.drop_last());
        let (reached, before) = run(start, replies.drop_last());
        lemma_step_scan_first(reached, before, replies.last());
    }
}

} // verus!
