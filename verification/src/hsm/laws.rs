//! What holds of every run, whatever the firmware answers.
use crate::hsm::engine::{lemma_step_wf, Phase, Reply, Request, State, TEST_BATCH_SIZE};
use crate::hsm::event::{Event, Outcome};
use crate::hsm::mask::{candidates_of, lemma_candidates, lemma_group_mask, selected};
use crate::hsm::run::{lemma_finished_stays, lemma_run_first, run};
use crate::sbi::HartState;
use vstd::prelude::*;

verus! {

/// The harts of all batches that the events announce, in order.
pub open spec fn begun(events: Seq<Event>) -> Seq<usize>
    decreases events.len(),
{
    if events.len() == 0 {
        Seq::empty()
    } else {
        match events.last() {
            Event::BatchBegin(ids) => begun(events.drop_last()) + ids,
            _ => begun(events.drop_last()),
        }
    }
}

/// The harts of all batches that the events report as passed, in order.
pub open spec fn passed(events: Seq<Event>) -> Seq<usize>
    decreases events.len(),
{
    if events.len() == 0 {
        Seq::empty()
    } else {
        match events.last() {
            Event::BatchPass(ids) => passed(events.drop_last()) + ids,
            _ => passed(events.drop_last()),
        }
    }
}

/// How many of the eligible harts have been announced in a batch.
pub open spec fn announced(state: State) -> int {
    match state.phase {
        Phase::Probe => 0,
        Phase::Scan => 0,
        Phase::Finished => match state.outcome {
            Some(Outcome::HartStartFailed { hartid, ret }) => state.batch_end(),
            _ => state.first,
        },
        _ => state.batch_end(),
    }
}

/// What holds of the events reported up to a state.
pub open spec fn run_inv(state: State, events: Seq<Event>) -> bool {
    &&& forall|k: int, j: int|
        0 <= k < events.len() && 0 <= j < events[k].harts().len() ==> state.candidates().contains(
            #[trigger] events[k].harts()[j],
        )
    &&& forall|k: int|
        0 <= k < events.len() ==> (#[trigger] events[k] matches Event::BatchBegin(ids) ==> 0
            < ids.len() <= TEST_BATCH_SIZE)
    &&& begun(events) == state.eligible.take(announced(state))
    &&& passed(events) == state.eligible.take(state.first)
    &&& match state.phase {
        Phase::Probe => events.len() == 0,
        Phase::Scan => forall|k: int|
            0 <= k < events.len() ==> #[trigger] events[k] is HartStartedBeforeTest,
        Phase::Finished => match state.outcome {
            Some(Outcome::NotExist) => events == seq![Event::NotExist],
            Some(Outcome::NoStoppedHart) => {
                &&& events.len() > 0
                &&& events.last() == Event::NoStoppedHart
                &&& forall|k: int|
                    0 <= k < events.len() - 1 ==> #[trigger] events[k] is HartStartedBeforeTest
            },
            _ => true,
        },
        _ => true,
    }
}

proof fn lemma_harts_append(a: Seq<Event>, b: Seq<Event>)
    ensures
        begun(a + b) == begun(a) + begun(b),
        passed(a + b) == passed(a) + passed(b),
    decreases b.len(),
{
    if b.len() == 0 {
        assert(a + b =~= a);
        assert(begun(a) + begun(b) =~= begun(a));
        assert(passed(a) + passed(b) =~= passed(a));
    } else {
        lemma_harts_append(a, b.drop_last());
        assert((a + b).drop_last() =~= a + b.drop_last());
        assert((a + b).last() == b.last());
        match b.last() {
            Event::BatchBegin(ids) => {
                assert((begun(a) + begun(b.drop_last())) + ids =~= begun(a) + (begun(b.drop_last())
                    + ids));
            },
            Event::BatchPass(ids) => {
                assert((passed(a) + passed(b.drop_last())) + ids =~= passed(a) + (passed(
                    b.drop_last(),
                ) + ids));
            },
            _ => {},
        }
    }
}

proof fn lemma_harts_push(events: Seq<Event>, event: Event)
    ensures
        begun(events.push(event)) == match event {
            Event::BatchBegin(ids) => begun(events) + ids,
            _ => begun(events),
        },
        passed(events.push(event)) == match event {
            Event::BatchPass(ids) => passed(events) + ids,
            _ => passed(events),
        },
{
    assert(events.push(event).drop_last() =~= events);
}

/// The harts of a passed batch are among the harts counted as passed.
proof fn lemma_passed_contains(events: Seq<Event>, k: int, j: int)
    requires
        0 <= k < events.len(),
        events[k] is BatchPass,
        0 <= j < events[k]->BatchPass_0.len(),
    ensures
        passed(events).contains(events[k]->BatchPass_0[j]),
    decreases events.len(),
{
    let front = events.drop_last();
    if k == events.len() - 1 {
        let ids = events[k]->BatchPass_0;
        assert(passed(events)[passed(front).len() + j] == ids[j]);
    } else {
        lemma_passed_contains(front, k, j);
        let id = events[k]->BatchPass_0[j];
        let at = choose|at: int| 0 <= at < passed(front).len() && passed(front)[at] == id;
        match events.last() {
            Event::BatchPass(ids) => {
                assert(passed(events)[at] == id);
            },
            _ => {},
        }
    }
}

/// The step that answers the probe keeps what holds of the events.
proof fn lemma_step_inv_probe(state: State, events: Seq<Event>, reply: Reply)
    requires
        state.wf(),
        run_inv(state, events),
        state.phase is Probe,
    ensures
        run_inv(state.step(reply).0, events + state.step(reply).1),
{
    let (next, now) = state.step(reply);
    let all = events + now;
    let none = Seq::<Event>::empty();
    lemma_step_wf(state, reply);
    lemma_harts_append(events, now);
    assert(events + none =~= events);
    assert(events =~= none);
    assert(next.eligible.take(0) =~= Seq::<usize>::empty());
    match reply {
        Reply::Probed(present) => {
            if !present {
                assert(all =~= seq![Event::NotExist]);
                lemma_harts_push(none, Event::NotExist);
            } else if state.cursor < state.candidates().len() {
                assert(all =~= none);
            } else {
                lemma_harts_push(none, Event::NoStoppedHart);
                assert(all =~= seq![Event::NoStoppedHart]);
            }
        },
        _ => {},
    }
}

/// A step of the scan keeps what holds of the events.
proof fn lemma_step_inv_scan(state: State, events: Seq<Event>, reply: Reply)
    requires
        state.wf(),
        run_inv(state, events),
        state.phase is Scan,
    ensures
        run_inv(state.step(reply).0, events + state.step(reply).1),
{
    let (next, now) = state.step(reply);
    let all = events + now;
    let none = Seq::<Event>::empty();
    lemma_step_wf(state, reply);
    lemma_harts_append(events, now);
    assert(events + none =~= events);
    assert(state.eligible.take(0) =~= Seq::<usize>::empty());
    assert(next.eligible.take(0) =~= Seq::<usize>::empty());
    match reply {
        Reply::Ret(ret) => {
            let hartid = state.candidates()[state.cursor];
            assert(state.candidates().contains(hartid));
            let noted = if ret.state() == HartState::Stopped {
                none
            } else {
                none.push(Event::HartStartedBeforeTest(hartid))
            };
            lemma_harts_push(none, Event::HartStartedBeforeTest(hartid));
            assert(begun(noted) =~= Seq::<usize>::empty());
            assert(passed(noted) =~= Seq::<usize>::empty());
            if state.cursor + 1 < state.candidates().len() {
                assert(now == noted);
            } else if next.eligible.len() == 0 {
                assert(now == noted.push(Event::NoStoppedHart));
                lemma_harts_push(noted, Event::NoStoppedHart);
                assert(all.last() == Event::NoStoppedHart);
            } else {
                let batch = next.batch();
                assert(now == noted.push(Event::BatchBegin(batch)));
                lemma_harts_push(noted, Event::BatchBegin(batch));
                assert(begun(now) =~= batch);
                assert(passed(now) =~= Seq::<usize>::empty());
                assert(batch =~= next.eligible.take(next.batch_end()));
                assert(begun(all) =~= next.eligible.take(announced(next)));
                assert(passed(all) =~= next.eligible.take(next.first));
                assert forall|k: int, j: int|
                    0 <= k < all.len() && 0 <= j < all[k].harts().len() implies next.candidates().contains(
                #[trigger] all[k].harts()[j]) by {
                    if k >= events.len() && now[k - events.len()] is BatchBegin {
                        assert(all[k].harts()[j] == next.eligible[j]);
                    }
                }
            }
        },
        _ => {},
    }
}

/// A step that reports at most one event of one hart keeps what holds of the
/// events.
proof fn lemma_step_inv_hart(state: State, events: Seq<Event>, reply: Reply)
    requires
        state.wf(),
        run_inv(state, events),
        state.phase.first_pass() || state.phase.second_pass(),
        !(state.phase is AwaitStopped),
    ensures
        run_inv(state.step(reply).0, events + state.step(reply).1),
{
    let (next, now) = state.step(reply);
    let all = events + now;
    let none = Seq::<Event>::empty();
    lemma_step_wf(state, reply);
    lemma_harts_append(events, now);
    assert(events + none =~= events);
    assert(next.eligible == state.eligible);
    assert(next.first == state.first);
    if now.len() > 0 {
        assert(now =~= none.push(now[0]));
        lemma_harts_push(none, now[0]);
        assert(now[0].harts() =~= seq![state.hart()]);
        assert(begun(now) =~= Seq::<usize>::empty());
        assert(passed(now) =~= Seq::<usize>::empty());
        assert(begun(all) =~= begun(events));
        assert(passed(all) =~= passed(events));
        assert forall|k: int, j: int|
            0 <= k < all.len() && 0 <= j < all[k].harts().len() implies next.candidates().contains(
        #[trigger] all[k].harts()[j]) by {
            if k >= events.len() {
                assert(all[k].harts()[j] == state.eligible[state.first + state.slot]);
            }
        }
    } else {
        assert(all =~= events);
    }
}

/// The step that takes the status of a hart awaited stopped keeps what holds
/// of the events.
proof fn lemma_step_inv_stopped(state: State, events: Seq<Event>, reply: Reply)
    requires
        state.wf(),
        run_inv(state, events),
        state.phase is AwaitStopped,
    ensures
        run_inv(state.step(reply).0, events + state.step(reply).1),
{
    let (next, now) = state.step(reply);
    let all = events + now;
    let none = Seq::<Event>::empty();
    lemma_step_wf(state, reply);
    lemma_harts_append(events, now);
    assert(events + none =~= events);
    match reply {
        Reply::Ret(ret) => {
            let stopped = none.push(Event::HartStopped(state.hart()));
            lemma_harts_push(none, Event::HartStopped(state.hart()));
            assert(begun(stopped) =~= Seq::<usize>::empty());
            assert(passed(stopped) =~= Seq::<usize>::empty());
            if ret.state() != HartState::Stopped {
                assert(all =~= events);
            } else if state.first + state.slot + 1 < state.batch_end() {
                assert(now == stopped);
                assert(begun(all) =~= begun(events));
                assert(passed(all) =~= passed(events));
                assert forall|k: int, j: int|
                    0 <= k < all.len() && 0 <= j < all[k].harts().len() implies next.candidates().contains(
                #[trigger] all[k].harts()[j]) by {
                    if k >= events.len() {
                        assert(all[k].harts()[j] == state.eligible[state.first + state.slot]);
                    }
                }
            } else {
                let batch = state.batch();
                let end = state.batch_end();
                let done = stopped.push(Event::BatchPass(batch));
                lemma_harts_push(stopped, Event::BatchPass(batch));
                assert(passed(done) =~= batch);
                assert(begun(done) =~= Seq::<usize>::empty());
                assert(state.eligible.take(state.first) + batch =~= state.eligible.take(end));
                if end < state.eligible.len() {
                    let fresh = next.batch();
                    assert(now == done.push(Event::BatchBegin(fresh)));
                    lemma_harts_push(done, Event::BatchBegin(fresh));
                    assert(begun(now) =~= fresh);
                    assert(passed(now) =~= batch);
                    assert(state.eligible.take(end) + fresh =~= next.eligible.take(
                        next.batch_end(),
                    ));
                    assert(begun(all) =~= next.eligible.take(announced(next)));
                    assert(passed(all) =~= next.eligible.take(next.first));
                    assert forall|k: int, j: int|
                        0 <= k < all.len() && 0 <= j < all[k].harts().len() implies next.candidates().contains(
                    #[trigger] all[k].harts()[j]) by {
                        if k >= events.len() {
                            let at = k - events.len();
                            if at == 0 {
                                assert(all[k].harts()[j] == state.eligible[state.first
                                    + state.slot]);
                            } else if at == 1 {
                                assert(all[k].harts()[j] == state.eligible[state.first + j]);
                            } else {
                                assert(all[k].harts()[j] == state.eligible[end + j]);
                            }
                        }
                    }
                } else {
                    assert(now == done);
                    assert(begun(all) =~= next.eligible.take(announced(next)));
                    assert(passed(all) =~= next.eligible.take(next.first));
                    assert forall|k: int, j: int|
                        0 <= k < all.len() && 0 <= j < all[k].harts().len() implies next.candidates().contains(
                    #[trigger] all[k].harts()[j]) by {
                        if k >= events.len() {
                            let at = k - events.len();
                            if at == 0 {
                                assert(all[k].harts()[j] == state.eligible[state.first
                                    + state.slot]);
                            } else {
                                assert(all[k].harts()[j] == state.eligible[state.first + j]);
                            }
                        }
                    }
                }
            }
        },
        _ => {
            assert(all =~= events);
        },
    }
}

/// A step keeps what holds of the events.
proof fn lemma_step_inv(state: State, events: Seq<Event>, reply: Reply)
    requires
        state.wf(),
        run_inv(state, events),
    ensures
        run_inv(state.step(reply).0, events + state.step(reply).1),
{
    if state.phase is Probe {
        lemma_step_inv_probe(state, events, reply);
    } else if state.phase is Scan {
        lemma_step_inv_scan(state, events, reply);
    } else if state.phase is AwaitStopped {
        lemma_step_inv_stopped(state, events, reply);
    } else if state.phase is Finished {
        assert(events + Seq::<Event>::empty() =~= events);
    } else {
        lemma_step_inv_hart(state, events, reply);
    }
}

/// What holds of the events of every run from the beginning.
pub proof fn lemma_run_inv(primary: usize, mask: usize, base: usize, replies: Seq<Reply>)
    ensures
        run(State::initial(primary, mask, base), replies).0.wf(),
        run(State::initial(primary, mask, base), replies).0.primary == primary,
        run(State::initial(primary, mask, base), replies).0.mask == mask,
        run(State::initial(primary, mask, base), replies).0.base == base,
        run_inv(
            run(State::initial(primary, mask, base), replies).0,
            run(State::initial(primary, mask, base), replies).1,
        ),
    decreases replies.len(),
{
    let start = State::initial(primary, mask, base);
    lemma_candidates(primary, mask, base);
    if replies.len() == 0 {
        assert(start.eligible.take(0) =~= Seq::<usize>::empty());
    } else {
        lemma_run_inv(primary, mask, base, replies.drop_last());
        let (reached, before) = run(start, replies.drop_last());
        lemma_step_wf(reached, replies.last());
        lemma_step_inv(reached, before, replies.last());
    }
}

/// Whatever the firmware answers, every hart that an event of the run names is
/// selected by the mask and is not the primary hart.
pub proof fn lemma_primary_never_tested(
    primary: usize,
    mask: usize,
    base: usize,
    replies: Seq<Reply>,
    k: int,
    j: int,
)
    requires
        0 <= k < run(State::initial(primary, mask, base), replies).1.len(),
        0 <= j < run(State::initial(primary, mask, base), replies).1[k].harts().len(),
    ensures
        run(State::initial(primary, mask, base), replies).1[k].harts()[j] != primary,
        selected(mask, base, run(State::initial(primary, mask, base), replies).1[k].harts()[j]),
{
    let (state, events) = run(State::initial(primary, mask, base), replies);
    lemma_run_inv(primary, mask, base, replies);
    lemma_candidates(primary, mask, base);
    assert(state.candidates().contains(events[k].harts()[j]));
}

/// Whatever the firmware answers, the batches announced so far, put end to
/// end, are a front piece of the eligible harts, and so are the batches
/// passed so far; no batch is empty or holds more than `TEST_BATCH_SIZE`
/// harts. In a run that ends in a pass both are the eligible harts themselves:
/// every eligible hart is in one batch and in one only.
pub proof fn lemma_batches_partition_eligible(
    primary: usize,
    mask: usize,
    base: usize,
    replies: Seq<Reply>,
)
    ensures
        ({
            let (state, events) = run(State::initial(primary, mask, base), replies);
            &&& state.eligible.no_duplicates()
            &&& begun(events).is_prefix_of(state.eligible)
            &&& passed(events).is_prefix_of(begun(events))
            &&& forall|k: int|
                0 <= k < events.len() ==> (#[trigger] events[k] matches Event::BatchBegin(ids) ==> 0
                    < ids.len() <= TEST_BATCH_SIZE)
            &&& state.outcome == Some(Outcome::Pass) ==> begun(events) == state.eligible && passed(
                events,
            ) == state.eligible
        }),
{
    let (state, events) = run(State::initial(primary, mask, base), replies);
    lemma_run_inv(primary, mask, base, replies);
    assert(state.eligible.take(state.eligible.len() as int) =~= state.eligible);
    assert(state.first <= announced(state) <= state.eligible.len());
    assert(state.eligible.take(state.first) =~= state.eligible.take(announced(state)).take(
        state.first,
    ));
}

/// Whatever the firmware answers, every hart of a batch that the run reports
/// as passed was last reported stopped by the firmware.
pub proof fn lemma_passed_batches_stopped(
    primary: usize,
    mask: usize,
    base: usize,
    replies: Seq<Reply>,
    k: int,
    j: int,
)
    requires
        0 <= k < run(State::initial(primary, mask, base), replies).1.len(),
        run(State::initial(primary, mask, base), replies).1[k] is BatchPass,
        0 <= j < run(State::initial(primary, mask, base), replies).1[k]->BatchPass_0.len(),
    ensures
        ({
            let (state, events) = run(State::initial(primary, mask, base), replies);
            let hartid = events[k]->BatchPass_0[j];
            state.observed.dom().contains(hartid) && state.observed[hartid] == HartState::Stopped
        }),
{
    let (state, events) = run(State::initial(primary, mask, base), replies);
    lemma_run_inv(primary, mask, base, replies);
    lemma_passed_contains(events, k, j);
    let hartid = events[k]->BatchPass_0[j];
    let at = choose|at: int| 0 <= at < passed(events).len() && passed(events)[at] == hartid;
    assert(state.eligible[at] == hartid);
    assert(state.expected(at) == Some(HartState::Stopped));
}

/// If the firmware answers the probe with "absent", the run reports the one
/// fatal event and nothing else, whatever is fed to it afterwards.
pub proof fn lemma_absent_extension_ends_run(
    primary: usize,
    mask: usize,
    base: usize,
    replies: Seq<Reply>,
)
    requires
        replies.len() > 0,
        replies[0] == Reply::Probed(false),
    ensures
        run(State::initial(primary, mask, base), replies).1 == seq![Event::NotExist],
        run(State::initial(primary, mask, base), replies).0.outcome == Some(Outcome::NotExist),
{
    let start = State::initial(primary, mask, base);
    let (next, now) = start.step(replies[0]);
    lemma_run_first(start, replies);
    lemma_finished_stays(next, replies.skip(1));
    assert(now + Seq::<Event>::empty() =~= seq![Event::NotExist]);
}

/// If the mask selects no hart but the primary and the extension is present,
/// the run reports that no stopped hart was found and nothing else, and ends
/// without a failure.
pub proof fn lemma_no_candidate_ends_run(
    primary: usize,
    mask: usize,
    base: usize,
    replies: Seq<Reply>,
)
    requires
        replies.len() > 0,
        replies[0] == Reply::Probed(true),
        forall|id: usize| selected(mask, base, id) ==> id == primary,
    ensures
        run(State::initial(primary, mask, base), replies).1 == seq![Event::NoStoppedHart],
        run(State::initial(primary, mask, base), replies).0.outcome == Some(
            Outcome::NoStoppedHart,
        ),
{
    let start = State::initial(primary, mask, base);
    lemma_candidates(primary, mask, base);
    let candidates = candidates_of(primary, mask, base);
    if candidates.len() > 0 {
        assert(candidates.contains(candidates[0]));
        assert(selected(mask, base, candidates[0]));
    }
    assert(start.candidates().len() == 0);
    let (next, now) = start.step(replies[0]);
    lemma_run_first(start, replies);
    lemma_finished_stays(next, replies.skip(1));
    assert(now + Seq::<Event>::empty() =~= seq![Event::NoStoppedHart]);
}

/// Two runs from the same hart selection that are fed the same answers report
/// the same events in the same order and end alike.
pub proof fn lemma_run_repeats(
    primary: usize,
    mask: usize,
    base: usize,
    first: Seq<Reply>,
    second: Seq<Reply>,
)
    requires
        first == second,
    ensures
        run(State::initial(primary, mask, base), first) == run(
            State::initial(primary, mask, base),
            second,
        ),
{
}

/// At every point of every run, what the controller asks for next rests on
/// what the firmware last reported: a hart is started only while reported
/// stopped; a hart is released into a suspension only while reported started;
/// the interrupt that resumes a batch is sent only when every hart of the
/// batch is reported suspended; and the interrupt that wakes a hart for good
/// is sent only while that hart is reported suspended. While a batch is under
/// way, every hart of the batches before it is reported stopped, so that no
/// slot is in use by two harts, and the position of the current hart in its
/// batch, which is that of its slot, is below `TEST_BATCH_SIZE`.
pub proof fn lemma_requests_follow_reports(
    primary: usize,
    mask: usize,
    base: usize,
    replies: Seq<Reply>,
)
    ensures
        ({
            let state = run(State::initial(primary, mask, base), replies).0;
            let at = state.first + state.slot;
            &&& state.phase is Start ==> state.seen(at, HartState::Stopped)
            &&& state.phase is SignalStart || state.phase is SignalResume ==> state.seen(
                at,
                HartState::Started,
            )
            &&& state.phase is ResumeAll ==> forall|k: int|
                state.first <= k < state.batch_end() ==> #[trigger] state.seen(
                    k,
                    HartState::Suspended,
                )
            &&& state.phase is Wake ==> state.seen(at, HartState::Suspended)
            &&& forall|k: int| 0 <= k < state.first ==> #[trigger] state.seen(k, HartState::Stopped)
            &&& state.phase.first_pass() || state.phase.second_pass() ==> 0 <= state.slot
                < TEST_BATCH_SIZE
        }),
{
    let state = run(State::initial(primary, mask, base), replies).0;
    let at = state.first + state.slot;
    lemma_run_inv(primary, mask, base, replies);
    assert forall|k: int| 0 <= k < state.first implies #[trigger] state.seen(
        k,
        HartState::Stopped,
    ) by {
        assert(state.expected(k) == Some(HartState::Stopped));
    }
    if state.phase.first_pass() || state.phase.second_pass() {
        assert(state.expected(at) is Some ==> state.seen(at, state.expected(at)->0));
    }
    if state.phase is ResumeAll {
        assert forall|k: int| state.first <= k < state.batch_end() implies #[trigger] state.seen(
            k,
            HartState::Suspended,
        ) by {
            assert(state.expected(k) == Some(HartState::Suspended));
        }
    }
}

/// The interrupt that resumes a batch names every hart of the batch and no
/// other hart.
pub proof fn lemma_resume_names_the_batch(state: State)
    requires
        state.wf(),
        state.phase is ResumeAll,
    ensures
        state.request() matches Request::SendIpi { mask, base } && forall|id: usize|
            selected(mask, base, id) <==> state.batch().contains(id),
{
    let batch = state.batch();
    assert forall|k: int| 0 <= k < batch.len() implies batch[0] <= #[trigger] batch[k] < batch[0]
        + usize::BITS by {
        assert(batch[k] == state.eligible[state.first + k]);
        assert(batch[0] == state.eligible[state.first]);
    }
    lemma_group_mask(batch);
}

/// A hart is released only in the step after the wait for its stage word has
/// ended, and that wait begins only in the step in which the firmware reports
/// the hart started: first the state that the firmware reports, then the
/// hart's own word, then the release.
pub proof fn lemma_release_follows_wait(state: State, reply: Reply)
    requires
        state.wf(),
    ensures
        ({
            let next = state.step(reply).0;
            &&& next.phase is SignalStart && !(state.phase is SignalStart) ==> state.phase is WaitStart
                && reply is Done && next.slot == state.slot
            &&& next.phase is SignalResume && !(state.phase is SignalResume) ==> state.phase is WaitResume
                && reply is Done && next.slot == state.slot
            &&& next.phase is WaitStart && !(state.phase is WaitStart) ==> state.phase is AwaitStarted
                && next.slot == state.slot && (reply matches Reply::Ret(ret) && ret.state()
                == HartState::Started)
            &&& next.phase is WaitResume && !(state.phase is WaitResume) ==> state.phase is AwaitResumed
                && next.slot == state.slot && (reply matches Reply::Ret(ret) && ret.state()
                == HartState::Started)
        }),
{
}

/// Whether the events report hart `id` as running before the test.
pub open spec fn reported(events: Seq<Event>, id: usize) -> bool {
    exists|k: int| 0 <= k < events.len() && #[trigger] events[k] == Event::HartStartedBeforeTest(id)
}

/// How the scan divides the candidates, and whom the later events name.
pub open spec fn split_inv(state: State, events: Seq<Event>) -> bool {
    let scanned = state.candidates().take(state.cursor);
    &&& forall|i: int|
        0 <= i < scanned.len() ==> (state.eligible.contains(#[trigger] scanned[i]) <==> !reported(
            events,
            scanned[i],
        ))
    &&& forall|k: int|
        0 <= k < events.len() ==> (#[trigger] events[k] matches Event::HartStartedBeforeTest(id)
            ==> scanned.contains(id))
    &&& forall|k: int, j: int|
        0 <= k < events.len() && events[k].is_lifecycle() && 0 <= j < events[k].harts().len()
            ==> state.eligible.contains(#[trigger] events[k].harts()[j])
}

proof fn lemma_reported_append(events: Seq<Event>, now: Seq<Event>, id: usize)
    ensures
        reported(events + now, id) <==> reported(events, id) || reported(now, id),
{
    let all = events + now;
    if reported(all, id) {
        let k = choose|k: int|
            0 <= k < all.len() && #[trigger] all[k] == Event::HartStartedBeforeTest(id);
        if k < events.len() {
            assert(events[k] == Event::HartStartedBeforeTest(id));
        } else {
            assert(now[k - events.len()] == Event::HartStartedBeforeTest(id));
        }
    }
    if reported(events, id) {
        let k = choose|k: int|
            0 <= k < events.len() && #[trigger] events[k] == Event::HartStartedBeforeTest(id);
        assert(all[k] == Event::HartStartedBeforeTest(id));
    }
    if reported(now, id) {
        let k = choose|k: int|
            0 <= k < now.len() && #[trigger] now[k] == Event::HartStartedBeforeTest(id);
        assert(all[events.len() + k] == Event::HartStartedBeforeTest(id));
    }
}

/// A step of the scan keeps the division of the candidates.
proof fn lemma_step_split_scan(state: State, events: Seq<Event>, reply: Reply)
    requires
        state.wf(),
        split_inv(state, events),
        state.phase is Scan,
    ensures
        split_inv(state.step(reply).0, events + state.step(reply).1),
{
    let (next, now) = state.step(reply);
    let all = events + now;
    let candidates = state.candidates();
    let scanned = candidates.take(state.cursor);
    lemma_step_wf(state, reply);
    lemma_candidates(state.primary, state.mask, state.base);
    match reply {
        Reply::Ret(ret) => {
            let hartid = candidates[state.cursor];
            let after = candidates.take(state.cursor + 1);
            let stopped = ret.state() == HartState::Stopped;
            assert(!scanned.contains(hartid));
            assert(forall|i: int| 0 <= i < scanned.len() ==> scanned[i] == after[i]);
            assert(after[state.cursor] == hartid);
            assert(!state.eligible.contains(hartid)) by {
                if state.eligible.contains(hartid) {
                    let k = choose|k: int| 0 <= k < state.eligible.len() && state.eligible[k] == hartid;
                    assert(state.eligible[k] <= state.eligible.last());
                }
            }
            assert(!reported(events, hartid)) by {
                if reported(events, hartid) {
                    let k = choose|k: int|
                        0 <= k < events.len() && #[trigger] events[k] == Event::HartStartedBeforeTest(
                            hartid,
                        );
                    assert(scanned.contains(hartid));
                }
            }
            assert(reported(now, hartid) == !stopped) by {
                if !stopped {
                    assert(now[0] == Event::HartStartedBeforeTest(hartid));
                }
            }
            assert forall|i: int| 0 <= i < after.len() implies (next.eligible.contains(
                #[trigger] after[i],
            ) <==> !reported(all, after[i])) by {
                lemma_reported_append(events, now, after[i]);
                if i < state.cursor {
                    assert(scanned[i] == after[i]);
                    assert(after[i] != hartid);
                    assert(!reported(now, after[i]));
                    if state.eligible.contains(after[i]) {
                        let k = choose|k: int|
                            0 <= k < state.eligible.len() && state.eligible[k] == after[i];
                        assert(next.eligible[k] == after[i]);
                    }
                    if next.eligible.contains(after[i]) {
                        let k = choose|k: int|
                            0 <= k < next.eligible.len() && next.eligible[k] == after[i];
                        assert(state.eligible[k] == after[i]);
                    }
                } else {
                    if stopped {
                        assert(next.eligible[state.eligible.len() as int] == hartid);
                    } else {
                        assert(next.eligible == state.eligible);
                    }
                }
            }
            assert forall|k: int| 0 <= k < all.len() implies (#[trigger] all[k] matches Event::HartStartedBeforeTest(
                id,
            ) ==> after.contains(id)) by {
                if k < events.len() {
                    if let Event::HartStartedBeforeTest(id) = events[k] {
                        let i = choose|i: int| 0 <= i < scanned.len() && scanned[i] == id;
                        assert(after[i] == id);
                    }
                }
            }
            assert forall|k: int, j: int|
                0 <= k < all.len() && all[k].is_lifecycle() && 0 <= j < all[k].harts().len() implies next.eligible.contains(
            #[trigger] all[k].harts()[j]) by {
                if k < events.len() {
                    let id = events[k].harts()[j];
                    let i = choose|i: int| 0 <= i < state.eligible.len() && state.eligible[i] == id;
                    assert(next.eligible[i] == id);
                } else {
                    assert(all[k] == Event::BatchBegin(next.batch()));
                    assert(next.eligible[j] == next.batch()[j]);
                }
            }
        },
        _ => {
            assert(all =~= events);
        },
    }
}

/// A step outside the scan keeps the division of the candidates.
proof fn lemma_step_split_other(state: State, events: Seq<Event>, reply: Reply)
    requires
        state.wf(),
        split_inv(state, events),
        !(state.phase is Scan),
    ensures
        split_inv(state.step(reply).0, events + state.step(reply).1),
{
    let (next, now) = state.step(reply);
    let all = events + now;
    let scanned = state.candidates().take(state.cursor);
    lemma_step_wf(state, reply);
    assert(next.cursor == state.cursor);
    assert(next.eligible == state.eligible);
    assert forall|k: int| 0 <= k < now.len() implies !(#[trigger] now[k] is HartStartedBeforeTest) by {}
    assert forall|i: int| 0 <= i < scanned.len() implies (next.eligible.contains(
        #[trigger] scanned[i],
    ) <==> !reported(all, scanned[i])) by {
        lemma_reported_append(events, now, scanned[i]);
        if reported(now, scanned[i]) {
            let k = choose|k: int|
                0 <= k < now.len() && #[trigger] now[k] == Event::HartStartedBeforeTest(scanned[i]);
            assert(now[k] is HartStartedBeforeTest);
        }
    }
    assert forall|k: int, j: int|
        0 <= k < all.len() && all[k].is_lifecycle() && 0 <= j < all[k].harts().len() implies next.eligible.contains(
    #[trigger] all[k].harts()[j]) by {
        if k >= events.len() {
            let at = k - events.len();
            let id = now[at].harts()[j];
            if state.phase.first_pass() || state.phase.second_pass() {
                if now[at] is BatchPass {
                    assert(id == state.eligible[state.first + j]);
                } else if now[at] is BatchBegin {
                    assert(id == state.eligible[state.batch_end() + j]);
                } else {
                    assert(id == state.eligible[state.first + state.slot]);
                }
            }
        }
    }
}

/// The division of the candidates holds of every run from the beginning.
proof fn lemma_run_split(primary: usize, mask: usize, base: usize, replies: Seq<Reply>)
    ensures
        split_inv(
            run(State::initial(primary, mask, base), replies).0,
            run(State::initial(primary, mask, base), replies).1,
        ),
    decreases replies.len(),
{
    let start = State::initial(primary, mask, base);
    if replies.len() > 0 {
        lemma_run_split(primary, mask, base, replies.drop_last());
        lemma_run_inv(primary, mask, base, replies.drop_last());
        let (reached, before) = run(start, replies.drop_last());
        if reached.phase is Scan {
            lemma_step_split_scan(reached, before, replies.last());
        } else {
            lemma_step_split_other(reached, before, replies.last());
        }
    }
}

/// Whatever the firmware answers, the scan divides the candidates in two:
/// every candidate scanned so far is either eligible or reported as running
/// before the test, never both; only scanned candidates are so reported; once
/// a batch is under way, and at the end of every run that found the extension,
/// all candidates have been scanned; and every hart that a batch or lifecycle
/// event names is eligible. A hart reported as running before the test is
/// therefore never named by a batch or lifecycle event.
pub proof fn lemma_scan_divides_candidates(
    primary: usize,
    mask: usize,
    base: usize,
    replies: Seq<Reply>,
)
    ensures
        ({
            let (state, events) = run(State::initial(primary, mask, base), replies);
            let scanned = candidates_of(primary, mask, base).take(state.cursor);
            &&& forall|i: int|
                0 <= i < scanned.len() ==> (state.eligible.contains(#[trigger] scanned[i])
                    <==> !reported(events, scanned[i]))
            &&& forall|id: usize| reported(events, id) ==> scanned.contains(id)
            &&& state.phase.first_pass() || state.phase.second_pass() || state.outcome is Some
                && state.outcome != Some(Outcome::NotExist) ==> scanned == candidates_of(
                primary,
                mask,
                base,
            )
            &&& forall|k: int, j: int|
                0 <= k < events.len() && events[k].is_lifecycle() && 0 <= j
                    < events[k].harts().len() ==> state.eligible.contains(
                    #[trigger] events[k].harts()[j],
                ) && !reported(events, events[k].harts()[j])
        }),
{
    let (state, events) = run(State::initial(primary, mask, base), replies);
    let scanned = candidates_of(primary, mask, base).take(state.cursor);
    lemma_run_inv(primary, mask, base, replies);
    lemma_run_split(primary, mask, base, replies);
    if state.cursor == candidates_of(primary, mask, base).len() {
        assert(scanned =~= candidates_of(primary, mask, base));
    }
    assert forall|id: usize| reported(events, id) implies scanned.contains(id) by {
        let k = choose|k: int|
            0 <= k < events.len() && #[trigger] events[k] == Event::HartStartedBeforeTest(id);
    }
    assert forall|k: int, j: int|
        0 <= k < events.len() && events[k].is_lifecycle() && 0 <= j
            < events[k].harts().len() implies state.eligible.contains(
        #[trigger] events[k].harts()[j],
    ) && !reported(events, events[k].harts()[j]) by {
        let id = events[k].harts()[j];
        if reported(events, id) {
            let i = choose|i: int| 0 <= i < scanned.len() && scanned[i] == id;
            assert(state.eligible.contains(scanned[i]));
        }
    }
}

/// The event that reports a fatal outcome, `None` for the other outcomes.
pub open spec fn fatal_event(outcome: Outcome) -> Option<Event> {
    match outcome {
        Outcome::NotExist => Some(Event::NotExist),
        Outcome::HartStartFailed { hartid, ret } => Some(Event::HartStartFailed { hartid, ret }),
        _ => None,
    }
}

/// What holds of the fatal events reported up to a state.
pub open spec fn fatal_inv(state: State, events: Seq<Event>) -> bool {
    if state.outcome is Some && fatal_event(state.outcome->0) is Some {
        &&& events.len() > 0
        &&& events.last() == fatal_event(state.outcome->0)->0
        &&& forall|k: int| 0 <= k < events.len() - 1 ==> !(#[trigger] events[k]).failure()
    } else {
        forall|k: int| 0 <= k < events.len() ==> !(#[trigger] events[k]).failure()
    }
}

/// A step keeps what holds of the fatal events.
proof fn lemma_step_fatal(state: State, events: Seq<Event>, reply: Reply)
    requires
        state.wf(),
        fatal_inv(state, events),
    ensures
        fatal_inv(state.step(reply).0, events + state.step(reply).1),
{
    let (next, now) = state.step(reply);
    let all = events + now;
    lemma_step_wf(state, reply);
    if now.len() == 0 {
        assert(all =~= events);
    } else {
        assert(all.last() == now.last());
        assert forall|k: int| 0 <= k < all.len() && (#[trigger] all[k]).failure() implies k
            == all.len() - 1 && next.outcome is Some && fatal_event(next.outcome->0) == Some(
            all[k],
        ) by {
            if k >= events.len() {
                assert(all[k] == now[k - events.len()]);
            }
        }
    }
}

/// What holds of the fatal events holds of every run from the beginning.
proof fn lemma_run_fatal(primary: usize, mask: usize, base: usize, replies: Seq<Reply>)
    ensures
        fatal_inv(
            run(State::initial(primary, mask, base), replies).0,
            run(State::initial(primary, mask, base), replies).1,
        ),
    decreases replies.len(),
{
    let start = State::initial(primary, mask, base);
    if replies.len() > 0 {
        lemma_run_fatal(primary, mask, base, replies.drop_last());
        lemma_run_inv(primary, mask, base, replies.drop_last());
        let (reached, before) = run(start, replies.drop_last());
        lemma_step_fatal(reached, before, replies.last());
    }
}

/// Whatever the firmware answers, a run reports at most one fatal event, as
/// its last event, and it does so exactly when it has ended on the fatal
/// outcome that the event names; a run that ended otherwise, or has not ended,
/// has reported no fatal event. A run has an outcome exactly when it is over.
pub proof fn lemma_fatal_event_ends_report(
    primary: usize,
    mask: usize,
    base: usize,
    replies: Seq<Reply>,
)
    ensures
        ({
            let (state, events) = run(State::initial(primary, mask, base), replies);
            &&& forall|k: int|
                0 <= k < events.len() && (#[trigger] events[k]).failure() ==> k == events.len() - 1
            &&& match state.outcome {
                Some(Outcome::NotExist) => events == seq![Event::NotExist],
                Some(Outcome::HartStartFailed { hartid, ret }) => events.len() > 0 && events.last()
                    == (Event::HartStartFailed { hartid, ret }),
                _ => forall|k: int| 0 <= k < events.len() ==> !(#[trigger] events[k]).failure(),
            }
            &&& state.phase is Finished <==> state.outcome is Some
        }),
{
    lemma_run_inv(primary, mask, base, replies);
    lemma_run_fatal(primary, mask, base, replies);
}

/// Whatever the firmware answers, the events of a run hold a failure exactly
/// when the run has ended on a fatal outcome: a run that passed, that found no
/// stopped hart, or that is still under way has reported none.
pub proof fn lemma_only_fatal_runs_fail(primary: usize, mask: usize, base: usize, replies: Seq<Reply>)
    ensures
        ({
            let (state, events) = run(State::initial(primary, mask, base), replies);
            crate::hsm::event::passes(events) <==> !(state.outcome is Some
                && state.outcome->0.fatal())
        }),
{
    let (state, events) = run(State::initial(primary, mask, base), replies);
    lemma_run_fatal(primary, mask, base, replies);
    if state.outcome is Some && state.outcome->0.fatal() {
        assert(events.last().failure());
    }
}

/// What a run has reported is never taken back: the events of a run are the
/// first events of every run that is fed further answers. Breaking a run off,
/// as a consumer of the events may, leaves a front piece of the full report.
pub proof fn lemma_events_only_grow(state: State, replies: Seq<Reply>, more: Seq<Reply>)
    ensures
        run(state, replies).1.is_prefix_of(run(state, replies + more).1),
    decreases more.len(),
{
    if more.len() == 0 {
        assert(replies + more =~= replies);
    } else {
        lemma_events_only_grow(state, replies, more.drop_last());
        assert((replies + more).drop_last() =~= replies + more.drop_last());
    }
}

} // verus!
