use sbi_testing::hsm::{
    Case, Engine, Outcome, Reply, Request, SharedItem, SuspendKind, Wake, SETTLE_SPINS,
};
use sbi_testing::base::{ExtensionInfo, Extensions, Identity, Version};
use sbi_testing::harness::Answers;
use sbi_testing::sbi::SbiRet;
use sbi_testing::trap::{Interrupt, Trap};
use sbi_testing::{base, spi, time, Testing};

const STARTED: usize = 0;
const STOPPED: usize = 1;
const START_PENDING: usize = 2;
const SUSPENDED: usize = 4;
const ERR_FAILED: usize = usize::MAX;
const ERR_INVALID_PARAM: usize = usize::MAX - 2;

/// One simulated hart.
struct Hart {
    id: usize,
    state: usize,
    slot: Option<usize>,
    pass: Option<Wake>,
    start_error: Option<usize>,
}

/// A deterministic firmware with the harts behind it. Every status query of a
/// hart that has just changed state first answers `lag` times with a pending
/// state, so that the controller has to poll.
struct Platform {
    present: bool,
    lag: usize,
    pending: usize,
    harts: Vec<Hart>,
    slots: Vec<SharedItem>,
    requests: Vec<Request>,
}

fn platform(present: bool, lag: usize, harts: &[(usize, usize)]) -> Platform {
    Platform {
        present,
        lag,
        pending: 0,
        harts: harts
            .iter()
            .map(|&(id, state)| Hart { id, state, slot: None, pass: None, start_error: None })
            .collect(),
        slots: (0..4).map(|_| SharedItem::new()).collect(),
        requests: Vec::new(),
    }
}

fn ok(value: usize) -> Reply {
    Reply::Ret(SbiRet { error: 0, value })
}

fn err(error: usize) -> Reply {
    Reply::Ret(SbiRet { error, value: 0 })
}

impl Platform {
    fn index(&self, id: usize) -> Option<usize> {
        self.harts.iter().position(|hart| hart.id == id)
    }

    /// The hart runs from its entry up to the wait for the signal.
    fn enter(&mut self, at: usize) {
        let slot = self.harts[at].slot.unwrap();
        let wake = self.slots[slot].enter();
        assert!(wake.is_some(), "a hart entered a slot that is in use");
        self.harts[at].pass = wake;
        self.harts[at].state = STARTED;
        self.pending = self.lag;
    }

    /// The hart takes the signal and suspends.
    fn release(&mut self, slot: usize) {
        let at = self.harts.iter().position(|hart| hart.slot == Some(slot)).unwrap();
        assert!(self.slots[slot].wait_signal());
        assert!(!self.slots[slot].wait_signal());
        assert!(self.harts[at].pass.is_some());
        self.harts[at].state = SUSPENDED;
        self.pending = self.lag;
    }

    /// An interrupt reaches a hart.
    fn interrupt(&mut self, at: usize) {
        if self.harts[at].state != SUSPENDED {
            return;
        }
        match self.harts[at].pass.map(Wake::suspend_kind) {
            Some(SuspendKind::NonRetentive) => self.enter(at),
            Some(SuspendKind::Retentive) => {
                assert_eq!(self.harts[at].pass.map(Wake::stops_after), Some(true));
                self.harts[at].state = STOPPED;
                self.harts[at].slot = None;
                self.pending = self.lag;
            }
            None => panic!("a hart suspended without a pass"),
        }
    }

    fn perform(&mut self, request: Request) -> Reply {
        self.requests.push(request);
        match request {
            Request::ProbeExtension => Reply::Probed(self.present),
            Request::HartGetStatus { hartid } => match self.index(hartid) {
                None => err(ERR_INVALID_PARAM),
                Some(at) => {
                    if self.pending > 0 {
                        self.pending -= 1;
                        ok(START_PENDING)
                    } else {
                        ok(self.harts[at].state)
                    }
                }
            },
            Request::Reset { slot } => {
                self.slots[slot].reset();
                Reply::Done
            }
            Request::HartStart { hartid, slot } => match self.index(hartid) {
                None => err(ERR_INVALID_PARAM),
                Some(at) => {
                    if let Some(error) = self.harts[at].start_error {
                        return err(error);
                    }
                    assert_eq!(self.harts[at].state, STOPPED);
                    self.harts[at].slot = Some(slot);
                    self.enter(at);
                    ok(0)
                }
            },
            Request::WaitStart { slot } => {
                assert!(self.slots[slot].wait_start());
                assert!(!self.slots[slot].wait_resume());
                Reply::Done
            }
            Request::WaitResume { slot } => {
                assert!(self.slots[slot].wait_resume());
                assert!(!self.slots[slot].wait_start());
                Reply::Done
            }
            Request::SendSignal { slot } => {
                self.slots[slot].send_signal();
                self.release(slot);
                Reply::Done
            }
            Request::SendIpi { mask, base } => {
                for bit in 0..usize::BITS as usize {
                    if (mask >> bit) & 1 == 1 {
                        match self.index(base + bit) {
                            Some(at) => self.interrupt(at),
                            None => return err(ERR_INVALID_PARAM),
                        }
                    }
                }
                ok(0)
            }
            Request::Settle { spins } => {
                assert_eq!(spins, SETTLE_SPINS);
                Reply::Done
            }
            Request::Done => panic!("nothing is asked once the run is over"),
        }
    }
}

/// Runs the engine against the platform until the run is over.
fn drive(
    platform: &mut Platform,
    primary: usize,
    mask: usize,
    base: usize,
) -> (Vec<Case>, Outcome, Vec<Reply>) {
    let mut engine = Engine::new(primary, mask, base);
    let mut events = Vec::new();
    let mut replies = Vec::new();
    loop {
        assert_eq!(engine.outcome().is_some(), engine.request() == Request::Done);
        if let Some(outcome) = engine.outcome() {
            return (events, outcome, replies);
        }
        assert!(replies.len() < 10_000, "the run does not end");
        let reply = platform.perform(engine.request());
        replies.push(reply);
        events.extend(engine.advance(reply));
    }
}

fn lifecycle(batch: &[usize]) -> Vec<Case> {
    let mut events = vec![Case::BatchBegin(batch.to_vec())];
    for &id in batch {
        events.push(Case::HartStarted(id));
        events.push(Case::HartSuspendedNonretentive(id));
    }
    for &id in batch {
        events.push(Case::HartResumed(id));
        events.push(Case::HartSuspendedRetentive(id));
        events.push(Case::HartStopped(id));
    }
    events.push(Case::BatchPass(batch.to_vec()));
    events
}

fn all_stopped(ids: &[usize]) -> Vec<(usize, usize)> {
    ids.iter().map(|&id| (id, STOPPED)).collect()
}

#[test]
fn five_stopped_harts_run_in_two_batches() {
    let mut firmware = platform(true, 0, &all_stopped(&[0, 1, 2, 3, 4, 5]));
    let (events, outcome, _) = drive(&mut firmware, 0, 0b11_1110, 0);
    let mut expected = lifecycle(&[1, 2, 3, 4]);
    expected.extend(lifecycle(&[5]));
    assert_eq!(events, expected);
    assert_eq!(outcome, Outcome::Pass);
    assert!(!outcome.is_fatal());
    for hart in &firmware.harts {
        assert_eq!(hart.state, STOPPED);
    }
}

#[test]
fn events_of_one_batch_in_full() {
    let mut firmware = platform(true, 0, &all_stopped(&[7, 8]));
    let (events, outcome, _) = drive(&mut firmware, 0, 0b11, 7);
    assert_eq!(
        events,
        vec![
            Case::BatchBegin(vec![7, 8]),
            Case::HartStarted(7),
            Case::HartSuspendedNonretentive(7),
            Case::HartStarted(8),
            Case::HartSuspendedNonretentive(8),
            Case::HartResumed(7),
            Case::HartSuspendedRetentive(7),
            Case::HartStopped(7),
            Case::HartResumed(8),
            Case::HartSuspendedRetentive(8),
            Case::HartStopped(8),
            Case::BatchPass(vec![7, 8]),
        ]
    );
    assert_eq!(outcome, Outcome::Pass);
}

#[test]
fn requests_of_one_hart_in_order() {
    let mut firmware = platform(true, 0, &all_stopped(&[3]));
    let (_, outcome, _) = drive(&mut firmware, 0, 0b1000, 0);
    assert_eq!(outcome, Outcome::Pass);
    assert_eq!(
        firmware.requests,
        vec![
            Request::ProbeExtension,
            Request::HartGetStatus { hartid: 3 },
            Request::Reset { slot: 0 },
            Request::HartStart { hartid: 3, slot: 0 },
            Request::HartGetStatus { hartid: 3 },
            Request::WaitStart { slot: 0 },
            Request::SendSignal { slot: 0 },
            Request::HartGetStatus { hartid: 3 },
            Request::SendIpi { mask: 1, base: 3 },
            Request::HartGetStatus { hartid: 3 },
            Request::WaitResume { slot: 0 },
            Request::SendSignal { slot: 0 },
            Request::HartGetStatus { hartid: 3 },
            Request::Settle { spins: 0x1000 },
            Request::SendIpi { mask: 1, base: 3 },
            Request::HartGetStatus { hartid: 3 },
        ]
    );
}

#[test]
fn group_interrupt_names_the_whole_batch() {
    let mut firmware = platform(true, 0, &all_stopped(&[1, 2, 4, 5, 9]));
    let (events, outcome, _) = drive(&mut firmware, 3, 0b10_0011_1110, 0);
    assert_eq!(outcome, Outcome::Pass);
    let mut expected = lifecycle(&[1, 2, 4, 5]);
    expected.extend(lifecycle(&[9]));
    assert_eq!(events, expected);
    let groups: Vec<Request> = firmware
        .requests
        .iter()
        .copied()
        .filter(|request| matches!(request, Request::SendIpi { mask, .. } if *mask != 1))
        .collect();
    assert_eq!(groups, vec![Request::SendIpi { mask: 0b11011, base: 1 }]);
    let resets: Vec<Request> = firmware
        .requests
        .iter()
        .copied()
        .filter(|request| matches!(request, Request::Reset { .. }))
        .collect();
    assert_eq!(
        resets,
        vec![
            Request::Reset { slot: 0 },
            Request::Reset { slot: 1 },
            Request::Reset { slot: 2 },
            Request::Reset { slot: 3 },
            Request::Reset { slot: 0 },
        ]
    );
}

#[test]
fn eight_harts_make_two_full_batches() {
    let ids = [1, 2, 3, 4, 5, 6, 7, 8];
    let mut firmware = platform(true, 0, &all_stopped(&ids));
    let (events, outcome, _) = drive(&mut firmware, 0, 0b1_1111_1110, 0);
    let mut expected = lifecycle(&[1, 2, 3, 4]);
    expected.extend(lifecycle(&[5, 6, 7, 8]));
    assert_eq!(events, expected);
    assert_eq!(outcome, Outcome::Pass);
}

#[test]
fn a_started_hart_is_reported_and_left_alone() {
    let mut firmware =
        platform(true, 0, &[(1, STOPPED), (2, STOPPED), (3, STARTED), (4, STOPPED), (5, STOPPED)]);
    let (events, outcome, _) = drive(&mut firmware, 0, 0b11_1110, 0);
    let mut expected = vec![Case::HartStartedBeforeTest(3)];
    expected.extend(lifecycle(&[1, 2, 4, 5]));
    assert_eq!(events, expected);
    assert_eq!(outcome, Outcome::Pass);
    assert_eq!(firmware.harts[2].state, STARTED);
    let asked_of_three = firmware
        .requests
        .iter()
        .filter(|request| {
            matches!(
                request,
                Request::HartGetStatus { hartid: 3 } | Request::HartStart { hartid: 3, .. }
            )
        })
        .count();
    assert_eq!(asked_of_three, 1);
}

#[test]
fn a_suspended_or_failing_hart_is_not_eligible() {
    let mut firmware = platform(true, 0, &[(1, SUSPENDED), (2, STOPPED)]);
    let (events, outcome, _) = drive(&mut firmware, 0, 0b1110, 0);
    let mut expected = vec![Case::HartStartedBeforeTest(1), Case::HartStartedBeforeTest(3)];
    expected.extend(lifecycle(&[2]));
    assert_eq!(events, expected);
    assert_eq!(outcome, Outcome::Pass);
}

#[test]
fn a_failed_start_ends_the_run() {
    let mut firmware = platform(true, 0, &all_stopped(&[1, 2, 3, 4, 5]));
    firmware.harts[1].start_error = Some(ERR_FAILED);
    let (events, outcome, _) = drive(&mut firmware, 0, 0b11_1110, 0);
    let ret = SbiRet { error: ERR_FAILED, value: 0 };
    assert_eq!(
        events,
        vec![Case::BatchBegin(vec![1, 2, 3, 4]), Case::HartStartFailed { hartid: 2, ret }]
    );
    assert_eq!(outcome, Outcome::HartStartFailed { hartid: 2, ret });
    assert!(outcome.is_fatal());
    assert_eq!(firmware.harts[0].state, STARTED);
    assert_eq!(firmware.harts[2].state, STOPPED);
    assert_eq!(firmware.harts[4].state, STOPPED);
    assert_eq!(
        firmware.requests.last(),
        Some(&Request::HartStart { hartid: 2, slot: 1 })
    );
}

#[test]
fn a_failed_start_in_the_second_batch_keeps_the_first() {
    let mut firmware = platform(true, 0, &all_stopped(&[1, 2, 3, 4, 5]));
    firmware.harts[4].start_error = Some(ERR_INVALID_PARAM);
    let (events, outcome, _) = drive(&mut firmware, 0, 0b11_1110, 0);
    let ret = SbiRet { error: ERR_INVALID_PARAM, value: 0 };
    let mut expected = lifecycle(&[1, 2, 3, 4]);
    expected.push(Case::BatchBegin(vec![5]));
    expected.push(Case::HartStartFailed { hartid: 5, ret });
    assert_eq!(events, expected);
    assert_eq!(outcome, Outcome::HartStartFailed { hartid: 5, ret });
}

#[test]
fn only_the_primary_selected_finds_no_stopped_hart() {
    let mut firmware = platform(true, 0, &all_stopped(&[0, 1]));
    let (events, outcome, replies) = drive(&mut firmware, 0, 0b1, 0);
    assert_eq!(events, vec![Case::NoStoppedHart]);
    assert_eq!(outcome, Outcome::NoStoppedHart);
    assert!(!outcome.is_fatal());
    assert_eq!(replies, vec![Reply::Probed(true)]);
}

#[test]
fn an_empty_mask_finds_no_stopped_hart() {
    let mut firmware = platform(true, 0, &all_stopped(&[0, 1]));
    let (events, outcome, _) = drive(&mut firmware, 0, 0, 0);
    assert_eq!(events, vec![Case::NoStoppedHart]);
    assert_eq!(outcome, Outcome::NoStoppedHart);
}

#[test]
fn all_candidates_running_finds_no_stopped_hart() {
    let mut firmware = platform(true, 0, &[(1, STARTED), (2, STARTED)]);
    let (events, outcome, _) = drive(&mut firmware, 0, 0b110, 0);
    assert_eq!(
        events,
        vec![
            Case::HartStartedBeforeTest(1),
            Case::HartStartedBeforeTest(2),
            Case::NoStoppedHart
        ]
    );
    assert_eq!(outcome, Outcome::NoStoppedHart);
}

#[test]
fn an_absent_extension_is_fatal_and_nothing_is_polled() {
    let mut firmware = platform(false, 0, &all_stopped(&[1, 2]));
    let (events, outcome, _) = drive(&mut firmware, 0, 0b110, 0);
    assert_eq!(events, vec![Case::NotExist]);
    assert_eq!(outcome, Outcome::NotExist);
    assert!(outcome.is_fatal());
    assert_eq!(firmware.requests, vec![Request::ProbeExtension]);
}

#[test]
fn a_slow_firmware_is_polled_until_it_answers() {
    let mut quick = platform(true, 0, &all_stopped(&[1, 2, 3]));
    let mut slow = platform(true, 5, &all_stopped(&[1, 2, 3]));
    let (quick_events, quick_outcome, quick_replies) = drive(&mut quick, 0, 0b1110, 0);
    let (slow_events, slow_outcome, slow_replies) = drive(&mut slow, 0, 0b1110, 0);
    assert_eq!(quick_events, lifecycle(&[1, 2, 3]));
    assert_eq!(slow_events, quick_events);
    assert_eq!(slow_outcome, quick_outcome);
    assert_eq!(quick_replies.len(), 44);
    assert_eq!(slow_replies.len(), quick_replies.len() + 5 * 11);
}

#[test]
fn two_runs_against_the_same_firmware_agree() {
    let harts = [(1, STOPPED), (2, STARTED), (3, STOPPED), (6, STOPPED), (7, STOPPED), (8, STOPPED)];
    let mut first = platform(true, 2, &harts);
    let mut second = platform(true, 2, &harts);
    let (first_events, first_outcome, first_replies) = drive(&mut first, 0, 0b1_1100_1110, 0);
    let (second_events, second_outcome, second_replies) = drive(&mut second, 0, 0b1_1100_1110, 0);
    assert_eq!(first_events, second_events);
    assert_eq!(first_outcome, second_outcome);
    assert_eq!(first_replies, second_replies);
    assert_eq!(first.requests, second.requests);
}

#[test]
fn replaying_recorded_answers_gives_the_same_report() {
    let mut firmware = platform(true, 1, &[(1, STOPPED), (2, STARTED), (3, STOPPED)]);
    let (events, outcome, replies) = drive(&mut firmware, 0, 0b1110, 0);
    let report = sbi_testing::hsm::test(0, 0b1110, 0, &replies);
    assert_eq!(report.events, events);
    assert_eq!(report.outcome, Some(outcome));
    assert_eq!(report.request, Request::Done);
    let again = sbi_testing::hsm::test(0, 0b1110, 0, &replies);
    assert_eq!(again.events, report.events);
    assert_eq!(again.outcome, report.outcome);
}

#[test]
fn a_partial_replay_stops_where_the_answers_end() {
    let report = sbi_testing::hsm::test(0, 0b110, 0, &vec![]);
    assert_eq!(report.events, vec![]);
    assert_eq!(report.outcome, None);
    assert_eq!(report.request, Request::ProbeExtension);
    let replies = vec![Reply::Probed(true), ok(STOPPED), ok(STARTED)];
    let report = sbi_testing::hsm::test(0, 0b110, 0, &replies);
    assert_eq!(
        report.events,
        vec![Case::HartStartedBeforeTest(2), Case::BatchBegin(vec![1])]
    );
    assert_eq!(report.outcome, None);
    assert_eq!(report.request, Request::Reset { slot: 0 });
}

#[test]
fn a_reply_of_the_wrong_kind_is_ignored() {
    let mut engine = Engine::new(0, 0b10, 0);
    assert_eq!(engine.advance(Reply::Done), vec![]);
    assert_eq!(engine.advance(ok(STOPPED)), vec![]);
    assert_eq!(engine.request(), Request::ProbeExtension);
    assert_eq!(engine.advance(Reply::Probed(true)), vec![]);
    assert_eq!(engine.request(), Request::HartGetStatus { hartid: 1 });
    assert_eq!(engine.advance(Reply::Probed(true)), vec![]);
    assert_eq!(engine.advance(Reply::Done), vec![]);
    assert_eq!(engine.request(), Request::HartGetStatus { hartid: 1 });
    assert_eq!(engine.advance(ok(STOPPED)), vec![Case::BatchBegin(vec![1])]);
    assert_eq!(engine.advance(ok(0)), vec![]);
    assert_eq!(engine.request(), Request::Reset { slot: 0 });
}

#[test]
fn a_finished_run_takes_no_more_replies() {
    let mut engine = Engine::new(0, 0b10, 0);
    assert_eq!(engine.advance(Reply::Probed(false)), vec![Case::NotExist]);
    assert_eq!(engine.outcome(), Some(Outcome::NotExist));
    assert_eq!(engine.advance(Reply::Probed(true)), vec![]);
    assert_eq!(engine.advance(ok(STOPPED)), vec![]);
    assert_eq!(engine.advance(Reply::Done), vec![]);
    assert_eq!(engine.outcome(), Some(Outcome::NotExist));
    assert_eq!(engine.request(), Request::Done);
}

#[test]
fn a_failed_status_query_counts_as_not_stopped() {
    let mut engine = Engine::new(0, 0b10, 0);
    engine.advance(Reply::Probed(true));
    let events = engine.advance(Reply::Ret(SbiRet { error: ERR_INVALID_PARAM, value: STOPPED }));
    assert_eq!(events, vec![Case::HartStartedBeforeTest(1), Case::NoStoppedHart]);
    assert_eq!(engine.outcome(), Some(Outcome::NoStoppedHart));
}

#[test]
fn a_failed_interrupt_does_not_end_the_run() {
    let mut firmware = platform(true, 0, &all_stopped(&[1]));
    let mut engine = Engine::new(0, 0b10, 0);
    let mut events = Vec::new();
    while engine.outcome().is_none() {
        let request = engine.request();
        let mut reply = firmware.perform(request);
        if let Request::SendIpi { .. } = request {
            reply = err(ERR_FAILED);
        }
        events.extend(engine.advance(reply));
    }
    assert_eq!(events, lifecycle(&[1]));
    assert_eq!(engine.outcome(), Some(Outcome::Pass));
}

/// The harts of the events that satisfy `pick`, put end to end.
fn harts_of(events: &[Case], pick: fn(&Case) -> Option<&Vec<usize>>) -> Vec<usize> {
    events.iter().filter_map(pick).flatten().copied().collect()
}

fn begun(case: &Case) -> Option<&Vec<usize>> {
    match case {
        Case::BatchBegin(ids) => Some(ids),
        _ => None,
    }
}

fn passed(case: &Case) -> Option<&Vec<usize>> {
    match case {
        Case::BatchPass(ids) => Some(ids),
        _ => None,
    }
}

#[test]
fn the_batches_are_the_stopped_candidates_each_once() {
    for mask in [0b10usize, 0b1111_1110, 0x3ff, 0xffff, 0xf0f0_f0f0, usize::MAX] {
        for running in [0usize, 0b100, 0b1010_1010, 0xff00] {
            let primary = 4;
            let mut harts = Vec::new();
            let mut eligible = Vec::new();
            for id in 0..64 {
                let state = if (running >> id) & 1 == 1 { STARTED } else { STOPPED };
                harts.push((id, state));
                if (mask >> id) & 1 == 1 && id != primary && state == STOPPED {
                    eligible.push(id);
                }
            }
            let mut firmware = platform(true, 0, &harts);
            let (events, outcome, _) = drive(&mut firmware, primary, mask, 0);
            assert_eq!(harts_of(&events, begun), eligible);
            assert_eq!(harts_of(&events, passed), eligible);
            assert_eq!(outcome, if eligible.is_empty() { Outcome::NoStoppedHart } else { Outcome::Pass });
            let batches: Vec<&Vec<usize>> = events.iter().filter_map(begun).collect();
            assert_eq!(batches.len(), (eligible.len() + 3) / 4);
            for (nth, batch) in batches.iter().enumerate() {
                let full = nth + 1 < batches.len() || eligible.len() % 4 == 0;
                assert_eq!(batch.len(), if full { 4 } else { eligible.len() % 4 });
            }
            for event in &events {
                match event {
                    Case::HartStartedBeforeTest(id) => assert!(!eligible.contains(id)),
                    Case::HartStarted(id) | Case::HartStopped(id) => assert!(eligible.contains(id)),
                    _ => {}
                }
            }
            for hart in &firmware.harts {
                let state = if (running >> hart.id) & 1 == 1 { STARTED } else { STOPPED };
                assert_eq!(hart.state, state);
            }
        }
    }
}

#[test]
fn a_run_broken_off_has_reported_a_front_piece() {
    let mut firmware = platform(true, 1, &all_stopped(&[1, 2, 3, 4, 5, 6]));
    let (events, _, replies) = drive(&mut firmware, 0, 0b111_1110, 0);
    for cut in 0..replies.len() {
        let report = sbi_testing::hsm::test(0, 0b111_1110, 0, &replies[..cut].to_vec());
        assert!(report.events.len() <= events.len());
        assert_eq!(report.events[..], events[..report.events.len()]);
        assert_eq!(report.outcome, None);
        assert_ne!(report.request, Request::Done);
    }
}

#[test]
fn harts_are_released_only_when_seen_started() {
    let mut firmware = platform(true, 3, &all_stopped(&[1, 2, 3, 4, 5]));
    let mut engine = Engine::new(0, 0b11_1110, 0);
    let mut last_status = std::collections::HashMap::new();
    let mut batch: Vec<usize> = Vec::new();
    while engine.outcome().is_none() {
        let request = engine.request();
        match request {
            Request::HartStart { hartid, slot } => {
                assert_eq!(last_status[&hartid], STOPPED);
                assert!(slot < 4);
                if slot == 0 {
                    batch.clear();
                }
                batch.push(hartid);
            }
            Request::SendSignal { slot } => assert_eq!(last_status[&batch[slot]], STARTED),
            Request::SendIpi { mask, base } => {
                for bit in 0..64 {
                    if (mask >> bit) & 1 == 1 {
                        assert_eq!(last_status[&(base + bit)], SUSPENDED);
                    }
                }
                if mask != 1 {
                    assert_eq!(mask.count_ones() as usize, batch.len());
                }
            }
            _ => {}
        }
        let reply = firmware.perform(request);
        if let (Request::HartGetStatus { hartid }, Reply::Ret(ret)) = (request, reply) {
            last_status.insert(hartid, if ret.error == 0 { ret.value } else { usize::MAX });
        }
        engine.advance(reply);
    }
    assert_eq!(engine.outcome(), Some(Outcome::Pass));
}

/// The answers of a firmware whose base, timer and interrupt tests pass.
fn single_hart_answers() -> (Vec<base::Reply>, Vec<time::Reply>, Vec<spi::Reply>) {
    let present = ExtensionInfo { raw: 1 };
    let base = vec![
        base::Reply::Probed(present),
        base::Reply::Identity(Identity {
            spec_version: Version { raw: 0x0200_0000 },
            impl_id: 4,
            impl_version: 1,
            extensions: Extensions {
                time: present,
                spi: present,
                rfnc: present,
                hsm: present,
                srst: present,
                pmu: present,
            },
            mvendorid: 0,
            marchid: 0,
            mimpid: 0,
        }),
    ];
    let time = vec![
        time::Reply::Probed(true),
        time::Reply::Readings { begin: 1, end: 2 },
        time::Reply::Time(3),
        time::Reply::Trapped(Trap::Interrupt(Interrupt::SupervisorTimer)),
        time::Reply::Done,
    ];
    let spi = vec![
        spi::Reply::Probed(true),
        spi::Reply::Trapped(Trap::Interrupt(Interrupt::SupervisorSoft)),
    ];
    (base, time, spi)
}

#[test]
fn the_whole_harness_passes_on_five_stopped_harts() {
    let settings = Testing { hartid: 0, hart_mask: 0b11_1110, hart_mask_base: 0, delay: 1000 };
    let mut firmware = platform(true, 0, &all_stopped(&[0, 1, 2, 3, 4, 5]));
    let (events, outcome, hsm) =
        drive(&mut firmware, settings.hartid, settings.hart_mask, settings.hart_mask_base);
    assert_eq!(hsm.len(), 73);
    assert_eq!(outcome, Outcome::Pass);
    assert!(!events.iter().any(Case::is_failure));
    let batches: Vec<&Vec<usize>> = events.iter().filter_map(passed).collect();
    assert_eq!(batches, vec![&vec![1, 2, 3, 4], &vec![5]]);
    let (base, time, spi) = single_hart_answers();
    assert!(base::passed(&sbi_testing::base::test(&base).events));
    assert!(settings.test(&Answers { base, time, spi, hsm }));
}

#[test]
fn the_whole_harness_fails_on_a_failed_start() {
    let settings = Testing { hartid: 0, hart_mask: 0b11_1110, hart_mask_base: 0, delay: 1000 };
    let mut firmware = platform(true, 0, &all_stopped(&[0, 1, 2, 3, 4, 5]));
    firmware.harts[5].start_error = Some(ERR_FAILED);
    let (_, outcome, hsm) =
        drive(&mut firmware, settings.hartid, settings.hart_mask, settings.hart_mask_base);
    assert!(outcome.is_fatal());
    let (base, time, spi) = single_hart_answers();
    assert!(!settings.test(&Answers { base, time, spi, hsm }));
}

#[test]
fn every_hart_reports_its_five_events_in_order() {
    let mut firmware = platform(true, 2, &all_stopped(&[1, 2, 3, 4, 5, 6, 7]));
    let (events, outcome, _) = drive(&mut firmware, 0, 0b1111_1110, 0);
    assert_eq!(outcome, Outcome::Pass);
    for id in 1..=7 {
        let own: Vec<&Case> = events
            .iter()
            .filter(|event| {
                matches!(event,
                    Case::HartStarted(hart)
                    | Case::HartSuspendedNonretentive(hart)
                    | Case::HartResumed(hart)
                    | Case::HartSuspendedRetentive(hart)
                    | Case::HartStopped(hart) if *hart == id)
            })
            .collect();
        assert_eq!(
            own,
            vec![
                &Case::HartStarted(id),
                &Case::HartSuspendedNonretentive(id),
                &Case::HartResumed(id),
                &Case::HartSuspendedRetentive(id),
                &Case::HartStopped(id),
            ]
        );
    }
}
