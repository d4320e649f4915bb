//! The controlling hart's side of the test, as a machine that is fed what the
//! firmware and the harts under test answered and says what to do next.
use crate::hsm::event::{emit, events_of, Case, Event, Outcome};
use crate::hsm::mask::{
    ascending, candidates, candidates_of, group_mask, group_mask_of, lemma_candidates,
};
use crate::sbi::{HartState, SbiRet};
use vstd::prelude::*;

verus! {

/// How many harts are tested together, which bounds the scratch slots in use.
pub const TEST_BATCH_SIZE: usize = 4;

/// Length of the busy wait before a suspended hart is woken for good, counted
/// in spins because no clock can be relied on at that point.
pub const SETTLE_SPINS: usize = 0x1000;

/// Where a run stands. Every phase but the last waits for the answer to the
/// one request that [`State::request`] names for it.
#[derive(Clone, Copy, Debug, PartialEq, Eq, Structural)]
pub enum Phase {
    /// Asking whether the firmware offers hart state management.
    Probe,
    /// Asking for the status of the next candidate.
    Scan,
    /// Resetting the slot of the next hart of the batch.
    Reset,
    /// Starting the next hart of the batch.
    Start,
    /// Polling the status of the current hart until it is started.
    AwaitStarted,
    /// Waiting for the current hart to mark its slot as started.
    WaitStart,
    /// Releasing the current hart into its suspension without retention.
    SignalStart,
    /// Polling the status of the current hart until it is suspended.
    AwaitSuspended,
    /// Sending the one interrupt that resumes the whole batch.
    ResumeAll,
    /// Polling the status of the current hart until it is started again.
    AwaitResumed,
    /// Waiting for the current hart to mark its slot as resumed.
    WaitResume,
    /// Releasing the current hart into its suspension with retention.
    SignalResume,
    /// Polling the status of the current hart until it is suspended again.
    AwaitRetentive,
    /// Letting the suspension settle.
    Settle,
    /// Sending the interrupt that wakes the current hart for good.
    Wake,
    /// Polling the status of the current hart until it is stopped.
    AwaitStopped,
    /// The run is over.
    Finished,
}

/// What the embedding program is asked to do next. None of the waits has a
/// timeout: a firmware that never answers as awaited hangs the run.
#[derive(Clone, Copy, Debug, PartialEq, Eq, Structural)]
pub enum Request {
    /// Probe the hart state management extension; answer with `Reply::Probed`.
    ProbeExtension,
    /// Query the status of a hart; answer with `Reply::Ret`.
    HartGetStatus {
        /// The hart to query.
        hartid: usize,
    },
    /// Reset a scratch slot; answer with `Reply::Done`.
    Reset {
        /// Position of the slot, which is that of its hart within the batch.
        slot: usize,
    },
    /// Start a hart at the test entry with its slot as argument; answer with
    /// `Reply::Ret`.
    HartStart {
        /// The hart to start.
        hartid: usize,
        /// Position of its slot.
        slot: usize,
    },
    /// Spin until the slot's hart has entered for the first time; answer with
    /// `Reply::Done`.
    WaitStart {
        /// Position of the slot.
        slot: usize,
    },
    /// Spin until the slot's hart has entered for the second time; answer with
    /// `Reply::Done`.
    WaitResume {
        /// Position of the slot.
        slot: usize,
    },
    /// Set the slot's signal; answer with `Reply::Done`.
    SendSignal {
        /// Position of the slot.
        slot: usize,
    },
    /// Send an inter-processor interrupt; answer with `Reply::Ret`.
    SendIpi {
        /// One bit for each target, counted from `base`.
        mask: usize,
        /// The hart that bit 0 of `mask` stands for.
        base: usize,
    },
    /// Spin the given number of times; answer with `Reply::Done`.
    Settle {
        /// How often to spin.
        spins: usize,
    },
    /// Nothing: the run is over.
    Done,
}

/// What came back from carrying out a [`Request`].
#[derive(Clone, Copy, Debug, PartialEq, Eq, Structural)]
pub enum Reply {
    /// Whether the probed extension is present.
    Probed(bool),
    /// What a firmware call returned.
    Ret(SbiRet),
    /// The requested action is complete.
    Done,
}

impl Phase {
    /// The phases in which the harts of a batch are started and go through
    /// their first suspension.
    pub open spec fn first_pass(self) -> bool {
        self is Reset || self is Start || self is AwaitStarted || self is WaitStart
            || self is SignalStart || self is AwaitSuspended || self is ResumeAll
    }

    /// The phases in which the harts of a batch go through their second
    /// suspension and are stopped.
    pub open spec fn second_pass(self) -> bool {
        self is AwaitResumed || self is WaitResume || self is SignalResume
            || self is AwaitRetentive || self is Settle || self is Wake || self is AwaitStopped
    }
}

/// The state of a run.
pub struct State {
    /// The hart that runs the test and is never tested itself.
    pub primary: usize,
    /// The harts to test, one bit each, counted from `base`.
    pub mask: usize,
    /// The hart that bit 0 of `mask` stands for.
    pub base: usize,
    /// Where the run stands.
    pub phase: Phase,
    /// How many candidates have been scanned.
    pub cursor: int,
    /// The candidates found stopped so far, in ascending order.
    pub eligible: Seq<usize>,
    /// Index in `eligible` of the first hart of the current batch.
    pub first: int,
    /// Position within the current batch of the hart being dealt with.
    pub slot: int,
    /// How the run ended, once it has.
    pub outcome: Option<Outcome>,
    /// The latest status that the firmware reported for each hart queried.
    pub observed: Map<usize, HartState>,
}

impl State {
    /// The state in which a run begins.
    pub open spec fn initial(primary: usize, mask: usize, base: usize) -> State {
        State {
            primary,
            mask,
            base,
            phase: Phase::Probe,
            cursor: 0,
            eligible: Seq::empty(),
            first: 0,
            slot: 0,
            outcome: None,
            observed: Map::empty(),
        }
    }

    /// The candidates of the run.
    pub open spec fn candidates(self) -> Seq<usize> {
        candidates_of(self.primary, self.mask, self.base)
    }

    /// Index in `eligible` one past the last hart of the current batch.
    pub open spec fn batch_end(self) -> int {
        if self.first + TEST_BATCH_SIZE < self.eligible.len() {
            self.first + TEST_BATCH_SIZE
        } else {
            self.eligible.len() as int
        }
    }

    /// The harts of the current batch.
    pub open spec fn batch(self) -> Seq<usize> {
        self.eligible.subrange(self.first, self.batch_end())
    }

    /// The hart being dealt with.
    pub open spec fn hart(self) -> usize {
        self.eligible[self.first + self.slot]
    }

    /// Whether the latest status that the firmware reported for the eligible
    /// hart at index `k` is `status`.
    pub open spec fn seen(self, k: int, status: HartState) -> bool {
        &&& self.observed.dom().contains(self.eligible[k])
        &&& self.observed[self.eligible[k]] == status
    }

    /// The latest status that the firmware must have reported for the eligible
    /// hart at index `k` for the run to stand where it does, `None` where the
    /// hart is being polled or the run is over. A hart keeps the status of its
    /// last report while the controller does not poll it, whatever the hart
    /// does meanwhile.
    pub open spec fn expected(self, k: int) -> Option<HartState> {
        let at = self.first + self.slot;
        if k < self.first {
            Some(HartState::Stopped)
        } else if self.phase is Finished {
            None
        } else if self.phase is Probe || self.phase is Scan || k >= self.batch_end() {
            Some(HartState::Stopped)
        } else if self.phase is Reset || self.phase is Start {
            Some(HartState::Stopped)
        } else if self.phase is ResumeAll {
            Some(HartState::Suspended)
        } else if self.phase.first_pass() {
            if k < at {
                Some(HartState::Suspended)
            } else if k > at {
                Some(HartState::Stopped)
            } else if self.phase is WaitStart || self.phase is SignalStart {
                Some(HartState::Started)
            } else {
                None
            }
        } else {
            if k < at {
                Some(HartState::Stopped)
            } else if k > at {
                Some(HartState::Suspended)
            } else if self.phase is WaitResume || self.phase is SignalResume {
                Some(HartState::Started)
            } else if self.phase is Settle || self.phase is Wake {
                Some(HartState::Suspended)
            } else {
                None
            }
        }
    }

    /// The invariant of a run.
    pub open spec fn wf(self) -> bool {
        &&& 0 <= self.cursor <= self.candidates().len()
        &&& ascending(self.eligible)
        &&& forall|k: int|
            0 <= k < self.eligible.len() ==> self.candidates().contains(#[trigger] self.eligible[k])
        &&& forall|k: int|
            0 <= k < self.eligible.len() ==> self.base <= #[trigger] self.eligible[k] < self.base
                + usize::BITS
        &&& 0 <= self.first <= self.eligible.len()
        &&& forall|k: int|
            0 <= k < self.eligible.len() ==> (#[trigger] self.expected(k) matches Some(status)
                ==> self.seen(k, status))
        &&& match self.phase {
            Phase::Probe => {
                &&& self.cursor == 0
                &&& self.eligible.len() == 0
                &&& self.first == 0
                &&& self.slot == 0
                &&& self.outcome is None
            },
            Phase::Scan => {
                &&& self.cursor < self.candidates().len()
                &&& self.eligible.len() > 0 ==> self.eligible.last() < self.candidates()[self.cursor]
                &&& self.first == 0
                &&& self.slot == 0
                &&& self.outcome is None
            },
            Phase::Finished => {
                &&& self.slot == 0
                &&& self.outcome matches Some(outcome)
                &&& match outcome {
                    Outcome::Pass => {
                        &&& self.cursor == self.candidates().len()
                        &&& self.eligible.len() > 0
                        &&& self.first == self.eligible.len()
                    },
                    Outcome::NoStoppedHart => {
                        &&& self.cursor == self.candidates().len()
                        &&& self.eligible.len() == 0
                    },
                    Outcome::NotExist => self.cursor == 0 && self.eligible.len() == 0,
                    Outcome::HartStartFailed { hartid, ret } => {
                        &&& self.cursor == self.candidates().len()
                        &&& self.first < self.eligible.len()
                        &&& self.first % (TEST_BATCH_SIZE as int) == 0
                        &&& self.batch().contains(hartid)
                        &&& !ret.ok()
                    },
                }
            },
            _ => {
                &&& self.cursor == self.candidates().len()
                &&& self.first < self.eligible.len()
                &&& self.first % (TEST_BATCH_SIZE as int) == 0
                &&& 0 <= self.slot
                &&& self.first + self.slot < self.batch_end()
                &&& self.outcome is None
            },
        }
    }

    /// What the run waits for.
    pub open spec fn request(self) -> Request {
        match self.phase {
            Phase::Probe => Request::ProbeExtension,
            Phase::Scan => Request::HartGetStatus { hartid: self.candidates()[self.cursor] },
            Phase::Reset => Request::Reset { slot: self.slot as usize },
            Phase::Start => Request::HartStart { hartid: self.hart(), slot: self.slot as usize },
            Phase::AwaitStarted => Request::HartGetStatus { hartid: self.hart() },
            Phase::WaitStart => Request::WaitStart { slot: self.slot as usize },
            Phase::SignalStart => Request::SendSignal { slot: self.slot as usize },
            Phase::AwaitSuspended => Request::HartGetStatus { hartid: self.hart() },
            Phase::ResumeAll => Request::SendIpi {
                mask: group_mask_of(self.batch()),
                base: self.batch()[0],
            },
            Phase::AwaitResumed => Request::HartGetStatus { hartid: self.hart() },
            Phase::WaitResume => Request::WaitResume { slot: self.slot as usize },
            Phase::SignalResume => Request::SendSignal { slot: self.slot as usize },
            Phase::AwaitRetentive => Request::HartGetStatus { hartid: self.hart() },
            Phase::Settle => Request::Settle { spins: SETTLE_SPINS },
            Phase::Wake => Request::SendIpi { mask: 1, base: self.hart() },
            Phase::AwaitStopped => Request::HartGetStatus { hartid: self.hart() },
            Phase::Finished => Request::Done,
        }
    }

    /// The state with the run ended.
    pub open spec fn finish(self, outcome: Outcome) -> State {
        State { phase: Phase::Finished, slot: 0, outcome: Some(outcome), ..self }
    }

    /// The state at the beginning of the batch that starts at index `first`.
    pub open spec fn enter_batch(self, first: int) -> State {
        State { phase: Phase::Reset, first, slot: 0, ..self }
    }

    /// The state in `phase` with the next hart of the batch as the current one.
    pub open spec fn turn_to(self, phase: Phase, slot: int) -> State {
        State { phase, slot, ..self }
    }

    /// The state with `status` recorded as the latest status of `hartid`.
    pub open spec fn observe(self, hartid: usize, status: HartState) -> State {
        State { observed: self.observed.insert(hartid, status), ..self }
    }

    /// What follows the scan of the last candidate: the end of the run where
    /// no hart was found stopped, the first batch otherwise.
    pub open spec fn after_scan(self, events: Seq<Event>) -> (State, Seq<Event>) {
        if self.eligible.len() == 0 {
            (self.finish(Outcome::NoStoppedHart), events.push(Event::NoStoppedHart))
        } else {
            let next = self.enter_batch(0);
            (next, events.push(Event::BatchBegin(next.batch())))
        }
    }

    /// What follows the stop of the last hart of a batch: the next batch where
    /// eligible harts are left, the end of the run otherwise.
    pub open spec fn after_batch(self, events: Seq<Event>) -> (State, Seq<Event>) {
        let passed = events.push(Event::BatchPass(self.batch()));
        if self.batch_end() < self.eligible.len() {
            let next = self.enter_batch(self.batch_end());
            (next, passed.push(Event::BatchBegin(next.batch())))
        } else {
            (State { first: self.batch_end(), ..self.finish(Outcome::Pass) }, passed)
        }
    }

    /// The state after `reply` and the events to report for it. A reply that
    /// does not answer the pending request changes nothing.
    pub open spec fn step(self, reply: Reply) -> (State, Seq<Event>) {
        let none = Seq::<Event>::empty();
        match (self.phase, reply) {
            (Phase::Probe, Reply::Probed(present)) => {
                if !present {
                    (self.finish(Outcome::NotExist), none.push(Event::NotExist))
                } else if self.cursor < self.candidates().len() {
                    (self.turn_to(Phase::Scan, 0), none)
                } else {
                    self.after_scan(none)
                }
            },
            (Phase::Scan, Reply::Ret(ret)) => {
                let hartid = self.candidates()[self.cursor];
                let seen = self.observe(hartid, ret.state());
                let (noted, events) = if ret.state() == HartState::Stopped {
                    (State { eligible: self.eligible.push(hartid), ..seen }, none)
                } else {
                    (seen, none.push(Event::HartStartedBeforeTest(hartid)))
                };
                let next = State { cursor: self.cursor + 1, ..noted };
                if next.cursor < self.candidates().len() {
                    (next, events)
                } else {
                    next.after_scan(events)
                }
            },
            (Phase::Reset, Reply::Done) => (self.turn_to(Phase::Start, self.slot), none),
            (Phase::Start, Reply::Ret(ret)) => {
                if !ret.ok() {
                    (
                        self.finish(Outcome::HartStartFailed { hartid: self.hart(), ret }),
                        none.push(Event::HartStartFailed { hartid: self.hart(), ret }),
                    )
                } else if self.first + self.slot + 1 < self.batch_end() {
                    (self.turn_to(Phase::Reset, self.slot + 1), none)
                } else {
                    (self.turn_to(Phase::AwaitStarted, 0), none)
                }
            },
            (Phase::AwaitStarted, Reply::Ret(ret)) => {
                let seen = self.observe(self.hart(), ret.state());
                if ret.state() == HartState::Started {
                    (
                        seen.turn_to(Phase::WaitStart, self.slot),
                        none.push(Event::HartStarted(self.hart())),
                    )
                } else {
                    (seen, none)
                }
            },
            (Phase::WaitStart, Reply::Done) => (self.turn_to(Phase::SignalStart, self.slot), none),
            (Phase::SignalStart, Reply::Done) => (
                self.turn_to(Phase::AwaitSuspended, self.slot),
                none,
            ),
            (Phase::AwaitSuspended, Reply::Ret(ret)) => {
                let seen = self.observe(self.hart(), ret.state());
                if ret.state() != HartState::Suspended {
                    (seen, none)
                } else if self.first + self.slot + 1 < self.batch_end() {
                    (
                        seen.turn_to(Phase::AwaitStarted, self.slot + 1),
                        none.push(Event::HartSuspendedNonretentive(self.hart())),
                    )
                } else {
                    (
                        seen.turn_to(Phase::ResumeAll, 0),
                        none.push(Event::HartSuspendedNonretentive(self.hart())),
                    )
                }
            },
            (Phase::ResumeAll, Reply::Ret(ret)) => (self.turn_to(Phase::AwaitResumed, 0), none),
            (Phase::AwaitResumed, Reply::Ret(ret)) => {
                let seen = self.observe(self.hart(), ret.state());
                if ret.state() == HartState::Started {
                    (
                        seen.turn_to(Phase::WaitResume, self.slot),
                        none.push(Event::HartResumed(self.hart())),
                    )
                } else {
                    (seen, none)
                }
            },
            (Phase::WaitResume, Reply::Done) => (
                self.turn_to(Phase::SignalResume, self.slot),
                none,
            ),
            (Phase::SignalResume, Reply::Done) => (
                self.turn_to(Phase::AwaitRetentive, self.slot),
                none,
            ),
            (Phase::AwaitRetentive, Reply::Ret(ret)) => {
                let seen = self.observe(self.hart(), ret.state());
                if ret.state() == HartState::Suspended {
                    (
                        seen.turn_to(Phase::Settle, self.slot),
                        none.push(Event::HartSuspendedRetentive(self.hart())),
                    )
                } else {
                    (seen, none)
                }
            },
            (Phase::Settle, Reply::Done) => (self.turn_to(Phase::Wake, self.slot), none),
            (Phase::Wake, Reply::Ret(ret)) => (self.turn_to(Phase::AwaitStopped, self.slot), none),
            (Phase::AwaitStopped, Reply::Ret(ret)) => {
                let seen = self.observe(self.hart(), ret.state());
                if ret.state() != HartState::Stopped {
                    (seen, none)
                } else if self.first + self.slot + 1 < self.batch_end() {
                    (
                        seen.turn_to(Phase::AwaitResumed, self.slot + 1),
                        none.push(Event::HartStopped(self.hart())),
                    )
                } else {
                    seen.after_batch(none.push(Event::HartStopped(self.hart())))
                }
            },
            _ => (self, none),
        }
    }
}

/// Every step keeps the invariant of the run.
pub proof fn lemma_step_wf(state: State, reply: Reply)
    requires
        state.wf(),
    ensures
        state.step(reply).0.wf(),
{
    let next = state.step(reply).0;
    lemma_candidates(state.primary, state.mask, state.base);
    let candidates = state.candidates();
    let at = state.first + state.slot;
    match (state.phase, reply) {
        (Phase::Scan, Reply::Ret(ret)) => {
            let hartid = candidates[state.cursor];
            assert(candidates.contains(hartid));
            assert forall|k: int| 0 <= k < state.eligible.len() implies state.eligible[k]
                < hartid by {
                assert(state.eligible[k] <= state.eligible.last());
            }
            if next.phase is Scan && next.eligible.len() > 0 {
                assert(next.eligible.last() < candidates[next.cursor]);
            }
            assert forall|k: int| 0 <= k < next.eligible.len() implies (#[trigger] next.expected(
                k,
            ) matches Some(status) ==> next.seen(k, status)) by {
                if k < state.eligible.len() {
                    assert(state.expected(k) == Some(HartState::Stopped));
                    assert(state.seen(k, HartState::Stopped));
                    assert(state.eligible[k] != hartid);
                }
            }
        },
        (Phase::Start, Reply::Ret(ret)) => {
            if !ret.ok() {
                assert(state.batch()[state.slot] == state.hart());
            }
            assert forall|k: int| 0 <= k < next.eligible.len() implies (#[trigger] next.expected(
                k,
            ) matches Some(status) ==> next.seen(k, status)) by {
                assert(state.expected(k) == Some(HartState::Stopped));
            }
        },
        (Phase::AwaitStarted, Reply::Ret(ret))
        | (Phase::AwaitSuspended, Reply::Ret(ret))
        | (Phase::AwaitResumed, Reply::Ret(ret))
        | (Phase::AwaitRetentive, Reply::Ret(ret))
        | (Phase::AwaitStopped, Reply::Ret(ret)) => {
            assert forall|k: int| 0 <= k < next.eligible.len() implies (#[trigger] next.expected(
                k,
            ) matches Some(status) ==> next.seen(k, status)) by {
                if k != at {
                    assert(state.eligible[k] != state.eligible[at]);
                    assert(state.expected(k) is Some ==> state.seen(k, state.expected(k)->0));
                }
            }
        },
        _ => {
            assert forall|k: int| 0 <= k < next.eligible.len() implies (#[trigger] next.expected(
                k,
            ) matches Some(status) ==> next.seen(k, status)) by {
                assert(state.expected(k) is Some ==> state.seen(k, state.expected(k)->0));
            }
        },
    }
}

/// The controlling hart's side of one run.
pub struct Engine {
    primary: usize,
    mask: usize,
    base: usize,
    candidates: Vec<usize>,
    phase: Phase,
    cursor: usize,
    eligible: Vec<usize>,
    first: usize,
    slot: usize,
    outcome: Option<Outcome>,
    observed: Ghost<Map<usize, HartState>>,
}

/// Copies `ids[first..end]`.
fn copy_range(ids: &Vec<usize>, first: usize, end: usize) -> (copy: Vec<usize>)
    requires
        first <= end <= ids.len(),
    ensures
        copy@ == ids@.subrange(first as int, end as int),
{
    let mut copy: Vec<usize> = Vec::new();
    let mut k: usize = first;
    while k < end
        invariant
            first <= k <= end <= ids.len(),
            copy@ == ids@.subrange(first as int, k as int),
        decreases end - k,
    {
        copy.push(ids[k]);
        k += 1;
    }
    copy
}

impl View for Engine {
    type V = State;

    closed spec fn view(&self) -> State {
        State {
            primary: self.primary,
            mask: self.mask,
            base: self.base,
            phase: self.phase,
            cursor: self.cursor as int,
            eligible: self.eligible@,
            first: self.first as int,
            slot: self.slot as int,
            outcome: self.outcome,
            observed: self.observed@,
        }
    }
}

impl Engine {
    /// The invariant of the engine: that of its state.
    pub closed spec fn wf(&self) -> bool {
        &&& self@.wf()
        &&& self.candidates@ == self@.candidates()
    }

    /// Begins a run that tests the harts selected by `hart_mask`, counted from
    /// `hart_mask_base`, from the hart `primary_hart_id`.
    pub fn new(primary_hart_id: usize, hart_mask: usize, hart_mask_base: usize) -> (engine: Engine)
        ensures
            engine.wf(),
            engine@ == State::initial(primary_hart_id, hart_mask, hart_mask_base),
    {
        let engine = Engine {
            primary: primary_hart_id,
            mask: hart_mask,
            base: hart_mask_base,
            candidates: candidates(primary_hart_id, hart_mask, hart_mask_base),
            phase: Phase::Probe,
            cursor: 0,
            eligible: Vec::new(),
            first: 0,
            slot: 0,
            outcome: None,
            observed: Ghost(Map::empty()),
        };
        proof {
            lemma_candidates(primary_hart_id, hart_mask, hart_mask_base);
        }
        engine
    }

    /// How the run ended, `None` while it is under way.
    pub fn outcome(&self) -> (outcome: Option<Outcome>)
        ensures
            outcome == self@.outcome,
    {
        self.outcome
    }

    /// Index in `eligible` one past the last hart of the current batch.
    fn batch_end(&self) -> (end: usize)
        requires
            self.first <= self.eligible.len(),
        ensures
            end == self@.batch_end(),
    {
        if self.eligible.len() - self.first > TEST_BATCH_SIZE {
            self.first + TEST_BATCH_SIZE
        } else {
            self.eligible.len()
        }
    }

    /// The hart being dealt with.
    fn hart(&self) -> (hartid: usize)
        requires
            self.wf(),
            self@.phase.first_pass() || self@.phase.second_pass(),
        ensures
            hartid == self@.hart(),
    {
        self.eligible[self.first + self.slot]
    }

    /// What to do next.
    pub fn request(&self) -> (request: Request)
        requires
            self.wf(),
        ensures
            request == self@.request(),
    {
        match self.phase {
            Phase::Probe => Request::ProbeExtension,
            Phase::Scan => Request::HartGetStatus { hartid: self.candidates[self.cursor] },
            Phase::Reset => Request::Reset { slot: self.slot },
            Phase::Start => Request::HartStart { hartid: self.hart(), slot: self.slot },
            Phase::AwaitStarted => Request::HartGetStatus { hartid: self.hart() },
            Phase::WaitStart => Request::WaitStart { slot: self.slot },
            Phase::SignalStart => Request::SendSignal { slot: self.slot },
            Phase::AwaitSuspended => Request::HartGetStatus { hartid: self.hart() },
            Phase::ResumeAll => {
                let end: usize = self.batch_end();
                proof {
                    let batch = self@.batch();
                    assert forall|k: int| 0 <= k < batch.len() implies batch[0] <= #[trigger] batch[k]
                        < batch[0] + usize::BITS by {
                        assert(batch[k] == self@.eligible[self@.first + k]);
                        assert(batch[0] == self@.eligible[self@.first]);
                    }
                }
                Request::SendIpi {
                    mask: group_mask(&self.eligible, self.first, end),
                    base: self.eligible[self.first],
                }
            },
            Phase::AwaitResumed => Request::HartGetStatus { hartid: self.hart() },
            Phase::WaitResume => Request::WaitResume { slot: self.slot },
            Phase::SignalResume => Request::SendSignal { slot: self.slot },
            Phase::AwaitRetentive => Request::HartGetStatus { hartid: self.hart() },
            Phase::Settle => Request::Settle { spins: SETTLE_SPINS },
            Phase::Wake => Request::SendIpi { mask: 1, base: self.hart() },
            Phase::AwaitStopped => Request::HartGetStatus { hartid: self.hart() },
            Phase::Finished => Request::Done,
        }
    }

    /// Ends the run.
    fn finish(&mut self, outcome: Outcome)
        ensures
            final(self)@ == old(self)@.finish(outcome),
            final(self).candidates == old(self).candidates,
    {
        self.phase = Phase::Finished;
        self.slot = 0;
        self.outcome = Some(outcome);
    }

    /// Turns to the hart at `slot` in `phase`.
    fn turn_to(&mut self, phase: Phase, slot: usize)
        ensures
            final(self)@ == old(self)@.turn_to(phase, slot as int),
            final(self).candidates == old(self).candidates,
    {
        self.phase = phase;
        self.slot = slot;
    }

    /// Records the latest status of a hart.
    fn observe(&mut self, hartid: usize, status: HartState)
        ensures
            final(self)@ == old(self)@.observe(hartid, status),
            final(self).candidates == old(self).candidates,
    {
        self.observed = Ghost(self.observed@.insert(hartid, status));
    }

    /// Begins the batch at index `first` and reports it.
    fn enter_batch(&mut self, first: usize, events: &mut Vec<Case>)
        requires
            first <= old(self).eligible.len(),
        ensures
            final(self)@ == old(self)@.enter_batch(first as int),
            final(self).candidates == old(self).candidates,
            events_of(final(events)@) == events_of(old(events)@).push(
                Event::BatchBegin(final(self)@.batch()),
            ),
    {
        self.phase = Phase::Reset;
        self.first = first;
        self.slot = 0;
        let end: usize = self.batch_end();
        emit(events, Case::BatchBegin(copy_range(&self.eligible, first, end)));
    }

    /// Ends the scan.
    fn after_scan(&mut self, events: &mut Vec<Case>)
        ensures
            final(self)@ == old(self)@.after_scan(events_of(old(events)@)).0,
            events_of(final(events)@) == old(self)@.after_scan(events_of(old(events)@)).1,
            final(self).candidates == old(self).candidates,
    {
        if self.eligible.len() == 0 {
            self.finish(Outcome::NoStoppedHart);
            emit(events, Case::NoStoppedHart);
        } else {
            self.enter_batch(0, events);
        }
    }

    /// Ends the current batch.
    fn after_batch(&mut self, events: &mut Vec<Case>)
        requires
            old(self).first <= old(self).eligible.len(),
        ensures
            final(self)@ == old(self)@.after_batch(events_of(old(events)@)).0,
            events_of(final(events)@) == old(self)@.after_batch(events_of(old(events)@)).1,
            final(self).candidates == old(self).candidates,
    {
        let end: usize = self.batch_end();
        emit(events, Case::BatchPass(copy_range(&self.eligible, self.first, end)));
        if end < self.eligible.len() {
            self.enter_batch(end, events);
        } else {
            self.finish(Outcome::Pass);
            self.first = end;
        }
    }

    /// Takes the answer to the pending request, moves on, and returns the
    /// events to report. A reply of the wrong kind is ignored.
    pub fn advance(&mut self, reply: Reply) -> (events: Vec<Case>)
        requires
            old(self).wf(),
        ensures
            final(self).wf(),
            final(self)@ == old(self)@.step(reply).0,
            events_of(events@) == old(self)@.step(reply).1,
    {
        proof {
            lemma_step_wf(self@, reply);
        }
        let mut events: Vec<Case> = Vec::new();
        assert(events_of(events@) =~= Seq::<Event>::empty());
        match (self.phase, reply) {
            (Phase::Probe, Reply::Probed(present)) => {
                if !present {
                    self.finish(Outcome::NotExist);
                    emit(&mut events, Case::NotExist);
                } else if self.cursor < self.candidates.len() {
                    self.turn_to(Phase::Scan, 0);
                } else {
                    self.after_scan(&mut events);
                }
            },
            (Phase::Scan, Reply::Ret(ret)) => {
                let count: usize = self.candidates.len();
                let hartid: usize = self.candidates[self.cursor];
                let status: HartState = ret.hart_state();
                self.observe(hartid, status);
                if status == HartState::Stopped {
                    self.eligible.push(hartid);
                } else {
                    emit(&mut events, Case::HartStartedBeforeTest(hartid));
                }
                self.cursor = self.cursor + 1;
                if self.cursor >= count {
                    self.after_scan(&mut events);
                }
            },
            (Phase::Reset, Reply::Done) => {
                self.turn_to(Phase::Start, self.slot);
            },
            (Phase::Start, Reply::Ret(ret)) => {
                let hartid: usize = self.hart();
                let end: usize = self.batch_end();
                if ret.is_err() {
                    self.finish(Outcome::HartStartFailed { hartid, ret });
                    emit(&mut events, Case::HartStartFailed { hartid, ret });
                } else if self.first + self.slot + 1 < end {
                    self.turn_to(Phase::Reset, self.slot + 1);
                } else {
                    self.turn_to(Phase::AwaitStarted, 0);
                }
            },
            (Phase::AwaitStarted, Reply::Ret(ret)) => {
                let hartid: usize = self.hart();
                let status: HartState = ret.hart_state();
                self.observe(hartid, status);
                if status == HartState::Started {
                    self.turn_to(Phase::WaitStart, self.slot);
                    emit(&mut events, Case::HartStarted(hartid));
                }
            },
            (Phase::WaitStart, Reply::Done) => {
                self.turn_to(Phase::SignalStart, self.slot);
            },
            (Phase::SignalStart, Reply::Done) => {
                self.turn_to(Phase::AwaitSuspended, self.slot);
            },
            (Phase::AwaitSuspended, Reply::Ret(ret)) => {
                let hartid: usize = self.hart();
                let end: usize = self.batch_end();
                let status: HartState = ret.hart_state();
                self.observe(hartid, status);
                if status == HartState::Suspended {
                    if self.first + self.slot + 1 < end {
                        self.turn_to(Phase::AwaitStarted, self.slot + 1);
                    } else {
                        self.turn_to(Phase::ResumeAll, 0);
                    }
                    emit(&mut events, Case::HartSuspendedNonretentive(hartid));
                }
            },
            (Phase::ResumeAll, Reply::Ret(_)) => {
                self.turn_to(Phase::AwaitResumed, 0);
            },
            (Phase::AwaitResumed, Reply::Ret(ret)) => {
                let hartid: usize = self.hart();
                let status: HartState = ret.hart_state();
                self.observe(hartid, status);
                if status == HartState::Started {
                    self.turn_to(Phase::WaitResume, self.slot);
                    emit(&mut events, Case::HartResumed(hartid));
                }
            },
            (Phase::WaitResume, Reply::Done) => {
                self.turn_to(Phase::SignalResume, self.slot);
            },
            (Phase::SignalResume, Reply::Done) => {
                self.turn_to(Phase::AwaitRetentive, self.slot);
            },
            (Phase::AwaitRetentive, Reply::Ret(ret)) => {
                let hartid: usize = self.hart();
                let status: HartState = ret.hart_state();
                self.observe(hartid, status);
                if status == HartState::Suspended {
                    self.turn_to(Phase::Settle, self.slot);
                    emit(&mut events, Case::HartSuspendedRetentive(hartid));
                }
            },
            (Phase::Settle, Reply::Done) => {
                self.turn_to(Phase::Wake, self.slot);
            },
            (Phase::Wake, Reply::Ret(_)) => {
                self.turn_to(Phase::AwaitStopped, self.slot);
            },
            (Phase::AwaitStopped, Reply::Ret(ret)) => {
                let hartid: usize = self.hart();
                let end: usize = self.batch_end();
                let status: HartState = ret.hart_state();
                self.observe(hartid, status);
                if status == HartState::Stopped {
                    emit(&mut events, Case::HartStopped(hartid));
                    if self.first + self.slot + 1 < end {
                        self.turn_to(Phase::AwaitResumed, self.slot + 1);
                    } else {
                        self.after_batch(&mut events);
                    }
                }
            },
            _ => {},
        }
        events
    }
}

} // verus!
