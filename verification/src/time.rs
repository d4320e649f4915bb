//! Timer extension: reading the time and programming a timer interrupt.
use crate::trap::{Interrupt, Trap};
use vstd::prelude::*;

verus! {

/// One reported event of a timer test.
#[derive(Clone, Copy, Debug, PartialEq, Eq, Structural)]
pub enum Case {
    /// The firmware does not offer the timer extension.
    NotExist,
    /// The test has begun.
    Begin,
    /// The time was read twice and went forward.
    Interval {
        /// The first reading.
        begin: u64,
        /// The second reading.
        end: u64,
    },
    /// Reading the time trapped.
    ReadFailed,
    /// The second reading was not later than the first.
    TimeDecreased {
        /// The first reading.
        a: u64,
        /// The second reading.
        b: u64,
    },
    /// The timer interrupt arrived.
    SetTimer,
    /// Another trap arrived in place of the timer interrupt.
    UnexpectedTrap(Trap),
    /// The test passed.
    Pass,
}

/// Where a timer test stands.
#[derive(Clone, Copy, Debug, PartialEq, Eq, Structural)]
pub enum Phase {
    /// Asking whether the firmware offers the timer extension.
    Probe,
    /// Reading the time twice.
    Read,
    /// Reading the time to set the timer from.
    Clock,
    /// Waiting for the timer interrupt.
    Wait,
    /// Pushing the timer out of reach once its interrupt has arrived.
    Silence,
    /// The test is over.
    Finished,
}

/// What the embedding program is asked to do next.
#[derive(Clone, Copy, Debug, PartialEq, Eq, Structural)]
pub enum Request {
    /// Probe the timer extension; answer with `Reply::Probed`.
    ProbeExtension,
    /// Read the time twice in a row, guarding against a trap; answer with
    /// `Reply::Readings` or `Reply::ReadTrapped`.
    ReadTimeTwice,
    /// Read the time; answer with `Reply::Time`.
    ReadTime,
    /// Program the timer for `deadline`, enable its interrupt and wait for a
    /// trap, without a timeout; answer with `Reply::Trapped`.
    WaitForTimer {
        /// The time of the timer event.
        deadline: u64,
    },
    /// Program the timer for `deadline`; answer with `Reply::Done`.
    SetTimer {
        /// The time of the timer event.
        deadline: u64,
    },
    /// Nothing: the test is over.
    Done,
}

/// What came back from carrying out a [`Request`].
#[derive(Clone, Copy, Debug, PartialEq, Eq, Structural)]
pub enum Reply {
    /// Whether the probed extension is present.
    Probed(bool),
    /// Two readings of the time.
    Readings {
        /// The first reading.
        begin: u64,
        /// The second reading.
        end: u64,
    },
    /// Reading the time trapped.
    ReadTrapped,
    /// One reading of the time.
    Time(u64),
    /// The trap that ended the wait.
    Trapped(Trap),
    /// The requested action is complete.
    Done,
}

impl Case {
    /// Whether the event reports a failure of the firmware.
    pub open spec fn failure(self) -> bool {
        self is NotExist || self is ReadFailed || self is TimeDecreased || self is UnexpectedTrap
    }

    /// Returns `true` when the event reports a failure of the firmware.
    pub fn is_failure(&self) -> (r: bool)
        ensures
            r == self.failure(),
    {
        match self {
            Case::NotExist => true,
            Case::ReadFailed => true,
            Case::TimeDecreased { .. } => true,
            Case::UnexpectedTrap(_) => true,
            _ => false,
        }
    }
}

/// The time that lies `delay` after `now`, or the latest time that can be said
/// where the sum is beyond it.
pub open spec fn deadline_of(now: u64, delay: u64) -> u64 {
    if now + delay > u64::MAX {
        u64::MAX
    } else {
        (now + delay) as u64
    }
}

/// The state of a timer test.
pub struct State {
    /// How long after the reading of the clock the timer is to fire.
    pub delay: u64,
    /// Where the test stands.
    pub phase: Phase,
    /// The time that the timer was or will be programmed for.
    pub deadline: u64,
}

impl State {
    /// The state in which a test begins.
    pub open spec fn initial(delay: u64) -> State {
        State { delay, phase: Phase::Probe, deadline: 0 }
    }

    /// What the test waits for.
    pub open spec fn request(self) -> Request {
        match self.phase {
            Phase::Probe => Request::ProbeExtension,
            Phase::Read => Request::ReadTimeTwice,
            Phase::Clock => Request::ReadTime,
            Phase::Wait => Request::WaitForTimer { deadline: self.deadline },
            Phase::Silence => Request::SetTimer { deadline: u64::MAX },
            Phase::Finished => Request::Done,
        }
    }

    /// The state in another phase.
    pub open spec fn turn_to(self, phase: Phase) -> State {
        State { phase, ..self }
    }

    /// The state after `reply` and the events to report for it. A reply that
    /// does not answer the pending request changes nothing.
    pub open spec fn step(self, reply: Reply) -> (State, Seq<Case>) {
        let none = Seq::<Case>::empty();
        match (self.phase, reply) {
            (Phase::Probe, Reply::Probed(present)) => {
                if present {
                    (self.turn_to(Phase::Read), none.push(Case::Begin))
                } else {
                    (self.turn_to(Phase::Finished), none.push(Case::NotExist))
                }
            },
            (Phase::Read, Reply::ReadTrapped) => (
                self.turn_to(Phase::Finished),
                none.push(Case::ReadFailed),
            ),
            (Phase::Read, Reply::Readings { begin, end }) => {
                if begin >= end {
                    (
                        self.turn_to(Phase::Finished),
                        none.push(Case::TimeDecreased { a: begin, b: end }),
                    )
                } else {
                    (self.turn_to(Phase::Clock), none.push(Case::Interval { begin, end }))
                }
            },
            (Phase::Clock, Reply::Time(now)) => (
                State { phase: Phase::Wait, deadline: deadline_of(now, self.delay), ..self },
                none,
            ),
            (Phase::Wait, Reply::Trapped(trap)) => {
                if trap == Trap::Interrupt(Interrupt::SupervisorTimer) {
                    (self.turn_to(Phase::Silence), none)
                } else {
                    (self.turn_to(Phase::Finished), none.push(Case::UnexpectedTrap(trap)))
                }
            },
            (Phase::Silence, Reply::Done) => (
                self.turn_to(Phase::Finished),
                none.push(Case::SetTimer).push(Case::Pass),
            ),
            _ => (self, none),
        }
    }
}

/// The state that `state` comes to when it is fed `replies` in order, and the
/// events reported on the way.
pub open spec fn run(state: State, replies: Seq<Reply>) -> (State, Seq<Case>)
    decreases replies.len(),
{
    if replies.len() == 0 {
        (state, Seq::empty())
    } else {
        let (reached, before) = run(state, replies.drop_last());
        let (next, now) = reached.step(replies.last());
        (next, before + now)
    }
}

/// One timer test.
pub struct Engine {
    delay: u64,
    phase: Phase,
    deadline: u64,
}

impl View for Engine {
    type V = State;

    closed spec fn view(&self) -> State {
        State { delay: self.delay, phase: self.phase, deadline: self.deadline }
    }
}

impl Engine {
    /// Begins a test whose timer fires `delay` after the clock is read.
    pub fn new(delay: u64) -> (engine: Engine)
        ensures
            engine@ == State::initial(delay),
    {
        Engine { delay, phase: Phase::Probe, deadline: 0 }
    }

    /// What to do next.
    pub fn request(&self) -> (request: Request)
        ensures
            request == self@.request(),
    {
        match self.phase {
            Phase::Probe => Request::ProbeExtension,
            Phase::Read => Request::ReadTimeTwice,
            Phase::Clock => Request::ReadTime,
            Phase::Wait => Request::WaitForTimer { deadline: self.deadline },
            Phase::Silence => Request::SetTimer { deadline: u64::MAX },
            Phase::Finished => Request::Done,
        }
    }

    /// Takes the answer to the pending request, moves on, and returns the
    /// events to report. A reply of the wrong kind is ignored.
    pub fn advance(&mut self, reply: Reply) -> (events: Vec<Case>)
        ensures
            final(self)@ == old(self)@.step(reply).0,
            events@ == old(self)@.step(reply).1,
    {
        let mut events: Vec<Case> = Vec::new();
        match (self.phase, reply) {
            (Phase::Probe, Reply::Probed(present)) => {
                if present {
                    self.phase = Phase::Read;
                    events.push(Case::Begin);
                } else {
                    self.phase = Phase::Finished;
                    events.push(Case::NotExist);
                }
            },
            (Phase::Read, Reply::ReadTrapped) => {
                self.phase = Phase::Finished;
                events.push(Case::ReadFailed);
            },
            (Phase::Read, Reply::Readings { begin, end }) => {
                if begin >= end {
                    self.phase = Phase::Finished;
                    events.push(Case::TimeDecreased { a: begin, b: end });
                } else {
                    self.phase = Phase::Clock;
                    events.push(Case::Interval { begin, end });
                }
            },
            (Phase::Clock, Reply::Time(now)) => {
                self.phase = Phase::Wait;
                self.deadline = now.saturating_add(self.delay);
            },
            (Phase::Wait, Reply::Trapped(trap)) => {
                if trap == Trap::Interrupt(Interrupt::SupervisorTimer) {
                    self.phase = Phase::Silence;
                } else {
                    self.phase = Phase::Finished;
                    events.push(Case::UnexpectedTrap(trap));
                }
            },
            (Phase::Silence, Reply::Done) => {
                self.phase = Phase::Finished;
                events.push(Case::SetTimer);
                events.push(Case::Pass);
            },
            _ => {},
        }
        events
    }
}

/// Whether none of the events reports a failure.
pub open spec fn passes(events: Seq<Case>) -> bool {
    forall|k: int| 0 <= k < events.len() ==> !(#[trigger] events[k]).failure()
}

/// Returns `true` when none of the events reports a failure.
pub fn passed(events: &Vec<Case>) -> (r: bool)
    ensures
        r == passes(events@),
{
    let mut k: usize = 0;
    while k < events.len()
        invariant
            k <= events.len(),
            passes(events@.take(k as int)),
        decreases events.len() - k,
    {
        if events[k].is_failure() {
            return false;
        }
        assert forall|j: int| 0 <= j < k + 1 implies !(#[trigger] events@.take(k + 1)[j]).failure() by {
            if j < k {
                assert(events@.take(k as int)[j] == events@[j]);
            }
        }
        k += 1;
    }
    assert(events@.take(k as int) =~= events@);
    true
}

/// What a test has come to.
pub struct Report {
    /// The events reported so far, in order.
    pub events: Vec<Case>,
    /// What the test waits for.
    pub request: Request,
}

/// Runs a timer test against recorded answers: the report holds every event
/// in order and the request that the next reply would have to answer.
pub fn test(delay: u64, replies: &Vec<Reply>) -> (report: Report)
    ensures
        report.events@ == run(State::initial(delay), replies@).1,
        report.request == run(State::initial(delay), replies@).0.request(),
{
    let ghost start = State::initial(delay);
    let mut engine: Engine = Engine::new(delay);
    let mut events: Vec<Case> = Vec::new();
    let mut i: usize = 0;
    assert(replies@.take(0) =~= Seq::<Reply>::empty());
    while i < replies.len()
        invariant
            i <= replies.len(),
            start == State::initial(delay),
            engine@ == run(start, replies@.take(i as int)).0,
            events@ == run(start, replies@.take(i as int)).1,
        decreases replies.len() - i,
    {
        let mut fresh: Vec<Case> = engine.advance(replies[i]);
        events.append(&mut fresh);
        proof {
            assert(replies@.take(i + 1).drop_last() =~= replies@.take(i as int));
            assert(replies@.take(i + 1).last() == replies@[i as int]);
        }
        i += 1;
    }
    assert(replies@.take(i as int) =~= replies@);
    Report { events, request: engine.request() }
}

} // verus!
