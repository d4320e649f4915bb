//! Inter-processor interrupt extension: a hart interrupts itself.
use crate::trap::{Interrupt, Trap};
use vstd::prelude::*;

verus! {

/// One reported event of an inter-processor interrupt test.
#[derive(Clone, Copy, Debug, PartialEq, Eq, Structural)]
pub enum Case {
    /// The firmware does not offer the extension.
    NotExist,
    /// The test has begun.
    Begin,
    /// The interrupt arrived.
    SendIpi,
    /// Another trap arrived in place of the interrupt.
    UnexpectedTrap(Trap),
    /// The test passed.
    Pass,
}

/// Where a test stands.
#[derive(Clone, Copy, Debug, PartialEq, Eq, Structural)]
pub enum Phase {
    /// Asking whether the firmware offers the extension.
    Probe,
    /// Sending the interrupt and waiting for it.
    Send,
    /// The test is over.
    Finished,
}

/// What the embedding program is asked to do next.
#[derive(Clone, Copy, Debug, PartialEq, Eq, Structural)]
pub enum Request {
    /// Probe the extension; answer with `Reply::Probed`.
    ProbeExtension,
    /// Enable the software interrupt, send an inter-processor interrupt to the
    /// harts named and take the trap that follows at once; answer with
    /// `Reply::Trapped`.
    SendIpi {
        /// One bit for each target, counted from `base`.
        mask: usize,
        /// The hart that bit 0 of `mask` stands for.
        base: usize,
    },
    /// Nothing: the test is over.
    Done,
}

/// What came back from carrying out a [`Request`].
#[derive(Clone, Copy, Debug, PartialEq, Eq, Structural)]
pub enum Reply {
    /// Whether the probed extension is present.
    Probed(bool),
    /// The trap that followed the interrupt request.
    Trapped(Trap),
}

impl Case {
    /// Whether the event reports a failure of the firmware.
    pub open spec fn failure(self) -> bool {
        self is NotExist || self is UnexpectedTrap
    }

    /// Returns `true` when the event reports a failure of the firmware.
    pub fn is_failure(&self) -> (r: bool)
        ensures
            r == self.failure(),
    {
        match self {
            Case::NotExist => true,
            Case::UnexpectedTrap(_) => true,
            _ => false,
        }
    }
}

/// The state of a test.
pub struct State {
    /// The hart that runs the test and interrupts itself.
    pub hart_id: usize,
    /// Where the test stands.
    pub phase: Phase,
}

impl State {
    /// The state in which a test begins.
    pub open spec fn initial(hart_id: usize) -> State {
        State { hart_id, phase: Phase::Probe }
    }

    /// What the test waits for.
    pub open spec fn request(self) -> Request {
        match self.phase {
            Phase::Probe => Request::ProbeExtension,
            Phase::Send => Request::SendIpi { mask: 1, base: self.hart_id },
            Phase::Finished => Request::Done,
        }
    }

    /// The state after `reply` and the events to report for it. A reply that
    /// does not answer the pending request changes nothing.
    pub open spec fn step(self, reply: Reply) -> (State, Seq<Case>) {
        let none = Seq::<Case>::empty();
        match (self.phase, reply) {
            (Phase::Probe, Reply::Probed(present)) => {
                if present {
                    (State { phase: Phase::Send, ..self }, none.push(Case::Begin))
                } else {
                    (State { phase: Phase::Finished, ..self }, none.push(Case::NotExist))
                }
            },
            (Phase::Send, Reply::Trapped(trap)) => {
                if trap == Trap::Interrupt(Interrupt::SupervisorSoft) {
                    (
                        State { phase: Phase::Finished, ..self },
                        none.push(Case::SendIpi).push(Case::Pass),
                    )
                } else {
                    (
                        State { phase: Phase::Finished, ..self },
                        none.push(Case::UnexpectedTrap(trap)),
                    )
                }
            },
            _ => (self, none),
        }
    }
}

/// The state that `state` comes to when it is fed `replies` in order, and the
/// events reported on the way.
pub open spec fn run(state: State, replies: Seq<Reply>) -> (State, Seq<Case>)
    decreases replies.len(),
{
    if replies.len() == 0 {
        (state, Seq::empty())
    } else {
        let (reached, before) = run(state, replies.drop_last());
        let (next, now) = reached.step(replies.last());
        (next, before + now)
    }
}

/// One inter-processor interrupt test.
pub struct Engine {
    hart_id: usize,
    phase: Phase,
}

impl View for Engine {
    type V = State;

    closed spec fn view(&self) -> State {
        State { hart_id: self.hart_id, phase: self.phase }
    }
}

impl Engine {
    /// Begins a test on the hart `hart_id`.
    pub fn new(hart_id: usize) -> (engine: Engine)
        ensures
            engine@ == State::initial(hart_id),
    {
        Engine { hart_id, phase: Phase::Probe }
    }

    /// What to do next.
    pub fn request(&self) -> (request: Request)
        ensures
            request == self@.request(),
    {
        match self.phase {
            Phase::Probe => Request::ProbeExtension,
            Phase::Send => Request::SendIpi { mask: 1, base: self.hart_id },
            Phase::Finished => Request::Done,
        }
    }

    /// Takes the answer to the pending request, moves on, and returns the
    /// events to report. A reply of the wrong kind is ignored.
    pub fn advance(&mut self, reply: Reply) -> (events: Vec<Case>)
        ensures
            final(self)@ == old(self)@.step(reply).0,
            events@ == old(self)@.step(reply).1,
    {
        let mut events: Vec<Case> = Vec::new();
        match (self.phase, reply) {
            (Phase::Probe, Reply::Probed(present)) => {
                if present {
                    self.phase = Phase::Send;
                    events.push(Case::Begin);
                } else {
                    self.phase = Phase::Finished;
                    events.push(Case::NotExist);
                }
            },
            (Phase::Send, Reply::Trapped(trap)) => {
                self.phase = Phase::Finished;
                if trap == Trap::Interrupt(Interrupt::SupervisorSoft) {
                    events.push(Case::SendIpi);
                    events.push(Case::Pass);
                } else {
                    events.push(Case::UnexpectedTrap(trap));
                }
            },
            _ => {},
        }
        events
    }
}

/// Whether none of the events reports a failure.
pub open spec fn passes(events: Seq<Case>) -> bool {
    forall|k: int| 0 <= k < events.len() ==> !(#[trigger] events[k]).failure()
}

/// Returns `true` when none of the events reports a failure.
pub fn passed(events: &Vec<Case>) -> (r: bool)
    ensures
        r == passes(events@),
{
    let mut k: usize = 0;
    while k < events.len()
        invariant
            k <= events.len(),
            passes(events@.take(k as int)),
        decreases events.len() - k,
    {
        if events[k].is_failure() {
            return false;
        }
        assert forall|j: int| 0 <= j < k + 1 implies !(#[trigger] events@.take(k + 1)[j]).failure() by {
            if j < k {
                assert(events@.take(k as int)[j] == events@[j]);
            }
        }
        k += 1;
    }
    assert(events@.take(k as int) =~= events@);
    true
}

/// What a test has come to.
pub struct Report {
    /// The events reported so far, in order.
    pub events: Vec<Case>,
    /// What the test waits for.
    pub request: Request,
}

/// Runs an inter-processor interrupt test against recorded answers: the report
/// holds every event in order and the request that the next reply would have
/// to answer.
pub fn test(hart_id: usize, replies: &Vec<Reply>) -> (report: Report)
    ensures
        report.events@ == run(State::initial(hart_id), replies@).1,
        report.request == run(State::initial(hart_id), replies@).0.request(),
{
    let ghost start = State::initial(hart_id);
    let mut engine: Engine = Engine::new(hart_id);
    let mut events: Vec<Case> = Vec::new();
    let mut i: usize = 0;
    assert(replies@.take(0) =~= Seq::<Reply>::empty());
    while i < replies.len()
        invariant
            i <= replies.len(),
            start == State::initial(hart_id),
            engine@ == run(start, replies@.take(i as int)).0,
            events@ == run(start, replies@.take(i as int)).1,
        decreases replies.len() - i,
    {
        let mut fresh: Vec<Case> = engine.advance(replies[i]);
        events.append(&mut fresh);
        proof {
            assert(replies@.take(i + 1).drop_last() =~= replies@.take(i as int));
            assert(replies@.take(i + 1).last() == replies@[i as int]);
        }
        i += 1;
    }
    assert(replies@.take(i as int) =~= replies@);
    Report { events, request: engine.request() }
}

} // verus!
