//! The events that a run reports and the results it can end with.
use crate::sbi::SbiRet;
use vstd::prelude::*;

verus! {

/// One reported event of a hart state management run.
#[derive(Clone, Debug, PartialEq, Eq)]
pub enum Case {
    /// The firmware does not offer hart state management. Fatal.
    NotExist,
    /// A selected hart was not stopped when the run began; it is left alone.
    HartStartedBeforeTest(usize),
    /// No selected hart was found stopped, so nothing could be tested.
    NoStoppedHart,
    /// The harts listed are now tested together.
    BatchBegin(Vec<usize>),
    /// The hart was seen started after the start request.
    HartStarted(usize),
    /// The firmware refused to start the hart. Fatal.
    HartStartFailed {
        /// The hart that did not start.
        hartid: usize,
        /// What the start request returned.
        ret: SbiRet,
    },
    /// The hart was seen suspended without retention.
    HartSuspendedNonretentive(usize),
    /// The hart was seen started again after the group interrupt.
    HartResumed(usize),
    /// The hart was seen suspended with retention.
    HartSuspendedRetentive(usize),
    /// The hart was seen stopped at the end of its test.
    HartStopped(usize),
    /// Every hart listed completed its test.
    BatchPass(Vec<usize>),
}

/// The mathematical value of a [`Case`].
pub enum Event {
    NotExist,
    HartStartedBeforeTest(usize),
    NoStoppedHart,
    BatchBegin(Seq<usize>),
    HartStarted(usize),
    HartStartFailed { hartid: usize, ret: SbiRet },
    HartSuspendedNonretentive(usize),
    HartResumed(usize),
    HartSuspendedRetentive(usize),
    HartStopped(usize),
    BatchPass(Seq<usize>),
}

impl View for Case {
    type V = Event;

    open spec fn view(&self) -> Event {
        match *self {
            Case::NotExist => Event::NotExist,
            Case::HartStartedBeforeTest(id) => Event::HartStartedBeforeTest(id),
            Case::NoStoppedHart => Event::NoStoppedHart,
            Case::BatchBegin(ids) => Event::BatchBegin(ids@),
            Case::HartStarted(id) => Event::HartStarted(id),
            Case::HartStartFailed { hartid, ret } => Event::HartStartFailed { hartid, ret },
            Case::HartSuspendedNonretentive(id) => Event::HartSuspendedNonretentive(id),
            Case::HartResumed(id) => Event::HartResumed(id),
            Case::HartSuspendedRetentive(id) => Event::HartSuspendedRetentive(id),
            Case::HartStopped(id) => Event::HartStopped(id),
            Case::BatchPass(ids) => Event::BatchPass(ids@),
        }
    }
}

impl Event {
    /// The harts that the event names.
    pub open spec fn harts(self) -> Seq<usize> {
        match self {
            Event::NotExist => Seq::empty(),
            Event::NoStoppedHart => Seq::empty(),
            Event::HartStartedBeforeTest(id) => seq![id],
            Event::BatchBegin(ids) => ids,
            Event::HartStarted(id) => seq![id],
            Event::HartStartFailed { hartid, ret } => seq![hartid],
            Event::HartSuspendedNonretentive(id) => seq![id],
            Event::HartResumed(id) => seq![id],
            Event::HartSuspendedRetentive(id) => seq![id],
            Event::HartStopped(id) => seq![id],
            Event::BatchPass(ids) => ids,
        }
    }

    /// Whether the event reports a fatal condition.
    pub open spec fn failure(self) -> bool {
        self is NotExist || self is HartStartFailed
    }

    /// Whether the event reports one step of a hart's test or frames a batch.
    pub open spec fn is_lifecycle(self) -> bool {
        match self {
            Event::NotExist => false,
            Event::NoStoppedHart => false,
            Event::HartStartedBeforeTest(id) => false,
            _ => true,
        }
    }
}

impl Case {
    /// Returns `true` when the event reports a fatal condition.
    pub fn is_failure(&self) -> (r: bool)
        ensures
            r == self@.failure(),
    {
        match self {
            Case::NotExist => true,
            Case::HartStartFailed { .. } => true,
            _ => false,
        }
    }
}

/// The mathematical value of a list of reported events.
pub open spec fn events_of(cases: Seq<Case>) -> Seq<Event> {
    cases.map_values(|case: Case| case@)
}

/// Appends one event to a list of reported events.
pub(crate) fn emit(events: &mut Vec<Case>, case: Case)
    ensures
        events_of(final(events)@) == events_of(old(events)@).push(case@),
{
    events.push(case);
    assert(events_of(events@) =~= events_of(old(events)@).push(case@));
}

/// Whether none of the events reports a fatal condition.
pub open spec fn passes(events: Seq<Event>) -> bool {
    forall|k: int| 0 <= k < events.len() ==> !(#[trigger] events[k]).failure()
}

/// Returns `true` when none of the events reports a fatal condition.
pub fn passed(events: &Vec<Case>) -> (r: bool)
    ensures
        r == passes(events_of(events@)),
{
    let mut k: usize = 0;
    while k < events.len()
        invariant
            k <= events.len(),
            passes(events_of(events@.take(k as int))),
        decreases events.len() - k,
    {
        if events[k].is_failure() {
            assert(events_of(events@)[k as int].failure());
            return false;
        }
        assert forall|j: int| 0 <= j < k + 1 implies !(#[trigger] events_of(events@.take(k + 1))[j]).failure() by {
            if j < k {
                assert(events_of(events@.take(k as int))[j] == events@[j]@);
            }
        }
        k += 1;
    }
    assert(events@.take(k as int) =~= events@);
    true
}

/// How a run ended.
#[derive(Clone, Copy, Debug, PartialEq, Eq, Structural)]
pub enum Outcome {
    /// Every batch completed.
    Pass,
    /// No selected hart was found stopped; nothing was tested and nothing failed.
    NoStoppedHart,
    /// Fatal: the firmware does not offer hart state management.
    NotExist,
    /// Fatal: the firmware refused to start a hart.
    HartStartFailed {
        /// The hart that did not start.
        hartid: usize,
        /// What the start request returned.
        ret: SbiRet,
    },
}

impl Outcome {
    /// Whether the run ended on a fatal condition.
    pub open spec fn fatal(self) -> bool {
        self is NotExist || self is HartStartFailed
    }

    /// Returns `true` when the run ended on a fatal condition.
    pub fn is_fatal(&self) -> (r: bool)
        ensures
            r == self.fatal(),
    {
        match self {
            Outcome::NotExist => true,
            Outcome::HartStartFailed { .. } => true,
            _ => false,
        }
    }
}

} // verus!
