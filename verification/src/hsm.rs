//! Hart state management: start, suspend, resume and stop of secondary harts.
//!
//! The controlling hart's side is an [`Engine`]. The embedding program asks it
//! what to do next ([`Engine::request`]), does it, and hands the answer back
//! ([`Engine::advance`]), which returns the events to report; it goes on until
//! the request is [`Request::Done`]. Nothing in the engine waits or times out:
//! where the firmware never gives the awaited answer, the program polls for
//! ever. A program that wants to break a run off stops asking; what has been
//! reported by then is a front piece of the full report.
//!
//! The harts under test run the other side: on every entry they call
//! [`SharedItem::enter`] on their slot, spin on [`SharedItem::wait_signal`],
//! and suspend as their pass says ([`Wake::suspend_kind`]).
pub mod batch;
pub mod engine;
pub mod event;
pub mod laws;
pub mod lists;
pub mod mask;
pub mod order;
pub mod run;
pub mod shared;
pub mod slot;

pub use engine::{Engine, Phase, Reply, Request, State, SETTLE_SPINS, TEST_BATCH_SIZE};
pub use event::{Case, Event, Outcome};
pub use shared::SharedItem;
pub use slot::{ItemPerHart, Stage, SuspendKind, Wake};

use event::events_of;
use run::run;
use vstd::prelude::*;

verus! {

/// What a run has come to.
pub struct Report {
    /// The events reported so far, in order.
    pub events: Vec<Case>,
    /// How the run ended, `None` where the answers did not take it to its end.
    pub outcome: Option<Outcome>,
    /// What the run waits for.
    pub request: Request,
}

/// Runs a hart state management test against recorded answers: the engine
/// starts from the given hart selection, takes `replies` one by one, and the
/// report holds every event in order, the outcome if the run came to its end,
/// and the request that the next reply would have to answer.
pub fn test(
    primary_hart_id: usize,
    hart_mask: usize,
    hart_mask_base: usize,
    replies: &Vec<Reply>,
) -> (report: Report)
    ensures
        events_of(report.events@) == run(
            State::initial(primary_hart_id, hart_mask, hart_mask_base),
            replies@,
        ).1,
        report.outcome == run(
            State::initial(primary_hart_id, hart_mask, hart_mask_base),
            replies@,
        ).0.outcome,
        report.request == run(
            State::initial(primary_hart_id, hart_mask, hart_mask_base),
            replies@,
        ).0.request(),
{
    let ghost start = State::initial(primary_hart_id, hart_mask, hart_mask_base);
    let mut engine: Engine = Engine::new(primary_hart_id, hart_mask, hart_mask_base);
    let mut events: Vec<Case> = Vec::new();
    let mut i: usize = 0;
    assert(replies@.take(0) =~= Seq::<Reply>::empty());
    assert(events_of(events@) =~= Seq::<Event>::empty());
    while i < replies.len()
        invariant
            i <= replies.len(),
            engine.wf(),
            start == State::initial(primary_hart_id, hart_mask, hart_mask_base),
            engine@ == run(start, replies@.take(i as int)).0,
            events_of(events@) == run(start, replies@.take(i as int)).1,
        decreases replies.len() - i,
    {
        let ghost before = events_of(events@);
        let mut fresh: Vec<Case> = engine.advance(replies[i]);
        let ghost now = events_of(fresh@);
        events.append(&mut fresh);
        proof {
            assert(replies@.take(i + 1).drop_last() =~= replies@.take(i as int));
            assert(replies@.take(i + 1).last() == replies@[i as int]);
            assert(events_of(events@) =~= before + now);
        }
        i += 1;
    }
    assert(replies@.take(i as int) =~= replies@);
    let request: Request = engine.request();
    Report { events, outcome: engine.outcome(), request }
}

} // verus!
