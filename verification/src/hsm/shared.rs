//! A scratch slot in memory that the controlling hart and the hart under test
//! both reach.
use crate::hsm::slot::{
    ItemPerHart, Wake, SIGNAL_CLEAR, SIGNAL_SET, STAGE_IDLE, STAGE_RESUMED, STAGE_STARTED,
};
use core::sync::atomic::AtomicU32;
use core::sync::atomic::Ordering;
use vstd::prelude::*;

verus! {

/// The words of one scratch slot, shared between harts. Every method carries
/// out the like-named step of [`ItemPerHart`] on the shared words in one atomic
/// access; stores release and loads acquire. What a method finds depends on
/// the other hart, so none promises a result. What is checked of each is the
/// word that it hands to the store or exchange, and that what it returns is
/// what the step of [`ItemPerHart`] makes of the word read.
pub struct SharedItem {
    stage: AtomicU32,
    signal: AtomicU32,
}

impl SharedItem {
    /// A slot in the idle stage with no signal pending.
    pub fn new() -> SharedItem {
        let item: ItemPerHart = ItemPerHart::new();
        assert(item.stage == STAGE_IDLE && item.signal == SIGNAL_CLEAR);
        SharedItem { stage: AtomicU32::new(item.stage), signal: AtomicU32::new(item.signal) }
    }

    /// The words as they read now, the stage first.
    pub fn snapshot(&self) -> ItemPerHart {
        ItemPerHart {
            stage: self.stage.load(Ordering::Acquire),
            signal: self.signal.load(Ordering::Acquire),
        }
    }

    /// Puts the slot back into the idle stage. Called while no hart owns the
    /// slot.
    pub fn reset(&mut self) {
        let mut item: ItemPerHart = self.snapshot();
        item.reset();
        assert(item.stage == STAGE_IDLE);
        self.stage.store(item.stage, Ordering::Release);
    }

    /// Polls once whether the hart has entered for the first time.
    pub fn wait_start(&self) -> bool {
        self.snapshot().wait_start()
    }

    /// Polls once whether the hart has entered for the second time.
    pub fn wait_resume(&self) -> bool {
        self.snapshot().wait_resume()
    }

    /// Releases the hart to go on to its suspension.
    pub fn send_signal(&self) {
        let mut item: ItemPerHart = ItemPerHart::new();
        item.send_signal();
        self.signal.store(item.signal, Ordering::Release);
    }

    /// Tries once to take the signal: `true` when it was pending and is now
    /// consumed.
    pub fn wait_signal(&self) -> bool {
        let mut item: ItemPerHart = ItemPerHart::new();
        item.send_signal();
        let pending: u32 = item.signal;
        item.wait_signal();
        assert(pending == SIGNAL_SET && item.signal == SIGNAL_CLEAR);
        self.signal.compare_exchange(pending, item.signal, Ordering::AcqRel, Ordering::Acquire).is_ok()
    }

    /// Run by the hart on entry: moves the stage forward and tells which pass
    /// this is. An idle slot becomes started in one atomic step; a slot found
    /// started becomes resumed, which no one else writes meanwhile because the
    /// hart owns the slot. Where the slot is found in any other stage it is
    /// still in use: it is left alone, signal and all, and the result is
    /// `None`, on which the hart must not go on.
    pub fn enter(&self) -> Option<Wake> {
        let mut fresh: ItemPerHart = ItemPerHart::new();
        let idle: u32 = fresh.stage;
        fresh.enter();
        assert(idle == STAGE_IDLE && fresh.stage == STAGE_STARTED);
        match self.stage.compare_exchange(idle, fresh.stage, Ordering::AcqRel, Ordering::Acquire) {
            Ok(_) => Some(Wake::First),
            Err(seen) => {
                let mut found: ItemPerHart = ItemPerHart { stage: seen, signal: fresh.signal };
                if seen != idle && found.may_enter() {
                    let wake: Wake = found.enter();
                    assert(seen == STAGE_STARTED && found.stage == STAGE_RESUMED);
                    assert(wake == Wake::Second);
                    self.stage.store(found.stage, Ordering::Release);
                    Some(wake)
                } else {
                    None
                }
            },
        }
    }
}

} // verus!
