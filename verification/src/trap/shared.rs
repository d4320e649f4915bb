//! A mailbox in memory that the trap entry and the waiting code both reach.
use crate::trap::cause::Trap;
use crate::trap::caught;
use crate::trap::mailbox::TrapMailbox;
use core::sync::atomic::AtomicBool;
use core::sync::atomic::AtomicUsize;
use core::sync::atomic::Ordering;
use vstd::prelude::*;

verus! {

/// The mailbox, shared between the trap entry and the code that waits for a
/// trap on the same hart; one wait is pending at a time. It is two words: the
/// cause register value, and a flag that tells whether a value is held. The
/// trap entry writes the value and then raises the flag; the waiting code
/// lowers the flag in one atomic step and then reads the value. Stores
/// release and loads acquire. What is found depends on the trap entry, which
/// runs between any two instructions of the caller, so no method promises
/// which value comes back.
pub struct SharedMailbox {
    full: AtomicBool,
    word: AtomicUsize,
}

impl SharedMailbox {
    /// An empty mailbox.
    pub fn new() -> SharedMailbox {
        let empty: TrapMailbox = TrapMailbox::new();
        assert(empty.held is None);
        SharedMailbox { full: AtomicBool::new(empty.held.is_some()), word: AtomicUsize::new(0) }
    }

    /// Called by the trap entry: leaves the cause register value of the trap
    /// in the mailbox, which is not empty afterwards, whatever the value.
    pub fn publish(&self, bits: usize) {
        let mut mailbox: TrapMailbox = TrapMailbox::new();
        mailbox.publish(bits);
        assert(mailbox.held == Some(bits));
        match mailbox.held {
            Some(word) => {
                self.word.store(word, Ordering::Release);
                self.full.store(true, Ordering::Release);
            },
            None => {},
        }
    }

    /// Takes what the mailbox holds and leaves the mailbox empty: the flag is
    /// lowered in one atomic step, and the value is read only where the flag
    /// was up.
    pub fn take(&self) -> Option<usize> {
        let full: bool = self.full.swap(false, Ordering::AcqRel);
        let mut mailbox: TrapMailbox = TrapMailbox::new();
        if full {
            mailbox.publish(self.word.load(Ordering::Acquire));
        }
        mailbox.take()
    }

    /// Takes the trap caught since the last call out of the mailbox: one poll
    /// of the wait for a trap, which has no timeout. Whether a value is found
    /// and which is up to the trap entry; whatever it is, the result is its
    /// reading: nothing for an empty mailbox, and otherwise the trap that the
    /// value encodes.
    pub fn last_trap(&self) -> (trap: Option<Trap>)
        ensures
            exists|held: Option<usize>| trap == #[trigger] caught(held),
    {
        let held: Option<usize> = self.take();
        crate::trap::decode(held)
    }
}

} // verus!
