//! The mailbox between the trap entry and the code that waits for a trap.
use vstd::prelude::*;

verus! {

/// One slot that is empty or holds the cause register value of the trap caught
/// last. Whether it holds a value is kept beside the value, so that every
/// value of the cause register, zero among them, can be held.
#[derive(Clone, Copy, Debug, PartialEq, Eq, Structural)]
pub struct TrapMailbox {
    /// The cause register value held, `None` while the mailbox is empty.
    pub held: Option<usize>,
}

impl TrapMailbox {
    /// An empty mailbox.
    pub fn new() -> (mailbox: TrapMailbox)
        ensures
            mailbox.held is None,
    {
        TrapMailbox { held: None }
    }

    /// Leaves the cause register value of a trap in the mailbox, in place of
    /// whatever it held. The mailbox is not empty afterwards, whatever the
    /// value.
    pub fn publish(&mut self, bits: usize)
        ensures
            final(self).held == Some(bits),
    {
        self.held = Some(bits);
    }

    /// Takes what the mailbox holds and leaves the mailbox empty.
    pub fn take(&mut self) -> (held: Option<usize>)
        ensures
            held == old(self).held,
            final(self).held is None,
    {
        let held: Option<usize> = self.held;
        self.held = None;
        held
    }
}

} // verus!
