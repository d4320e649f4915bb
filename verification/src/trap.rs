//! Trap capture: what a trap was, what must be done so that it does not fire
//! again at once, and the one-slot mailbox that hands the cause from the trap
//! entry to the code that waits for it.
pub mod cause;
pub mod mailbox;
pub mod shared;

pub use cause::{Acknowledge, Interrupt, Trap};
pub use mailbox::TrapMailbox;
pub use shared::SharedMailbox;

use vstd::prelude::*;

verus! {

/// What the content of the mailbox stands for: nothing while it is empty, and
/// otherwise the trap whose cause register held the value, whatever the value.
pub open spec fn caught(held: Option<usize>) -> Option<Trap> {
    match held {
        None => None,
        Some(bits) => Some(cause::trap_of(bits)),
    }
}

/// Reads what was taken from the mailbox.
pub fn decode(held: Option<usize>) -> (trap: Option<Trap>)
    ensures
        trap == caught(held),
{
    match held {
        None => None,
        Some(bits) => Some(cause::classify(bits)),
    }
}

/// Takes the trap caught since the last call out of the mailbox and leaves
/// the mailbox empty. After `publish(bits)` the result is the trap that `bits`
/// encodes, for every value of `bits`.
pub fn last_trap(mailbox: &mut TrapMailbox) -> (trap: Option<Trap>)
    ensures
        trap == caught(old(mailbox).held),
        old(mailbox).held matches Some(bits) ==> trap == Some(cause::trap_of(bits)),
        old(mailbox).held is None ==> trap is None,
        final(mailbox).held is None,
{
    decode(mailbox.take())
}

} // verus!
