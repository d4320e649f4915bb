//! Trap causes and their acknowledgment.
use riscv::InterruptNumber;
use vstd::prelude::*;

verus! {

/// An interrupt taken in supervisor mode.
#[derive(Clone, Copy, Debug, PartialEq, Eq, Structural)]
pub enum Interrupt {
    /// Software interrupt, which is how an inter-processor interrupt arrives.
    SupervisorSoft,
    /// Timer interrupt.
    SupervisorTimer,
    /// External interrupt.
    SupervisorExternal,
    /// An interrupt number without a standard meaning.
    Unknown(usize),
}

/// The cause of a trap.
#[derive(Clone, Copy, Debug, PartialEq, Eq, Structural)]
pub enum Trap {
    /// An interrupt.
    Interrupt(Interrupt),
    /// An exception, with its number.
    Exception(usize),
}

/// A trap cause as the cause register encodes it: the kind and a number.
#[derive(Clone, Copy, Debug, PartialEq, Eq, Structural)]
pub enum RawTrap {
    /// An interrupt, with its number.
    Interrupt(usize),
    /// An exception, with its number.
    Exception(usize),
}

/// What the trap entry must do before it returns, so that the trap does not
/// fire again at once.
#[derive(Clone, Copy, Debug, PartialEq, Eq, Structural)]
pub enum Acknowledge {
    /// Continue behind the trapped instruction: write `sepc` back.
    SkipInstruction {
        /// The address to continue at.
        sepc: usize,
    },
    /// Program the timer for `deadline`, which is as far off as can be said.
    SilenceTimer {
        /// The time of the next timer event.
        deadline: u64,
    },
    /// Clear the pending software interrupt.
    ClearSoftPending,
    /// Nothing.
    Nothing,
}

/// Whether the top bit of a cause register value marks an interrupt.
pub open spec fn is_interrupt(bits: usize) -> bool {
    (bits >> ((usize::BITS - 1) as usize)) & 1 != 0
}

/// The number in a cause register value: all bits but the top one.
pub open spec fn code_of(bits: usize) -> usize {
    bits & (usize::MAX >> 1usize)
}

/// The kind and number that a cause register value encodes.
pub open spec fn raw_trap_of(bits: usize) -> RawTrap {
    if is_interrupt(bits) {
        RawTrap::Interrupt(code_of(bits))
    } else {
        RawTrap::Exception(code_of(bits))
    }
}

/// The supervisor interrupt with the given number.
pub open spec fn interrupt_of(code: usize) -> Interrupt {
    if code == 1 {
        Interrupt::SupervisorSoft
    } else if code == 5 {
        Interrupt::SupervisorTimer
    } else if code == 9 {
        Interrupt::SupervisorExternal
    } else {
        Interrupt::Unknown(code)
    }
}

/// The trap that a cause register value stands for.
pub open spec fn trap_of(bits: usize) -> Trap {
    match raw_trap_of(bits) {
        RawTrap::Interrupt(code) => Trap::Interrupt(interrupt_of(code)),
        RawTrap::Exception(code) => Trap::Exception(code),
    }
}

/// The acknowledgment that a trap calls for when it was taken at `sepc`.
pub open spec fn acknowledgment(trap: Trap, sepc: usize) -> Acknowledge {
    match trap {
        Trap::Exception(code) => Acknowledge::SkipInstruction {
            sepc: if sepc + 4 > usize::MAX {
                (sepc + 4 - usize::MAX - 1) as usize
            } else {
                (sepc + 4) as usize
            },
        },
        Trap::Interrupt(Interrupt::SupervisorTimer) => Acknowledge::SilenceTimer {
            deadline: u64::MAX,
        },
        Trap::Interrupt(Interrupt::SupervisorSoft) => Acknowledge::ClearSoftPending,
        Trap::Interrupt(other) => Acknowledge::Nothing,
    }
}

/// Decodes a value of the supervisor cause register with
/// `riscv::register::scause::Scause::from_bits` and `Scause::cause`. As the
/// crate's source has it, the top bit of the register tells an interrupt from
/// an exception and the remaining bits are the number; that holds on the
/// RISC-V targets and on 64-bit hosts, the targets the crate builds for.
#[verifier::external_body]
fn scause_cause(bits: usize) -> (raw: RawTrap)
    ensures
        raw == raw_trap_of(bits),
{
    match riscv::register::scause::Scause::from_bits(bits).cause() {
        riscv::interrupt::Trap::Interrupt(code) => RawTrap::Interrupt(code),
        riscv::interrupt::Trap::Exception(code) => RawTrap::Exception(code),
    }
}

/// Names a supervisor interrupt by its number with
/// `riscv::interrupt::supervisor::Interrupt::from_number`, which knows the
/// numbers 1 (software), 5 (timer) and 9 (external) and refuses all others.
#[verifier::external_body]
fn interrupt_from_number(code: usize) -> (interrupt: Interrupt)
    ensures
        interrupt == interrupt_of(code),
{
    match riscv::interrupt::supervisor::Interrupt::from_number(code) {
        Ok(riscv::interrupt::supervisor::Interrupt::SupervisorSoft) => Interrupt::SupervisorSoft,
        Ok(riscv::interrupt::supervisor::Interrupt::SupervisorTimer) => Interrupt::SupervisorTimer,
        Ok(riscv::interrupt::supervisor::Interrupt::SupervisorExternal) => {
            Interrupt::SupervisorExternal
        },
        Err(_) => Interrupt::Unknown(code),
    }
}

/// Classifies a value of the supervisor cause register.
pub fn classify(bits: usize) -> (trap: Trap)
    ensures
        trap == trap_of(bits),
{
    match scause_cause(bits) {
        RawTrap::Interrupt(code) => Trap::Interrupt(interrupt_from_number(code)),
        RawTrap::Exception(code) => Trap::Exception(code),
    }
}

/// Decides what the trap entry must do for a trap taken at `sepc`: step over
/// the instruction that raised an exception, push the timer out of reach after
/// a timer interrupt, clear the latch of a software interrupt.
pub fn acknowledge(trap: Trap, sepc: usize) -> (action: Acknowledge)
    ensures
        action == acknowledgment(trap, sepc),
{
    match trap {
        Trap::Exception(_) => Acknowledge::SkipInstruction { sepc: sepc.wrapping_add(4) },
        Trap::Interrupt(Interrupt::SupervisorTimer) => Acknowledge::SilenceTimer {
            deadline: u64::MAX,
        },
        Trap::Interrupt(Interrupt::SupervisorSoft) => Acknowledge::ClearSoftPending,
        Trap::Interrupt(_) => Acknowledge::Nothing,
    }
}

} // verus!
