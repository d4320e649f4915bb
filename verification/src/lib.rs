//! Conformance tests for a RISC-V Supervisor Binary Interface implementation.
//!
//! The crate holds the decisions of the test harness: what to ask the firmware
//! next, how to read its answers, and which events to report. Performing the
//! calls, spinning and trap entry are left to the embedding program.
pub mod base;
pub mod harness;
pub mod hsm;
pub mod sbi;
pub mod spi;
pub mod time;
pub mod trap;
pub use harness::Testing;
