//! Plain values exchanged with the firmware.
use vstd::prelude::*;

verus! {

/// Error number of a call that succeeded.
pub const RET_SUCCESS: usize = 0;

/// Status value of a hart that executes normally.
pub const HART_STATE_STARTED: usize = 0;

/// Status value of a hart that does not execute.
pub const HART_STATE_STOPPED: usize = 1;

/// Status value of a hart in a low-power state.
pub const HART_STATE_SUSPENDED: usize = 4;

/// The pair of registers that every firmware call hands back.
#[derive(Clone, Copy, Debug, PartialEq, Eq, Structural)]
pub struct SbiRet {
    /// Error number, `RET_SUCCESS` when the call succeeded.
    pub error: usize,
    /// Result value.
    pub value: usize,
}

/// What the firmware reports about a hart.
#[derive(Clone, Copy, Debug, PartialEq, Eq, Structural)]
pub enum HartState {
    /// Executing normally.
    Started,
    /// Not executing.
    Stopped,
    /// In a low-power state.
    Suspended,
    /// A pending state, an unknown value, or a failed query.
    Other,
}

/// Reads `sbi_spec::binary::RET_SUCCESS`, which the SBI binary encoding and the
/// crate's source fix at zero.
#[verifier::external_body]
fn ret_success() -> (r: usize)
    ensures
        r == RET_SUCCESS,
{
    sbi_spec::binary::RET_SUCCESS
}

/// Reads `sbi_spec::hsm::hart_state::STARTED`, declared as 0.
#[verifier::external_body]
fn hart_state_started() -> (r: usize)
    ensures
        r == HART_STATE_STARTED,
{
    sbi_spec::hsm::hart_state::STARTED
}

/// Reads `sbi_spec::hsm::hart_state::STOPPED`, declared as 1.
#[verifier::external_body]
fn hart_state_stopped() -> (r: usize)
    ensures
        r == HART_STATE_STOPPED,
{
    sbi_spec::hsm::hart_state::STOPPED
}

/// Reads `sbi_spec::hsm::hart_state::SUSPENDED`, declared as 4.
#[verifier::external_body]
fn hart_state_suspended() -> (r: usize)
    ensures
        r == HART_STATE_SUSPENDED,
{
    sbi_spec::hsm::hart_state::SUSPENDED
}

impl SbiRet {
    /// Whether the error number says success.
    pub open spec fn ok(self) -> bool {
        self.error == RET_SUCCESS
    }

    /// The hart state that a status query returned: a successful call with one
    /// of the three settled state values, anything else is `Other`.
    pub open spec fn state(self) -> HartState {
        if !self.ok() {
            HartState::Other
        } else if self.value == HART_STATE_STARTED {
            HartState::Started
        } else if self.value == HART_STATE_STOPPED {
            HartState::Stopped
        } else if self.value == HART_STATE_SUSPENDED {
            HartState::Suspended
        } else {
            HartState::Other
        }
    }

    /// Returns `true` when the call succeeded.
    pub fn is_ok(&self) -> (r: bool)
        ensures
            r == self.ok(),
    {
        self.error == ret_success()
    }

    /// Returns `true` when the call failed.
    pub fn is_err(&self) -> (r: bool)
        ensures
            r == !self.ok(),
    {
        self.error != ret_success()
    }

    /// Classifies the answer to a status query.
    pub fn hart_state(&self) -> (r: HartState)
        ensures
            r == self.state(),
    {
        if self.error != ret_success() {
            HartState::Other
        } else if self.value == hart_state_started() {
            HartState::Started
        } else if self.value == hart_state_stopped() {
            HartState::Stopped
        } else if self.value == hart_state_suspended() {
            HartState::Suspended
        } else {
            HartState::Other
        }
    }
}

} // verus!
