//! Reasons for which an operation on a splitter instance is refused.

use vstd::prelude::*;

verus! {

/// Why `init`, `distribute` or `get_config` refused to proceed.
///
/// Every refusal is whole-call atomic: the instance is left exactly as it
/// was before the call, and no transfer is handed out.
#[derive(Debug, Clone, Copy, PartialEq, Eq, Structural)]
pub enum SplitterError {
    /// `init` was called on an instance that already holds a configuration.
    AlreadyInitialized,
    /// The recipient list and the weight list differ in length.
    LengthMismatch,
    /// The weights add up to zero, so no share could be computed.
    ZeroTotalWeight,
    /// The instance holds no configuration yet.
    NotInitialized,
    /// A distribution is already in flight on this instance.
    ReentrancyDetected,
    /// The asset ledger reported a negative balance.
    InvalidBalance,
    /// A product of balance and weight does not fit the 128-bit accumulator,
    /// or a share does not fit the ledger's signed amount type.
    ArithmeticOverflow,
}

impl SplitterError {
    /// The diagnostic text of this refusal.
    pub open spec fn spec_message(self) -> Seq<char> {
        match self {
            SplitterError::AlreadyInitialized => "already initialized"@,
            SplitterError::LengthMismatch => "length mismatch"@,
            SplitterError::ZeroTotalWeight => "total shares must be greater than zero"@,
            SplitterError::NotInitialized => "not initialized"@,
            SplitterError::ReentrancyDetected => "reentrancy detected"@,
            SplitterError::InvalidBalance => "negative balance"@,
            SplitterError::ArithmeticOverflow => "overflow in share calculation"@,
        }
    }

    /// The diagnostic text with which a host aborts the call.
    pub fn message(&self) -> (text: &'static str)
        ensures
            text@ == self.spec_message(),
    {
        match self {
            SplitterError::AlreadyInitialized => "already initialized",
            SplitterError::LengthMismatch => "length mismatch",
            SplitterError::ZeroTotalWeight => "total shares must be greater than zero",
            SplitterError::NotInitialized => "not initialized",
            SplitterError::ReentrancyDetected => "reentrancy detected",
            SplitterError::InvalidBalance => "negative balance",
            SplitterError::ArithmeticOverflow => "overflow in share calculation",
        }
    }
}

} // verus!
