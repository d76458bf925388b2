//! The reasons for which an operation is rejected.

use vstd::prelude::*;

verus! {

/// Why an operation was rejected. A rejected operation leaves every piece of
/// state as it was.
#[derive(Clone, Copy, Debug, PartialEq, Eq, Structural)]
pub enum StakingError {
    /// A deposit carried no payment.
    InvalidAmount,
    /// The account holds no stake.
    NoStake,
    /// A claim was made while no reward was pending.
    NothingToClaim,
    /// The pool's balance does not cover what the operation has to pay out.
    TransferFailure,
}

impl StakingError {
    /// The reason, as a fixed sentence for the rejected caller.
    pub fn message(&self) -> (text: &'static str)
        ensures
            text@ == self.spec_message()@,
    {
        match self {
            StakingError::InvalidAmount => "Must pay more than 0",
            StakingError::NoStake => "No staked amount",
            StakingError::NothingToClaim => "No rewards to claim",
            StakingError::TransferFailure => "Insufficient balance for transfer",
        }
    }

    /// The sentence that [`StakingError::message`] returns.
    pub open spec fn spec_message(&self) -> &'static str {
        match self {
            StakingError::InvalidAmount => "Must pay more than 0",
            StakingError::NoStake => "No staked amount",
            StakingError::NothingToClaim => "No rewards to claim",
            StakingError::TransferFailure => "Insufficient balance for transfer",
        }
    }
}

} // verus!
