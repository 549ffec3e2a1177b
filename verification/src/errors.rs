//! Error types shared by the core operations.

use vstd::prelude::*;

verus! {

/// Error returned by the race, campaign, NFT and authority operations.
#[derive(Clone, Copy, PartialEq, Eq, Structural, Debug)]
pub enum CoreError {
    /// The caller lacks the required role (admin / owner).
    NotAuthorized,
    /// An unknown race, campaign, NFT or participant reference.
    NotFound,
    /// The operation is not legal in the entity's current lifecycle state.
    InvalidState,
    /// A debit was attempted beyond the payer's balance.
    InsufficientFunds { balance: u64 },
    /// The caller is already enrolled in the race.
    AlreadyJoined,
    /// The campaign's end time has passed.
    CampaignExpired,
    /// The amount arithmetic would exceed the representable range.
    Overflow,
}

/// Error returned by the token-transfer primitive.
#[derive(Clone, PartialEq, Eq, Debug)]
pub enum TransferError {
    BadFee { expected_fee: u64 },
    BadBurn { min_burn_amount: u64 },
    InsufficientFunds { balance: u64 },
    TooOld,
    CreatedInFuture { ledger_time: u64 },
    Duplicate { duplicate_of: u64 },
    TemporarilyUnavailable,
    GenericError { error_code: u64, message: String },
}

} // verus!
