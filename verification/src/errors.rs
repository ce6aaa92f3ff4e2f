use vstd::prelude::*;

verus! {

/// Every way a request against a pool can fail.  A failed request never
/// changes the pool: each operation's contract says exactly which of these it
/// returns, and that the pool is then left as it was.
#[derive(Clone, Copy, PartialEq, Eq, Structural, Debug)]
pub enum GameError {
    /// The pool is not in the `Active` phase.
    GameNotActive,
    /// The deadline has passed, so no more joins are accepted.
    GameEnded,
    /// The pool has not been ended yet, so distribution cannot start.
    GameNotEnded,
    /// The stake is below the pool's minimum.
    BetTooLow,
    /// The pool already holds as many participants as its capacity allows.
    GameFull,
    /// The deadline given at creation is not strictly in the future.
    InvalidEndTime,
    /// The minimum stake given at creation is zero.
    InvalidBet,
    /// The capacity given at creation is zero.
    InvalidMaxParticipants,
    /// The caller is not permitted to perform this operation.
    Unauthorized,
    /// Funds have already been distributed for this pool.
    AlreadyDistributed,
    /// The participant has already joined this pool.
    AlreadyJoined,
    /// An accumulation would have exceeded the 64-bit range.
    ArithmeticOverflow,
    /// The amount to pay out exceeds what the pot holds.
    InsufficientFunds,
    /// Distribution over an empty participant list: there is no count to
    /// divide by and nobody to pay.
    NoParticipants,
    /// A supplied identity or account reference does not match the recorded
    /// participants.
    InvalidAccountData,
    /// The request bytes do not decode to any operation.
    InvalidInstructionData,
}

} // verus!
