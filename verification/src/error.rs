//! The reasons for which an operation is refused.

use vstd::prelude::*;

verus! {

/// Why an operation was refused. A refused operation changes nothing.
#[derive(Clone, Copy, Debug, PartialEq, Eq, Structural)]
pub enum Error {
    /// The caller is not an administrator.
    NotAdmin,
    /// The caller is not the recipient of the schedule.
    NotOwner,
    /// The manager has been initialized before.
    AlreadyInitialized,
    /// The last administrator cannot be removed.
    LastAdmin,
    /// The address already has the requested administrator status.
    AlreadyInState,
    /// An amount is negative, or cliff and linear amount are both zero.
    InvalidAmount,
    /// The start is zero or not before the end.
    InvalidStart,
    /// The release interval is zero.
    InvalidInterval,
    /// The cliff release does not lie in `[start, end)`.
    InvalidCliffRelease,
    /// A cliff amount without a cliff release, or a cliff release without an amount.
    InvalidCliffAmount,
    /// The linear period is not a whole number of release intervals.
    InvalidIntervalLength,
    /// The sequences of a batch differ in length.
    LengthMismatch,
    /// The token to sweep is the managed token.
    InvalidOtherToken,
    /// A slice range does not lie inside the list.
    OutOfRange,
    /// No schedule has the given id.
    UnknownSchedule,
    /// The schedule has been revoked before.
    AlreadyRevoked,
    /// Everything the schedule will ever vest has been claimed.
    FullyClaimed,
    /// The timelock of the schedule has not passed.
    TimelockActive,
    /// Nothing has vested beyond what was claimed.
    NothingToClaim,
    /// The request exceeds the balance that is not reserved for vesting.
    InsufficientUnreserved,
    /// An amount or a count would leave the range of its integer type.
    Overflow,
}

} // verus!
