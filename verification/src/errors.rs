//! Error kinds shared by every operation of the contract core.

use vstd::prelude::*;

verus! {

/// Every way an operation can fail. Each operation's contract says exactly
/// which of these it returns, and on which inputs.
#[derive(Copy, Clone, Debug, PartialEq, Eq)]
pub enum Error {
    /// The computed stake contribution was zero or negative.
    LowBalance,
    /// The caller is not a member of the team it tried to act for.
    Unauthorized,
    /// No team of the given name exists.
    TeamNotFound,
    /// A stake percentage above 100 was supplied.
    InvalidStakePercentage,
    /// The record id (team name or prediction id) is already taken.
    PredictionExists,
    /// No prediction of the given id exists (or none is payable yet).
    PredictionNotFound,
    /// Price data is missing, inconsistent, or the oracle is unconfigured.
    OracleDataUnavailable,
    /// The prediction has already been resolved.
    AlreadyResolved,
    /// The mining-hash difficulty check failed.
    HashVerificationFailed,
}

} // verus!
