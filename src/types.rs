use vstd::prelude::*;

verus! {

/// Identifies one client account.
pub type ClientId = u16;

/// Identifies one transaction; unique over the whole stream.
pub type TransactionId = u32;

/// A non-negative amount of money in fixed point, counted in ten-thousandths
/// of a unit (four fractional digits): `1.5` is `15_000`.
pub type Amount = u64;

/// Number of amount units in one whole unit of money.
pub const AMOUNT_SCALE: u64 = 10_000;

/// Why a transaction was rejected. A rejected transaction leaves the engine as it was.
#[derive(Clone, Copy, Debug, PartialEq, Eq)]
pub enum EngineError {
    /// The account has been locked by a chargeback.
    AccountLocked,
    /// The account does not hold enough funds for the operation.
    InsufficientFunds,
    /// A deposit or withdrawal reuses a transaction id that is already recorded.
    DuplicateTransaction,
    /// A dispute, resolve or chargeback names a transaction id that was never recorded.
    UnknownTransaction,
    /// A dispute, resolve or chargeback names a transaction that is not a deposit.
    NotDisputable,
    /// A dispute, resolve or chargeback reaches a client that has no account.
    UnknownAccount,
    /// The account's total would no longer fit in an `Amount`.
    Overflow,
}

pub type EngineResult<T> = Result<T, EngineError>;

} // verus!
