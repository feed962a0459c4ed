use vstd::prelude::*;

use crate::types::Amount;
use crate::types::ClientId;
use crate::types::TransactionId;

verus! {

/// A deposit or a withdrawal: money moving into or out of an account.
#[derive(Clone, Copy, Debug, PartialEq, Eq)]
pub struct Charge {
    pub client: ClientId,
    pub tx: TransactionId,
    pub amount: Amount,
}

/// A dispute, resolve or chargeback: a reference to an earlier charge.
#[derive(Clone, Copy, Debug, PartialEq, Eq)]
pub struct ChargeRef {
    pub client: ClientId,
    pub tx: TransactionId,
}

/// One input event.
#[derive(Clone, Copy, Debug, PartialEq, Eq)]
pub enum Transaction {
    Deposit(Charge),
    Withdrawal(Charge),
    Dispute(ChargeRef),
    Resolve(ChargeRef),
    Chargeback(ChargeRef),
}

impl Transaction {
    /// The id under which a deposit or withdrawal is recorded in the ledger.
    pub open spec fn spec_charge_tx(self) -> Option<TransactionId> {
        match self {
            Transaction::Deposit(c) => Some(c.tx),
            Transaction::Withdrawal(c) => Some(c.tx),
            _ => None,
        }
    }

    /// The charge carried by a deposit; `None` for every other kind.
    pub fn as_deposit(&self) -> (r: Option<&Charge>)
        ensures
            match *self {
                Transaction::Deposit(c) => r == Some(&c),
                _ => r is None,
            },
    {
        match self {
            Transaction::Deposit(charge) => Some(charge),
            _ => None,
        }
    }

    /// The transaction id of a deposit or withdrawal; `None` for the
    /// kinds that only refer to an earlier charge.
    pub fn charge_tx(&self) -> (r: Option<TransactionId>)
        ensures
            r == self.spec_charge_tx(),
    {
        match self {
            Transaction::Deposit(Charge { tx, .. })
            | Transaction::Withdrawal(Charge { tx, .. }) => Some(*tx),
            Transaction::Dispute(ChargeRef { .. })
            | Transaction::Resolve(ChargeRef { .. })
            | Transaction::Chargeback(ChargeRef { .. }) => None,
        }
    }
}

} // verus!
