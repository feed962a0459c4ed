use vstd::prelude::*;

use crate::types::Amount;
use crate::types::ClientId;
use crate::types::EngineError;
use crate::types::EngineResult;

verus! {

/// The mathematical state of one client account.
pub struct Account {
    pub id: ClientId,
    pub available: nat,
    pub held: nat,
    pub locked: bool,
}

impl Account {
    /// The account that a client gets on its first deposit or withdrawal.
    pub open spec fn fresh(id: ClientId) -> Account {
        Account { id, available: 0, held: 0, locked: false }
    }

    pub open spec fn total(self) -> nat {
        self.available + self.held
    }

    /// The total fits in an `Amount`, so every balance operation stays in range.
    pub open spec fn fits(self) -> bool {
        self.total() <= u64::MAX
    }

    /// `available += amount`.
    pub open spec fn deposit_result(self, amount: nat) -> Result<Account, EngineError> {
        if self.locked {
            Err(EngineError::AccountLocked)
        } else if self.total() + amount > u64::MAX {
            Err(EngineError::Overflow)
        } else {
            Ok(Account { available: self.available + amount, ..self })
        }
    }

    /// `available -= amount`, when that much is available.
    pub open spec fn withdraw_result(self, amount: nat) -> Result<Account, EngineError> {
        if self.locked {
            Err(EngineError::AccountLocked)
        } else if amount > self.available {
            Err(EngineError::InsufficientFunds)
        } else {
            Ok(Account { available: (self.available - amount) as nat, ..self })
        }
    }

    /// Moves `amount` from available to held, when that much is available.
    pub open spec fn dispute_result(self, amount: nat) -> Result<Account, EngineError> {
        if self.locked {
            Err(EngineError::AccountLocked)
        } else if amount > self.available {
            Err(EngineError::InsufficientFunds)
        } else {
            Ok(
                Account {
                    available: (self.available - amount) as nat,
                    held: self.held + amount,
                    ..self
                },
            )
        }
    }

    /// Moves `amount` from held back to available, when that much is held.
    pub open spec fn resolve_result(self, amount: nat) -> Result<Account, EngineError> {
        if self.locked {
            Err(EngineError::AccountLocked)
        } else if amount > self.held {
            Err(EngineError::InsufficientFunds)
        } else {
            Ok(
                Account {
                    available: self.available + amount,
                    held: (self.held - amount) as nat,
                    ..self
                },
            )
        }
    }

    /// Removes `amount` from held and locks the account, when that much is held:
    /// a resolve followed by a withdrawal of the same amount, then a lock.
    pub open spec fn charge_back_result(self, amount: nat) -> Result<Account, EngineError> {
        if self.locked {
            Err(EngineError::AccountLocked)
        } else if amount > self.held {
            Err(EngineError::InsufficientFunds)
        } else {
            Ok(Account { held: (self.held - amount) as nat, locked: true, ..self })
        }
    }
}

/// Relates the outcome of an operation to its model: on success the account
/// becomes `expected`'s value, on failure it stays `before` and the error is
/// `expected`'s.
pub open spec fn follows(
    before: Account,
    after: Account,
    r: EngineResult<()>,
    expected: Result<Account, EngineError>,
) -> bool {
    match expected {
        Ok(a) => r is Ok && after == a,
        Err(e) => r == Err::<(), EngineError>(e) && after == before,
    }
}

/// One client's balances and lock state.
#[derive(Clone, Copy, Debug, PartialEq, Eq)]
pub struct Client {
    id: ClientId,
    available: Amount,
    held: Amount,
    locked: bool,
}

impl View for Client {
    type V = Account;

    closed spec fn view(&self) -> Account {
        Account {
            id: self.id,
            available: self.available as nat,
            held: self.held as nat,
            locked: self.locked,
        }
    }
}

impl Client {
    /// The balances never overflow: `available + held` fits in an `Amount`.
    pub open spec fn wf(&self) -> bool {
        self@.fits()
    }

    /// A new, empty, unlocked account.
    pub fn new(id: ClientId) -> (r: Client)
        ensures
            r@ == Account::fresh(id),
            r.wf(),
    {
        Client { id, available: 0, held: 0, locked: false }
    }

    pub fn id(&self) -> (r: ClientId)
        ensures
            r == self@.id,
    {
        self.id
    }

    pub fn available(&self) -> (r: Amount)
        ensures
            r == self@.available,
    {
        self.available
    }

    pub fn held(&self) -> (r: Amount)
        ensures
            r == self@.held,
    {
        self.held
    }

    pub fn total(&self) -> (r: Amount)
        requires
            self.wf(),
        ensures
            r == self@.total(),
    {
        self.available + self.held
    }

    pub fn locked(&self) -> (r: bool)
        ensures
            r == self@.locked,
    {
        self.locked
    }

    pub fn deposit(&mut self, amount: Amount) -> (r: EngineResult<()>)
        requires
            old(self).wf(),
        ensures
            final(self).wf(),
            follows(old(self)@, final(self)@, r, old(self)@.deposit_result(amount as nat)),
    {
        self.assert_not_locked()?;
        if amount > u64::MAX - self.available - self.held {
            return Err(EngineError::Overflow);
        }
        self.available = self.available + amount;
        Ok(())
    }

    pub fn withdraw(&mut self, amount: Amount) -> (r: EngineResult<()>)
        requires
            old(self).wf(),
        ensures
            final(self).wf(),
            follows(old(self)@, final(self)@, r, old(self)@.withdraw_result(amount as nat)),
    {
        self.assert_not_locked()?;
        if self.available < amount {
            return Err(EngineError::InsufficientFunds);
        }
        self.available = self.available - amount;
        Ok(())
    }

    pub fn dispute(&mut self, amount: Amount) -> (r: EngineResult<()>)
        requires
            old(self).wf(),
        ensures
            final(self).wf(),
            follows(old(self)@, final(self)@, r, old(self)@.dispute_result(amount as nat)),
    {
        self.assert_not_locked()?;
        if self.available < amount {
            return Err(EngineError::InsufficientFunds);
        }
        self.available = self.available - amount;
        self.held = self.held + amount;
        Ok(())
    }

    pub fn resolve(&mut self, amount: Amount) -> (r: EngineResult<()>)
        requires
            old(self).wf(),
        ensures
            final(self).wf(),
            follows(old(self)@, final(self)@, r, old(self)@.resolve_result(amount as nat)),
    {
        self.assert_not_locked()?;
        if self.held < amount {
            return Err(EngineError::InsufficientFunds);
        }
        self.held = self.held - amount;
        self.available = self.available + amount;
        Ok(())
    }

    pub fn charge_back(&mut self, amount: Amount) -> (r: EngineResult<()>)
        requires
            old(self).wf(),
        ensures
            final(self).wf(),
            follows(old(self)@, final(self)@, r, old(self)@.charge_back_result(amount as nat)),
    {
        self.resolve(amount)?;
        self.withdraw(amount)?;
        self.lock();
        Ok(())
    }

    pub fn lock(&mut self)
        ensures
            final(self)@ == (Account { locked: true, ..old(self)@ }),
    {
        self.locked = true;
    }

    fn assert_not_locked(&self) -> (r: EngineResult<()>)
        ensures
            r is Ok <==> !self@.locked,
            r is Err ==> r == Err::<(), EngineError>(EngineError::AccountLocked),
    {
        if self.locked {
            Err(EngineError::AccountLocked)
        } else {
            Ok(())
        }
    }
}

} // verus!
