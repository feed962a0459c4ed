use vstd::prelude::*;

use crate::client::Account;
use crate::engine::after;
use crate::engine::replay;
use crate::engine::EngineState;
use crate::transaction::Charge;
use crate::transaction::ChargeRef;
use crate::transaction::Transaction;
use crate::types::ClientId;
use crate::types::EngineError;

verus! {

/// Every accepted transaction keeps the engine consistent.
pub proof fn lemma_step_preserves_wf(s: EngineState, t: Transaction)
    requires
        s.wf(),
        s.step(t) is Ok,
    ensures
        s.step(t)->Ok_0.wf(),
{
    let n = s.step(t)->Ok_0;
    assert forall|c: ClientId| #[trigger] n.accounts.contains_key(c) implies n.accounts[c].id == c
        && n.accounts[c].fits() by {
        if !s.accounts.contains_key(c) {
            assert(s.account_or_fresh(c) == Account::fresh(c));
        }
    }
}

/// In a consistent engine every recorded deposit's client has an account, so
/// no transaction is ever rejected with `UnknownAccount`.
pub proof fn lemma_no_unknown_account(s: EngineState, t: Transaction)
    requires
        s.wf(),
    ensures
        s.step(t) != Err::<EngineState, EngineError>(EngineError::UnknownAccount),
{
}

/// In batch mode, after every prefix of any transaction stream, the engine
/// is consistent and no account's available or held funds are negative.
pub proof fn lemma_balances_never_negative(ts: Seq<Transaction>, k: int)
    requires
        0 <= k <= ts.len(),
    ensures
        replay(EngineState::empty(), ts.take(k)).wf(),
        forall|c: ClientId| #[trigger]
            replay(EngineState::empty(), ts.take(k)).accounts.contains_key(c) ==> {
                let a = replay(EngineState::empty(), ts.take(k)).accounts[c];
                a.available >= 0 && a.held >= 0
            },
    decreases k,
{
    let s = replay(EngineState::empty(), ts.take(k));
    if k == 0 {
        assert(ts.take(0).len() == 0);
    } else {
        lemma_balances_never_negative(ts, k - 1);
        assert(ts.take(k).drop_last() =~= ts.take(k - 1));
        let p = replay(EngineState::empty(), ts.take(k - 1));
        if p.step(ts[k - 1]) is Ok {
            lemma_step_preserves_wf(p, ts[k - 1]);
        }
    }
}

/// A deposit, a dispute of it and a resolve of it leave the engine exactly
/// as the deposit alone did: the dispute moves the whole amount from
/// available to held, and the resolve moves it back.
pub proof fn lemma_dispute_resolve_round_trip(s: EngineState, c: Charge, client: ClientId)
    requires
        s.wf(),
        s.step(Transaction::Deposit(c)) is Ok,
    ensures
        ({
            let deposited = s.step(Transaction::Deposit(c))->Ok_0;
            let r = ChargeRef { client, tx: c.tx };
            let disputed = deposited.step(Transaction::Dispute(r));
            &&& disputed is Ok
            &&& disputed->Ok_0.accounts[c.client].available + c.amount
                == deposited.accounts[c.client].available
            &&& disputed->Ok_0.accounts[c.client].held == deposited.accounts[c.client].held
                + c.amount
            &&& disputed->Ok_0.step(Transaction::Resolve(r)) == Ok::<EngineState, EngineError>(
                deposited,
            )
        }),
{
    let deposited = s.step(Transaction::Deposit(c))->Ok_0;
    let r = ChargeRef { client, tx: c.tx };
    let d = deposited.step(Transaction::Dispute(r))->Ok_0;
    let back = d.step(Transaction::Resolve(r))->Ok_0;
    assert(back.accounts =~= deposited.accounts);
    assert(back.ledger =~= deposited.ledger);
}

/// Disputing a transaction a second time changes nothing.
pub proof fn lemma_dispute_idempotent(s: EngineState, r: ChargeRef)
    requires
        s.step(Transaction::Dispute(r)) is Ok,
    ensures
        ({
            let once = s.step(Transaction::Dispute(r))->Ok_0;
            once.step(Transaction::Dispute(r)) == Ok::<EngineState, EngineError>(once)
        }),
{
}

/// A dispute or a resolve moves funds between available and held: no
/// account's total changes, and no account appears or disappears.
pub proof fn lemma_dispute_resolve_keep_totals(s: EngineState, t: Transaction)
    requires
        t is Dispute || t is Resolve,
        s.step(t) is Ok,
    ensures
        s.step(t)->Ok_0.accounts.dom() == s.accounts.dom(),
        forall|c: ClientId| #[trigger]
            s.accounts.contains_key(c) ==> s.step(t)->Ok_0.accounts[c].total()
                == s.accounts[c].total(),
{
    let n = s.step(t)->Ok_0;
    assert(n.accounts.dom() =~= s.accounts.dom());
}

/// A chargeback of a disputed deposit removes the deposited amount from the
/// held funds, leaves the available funds as they were, locks the account
/// and clears the dispute.
pub proof fn lemma_chargeback_locks(s: EngineState, r: ChargeRef)
    requires
        s.wf(),
        s.step(Transaction::Chargeback(r)) is Ok,
        s.ledger.contains_key(r.tx),
        s.ledger[r.tx].disputed,
    ensures
        ({
            let d = s.ledger[r.tx].transaction->Deposit_0;
            let n = s.step(Transaction::Chargeback(r))->Ok_0;
            &&& n.accounts[d.client].locked
            &&& n.accounts[d.client].held + d.amount == s.accounts[d.client].held
            &&& n.accounts[d.client].available == s.accounts[d.client].available
            &&& !n.ledger[r.tx].disputed
        }),
{
}

/// A locked account never changes again. A deposit or withdrawal for it with
/// a new id is rejected with `AccountLocked`; a dispute, resolve or chargeback
/// of one of its deposits is either rejected with `AccountLocked` or, when the
/// dispute flag already has the wanted value, accepted as a no-op.
pub proof fn lemma_locked_account_frozen(s: EngineState, t: Transaction, c: ClientId)
    requires
        s.wf(),
        s.accounts.contains_key(c),
        s.accounts[c].locked,
    ensures
        s.step(t) is Ok ==> s.step(t)->Ok_0.accounts.contains_key(c)
            && s.step(t)->Ok_0.accounts[c] == s.accounts[c],
        match t {
            Transaction::Deposit(ch) | Transaction::Withdrawal(ch) => ch.client == c
                && !s.ledger.contains_key(ch.tx) ==> s.step(t) == Err::<EngineState, EngineError>(
                EngineError::AccountLocked,
            ),
            Transaction::Dispute(r) | Transaction::Resolve(r) | Transaction::Chargeback(r) => (
            s.referenced_deposit(r.tx) is Ok && s.referenced_deposit(r.tx)->Ok_0.client == c)
                ==> (s.step(t) == Ok::<EngineState, EngineError>(s) || s.step(t) == Err::<
                EngineState,
                EngineError,
            >(EngineError::AccountLocked)),
        },
{
}

/// Reusing a recorded transaction id for a deposit or a withdrawal is
/// rejected with `DuplicateTransaction`, so its amount never reaches a
/// balance.
pub proof fn lemma_duplicate_rejected(s: EngineState, t: Transaction)
    requires
        t.spec_charge_tx() is Some,
        s.ledger.contains_key(t.spec_charge_tx()->Some_0),
    ensures
        s.step(t) == Err::<EngineState, EngineError>(EngineError::DuplicateTransaction),
        after(s, t) == s,
{
}

/// A resolve or a chargeback that names a transaction id never recorded is
/// rejected with `UnknownTransaction` and leaves every account untouched.
pub proof fn lemma_unknown_reference_rejected(s: EngineState, r: ChargeRef)
    requires
        !s.ledger.contains_key(r.tx),
    ensures
        s.step(Transaction::Resolve(r)) == Err::<EngineState, EngineError>(
            EngineError::UnknownTransaction,
        ),
        s.step(Transaction::Chargeback(r)) == Err::<EngineState, EngineError>(
            EngineError::UnknownTransaction,
        ),
        after(s, Transaction::Resolve(r)) == s,
        after(s, Transaction::Chargeback(r)) == s,
{
}

} // verus!
