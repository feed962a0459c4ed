use std::collections::BTreeMap;

use vstd::prelude::*;
use vstd::std_specs::iter::IteratorSpec;

use crate::client::Account;
use crate::client::Client;
use crate::transaction::Charge;
use crate::transaction::ChargeRef;
use crate::transaction::Transaction;
use crate::types::ClientId;
use crate::types::EngineError;
use crate::types::EngineResult;
use crate::types::TransactionId;

verus! {

/// A deposit or withdrawal that the engine accepted, with its dispute flag.
#[derive(Clone, Copy, Debug, PartialEq, Eq)]
pub struct LedgerEntry {
    pub transaction: Transaction,
    pub disputed: bool,
}

impl LedgerEntry {
    /// A freshly recorded charge, not disputed.
    pub fn new(transaction: Transaction) -> (r: LedgerEntry)
        ensures
            r == (LedgerEntry { transaction, disputed: false }),
    {
        LedgerEntry { transaction, disputed: false }
    }
}

/// The mathematical state of the engine: every account by client id, and
/// every recorded charge by transaction id.
pub struct EngineState {
    pub accounts: Map<ClientId, Account>,
    pub ledger: Map<TransactionId, LedgerEntry>,
}

impl EngineState {
    pub open spec fn empty() -> EngineState {
        EngineState { accounts: Map::empty(), ledger: Map::empty() }
    }

    /// The state is consistent: each account is stored under its own id and
    /// its total fits in an `Amount`; each ledger entry is a deposit or a
    /// withdrawal stored under its own id; only deposits are ever disputed;
    /// and each recorded deposit's client has an account.
    pub open spec fn wf(self) -> bool {
        &&& forall|c: ClientId| #[trigger]
            self.accounts.contains_key(c) ==> self.accounts[c].id == c
                && self.accounts[c].fits()
        &&& forall|tx: TransactionId| #[trigger]
            self.ledger.contains_key(tx) ==> {
                let e = self.ledger[tx];
                &&& e.transaction.spec_charge_tx() == Some(tx)
                &&& e.disputed ==> e.transaction is Deposit
                &&& e.transaction is Deposit ==> self.accounts.contains_key(
                    e.transaction->Deposit_0.client,
                )
            }
    }

    /// The account a charge applies to: the existing one, or a fresh one.
    pub open spec fn account_or_fresh(self, client: ClientId) -> Account {
        if self.accounts.contains_key(client) {
            self.accounts[client]
        } else {
            Account::fresh(client)
        }
    }

    /// A deposit or withdrawal: rejected when its id is already recorded;
    /// otherwise the account operation decides, and on success the account
    /// is stored and the charge recorded, undisputed.
    pub open spec fn charge_step(
        self,
        t: Transaction,
        c: Charge,
        outcome: Result<Account, EngineError>,
    ) -> Result<EngineState, EngineError> {
        if self.ledger.contains_key(c.tx) {
            Err(EngineError::DuplicateTransaction)
        } else {
            match outcome {
                Err(e) => Err(e),
                Ok(a) => Ok(
                    EngineState {
                        accounts: self.accounts.insert(c.client, a),
                        ledger: self.ledger.insert(c.tx, LedgerEntry { transaction: t, disputed: false }),
                    },
                ),
            }
        }
    }

    /// The deposit that a dispute, resolve or chargeback refers to.
    pub open spec fn referenced_deposit(self, tx: TransactionId) -> Result<Charge, EngineError> {
        if !self.ledger.contains_key(tx) {
            Err(EngineError::UnknownTransaction)
        } else {
            match self.ledger[tx].transaction {
                Transaction::Deposit(c) => Ok(c),
                _ => Err(EngineError::NotDisputable),
            }
        }
    }

    /// A dispute, resolve or chargeback of the deposit `tx`: a no-op unless
    /// its dispute flag differs from `disputed`; otherwise the account
    /// operation decides, and on success the account is stored and the flag
    /// set to `disputed`.
    pub open spec fn reference_step(
        self,
        tx: TransactionId,
        disputed: bool,
        op: spec_fn(Account, nat) -> Result<Account, EngineError>,
    ) -> Result<EngineState, EngineError> {
        match self.referenced_deposit(tx) {
            Err(e) => Err(e),
            Ok(c) => if self.ledger[tx].disputed == disputed {
                Ok(self)
            } else if !self.accounts.contains_key(c.client) {
                Err(EngineError::UnknownAccount)
            } else {
                match op(self.accounts[c.client], c.amount as nat) {
                    Err(e) => Err(e),
                    Ok(a) => Ok(
                        EngineState {
                            accounts: self.accounts.insert(c.client, a),
                            ledger: self.ledger.insert(tx, LedgerEntry { disputed, ..self.ledger[tx] }),
                        },
                    ),
                }
            },
        }
    }

    /// The effect of one transaction: the next state, or the error that
    /// rejects it. The `client` of a dispute, resolve or chargeback is not
    /// consulted: the account is the one recorded with the deposit.
    pub open spec fn step(self, t: Transaction) -> Result<EngineState, EngineError> {
        match t {
            Transaction::Deposit(c) => self.charge_step(
                t,
                c,
                self.account_or_fresh(c.client).deposit_result(c.amount as nat),
            ),
            Transaction::Withdrawal(c) => self.charge_step(
                t,
                c,
                self.account_or_fresh(c.client).withdraw_result(c.amount as nat),
            ),
            Transaction::Dispute(r) => self.reference_step(
                r.tx,
                true,
                |a: Account, amount: nat| a.dispute_result(amount),
            ),
            Transaction::Resolve(r) => self.reference_step(
                r.tx,
                false,
                |a: Account, amount: nat| a.resolve_result(amount),
            ),
            Transaction::Chargeback(r) => self.reference_step(
                r.tx,
                false,
                |a: Account, amount: nat| a.charge_back_result(amount),
            ),
        }
    }
}

/// The state after offering `t` to the engine in batch mode: the next state
/// when the transaction is accepted, the same state when it is rejected.
pub open spec fn after(s: EngineState, t: Transaction) -> EngineState {
    match s.step(t) {
        Ok(n) => n,
        Err(_) => s,
    }
}

/// The state after offering every transaction of `ts` in order, skipping the
/// rejected ones.
pub open spec fn replay(s: EngineState, ts: Seq<Transaction>) -> EngineState
    decreases ts.len(),
{
    if ts.len() == 0 {
        s
    } else {
        after(replay(s, ts.drop_last()), ts.last())
    }
}

/// `listed` holds exactly the accounts of `accounts`, one each, in
/// increasing order of client id.
pub open spec fn in_id_order(listed: Seq<Account>, accounts: Map<ClientId, Account>) -> bool {
    exists|ids: Seq<ClientId>|
        {
            &&& forall|i: int, j: int| 0 <= i < j < ids.len() ==> ids[i] < ids[j]
            &&& ids.to_set() == accounts.dom()
            &&& listed == ids.map_values(|k: ClientId| accounts[k])
        }
}

/// The engine: all accounts and the ledger of accepted charges.
#[derive(Debug)]
pub struct Core {
    clients: BTreeMap<ClientId, Client>,
    transactions: BTreeMap<TransactionId, LedgerEntry>,
}

impl View for Core {
    type V = EngineState;

    closed spec fn view(&self) -> EngineState {
        EngineState {
            accounts: self.clients@.map_values(|c: Client| c@),
            ledger: self.transactions@,
        }
    }
}

impl Default for Core {
    fn default() -> (r: Core)
        ensures
            r@ == EngineState::empty(),
            r.wf(),
    {
        Core::new()
    }
}

impl Core {
    pub open spec fn wf(&self) -> bool {
        self@.wf()
    }

    /// An engine with no accounts and an empty ledger.
    pub fn new() -> (r: Core)
        ensures
            r@ == EngineState::empty(),
            r.wf(),
    {
        let r = Core { clients: BTreeMap::new(), transactions: BTreeMap::new() };
        assert(r@.accounts =~= Map::empty());
        r
    }

    /// Applies one transaction. On success the engine takes the next state of
    /// the model; on failure it returns the model's error and is left exactly
    /// as it was.
    pub fn process(&mut self, transaction: Transaction) -> (r: EngineResult<()>)
        requires
            old(self).wf(),
        ensures
            final(self).wf(),
            match old(self)@.step(transaction) {
                Ok(s) => r is Ok && final(self)@ == s,
                Err(e) => r == Err::<(), EngineError>(e) && final(self)@ == old(self)@,
            },
    {
        match transaction {
            Transaction::Deposit(Charge { client, tx, amount }) => {
                self.assert_transaction_doesnt_exist(tx)?;
                let mut account = self.client_or_new(client);
                account.deposit(amount)?;
                self.put_client(client, account);
            },
            Transaction::Withdrawal(Charge { client, tx, amount }) => {
                self.assert_transaction_doesnt_exist(tx)?;
                let mut account = self.client_or_new(client);
                account.withdraw(amount)?;
                self.put_client(client, account);
            },
            Transaction::Dispute(ChargeRef { tx, .. }) => {
                let entry = self.get_transaction_wrapper(tx)?;
                let Charge { client, amount, .. } = as_deposit(&entry.transaction)?;
                if !entry.disputed {
                    let mut account = self.get_client(client)?;
                    account.dispute(amount)?;
                    self.put_client(client, account);
                    self.put_entry(tx, LedgerEntry { disputed: true, ..entry });
                }
            },
            Transaction::Resolve(ChargeRef { tx, .. }) => {
                let entry = self.get_transaction_wrapper(tx)?;
                let Charge { client, amount, .. } = as_deposit(&entry.transaction)?;
                if entry.disputed {
                    let mut account = self.get_client(client)?;
                    account.resolve(amount)?;
                    self.put_client(client, account);
                    self.put_entry(tx, LedgerEntry { disputed: false, ..entry });
                }
            },
            Transaction::Chargeback(ChargeRef { tx, .. }) => {
                let entry = self.get_transaction_wrapper(tx)?;
                let Charge { client, amount, .. } = as_deposit(&entry.transaction)?;
                if entry.disputed {
                    let mut account = self.get_client(client)?;
                    account.charge_back(amount)?;
                    self.put_client(client, account);
                    self.put_entry(tx, LedgerEntry { disputed: false, ..entry });
                }
            },
        }
        if let Some(tx) = transaction.charge_tx() {
            self.put_entry(tx, LedgerEntry::new(transaction));
        }
        assert(self@ == old(self)@.step(transaction)->Ok_0);
        Ok(())
    }

    /// Batch mode: offers each transaction in order, skipping the rejected ones.
    pub fn process_batch(&mut self, transactions: Vec<Transaction>)
        requires
            old(self).wf(),
        ensures
            final(self).wf(),
            final(self)@ == replay(old(self)@, transactions@),
    {
        let ghost start = self@;
        for t in it: transactions
            invariant
                self.wf(),
                it.seq() == transactions@,
                self@ == replay(start, transactions@.take(it.index())),
        {
            assert(transactions@.take(it.index() + 1).drop_last() =~= transactions@.take(
                it.index(),
            ));
            let _ = self.process(t);
        }
        assert(transactions@.take(transactions@.len() as int) =~= transactions@);
    }

    /// Every account, ordered by client id.
    pub fn clients(&self) -> (r: Vec<Client>)
        requires
            self.wf(),
        ensures
            in_id_order(r@.map_values(|c: Client| c@), self@.accounts),
            forall|i: int| 0 <= i < r.len() ==> (#[trigger] r@[i]).wf(),
    {
        let mut r: Vec<Client> = Vec::new();
        let values = self.clients.values();
        let ghost listed = IteratorSpec::remaining(&values);
        for c in it: values
            invariant
                self.wf(),
                it.seq() == listed,
                r@.len() == it.index(),
                it.index() <= it.seq().len(),
                forall|i: int| 0 <= i < it.index() ==> r@[i] == *(#[trigger] it.seq()[i]),
        {
            r.push(*c);
        }
        proof {
            broadcast use vstd::std_specs::btree::group_btree_axioms;
            assert(vstd::std_specs::btree::key_obeys_cmp_spec::<ClientId>());
            assert(r@.len() == listed.len());
            let ids = choose|ids: Seq<ClientId>|
                {
                    &&& vstd::std_specs::btree::increasing_seq(ids)
                    &&& ids.to_set() == self.clients@.dom()
                    &&& ids.no_duplicates()
                    &&& listed == ids.map(|i: int, k: ClientId| &self.clients@[k])
                };
            assert(vstd::std_specs::btree::increasing_seq(ids));
            assert forall|i: int, j: int| 0 <= i < j < ids.len() implies ids[i] < ids[j] by {
                assert(vstd::std_specs::cmp::OrdSpec::cmp_spec(&ids[i], &ids[j]) is Less);
            }
            assert(self@.accounts.dom() =~= self.clients@.dom());
            assert forall|i: int| 0 <= i < r.len() implies r@[i]@ == self@.accounts[ids[i]]
                && (#[trigger] r@[i]).wf() by {
                assert(ids.to_set().contains(ids[i]));
                assert(self@.accounts.contains_key(ids[i]));
                assert(r@[i] == *listed[i]);
            }
            assert(r@.map_values(|c: Client| c@) =~= ids.map_values(|k: ClientId| self@.accounts[k]));
        }
        r
    }

    /// Rejects a charge whose id is already recorded.
    fn assert_transaction_doesnt_exist(&self, tx: TransactionId) -> (r: EngineResult<()>)
        ensures
            r is Ok <==> !self@.ledger.contains_key(tx),
            r is Err ==> r == Err::<(), EngineError>(EngineError::DuplicateTransaction),
    {
        if self.transactions.contains_key(&tx) {
            Err(EngineError::DuplicateTransaction)
        } else {
            Ok(())
        }
    }

    /// A copy of the client's account, or a fresh one when it has none yet.
    fn client_or_new(&self, client: ClientId) -> (r: Client)
        requires
            self.wf(),
        ensures
            r@ == self@.account_or_fresh(client),
            r.wf(),
    {
        match self.clients.get(&client) {
            Some(c) => *c,
            None => Client::new(client),
        }
    }

    /// A copy of the client's account.
    fn get_client(&self, client: ClientId) -> (r: EngineResult<Client>)
        requires
            self.wf(),
        ensures
            match r {
                Ok(c) => self@.accounts.contains_key(client) && c@ == self@.accounts[client]
                    && c.wf(),
                Err(e) => !self@.accounts.contains_key(client) && e == EngineError::UnknownAccount,
            },
    {
        match self.clients.get(&client) {
            Some(c) => Ok(*c),
            None => Err(EngineError::UnknownAccount),
        }
    }

    /// The ledger entry recorded under `tx`.
    fn get_transaction_wrapper(&self, tx: TransactionId) -> (r: EngineResult<LedgerEntry>)
        ensures
            match r {
                Ok(e) => self@.ledger.contains_key(tx) && e == self@.ledger[tx],
                Err(e) => !self@.ledger.contains_key(tx) && e == EngineError::UnknownTransaction,
            },
    {
        match self.transactions.get(&tx) {
            Some(e) => Ok(*e),
            None => Err(EngineError::UnknownTransaction),
        }
    }

    /// Stores an account under its id.
    fn put_client(&mut self, client: ClientId, account: Client)
        requires
            account@.id == client,
        ensures
            final(self)@ == (EngineState {
                accounts: old(self)@.accounts.insert(client, account@),
                ..old(self)@
            }),
    {
        self.clients.insert(client, account);
        assert(self@.accounts =~= old(self)@.accounts.insert(client, account@));
    }

    /// Records an entry under `tx`.
    fn put_entry(&mut self, tx: TransactionId, entry: LedgerEntry)
        ensures
            final(self)@ == (EngineState {
                ledger: old(self)@.ledger.insert(tx, entry),
                ..old(self)@
            }),
    {
        self.transactions.insert(tx, entry);
        assert(self@.accounts =~= old(self)@.accounts);
    }
}

/// The charge of a deposit; other kinds cannot be disputed.
fn as_deposit(transaction: &Transaction) -> (r: EngineResult<Charge>)
    ensures
        match *transaction {
            Transaction::Deposit(c) => r == Ok::<Charge, EngineError>(c),
            _ => r == Err::<Charge, EngineError>(EngineError::NotDisputable),
        },
{
    match transaction.as_deposit() {
        Some(c) => Ok(*c),
        None => Err(EngineError::NotDisputable),
    }
}

} // verus!
