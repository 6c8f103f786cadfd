//! The ledger itself: the account table and the transaction history, and the
//! operations that fold input rows into them.

use std::collections::HashMap;
use vstd::prelude::*;
use vstd::std_specs::hash::*;
use crate::common::{
    classify, Account, AccountView, ProcessEvent, ProcessEventView, Row, Tx, TxKind, TxView,
};
use crate::ledger::{lemma_step_keeps_well_formed, LedgerView, Step};
use crate::money::Money;

verus! {

broadcast use vstd::std_specs::hash::group_hash_axioms;

/// An account table as the contracts see it.
pub open spec fn accounts_view(accounts: Map<u16, Account>) -> Map<u16, AccountView> {
    accounts.map_values(|a: Account| a@)
}

/// A transaction history as the contracts see it.
pub open spec fn history_view(history: Map<u32, Tx>) -> Map<u32, TxView> {
    history.map_values(|t: Tx| t@)
}

/// An optional event as the contracts see it.
pub open spec fn event_view(event: Option<ProcessEvent>) -> Option<ProcessEventView> {
    match event {
        Some(e) => Some(e@),
        None => None,
    }
}

/// Whether `outcome` is what applying a row gave, when `step` is what the row
/// leads to from `before`: nothing at all where the new balances cannot be
/// held, else the new state and the row's event.
pub open spec fn carried_out(
    outcome: Option<Option<ProcessEvent>>,
    before: LedgerView,
    after: LedgerView,
    step: Step,
) -> bool {
    match outcome {
        None => !step.state.representable() && after == before,
        Some(event) => {
            &&& step.state.representable()
            &&& after == step.state
            &&& event_view(event) == step.event
        },
    }
}

/// A ledger: the accounts of all clients and the history of all deposits and
/// withdrawals that were applied.
pub struct Engine {
    accounts: HashMap<u16, Account>,
    tx_history: HashMap<u32, Tx>,
}

impl View for Engine {
    type V = LedgerView;

    closed spec fn view(&self) -> LedgerView {
        LedgerView {
            accounts: accounts_view(self.accounts@),
            history: history_view(self.tx_history@),
        }
    }
}

impl Engine {
    /// A ledger over the account table `accounts`, with no transaction on
    /// record yet.
    pub fn new(accounts: HashMap<u16, Account>) -> (r: Engine)
        ensures
            r@ == (LedgerView { accounts: accounts_view(accounts@), history: Map::empty() }),
            r@.well_formed(),
    {
        let r = Engine { accounts, tx_history: HashMap::new() };
        assert(history_view(r.tx_history@) =~= Map::empty());
        r
    }

    /// The account table as it stands: every client that a row has reached,
    /// with its balances.
    pub fn accounts(&self) -> (r: &HashMap<u16, Account>)
        ensures
            accounts_view(r@) == self@.accounts,
    {
        &self.accounts
    }

    /// Gives up the ledger for its account table.
    pub fn into_accounts(self) -> (r: HashMap<u16, Account>)
        ensures
            accounts_view(r@) == self@.accounts,
    {
        self.accounts
    }

    /// The account of `client`, if a row has reached that client.
    pub fn account(&self, client: u16) -> (r: Option<Account>)
        ensures
            r.is_some() == self@.accounts.contains_key(client),
            r matches Some(a) ==> a@ == self@.accounts[client],
    {
        match self.accounts.get(&client) {
            Some(account) => Some(*account),
            None => None,
        }
    }

    /// The record of the transaction `tx_id`, if a deposit or a withdrawal has
    /// filed one.
    pub fn transaction(&self, tx_id: u32) -> (r: Option<Tx>)
        ensures
            r.is_some() == self@.history.contains_key(tx_id),
            r matches Some(t) ==> t@ == self@.history[tx_id],
    {
        match self.tx_history.get(&tx_id) {
            Some(record) => Some(*record),
            None => None,
        }
    }

    /// The balances that an `Engine` holds always fit its accounts.
    pub proof fn lemma_representable(&self)
        ensures
            self@.representable(),
    {
    }

    /// The account of `client`, or a fresh one if the client is new.
    fn account_or_new(&self, client: u16) -> (r: Account)
        ensures
            r@ == self@.account(client),
    {
        match self.accounts.get(&client) {
            Some(account) => *account,
            None => Account::new(),
        }
    }

    fn deposit(&mut self, client: u16, tx: u32, amount: Money) -> (r: Option<Option<ProcessEvent>>)
        ensures
            carried_out(r, old(self)@, final(self)@, old(self)@.deposit(client, tx, amount@)),
    {
        proof {
            self.lemma_representable();
        }
        if amount.units < 0 {
            return Some(Some(ProcessEvent::ErrAmountNegative(tx)));
        }
        if self.tx_history.contains_key(&tx) {
            return Some(Some(ProcessEvent::ErrTxIdExists(tx)));
        }
        let mut account = self.account_or_new(client);
        if account.available.units.checked_add(amount.units).is_none() {
            proof {
                let next = old(self)@.deposit(client, tx, amount@).state;
                assert(next.accounts.contains_key(client));
                assert(!next.accounts[client].representable());
            }
            return None;
        }
        account.deposit(&amount);
        self.accounts.insert(client, account);
        self.tx_history.insert(tx, Tx::new(tx, client, amount, false));
        proof {
            let next = old(self)@.deposit(client, tx, amount@).state;
            assert(self@.accounts =~= next.accounts);
            assert(self@.history =~= next.history);
        }
        Some(None)
    }
    fn withdrawal(&mut self, client: u16, tx: u32, amount: Money) -> (r: Option<
        Option<ProcessEvent>,
    >)
        ensures
            carried_out(r, old(self)@, final(self)@, old(self)@.withdrawal(client, tx, amount@)),
            r.is_some(),
    {
        proof {
            self.lemma_representable();
        }
        if amount.units < 0 {
            return Some(Some(ProcessEvent::ErrAmountNegative(tx)));
        }
        if self.tx_history.contains_key(&tx) {
            return Some(Some(ProcessEvent::ErrTxIdExists(tx)));
        }
        let mut account = self.account_or_new(client);
        if amount.units > account.available.units {
            return Some(Some(ProcessEvent::ErrInsufficientfunds(client, tx)));
        }
        account.withdraw(&amount);
        self.accounts.insert(client, account);
        self.tx_history.insert(tx, Tx::new(tx, client, amount, false));
        proof {
            let next = old(self)@.withdrawal(client, tx, amount@).state;
            assert(self@.accounts =~= next.accounts);
            assert(self@.history =~= next.history);
        }
        Some(None)
    }

    fn dispute(&mut self, client: u16, tx: u32) -> (r: Option<Option<ProcessEvent>>)
        ensures
            carried_out(r, old(self)@, final(self)@, old(self)@.dispute(client, tx)),
    {
        proof {
            self.lemma_representable();
        }
        let record = match self.tx_history.get(&tx) {
            Some(record) => *record,
            None => {
                return Some(Some(ProcessEvent::ErrTxNotFound(tx)));
            },
        };
        if record.client != client {
            return Some(Some(ProcessEvent::ErrTxNotFound(tx)));
        }
        let mut account = self.account_or_new(client);
        if account.available.units.checked_sub(record.amount.units).is_none()
            || account.held.units.checked_add(record.amount.units).is_none() {
            proof {
                let next = old(self)@.dispute(client, tx).state;
                assert(next.accounts.contains_key(client));
                assert(!next.accounts[client].representable());
            }
            return None;
        }
        account.withhold(&record.amount);
        self.accounts.insert(client, account);
        self.tx_history.insert(tx, Tx::new(record.id, record.client, record.amount, true));
        proof {
            let next = old(self)@.dispute(client, tx).state;
            assert(self@.accounts =~= next.accounts);
            assert(self@.history =~= next.history);
        }
        Some(None)
    }

    fn resolve(&mut self, client: u16, tx: u32) -> (r: Option<Option<ProcessEvent>>)
        ensures
            carried_out(r, old(self)@, final(self)@, old(self)@.resolve(client, tx)),
    {
        proof {
            self.lemma_representable();
        }
        let record = match self.tx_history.get(&tx) {
            Some(record) => *record,
            None => {
                return Some(Some(ProcessEvent::ErrTxNotFound(tx)));
            },
        };
        if record.client != client {
            return Some(Some(ProcessEvent::ErrTxNotFound(tx)));
        }
        if !record.disputed {
            return Some(Some(ProcessEvent::ErrTxNotDisputed(tx)));
        }
        let mut account = self.account_or_new(client);
        if account.available.units.checked_add(record.amount.units).is_none()
            || account.held.units.checked_sub(record.amount.units).is_none() {
            proof {
                let next = old(self)@.resolve(client, tx).state;
                assert(next.accounts.contains_key(client));
                assert(!next.accounts[client].representable());
            }
            return None;
        }
        account.release_held(&record.amount);
        self.accounts.insert(client, account);
        self.tx_history.insert(tx, Tx::new(record.id, record.client, record.amount, false));
        proof {
            let next = old(self)@.resolve(client, tx).state;
            assert(self@.accounts =~= next.accounts);
            assert(self@.history =~= next.history);
        }
        Some(None)
    }

    fn chargeback(&mut self, client: u16, tx: u32) -> (r: Option<Option<ProcessEvent>>)
        ensures
            carried_out(r, old(self)@, final(self)@, old(self)@.chargeback(client, tx)),
    {
        proof {
            self.lemma_representable();
        }
        let record = match self.tx_history.get(&tx) {
            Some(record) => *record,
            None => {
                return Some(Some(ProcessEvent::ErrTxNotFound(tx)));
            },
        };
        if record.client != client {
            return Some(Some(ProcessEvent::ErrUnauthorisedTx(client, tx)));
        }
        if !record.disputed {
            return Some(Some(ProcessEvent::ErrTxNotDisputed(tx)));
        }
        let mut account = self.account_or_new(client);
        if account.held.units.checked_sub(record.amount.units).is_none() {
            proof {
                let next = old(self)@.chargeback(client, tx).state;
                assert(next.accounts.contains_key(client));
                assert(!next.accounts[client].representable());
            }
            return None;
        }
        account.charge(&record.amount);
        account.lock();
        self.accounts.insert(client, account);
        self.tx_history.insert(tx, Tx::new(record.id, record.client, record.amount, false));
        proof {
            let next = old(self)@.chargeback(client, tx).state;
            assert(self@.accounts =~= next.accounts);
            assert(self@.history =~= next.history);
        }
        Some(None)
    }

    /// Applies `row`, the `index`-th of its stream, if it can be applied.
    ///
    /// `None` says that it cannot: a deposit or withdrawal without an amount,
    /// or a row whose effect no balance can hold. The ledger is then as it
    /// was. Otherwise the ledger has taken the step that the row asks for, and
    /// the result holds the event of a rejected row, or nothing for a row that
    /// was accepted.
    pub fn checked_apply(&mut self, index: usize, row: &Row) -> (r: Option<Option<ProcessEvent>>)
        ensures
            r.is_some() <==> old(self)@.applicable(row@),
            r.is_none() ==> final(self)@ == old(self)@,
            r matches Some(event) ==> {
                &&& final(self)@ == old(self)@.step(index, row@).state
                &&& event_view(event) == old(self)@.step(index, row@).event
            },
            old(self)@.well_formed() ==> final(self)@.well_formed(),
    {
        proof {
            self.lemma_representable();
            if self@.well_formed() {
                lemma_step_keeps_well_formed(self@, index, row@);
            }
        }
        match classify(&row.tx_type) {
            TxKind::Deposit => match row.amount {
                Some(amount) => self.deposit(row.client, row.tx, amount),
                None => None,
            },
            TxKind::Withdrawal => match row.amount {
                Some(amount) => self.withdrawal(row.client, row.tx, amount),
                None => None,
            },
            TxKind::Dispute => self.dispute(row.client, row.tx),
            TxKind::Resolve => self.resolve(row.client, row.tx),
            TxKind::Chargeback => self.chargeback(row.client, row.tx),
            TxKind::Unrecognised => Some(
                Some(ProcessEvent::ErrUnrecognisedTx(index, row.tx_type.clone())),
            ),
        }
    }

    /// Applies `row`, the `index`-th of its stream: the ledger takes the step
    /// that the row asks for. The result is the event of a rejected row, and
    /// nothing for a row that was accepted.
    pub fn apply(&mut self, index: usize, row: &Row) -> (event: Option<ProcessEvent>)
        requires
            old(self)@.applicable(row@),
        ensures
            final(self)@ == old(self)@.step(index, row@).state,
            event_view(event) == old(self)@.step(index, row@).event,
            old(self)@.well_formed() ==> final(self)@.well_formed(),
    {
        match self.checked_apply(index, row) {
            Some(event) => event,
            None => None,
        }
    }
}

} // verus!
