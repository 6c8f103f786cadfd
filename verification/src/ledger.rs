//! The ledger as a state machine over mathematical values: what one row does
//! to the account table and to the transaction history, and what a whole
//! stream of rows does.

use vstd::prelude::*;
use crate::common::{AccountView, ProcessEventView, RowView, TxKind, TxView};

verus! {

/// The state of a ledger: every client's account and every transaction that a
/// deposit or a withdrawal has created.
pub struct LedgerView {
    pub accounts: Map<u16, AccountView>,
    pub history: Map<u32, TxView>,
}

/// What one row leads to: the state after it and, where the row was rejected,
/// the event that says why.
pub struct Step {
    pub state: LedgerView,
    pub event: Option<ProcessEventView>,
}

/// What a stream of rows leads to: the state after the last row and the events
/// of the rejected rows, in the order of the rows.
pub struct Run {
    pub state: LedgerView,
    pub events: Seq<ProcessEventView>,
}

impl LedgerView {
    /// The account of `client`; one with no funds if the client is new.
    pub open spec fn account(self, client: u16) -> AccountView {
        if self.accounts.contains_key(client) {
            self.accounts[client]
        } else {
            AccountView::new()
        }
    }

    /// Whether `tx` is on record and belongs to `client`.
    pub open spec fn owns(self, client: u16, tx: u32) -> bool {
        self.history.contains_key(tx) && self.history[tx].client == client
    }

    /// The row is skipped: nothing changes and `event` is reported.
    pub open spec fn rejected(self, event: ProcessEventView) -> Step {
        Step { state: self, event: Some(event) }
    }

    /// The state in which `client` has `account` and `tx` is a new, undisputed
    /// record of `amount`.
    pub open spec fn recorded(self, client: u16, tx: u32, amount: int, account: AccountView) -> Step {
        Step {
            state: LedgerView {
                accounts: self.accounts.insert(client, account),
                history: self.history.insert(
                    tx,
                    TxView { id: tx, client, amount, disputed: false },
                ),
            },
            event: None,
        }
    }

    /// The state in which `client` has `account` and the record `tx` carries
    /// the flag `disputed`.
    pub open spec fn flagged(self, client: u16, tx: u32, disputed: bool, account: AccountView) -> Step {
        Step {
            state: LedgerView {
                accounts: self.accounts.insert(client, account),
                history: self.history.insert(tx, TxView { disputed, ..self.history[tx] }),
            },
            event: None,
        }
    }

    pub open spec fn deposit(self, client: u16, tx: u32, amount: int) -> Step {
        if amount < 0 {
            self.rejected(ProcessEventView::ErrAmountNegative(tx))
        } else if self.history.contains_key(tx) {
            self.rejected(ProcessEventView::ErrTxIdExists(tx))
        } else {
            self.recorded(client, tx, amount, self.account(client).deposit(amount))
        }
    }

    pub open spec fn withdrawal(self, client: u16, tx: u32, amount: int) -> Step {
        if amount < 0 {
            self.rejected(ProcessEventView::ErrAmountNegative(tx))
        } else if self.history.contains_key(tx) {
            self.rejected(ProcessEventView::ErrTxIdExists(tx))
        } else if amount > self.account(client).available {
            self.rejected(ProcessEventView::ErrInsufficientfunds(client, tx))
        } else {
            self.recorded(client, tx, amount, self.account(client).withdraw(amount))
        }
    }

    pub open spec fn dispute(self, client: u16, tx: u32) -> Step {
        if !self.owns(client, tx) {
            self.rejected(ProcessEventView::ErrTxNotFound(tx))
        } else {
            self.flagged(client, tx, true, self.account(client).withhold(self.history[tx].amount))
        }
    }

    pub open spec fn resolve(self, client: u16, tx: u32) -> Step {
        if !self.owns(client, tx) {
            self.rejected(ProcessEventView::ErrTxNotFound(tx))
        } else if !self.history[tx].disputed {
            self.rejected(ProcessEventView::ErrTxNotDisputed(tx))
        } else {
            self.flagged(
                client,
                tx,
                false,
                self.account(client).release_held(self.history[tx].amount),
            )
        }
    }

    pub open spec fn chargeback(self, client: u16, tx: u32) -> Step {
        if !self.history.contains_key(tx) {
            self.rejected(ProcessEventView::ErrTxNotFound(tx))
        } else if self.history[tx].client != client {
            self.rejected(ProcessEventView::ErrUnauthorisedTx(client, tx))
        } else if !self.history[tx].disputed {
            self.rejected(ProcessEventView::ErrTxNotDisputed(tx))
        } else {
            self.flagged(
                client,
                tx,
                false,
                self.account(client).charge(self.history[tx].amount).lock(),
            )
        }
    }

    /// What the row `row`, the `index`-th of its stream, does to this state.
    /// A deposit or withdrawal without an amount is no row of a stream; it is
    /// taken as one of amount zero so that the function is total.
    pub open spec fn step(self, index: usize, row: RowView) -> Step {
        let amount = match row.amount {
            Some(a) => a,
            None => 0,
        };
        match row.kind() {
            TxKind::Deposit => self.deposit(row.client, row.tx, amount),
            TxKind::Withdrawal => self.withdrawal(row.client, row.tx, amount),
            TxKind::Dispute => self.dispute(row.client, row.tx),
            TxKind::Resolve => self.resolve(row.client, row.tx),
            TxKind::Chargeback => self.chargeback(row.client, row.tx),
            TxKind::Unrecognised => self.rejected(
                ProcessEventView::ErrUnrecognisedTx(index, row.tx_type),
            ),
        }
    }

    /// What the rows do when they are applied in order, the first as row 0.
    pub open spec fn run(self, rows: Seq<RowView>) -> Run
        decreases rows.len(),
    {
        if rows.len() == 0 {
            Run { state: self, events: Seq::empty() }
        } else {
            let before = self.run(rows.drop_last());
            let last = before.state.step((rows.len() - 1) as usize, rows.last());
            Run {
                state: last.state,
                events: match last.event {
                    Some(e) => before.events.push(e),
                    None => before.events,
                },
            }
        }
    }

    /// Whether every balance can be held in an `Account`.
    pub open spec fn representable(self) -> bool {
        forall|client: u16| #[trigger]
            self.accounts.contains_key(client) ==> self.accounts[client].representable()
    }

    /// Whether `row` can be applied: it is well formed, and the balances that
    /// it leads to can be held.
    pub open spec fn applicable(self, row: RowView) -> bool {
        row.well_formed() && self.step(0, row).state.representable()
    }

    /// Whether every row of `rows` can be applied when its turn comes.
    pub open spec fn all_applicable(self, rows: Seq<RowView>) -> bool {
        forall|i: int|
            0 <= i < rows.len() ==> #[trigger] self.run(rows.take(i)).state.applicable(rows[i])
    }
}

impl LedgerView {
    /// What holds of every history that rows have built: a record is filed
    /// under its own id, its amount is not negative, and its owner has an
    /// account.
    pub open spec fn well_formed(self) -> bool {
        forall|tx: u32| #[trigger]
            self.history.contains_key(tx) ==> {
                &&& self.history[tx].id == tx
                &&& self.history[tx].amount >= 0
                &&& self.accounts.contains_key(self.history[tx].client)
            }
    }

    /// Whether going from `self` to `next` kept every record's identity: each
    /// record is still there, under the same id, of the same client and the
    /// same amount. Only its dispute flag may have changed.
    pub open spec fn identities_kept(self, next: LedgerView) -> bool {
        forall|tx: u32| #[trigger]
            self.history.contains_key(tx) ==> {
                &&& next.history.contains_key(tx)
                &&& next.history[tx].id == self.history[tx].id
                &&& next.history[tx].client == self.history[tx].client
                &&& next.history[tx].amount == self.history[tx].amount
            }
    }
}

/// A rejected row changes nothing: whenever a step reports an event, the state
/// after it is the state before it.
pub proof fn lemma_rejection_changes_nothing(s: LedgerView, index: usize, row: RowView)
    ensures
        s.step(index, row).event.is_some() ==> s.step(index, row).state == s,
{
}

/// An accepted deposit adds its amount to the client's available balance,
/// touches nothing else of the account, and files a new, undisputed record of
/// that amount under an id that was free.
pub proof fn lemma_accepted_deposit(s: LedgerView, client: u16, tx: u32, amount: int)
    requires
        s.deposit(client, tx, amount).event.is_none(),
    ensures
        ({
            let next = s.deposit(client, tx, amount).state;
            &&& next.account(client).available == s.account(client).available + amount
            &&& next.account(client).held == s.account(client).held
            &&& next.account(client).locked == s.account(client).locked
            &&& !s.history.contains_key(tx)
            &&& next.history.contains_key(tx)
            &&& next.history[tx] == (TxView { id: tx, client, amount, disputed: false })
        }),
{
}

/// An accepted withdrawal takes its amount from the client's available
/// balance, which covered it, touches nothing else of the account, and files a
/// new, undisputed record of that amount under an id that was free.
pub proof fn lemma_accepted_withdrawal(s: LedgerView, client: u16, tx: u32, amount: int)
    requires
        s.withdrawal(client, tx, amount).event.is_none(),
    ensures
        ({
            let next = s.withdrawal(client, tx, amount).state;
            &&& 0 <= amount <= s.account(client).available
            &&& next.account(client).available == s.account(client).available - amount
            &&& next.account(client).held == s.account(client).held
            &&& next.account(client).locked == s.account(client).locked
            &&& !s.history.contains_key(tx)
            &&& next.history.contains_key(tx)
            &&& next.history[tx] == (TxView { id: tx, client, amount, disputed: false })
        }),
{
}

/// A deposit or withdrawal under an id that is on record already changes
/// nothing. The event is `ErrTxIdExists`, unless the amount is negative: the
/// sign is looked at first, and the event is then `ErrAmountNegative`.
pub proof fn lemma_id_is_used_once(s: LedgerView, index: usize, row: RowView)
    requires
        row.kind() == TxKind::Deposit || row.kind() == TxKind::Withdrawal,
        row.amount.is_some(),
        s.history.contains_key(row.tx),
    ensures
        s.step(index, row).state == s,
        row.amount.unwrap() >= 0 ==> s.step(index, row).event == Some(
            ProcessEventView::ErrTxIdExists(row.tx),
        ),
        row.amount.unwrap() < 0 ==> s.step(index, row).event == Some(
            ProcessEventView::ErrAmountNegative(row.tx),
        ),
{
}

/// No row takes a record away or changes whose it is or what it is worth.
pub proof fn lemma_step_keeps_identities(s: LedgerView, index: usize, row: RowView)
    ensures
        s.identities_kept(s.step(index, row).state),
{
}

/// No stream of rows takes a record away or changes whose it is or what it is
/// worth: under one id there is only ever the record that was filed first.
pub proof fn lemma_run_keeps_identities(s: LedgerView, rows: Seq<RowView>)
    ensures
        s.identities_kept(s.run(rows).state),
    decreases rows.len(),
{
    if rows.len() > 0 {
        let before = s.run(rows.drop_last()).state;
        lemma_run_keeps_identities(s, rows.drop_last());
        lemma_step_keeps_identities(before, (rows.len() - 1) as usize, rows.last());
    }
}

/// An accepted dispute leaves the record under dispute, whatever it was
/// before, and moves the record's amount from available to held.
pub proof fn lemma_accepted_dispute(s: LedgerView, client: u16, tx: u32)
    requires
        s.dispute(client, tx).event.is_none(),
    ensures
        ({
            let next = s.dispute(client, tx).state;
            let amount = s.history[tx].amount;
            &&& s.owns(client, tx)
            &&& next.history[tx].disputed
            &&& next.account(client) == s.account(client).withhold(amount)
            &&& next.account(client).total() == s.account(client).total()
        }),
{
}

/// An accepted resolve finds the record under dispute and leaves it
/// undisputed, and moves the record's amount from held back to available.
pub proof fn lemma_accepted_resolve(s: LedgerView, client: u16, tx: u32)
    requires
        s.resolve(client, tx).event.is_none(),
    ensures
        ({
            let next = s.resolve(client, tx).state;
            let amount = s.history[tx].amount;
            &&& s.owns(client, tx)
            &&& s.history[tx].disputed
            &&& !next.history[tx].disputed
            &&& next.account(client) == s.account(client).release_held(amount)
            &&& next.account(client).total() == s.account(client).total()
        }),
{
}

/// An accepted chargeback finds the record under dispute and leaves it
/// undisputed, takes the record's amount from held and locks the account.
pub proof fn lemma_accepted_chargeback(s: LedgerView, client: u16, tx: u32)
    requires
        s.chargeback(client, tx).event.is_none(),
    ensures
        ({
            let next = s.chargeback(client, tx).state;
            let amount = s.history[tx].amount;
            &&& s.owns(client, tx)
            &&& s.history[tx].disputed
            &&& !next.history[tx].disputed
            &&& next.account(client) == s.account(client).charge(amount).lock()
            &&& next.account(client).locked
        }),
{
}

/// A resolve or a chargeback of a record that is not under dispute changes
/// nothing, and neither does one of a record that does not exist.
pub proof fn lemma_settling_needs_dispute(s: LedgerView, index: usize, row: RowView)
    requires
        row.kind() == TxKind::Resolve || row.kind() == TxKind::Chargeback,
        !(s.history.contains_key(row.tx) && s.history[row.tx].disputed),
    ensures
        s.step(index, row).state == s,
        s.step(index, row).event.is_some(),
        s.owns(row.client, row.tx) ==> s.step(index, row).event == Some(
            ProcessEventView::ErrTxNotDisputed(row.tx),
        ),
{
}

/// A deposit or withdrawal of a negative amount changes nothing and files no
/// record; the event is `ErrAmountNegative`.
pub proof fn lemma_negative_amount_rejected(s: LedgerView, index: usize, row: RowView)
    requires
        row.kind() == TxKind::Deposit || row.kind() == TxKind::Withdrawal,
        row.amount.is_some(),
        row.amount.unwrap() < 0,
    ensures
        s.step(index, row) == s.rejected(ProcessEventView::ErrAmountNegative(row.tx)),
{
}

/// Funds that are withheld and then released, for the same amount, are where
/// they were: the account is exactly what it was before.
pub proof fn lemma_withhold_release(account: AccountView, amount: int)
    ensures
        account.withhold(amount).release_held(amount) == account,
{
}

/// A chargeback of a record that belongs to another client changes nothing;
/// the event is `ErrUnauthorisedTx`, with the client that asked.
pub proof fn lemma_foreign_chargeback(s: LedgerView, index: usize, row: RowView)
    requires
        row.kind() == TxKind::Chargeback,
        s.history.contains_key(row.tx),
        s.history[row.tx].client != row.client,
    ensures
        s.step(index, row) == s.rejected(ProcessEventView::ErrUnauthorisedTx(row.client, row.tx)),
{
}

/// A row of a type that is not known changes nothing; the event carries the
/// row's index and the type as it was written.
pub proof fn lemma_unrecognised_type(s: LedgerView, index: usize, row: RowView)
    requires
        row.kind() == TxKind::Unrecognised,
    ensures
        s.step(index, row) == s.rejected(ProcessEventView::ErrUnrecognisedTx(index, row.tx_type)),
{
}

/// A well-formed state stays well formed under every row.
pub proof fn lemma_step_keeps_well_formed(s: LedgerView, index: usize, row: RowView)
    requires
        s.well_formed(),
    ensures
        s.step(index, row).state.well_formed(),
{
}

/// A well-formed state stays well formed under every stream of rows.
pub proof fn lemma_run_keeps_well_formed(s: LedgerView, rows: Seq<RowView>)
    requires
        s.well_formed(),
    ensures
        s.run(rows).state.well_formed(),
    decreases rows.len(),
{
    if rows.len() > 0 {
        lemma_run_keeps_well_formed(s, rows.drop_last());
        lemma_step_keeps_well_formed(
            s.run(rows.drop_last()).state,
            (rows.len() - 1) as usize,
            rows.last(),
        );
    }
}

impl LedgerView {
    /// What the row adds to the funds that `client` owns, available and held
    /// together: the amount of an accepted deposit, less the amount of an
    /// accepted withdrawal or of an accepted chargeback's record, and nothing
    /// for any other row or any other client.
    pub open spec fn net_effect(self, index: usize, row: RowView, client: u16) -> int {
        if self.step(index, row).event.is_some() || row.client != client {
            0
        } else {
            match row.kind() {
                TxKind::Deposit => match row.amount {
                    Some(a) => a,
                    None => 0,
                },
                TxKind::Withdrawal => match row.amount {
                    Some(a) => -a,
                    None => 0,
                },
                TxKind::Chargeback => -self.history[row.tx].amount,
                _ => 0,
            }
        }
    }

    /// What the rows, applied in order, add to the funds that `client` owns.
    pub open spec fn run_net_effect(self, rows: Seq<RowView>, client: u16) -> int
        decreases rows.len(),
    {
        if rows.len() == 0 {
            0
        } else {
            self.run_net_effect(rows.drop_last(), client) + self.run(
                rows.drop_last(),
            ).state.net_effect((rows.len() - 1) as usize, rows.last(), client)
        }
    }
}

/// A row changes what a client owns by its net effect and by nothing else:
/// disputes and resolves only move funds between available and held.
pub proof fn lemma_step_total(s: LedgerView, index: usize, row: RowView, client: u16)
    ensures
        s.step(index, row).state.account(client).total() == s.account(client).total()
            + s.net_effect(index, row, client),
{
}

/// What a client owns after a stream of rows is what the client owned before
/// and the net effects of the rows, added up.
pub proof fn lemma_run_total(s: LedgerView, rows: Seq<RowView>, client: u16)
    ensures
        s.run(rows).state.account(client).total() == s.account(client).total()
            + s.run_net_effect(rows, client),
    decreases rows.len(),
{
    if rows.len() > 0 {
        lemma_run_total(s, rows.drop_last(), client);
        lemma_step_total(
            s.run(rows.drop_last()).state,
            (rows.len() - 1) as usize,
            rows.last(),
            client,
        );
    }
}

/// No row unlocks an account, and no row takes an account away.
pub proof fn lemma_step_keeps_locks(s: LedgerView, index: usize, row: RowView, client: u16)
    ensures
        s.accounts.contains_key(client) ==> s.step(index, row).state.accounts.contains_key(client),
        s.account(client).locked ==> s.step(index, row).state.account(client).locked,
{
}

/// Only deposits and withdrawals file records: any other row leaves the
/// history with the ids that it had, and an accepted deposit or withdrawal
/// adds its own id and nothing else.
pub proof fn lemma_history_grows_by_payments(s: LedgerView, index: usize, row: RowView)
    ensures
        row.kind() != TxKind::Deposit && row.kind() != TxKind::Withdrawal ==> s.step(
            index,
            row,
        ).state.history.dom() == s.history.dom(),
        (row.kind() == TxKind::Deposit || row.kind() == TxKind::Withdrawal) && s.step(
            index,
            row,
        ).event.is_none() ==> s.step(index, row).state.history.dom() == s.history.dom().insert(
            row.tx,
        ),
{
    let next = s.step(index, row).state;
    if row.kind() != TxKind::Deposit && row.kind() != TxKind::Withdrawal {
        assert(next.history.dom() =~= s.history.dom());
    } else if s.step(index, row).event.is_none() {
        assert(next.history.dom() =~= s.history.dom().insert(row.tx));
    }
}

} // verus!
