//! The data that the ledger works on: accounts, transaction records, input
//! rows and the events that a rejected row gives rise to.

use vstd::prelude::*;
use vstd::string::StringExecFns;
use crate::money::Money;
use crate::text::{decimal_string, decimal_text};

verus! {

/// An account's balances as mathematical integers, in ten-thousandths.
pub struct AccountView {
    pub available: int,
    pub held: int,
    pub locked: bool,
}

impl AccountView {
    /// The account of a client that has not been seen before.
    pub open spec fn new() -> AccountView {
        AccountView { available: 0, held: 0, locked: false }
    }

    /// The account after `amount` has been paid in.
    pub open spec fn deposit(self, amount: int) -> AccountView {
        AccountView { available: self.available + amount, ..self }
    }

    /// The account after `amount` has been paid out.
    pub open spec fn withdraw(self, amount: int) -> AccountView {
        AccountView { available: self.available - amount, ..self }
    }

    /// The account after `amount` has been frozen: it leaves the available
    /// funds and joins the held ones.
    pub open spec fn withhold(self, amount: int) -> AccountView {
        AccountView { available: self.available - amount, held: self.held + amount, ..self }
    }

    /// The account after `amount` has been released: it leaves the held funds
    /// and joins the available ones.
    pub open spec fn release_held(self, amount: int) -> AccountView {
        AccountView { available: self.available + amount, held: self.held - amount, ..self }
    }

    /// The account after `amount` has been charged back from the held funds.
    pub open spec fn charge(self, amount: int) -> AccountView {
        AccountView { held: self.held - amount, ..self }
    }

    /// The account, locked.
    pub open spec fn lock(self) -> AccountView {
        AccountView { locked: true, ..self }
    }

    /// What the client owns: spendable and frozen funds together.
    pub open spec fn total(self) -> int {
        self.available + self.held
    }

    /// Whether both balances can be held in an `Account`.
    pub open spec fn representable(self) -> bool {
        &&& i128::MIN <= self.available <= i128::MAX
        &&& i128::MIN <= self.held <= i128::MAX
    }
}

/// The balances of one client.
#[derive(Clone, Copy, Debug, PartialEq, Eq, Structural)]
pub struct Account {
    pub available: Money,
    pub held: Money,
    pub locked: bool,
}

impl View for Account {
    type V = AccountView;

    open spec fn view(&self) -> AccountView {
        AccountView { available: self.available@, held: self.held@, locked: self.locked }
    }
}

impl Account {
    /// An account with no funds, not locked.
    pub fn new() -> (r: Account)
        ensures
            r@ == AccountView::new(),
    {
        Account { available: Money::zero(), held: Money::zero(), locked: false }
    }

    /// Adds `amount` to the available balance.
    pub fn deposit(&mut self, amount: &Money)
        requires
            old(self)@.deposit(amount@).representable(),
        ensures
            final(self)@ == old(self)@.deposit(amount@),
    {
        self.available = Money { units: self.available.units + amount.units };
    }

    /// Takes `amount` from the available balance.
    pub fn withdraw(&mut self, amount: &Money)
        requires
            old(self)@.withdraw(amount@).representable(),
        ensures
            final(self)@ == old(self)@.withdraw(amount@),
    {
        self.available = Money { units: self.available.units - amount.units };
    }

    /// Moves `amount` from the available balance to the held balance.
    pub fn withhold(&mut self, amount: &Money)
        requires
            old(self)@.withhold(amount@).representable(),
        ensures
            final(self)@ == old(self)@.withhold(amount@),
    {
        self.available = Money { units: self.available.units - amount.units };
        self.held = Money { units: self.held.units + amount.units };
    }

    /// Moves `amount` from the held balance back to the available balance.
    pub fn release_held(&mut self, amount: &Money)
        requires
            old(self)@.release_held(amount@).representable(),
        ensures
            final(self)@ == old(self)@.release_held(amount@),
    {
        self.available = Money { units: self.available.units + amount.units };
        self.held = Money { units: self.held.units - amount.units };
    }

    /// Takes `amount` from the held balance for good.
    pub fn charge(&mut self, amount: &Money)
        requires
            old(self)@.charge(amount@).representable(),
        ensures
            final(self)@ == old(self)@.charge(amount@),
    {
        self.held = Money { units: self.held.units - amount.units };
    }

    /// What the client owns: available and held funds together. `None` where
    /// the sum is more than a monetary value can hold.
    pub fn total(&self) -> (r: Option<Money>)
        ensures
            match r {
                Some(t) => t@ == self@.total(),
                None => !(i128::MIN <= self@.total() <= i128::MAX),
            },
    {
        match self.available.units.checked_add(self.held.units) {
            Some(units) => Some(Money { units }),
            None => None,
        }
    }

    /// Freezes the account.
    pub fn lock(&mut self)
        ensures
            final(self)@ == old(self)@.lock(),
    {
        self.locked = true;
    }
}

/// A transaction record as the contracts see it.
pub struct TxView {
    pub id: u32,
    pub client: u16,
    pub amount: int,
    pub disputed: bool,
}

/// A deposit or withdrawal that has been applied: who made it, for how much,
/// and whether it is under dispute.
#[derive(Clone, Copy, Debug, PartialEq, Eq, Structural)]
pub struct Tx {
    pub id: u32,
    pub client: u16,
    pub amount: Money,
    pub disputed: bool,
}

impl View for Tx {
    type V = TxView;

    open spec fn view(&self) -> TxView {
        TxView { id: self.id, client: self.client, amount: self.amount@, disputed: self.disputed }
    }
}

impl Tx {
    /// The record `tx_id` of client `cli_id` over the amount `am`, under
    /// dispute or not as `disp` says.
    pub fn new(tx_id: u32, cli_id: u16, am: Money, disp: bool) -> (r: Tx)
        ensures
            r@ == (TxView { id: tx_id, client: cli_id, amount: am@, disputed: disp }),
    {
        Tx { id: tx_id, client: cli_id, amount: am, disputed: disp }
    }
}

/// What a row asks for, as told by its type field.
#[derive(Clone, Copy, Debug, PartialEq, Eq, Structural)]
pub enum TxKind {
    Deposit,
    Withdrawal,
    Dispute,
    Resolve,
    Chargeback,
    Unrecognised,
}

/// The kind that a type field names. The field is compared as it stands:
/// case and surrounding blanks count.
pub open spec fn kind_of(tx_type: Seq<char>) -> TxKind {
    if tx_type == "deposit"@ {
        TxKind::Deposit
    } else if tx_type == "withdrawal"@ {
        TxKind::Withdrawal
    } else if tx_type == "dispute"@ {
        TxKind::Dispute
    } else if tx_type == "resolve"@ {
        TxKind::Resolve
    } else if tx_type == "chargeback"@ {
        TxKind::Chargeback
    } else {
        TxKind::Unrecognised
    }
}

/// Whether `text` reads exactly as `word`.
fn reads_as(text: &String, word: &str) -> (r: bool)
    ensures
        r == (text@ == word@),
{
    let owned = String::from_str(word);
    *text == owned
}

/// The kind that a type field names.
pub fn classify(tx_type: &String) -> (r: TxKind)
    ensures
        r == kind_of(tx_type@),
{
    if reads_as(tx_type, "deposit") {
        TxKind::Deposit
    } else if reads_as(tx_type, "withdrawal") {
        TxKind::Withdrawal
    } else if reads_as(tx_type, "dispute") {
        TxKind::Dispute
    } else if reads_as(tx_type, "resolve") {
        TxKind::Resolve
    } else if reads_as(tx_type, "chargeback") {
        TxKind::Chargeback
    } else {
        TxKind::Unrecognised
    }
}

/// An input row as the contracts see it.
pub struct RowView {
    pub tx_type: Seq<char>,
    pub client: u16,
    pub tx: u32,
    pub amount: Option<int>,
}

impl RowView {
    /// What the row asks for.
    pub open spec fn kind(self) -> TxKind {
        kind_of(self.tx_type)
    }

    /// A deposit or a withdrawal names its amount; the other rows need none.
    pub open spec fn well_formed(self) -> bool {
        (self.kind() == TxKind::Deposit || self.kind() == TxKind::Withdrawal)
            ==> self.amount.is_some()
    }
}

/// One input row: the type as it was written, the client it addresses, the
/// transaction it creates or refers to, and the amount where one was given.
#[derive(Debug, PartialEq, Eq)]
pub struct Row {
    pub tx_type: String,
    pub client: u16,
    pub tx: u32,
    pub amount: Option<Money>,
}

impl View for Row {
    type V = RowView;

    open spec fn view(&self) -> RowView {
        RowView {
            tx_type: self.tx_type@,
            client: self.client,
            tx: self.tx,
            amount: match self.amount {
                Some(m) => Some(m@),
                None => None,
            },
        }
    }
}

impl Clone for Row {
    fn clone(&self) -> (r: Row)
        ensures
            r@ == self@,
    {
        Row {
            tx_type: self.tx_type.clone(),
            client: self.client,
            tx: self.tx,
            amount: self.amount,
        }
    }
}

impl Row {
    /// A row of the given type, client, transaction and amount.
    pub fn new(tx_type: &str, client: u16, tx: u32, amount: Option<Money>) -> (r: Row)
        ensures
            r@.tx_type == tx_type@,
            r.client == client,
            r.tx == tx,
            r.amount == amount,
    {
        Row { tx_type: String::from_str(tx_type), client, tx, amount }
    }
}

/// A stream of rows as the contracts see it.
pub open spec fn rows_view(rows: Seq<Row>) -> Seq<RowView> {
    rows.map_values(|r: Row| r@)
}

/// An event as the contracts see it: every text by its characters.
pub enum ProcessEventView {
    StartOfLogger,
    ProcessComplete,
    ExternalErr(Seq<char>),
    ErrTxNotFound(u32),
    ErrUnrecognisedTx(usize, Seq<char>),
    ErrInsufficientfunds(u16, u32),
    ErrTxNotDisputed(u32),
    ErrUnauthorisedTx(u16, u32),
    ErrAmountNegative(u32),
    ErrTxIdExists(u32),
}

/// What an observer is told: the two marks of a pass's life, a failure of the
/// surroundings, and one event for each way in which a row can be rejected.
#[derive(Debug, PartialEq, Eq)]
pub enum ProcessEvent {
    StartOfLogger,
    ProcessComplete,
    ExternalErr(String),
    ErrTxNotFound(u32),
    ErrUnrecognisedTx(usize, String),
    ErrInsufficientfunds(u16, u32),
    ErrTxNotDisputed(u32),
    ErrUnauthorisedTx(u16, u32),
    ErrAmountNegative(u32),
    ErrTxIdExists(u32),
}

impl View for ProcessEvent {
    type V = ProcessEventView;

    open spec fn view(&self) -> ProcessEventView {
        match self {
            ProcessEvent::StartOfLogger => ProcessEventView::StartOfLogger,
            ProcessEvent::ProcessComplete => ProcessEventView::ProcessComplete,
            ProcessEvent::ExternalErr(msg) => ProcessEventView::ExternalErr(msg@),
            ProcessEvent::ErrTxNotFound(tx) => ProcessEventView::ErrTxNotFound(*tx),
            ProcessEvent::ErrUnrecognisedTx(line, tx_type) => ProcessEventView::ErrUnrecognisedTx(
                *line,
                tx_type@,
            ),
            ProcessEvent::ErrInsufficientfunds(client, tx) => ProcessEventView::ErrInsufficientfunds(
                *client,
                *tx,
            ),
            ProcessEvent::ErrTxNotDisputed(tx) => ProcessEventView::ErrTxNotDisputed(*tx),
            ProcessEvent::ErrUnauthorisedTx(client, tx) => ProcessEventView::ErrUnauthorisedTx(
                *client,
                *tx,
            ),
            ProcessEvent::ErrAmountNegative(tx) => ProcessEventView::ErrAmountNegative(*tx),
            ProcessEvent::ErrTxIdExists(tx) => ProcessEventView::ErrTxIdExists(*tx),
        }
    }
}

impl Clone for ProcessEvent {
    fn clone(&self) -> (r: ProcessEvent)
        ensures
            r@ == self@,
    {
        match self {
            ProcessEvent::StartOfLogger => ProcessEvent::StartOfLogger,
            ProcessEvent::ProcessComplete => ProcessEvent::ProcessComplete,
            ProcessEvent::ExternalErr(msg) => ProcessEvent::ExternalErr(msg.clone()),
            ProcessEvent::ErrTxNotFound(tx) => ProcessEvent::ErrTxNotFound(*tx),
            ProcessEvent::ErrUnrecognisedTx(line, tx_type) => ProcessEvent::ErrUnrecognisedTx(
                *line,
                tx_type.clone(),
            ),
            ProcessEvent::ErrInsufficientfunds(client, tx) => ProcessEvent::ErrInsufficientfunds(
                *client,
                *tx,
            ),
            ProcessEvent::ErrTxNotDisputed(tx) => ProcessEvent::ErrTxNotDisputed(*tx),
            ProcessEvent::ErrUnauthorisedTx(client, tx) => ProcessEvent::ErrUnauthorisedTx(
                *client,
                *tx,
            ),
            ProcessEvent::ErrAmountNegative(tx) => ProcessEvent::ErrAmountNegative(*tx),
            ProcessEvent::ErrTxIdExists(tx) => ProcessEvent::ErrTxIdExists(*tx),
        }
    }
}

impl ProcessEventView {
    /// The sentence that tells a reader of the log what happened.
    pub open spec fn message(self) -> Seq<char> {
        match self {
            ProcessEventView::StartOfLogger => "Event logger created."@,
            ProcessEventView::ProcessComplete => "Processed completed."@,
            ProcessEventView::ExternalErr(msg) => msg,
            ProcessEventView::ErrTxNotFound(tx) => "ProcessError: Transaction with id '"@
                + decimal_text(tx as nat) + "' is not found"@,
            ProcessEventView::ErrUnrecognisedTx(line, tx_type) => "ProcessError: In csv, line "@
                + decimal_text(line as nat) + ": \n                    '"@ + tx_type
                + "' is not a recognised transaction type."@,
            ProcessEventView::ErrInsufficientfunds(client, tx) =>
                "ProcessError: Client with id '"@ + decimal_text(client as nat)
                + "' has \ninsufficient funds for transaction with id "@ + decimal_text(tx as nat),
            ProcessEventView::ErrTxNotDisputed(tx) =>
                "ProcessError: The referenced transaction with \nid '"@ + decimal_text(tx as nat)
                + "' isn't under dispute.'"@,
            ProcessEventView::ErrUnauthorisedTx(client, tx) => "ProcessError: Client with id '"@
                + decimal_text(client as nat) + "' cannot reference transaction with id '"@
                + decimal_text(tx as nat) + "' because they do not own the transaction.'"@,
            ProcessEventView::ErrAmountNegative(tx) => "ProcessError: Transaction with id '"@
                + decimal_text(tx as nat) + "' has a negative amount"@,
            ProcessEventView::ErrTxIdExists(tx) => "ProcessError: Transaction with id '"@
                + decimal_text(tx as nat) + "' already exists"@,
        }
    }
}

/// `chrono::offset::Local::now`, written out by the `to_string` of what it
/// returns. The contract claims nothing of the text: it is the reading of a
/// clock.
#[verifier::external_body]
fn local_time() -> String {
    chrono::offset::Local::now().to_string()
}

impl ProcessEvent {
    /// The event's message and the local time at which it was asked for.
    pub fn info(&self) -> (r: (String, String))
        ensures
            r.0@ == self@.message(),
    {
        let message = match self {
            ProcessEvent::StartOfLogger => String::from_str("Event logger created."),
            ProcessEvent::ProcessComplete => String::from_str("Processed completed."),
            ProcessEvent::ExternalErr(msg) => msg.clone(),
            ProcessEvent::ErrTxNotFound(tx) => {
                let mut m = String::from_str("ProcessError: Transaction with id '");
                m.append(decimal_string(*tx as u128).as_str());
                m.append("' is not found");
                m
            },
            ProcessEvent::ErrUnrecognisedTx(line, tx_type) => {
                let mut m = String::from_str("ProcessError: In csv, line ");
                m.append(decimal_string(*line as u128).as_str());
                m.append(": \n                    '");
                m.append(tx_type.as_str());
                m.append("' is not a recognised transaction type.");
                m
            },
            ProcessEvent::ErrInsufficientfunds(client, tx) => {
                let mut m = String::from_str("ProcessError: Client with id '");
                m.append(decimal_string(*client as u128).as_str());
                m.append("' has \ninsufficient funds for transaction with id ");
                m.append(decimal_string(*tx as u128).as_str());
                m
            },
            ProcessEvent::ErrTxNotDisputed(tx) => {
                let mut m = String::from_str("ProcessError: The referenced transaction with \nid '");
                m.append(decimal_string(*tx as u128).as_str());
                m.append("' isn't under dispute.'");
                m
            },
            ProcessEvent::ErrUnauthorisedTx(client, tx) => {
                let mut m = String::from_str("ProcessError: Client with id '");
                m.append(decimal_string(*client as u128).as_str());
                m.append("' cannot reference transaction with id '");
                m.append(decimal_string(*tx as u128).as_str());
                m.append("' because they do not own the transaction.'");
                m
            },
            ProcessEvent::ErrAmountNegative(tx) => {
                let mut m = String::from_str("ProcessError: Transaction with id '");
                m.append(decimal_string(*tx as u128).as_str());
                m.append("' has a negative amount");
                m
            },
            ProcessEvent::ErrTxIdExists(tx) => {
                let mut m = String::from_str("ProcessError: Transaction with id '");
                m.append(decimal_string(*tx as u128).as_str());
                m.append("' already exists");
                m
            },
        };
        (message, local_time())
    }
}

/// One entry of the log: an event, its message and the time it was logged at.
pub struct LogEntry {
    event: ProcessEvent,
    message: String,
    timestamp: String,
}

impl LogEntry {
    /// An entry carries the message of its event.
    #[verifier::type_invariant]
    spec fn message_matches(self) -> bool {
        self.message@ == self.event@.message()
    }

    /// The event that the entry is about.
    pub closed spec fn event_view(self) -> ProcessEventView {
        self.event@
    }

    /// The time at which the entry was made, as the clock wrote it.
    pub closed spec fn timestamp_view(self) -> Seq<char> {
        self.timestamp@
    }

    /// An entry for `event`, made now.
    pub fn new(event: &ProcessEvent) -> (r: LogEntry)
        ensures
            r.event_view() == event@,
    {
        let info = event.info();
        LogEntry { event: event.clone(), message: info.0, timestamp: info.1 }
    }

    /// The event that the entry is about.
    pub fn event(&self) -> (r: &ProcessEvent)
        ensures
            r@ == self.event_view(),
    {
        &self.event
    }

    /// The message of the entry's event.
    pub fn message(&self) -> (r: &String)
        ensures
            r@ == self.event_view().message(),
    {
        proof {
            use_type_invariant(self);
        }
        &self.message
    }

    /// The time at which the entry was made, as the clock wrote it.
    pub fn timestamp(&self) -> (r: &String)
        ensures
            r@ == self.timestamp_view(),
    {
        &self.timestamp
    }

    /// The entry as it is written to a log file.
    pub fn line(&self) -> (r: String)
        ensures
            r@ == "EVENT LOG "@ + self.timestamp_view() + ":\n"@ + self.event_view().message()
                + "\n"@,
    {
        proof {
            use_type_invariant(self);
        }
        let mut r = String::from_str("EVENT LOG ");
        r.append(self.timestamp.as_str());
        r.append(":\n");
        r.append(self.message.as_str());
        r.append("\n");
        r
    }
}

/// An observer of a pass: it keeps every event that it is told of, in order.
pub struct Logger {
    entries: Vec<LogEntry>,
}

impl View for Logger {
    type V = Seq<ProcessEventView>;

    /// The events that were logged, oldest first.
    open spec fn view(&self) -> Seq<ProcessEventView> {
        Seq::new(self.entries_view().len(), |i: int| self.entries_view()[i].event_view())
    }
}

impl Logger {
    /// The entries that were made, oldest first.
    pub closed spec fn entries_view(&self) -> Seq<LogEntry> {
        self.entries@
    }

    /// Whether `later` is this logger after more was logged: the entries of
    /// this logger still stand at the start of its entries, as they were.
    pub open spec fn continued_by(&self, later: &Logger) -> bool {
        &&& self.entries_view().len() <= later.entries_view().len()
        &&& later.entries_view().take(self.entries_view().len() as int) == self.entries_view()
    }

    /// A logger continues itself.
    pub proof fn lemma_continued_by_itself(&self)
        ensures
            self.continued_by(self),
    {
        assert(self.entries_view().take(self.entries_view().len() as int)
            =~= self.entries_view());
    }

    /// What continues a continuation continues the logger it began with.
    pub proof fn lemma_continued_further(&self, later: &Logger, last: &Logger)
        requires
            self.continued_by(later),
            later.continued_by(last),
        ensures
            self.continued_by(last),
    {
        let n = self.entries_view().len() as int;
        let m = later.entries_view().len() as int;
        assert(last.entries_view().take(n) =~= last.entries_view().take(m).take(n));
    }

    /// A logger that has been told of nothing yet.
    pub fn new() -> (r: Logger)
        ensures
            r.entries_view() == Seq::<LogEntry>::empty(),
            r@ == Seq::<ProcessEventView>::empty(),
    {
        let r = Logger { entries: Vec::new() };
        assert(r@ =~= Seq::<ProcessEventView>::empty());
        r
    }

    /// Takes note of `event`: an entry for it, made now, joins the others.
    pub fn log(&mut self, event: &ProcessEvent)
        ensures
            final(self).entries_view().len() == old(self).entries_view().len() + 1,
            final(self).entries_view().drop_last() == old(self).entries_view(),
            final(self).entries_view().last().event_view() == event@,
            old(self).continued_by(final(self)),
            final(self)@ == old(self)@.push(event@),
    {
        self.entries.push(LogEntry::new(event));
        assert(self.entries_view().drop_last() =~= old(self).entries_view());
        assert(self.entries_view().take(old(self).entries_view().len() as int) =~= old(
            self,
        ).entries_view());
        assert(self@ =~= old(self)@.push(event@));
    }

    /// The event that was logged last; `StartOfLogger` before the first.
    pub fn last_entry(&self) -> (r: ProcessEvent)
        ensures
            r@ == if self@.len() == 0 {
                ProcessEventView::StartOfLogger
            } else {
                self@.last()
            },
    {
        let n = self.entries.len();
        if n == 0 {
            ProcessEvent::StartOfLogger
        } else {
            self.entries[n - 1].event().clone()
        }
    }

    /// Everything that was logged, oldest first.
    pub fn entries(&self) -> (r: &Vec<LogEntry>)
        ensures
            r@ == self.entries_view(),
    {
        &self.entries
    }
}

/// Whether an optional logger went from `before` to `after` by taking note of
/// `events`, one after the other, and of nothing else: what it held before
/// still stands. No logger stays no logger.
pub open spec fn logged(
    before: Option<Logger>,
    after: Option<Logger>,
    events: Seq<ProcessEventView>,
) -> bool {
    match before {
        Some(b) => {
            &&& after.is_some()
            &&& b.continued_by(&after.unwrap())
            &&& after.unwrap()@ == b@ + events
        },
        None => after.is_none(),
    }
}

} // verus!
