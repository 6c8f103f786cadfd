//! The account table written out, one line for each client.

use vstd::prelude::*;
use vstd::string::StringExecFns;
use crate::common::{Account, AccountView};
use crate::engine::Engine;
use crate::money::money_text;
use crate::text::{decimal_string, decimal_text};

verus! {

/// The line that names the columns of the report.
pub open spec fn header_text() -> Seq<char> {
    "client,    available,      held,     total,    locked"@
}

/// The report's line for `client`: the client, the available funds, the held
/// funds, their total, and whether the account is locked.
pub open spec fn line_text(client: u16, account: AccountView) -> Seq<char> {
    decimal_text(client as nat) + ",            "@ + money_text(account.available) + ",    "@
        + money_text(account.held) + ",    "@ + money_text(account.total()) + ",    "@ + if account.locked {
        "true"@
    } else {
        "false"@
    }
}

/// The line that names the columns of the report.
pub fn report_header() -> (r: String)
    ensures
        r@ == header_text(),
{
    String::from_str("client,    available,      held,     total,    locked")
}

/// The report's line for `client`. `None` where the total of the account is
/// more than a monetary value can hold.
pub fn report_line(client: u16, account: &Account) -> (r: Option<String>)
    ensures
        match r {
            Some(line) => i128::MIN <= account@.total() <= i128::MAX && line@ == line_text(
                client,
                account@,
            ),
            None => !(i128::MIN <= account@.total() <= i128::MAX),
        },
{
    let total = match account.total() {
        Some(total) => total,
        None => {
            return None;
        },
    };
    let mut line = decimal_string(client as u128);
    line.append(",            ");
    line.append(account.available.to_text().as_str());
    line.append(",    ");
    line.append(account.held.to_text().as_str());
    line.append(",    ");
    line.append(total.to_text().as_str());
    line.append(",    ");
    line.append(if account.locked { "true" } else { "false" });
    Some(line)
}

/// The report of the clients below `upto`: the header, then one line for each
/// client that has an account, in the order of the clients' numbers.
pub open spec fn report_text(accounts: Map<u16, AccountView>, upto: int) -> Seq<Seq<char>>
    decreases upto,
{
    if upto <= 0 {
        seq![header_text()]
    } else {
        let client = (upto - 1) as u16;
        if accounts.contains_key(client) {
            report_text(accounts, upto - 1).push(line_text(client, accounts[client]))
        } else {
            report_text(accounts, upto - 1)
        }
    }
}

/// Whether the total of every account can be held in a monetary value.
pub open spec fn totals_fit(accounts: Map<u16, AccountView>) -> bool {
    forall|client: u16| #[trigger]
        accounts.contains_key(client) ==> i128::MIN <= accounts[client].total() <= i128::MAX
}

impl Engine {
    /// The account table as a report: the header, then the line of every
    /// client, lowest number first. `None` where the total of some account is
    /// more than a monetary value can hold.
    pub fn output(&self) -> (r: Option<Vec<String>>)
        ensures
            match r {
                Some(lines) => totals_fit(self@.accounts) && lines.deep_view() == report_text(
                    self@.accounts,
                    65536,
                ),
                None => !totals_fit(self@.accounts),
            },
    {
        let mut lines: Vec<String> = Vec::new();
        lines.push(report_header());
        assert(lines.deep_view() =~= report_text(self@.accounts, 0));
        let mut next: u32 = 0;
        while next < 65536
            invariant
                next <= 65536,
                lines.deep_view() == report_text(self@.accounts, next as int),
                forall|client: u16|
                    client < next && #[trigger] self@.accounts.contains_key(client) ==> i128::MIN
                        <= self@.accounts[client].total() <= i128::MAX,
            decreases 65536 - next,
        {
            let client = next as u16;
            let ghost before = lines.deep_view();
            match self.account(client) {
                Some(account) => match report_line(client, &account) {
                    Some(line) => {
                        lines.push(line);
                        assert(lines.deep_view() =~= before.push(line@));
                    },
                    None => {
                        return None;
                    },
                },
                None => {},
            }
            next += 1;
        }
        Some(lines)
    }
}

} // verus!
