// processing several transaction files into one account table
use std::collections::HashMap;

use tx_engine::common::Account;
use tx_engine::decode::read_rows;
use tx_engine::engine::Engine;
use tx_engine::money::Money;

fn value(text: &str) -> Money
{
    Money::parse(text).unwrap()
}

fn do_process_csv(accounts : HashMap<u16, Account>, csv : &str) -> HashMap<u16, Account>
{
    let data = read_rows(csv).unwrap();
    let mut engine = Engine::new(accounts);
    engine.process_transactions(&data, &mut None);
    engine.into_accounts()
}

#[test]
fn process_double()
{
    let csv = 
    "type,       client,     tx,     amount
    deposit,    1,           1,        1.0
    deposit,    2,           2,        2.0
    deposit,    1,           3,        2.0
    withdrawal, 1,           4,        1.5
    withdrawal, 2,           5,        3.0
    dispute,    2,           5,";

    let mut accounts : HashMap<u16, Account> = HashMap::new();

    for _ in 0..2
    {
        accounts = do_process_csv(accounts, csv);
    }

    let account : &Account = 
    accounts.get(&1).unwrap();

    // the end result should be such that both accounts have 
    // double the result, since we ran two passes over the same
    // transactions file.
    assert_eq!(account.held, value("0.0"));
    assert_eq!(account.available, value("3.0"));
    assert_eq!(account.locked, false);
}

#[test]
fn process_single_pass_of_two_clients()
{
    let csv = 
    "type,       client,     tx,     amount
    deposit,    1,           1,        1.0
    deposit,    2,           2,        2.0
    deposit,    1,           3,        2.0
    withdrawal, 1,           4,        1.5
    withdrawal, 2,           5,        3.0
    dispute,    2,           5,";

    let accounts = do_process_csv(HashMap::new(), csv);

    let first : &Account = accounts.get(&1).unwrap();
    assert_eq!(first.available, value("1.5"));
    assert_eq!(first.held, value("0"));
    assert_eq!(first.locked, false);

    // the withdrawal of client 2 is more than the client has: it is
    // rejected, files no record, and the dispute finds nothing.
    let second : &Account = accounts.get(&2).unwrap();
    assert_eq!(second.available, value("2.0"));
    assert_eq!(second.held, value("0"));
    assert_eq!(second.locked, false);
    assert_eq!(accounts.len(), 2);
}
