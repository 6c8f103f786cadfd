use tx_engine::common::{LogEntry, Logger, ProcessEvent};

#[test]
fn message_of_the_life_cycle_events()
{
    assert_eq!(ProcessEvent::StartOfLogger.info().0, "Event logger created.");
    assert_eq!(ProcessEvent::ProcessComplete.info().0, "Processed completed.");
}

#[test]
fn message_of_an_external_error_is_its_text()
{
    let event = ProcessEvent::ExternalErr("No such file or directory (os error 2)".to_string());
    assert_eq!(event.info().0, "No such file or directory (os error 2)");
    assert_eq!(ProcessEvent::ExternalErr(String::new()).info().0, "");
}

#[test]
fn message_of_tx_not_found()
{
    let tx_id = 5;
    assert_eq!(
        ProcessEvent::ErrTxNotFound(tx_id).info().0,
        format!("ProcessError: Transaction with id '{tx_id}' is not found")
    );
    assert_eq!(
        ProcessEvent::ErrTxNotFound(4294967295).info().0,
        "ProcessError: Transaction with id '4294967295' is not found"
    );
}

#[test]
fn message_of_unrecognised_tx()
{
    let line = 1;
    let tx_type = "withdfrawal";
    assert_eq!(
        ProcessEvent::ErrUnrecognisedTx(line, tx_type.to_string()).info().0,
        format!(
            "ProcessError: In csv, line {line}: 
                    '{tx_type}' is not a recognised transaction type."
        )
    );
    assert_eq!(
        ProcessEvent::ErrUnrecognisedTx(120, String::new()).info().0,
        "ProcessError: In csv, line 120: \n                    '' is not a recognised transaction type."
    );
}

#[test]
fn message_of_insufficient_funds()
{
    let cli_id = 1;
    let tx_id = 2;
    assert_eq!(
        ProcessEvent::ErrInsufficientfunds(cli_id, tx_id).info().0,
        format!("ProcessError: Client with id '{cli_id}' has \
                \ninsufficient funds for transaction with id {tx_id}")
    );
    assert_eq!(
        ProcessEvent::ErrInsufficientfunds(65535, 0).info().0,
        "ProcessError: Client with id '65535' has \ninsufficient funds for transaction with id 0"
    );
}

#[test]
fn message_of_tx_not_disputed()
{
    let tx_id = 70;
    assert_eq!(
        ProcessEvent::ErrTxNotDisputed(tx_id).info().0,
        format!("ProcessError: The referenced transaction with \
                \nid '{tx_id}' isn't under dispute.'")
    );
}

#[test]
fn message_of_unauthorised_tx()
{
    let cli_id = 2;
    let tx_id = 3;
    assert_eq!(
        ProcessEvent::ErrUnauthorisedTx(cli_id, tx_id).info().0,
        format!("ProcessError: Client with id '{cli_id}' cannot \
                reference transaction with id '{tx_id}' because \
                they do not own the transaction.'")
    );
}

#[test]
fn message_of_negative_amount_and_of_used_id()
{
    assert_eq!(
        ProcessEvent::ErrAmountNegative(3).info().0,
        "ProcessError: Transaction with id '3' has a negative amount"
    );
    assert_eq!(
        ProcessEvent::ErrTxIdExists(1009).info().0,
        "ProcessError: Transaction with id '1009' already exists"
    );
}

#[test]
fn info_reads_the_local_clock()
{
    let before = chrono::offset::Local::now();
    let stamp = ProcessEvent::ProcessComplete.info().1;
    let after = chrono::offset::Local::now();
    let read = chrono::DateTime::parse_from_str(&stamp, "%Y-%m-%d %H:%M:%S%.f %:z").unwrap();
    assert!(before <= read && read <= after);
}

#[test]
fn clone_gives_an_equal_event()
{
    let events = [
        ProcessEvent::StartOfLogger,
        ProcessEvent::ProcessComplete,
        ProcessEvent::ExternalErr("gone".to_string()),
        ProcessEvent::ErrTxNotFound(1),
        ProcessEvent::ErrUnrecognisedTx(2, "what".to_string()),
        ProcessEvent::ErrInsufficientfunds(3, 4),
        ProcessEvent::ErrTxNotDisputed(5),
        ProcessEvent::ErrUnauthorisedTx(6, 7),
        ProcessEvent::ErrAmountNegative(8),
        ProcessEvent::ErrTxIdExists(9),
    ];
    for event in events.iter()
    {
        assert_eq!(&event.clone(), event);
    }
    assert_ne!(ProcessEvent::ErrTxNotFound(1), ProcessEvent::ErrTxNotDisputed(1));
    assert_ne!(ProcessEvent::ErrTxNotFound(1), ProcessEvent::ErrTxNotFound(2));
}

#[test]
fn a_new_logger_has_seen_nothing()
{
    let logger = Logger::new();
    assert_eq!(logger.last_entry(), ProcessEvent::StartOfLogger);
    assert!(logger.entries().is_empty());
}

#[test]
fn the_logger_keeps_every_event_in_order()
{
    let mut logger = Logger::new();
    logger.log(&ProcessEvent::ErrTxNotFound(7));
    assert_eq!(logger.last_entry(), ProcessEvent::ErrTxNotFound(7));
    logger.log(&ProcessEvent::ErrUnrecognisedTx(1, "withdfrawal".to_string()));
    logger.log(&ProcessEvent::ProcessComplete);
    assert_eq!(logger.last_entry(), ProcessEvent::ProcessComplete);

    let entries = logger.entries();
    assert_eq!(entries.len(), 3);
    assert_eq!(entries[0].event(), &ProcessEvent::ErrTxNotFound(7));
    assert_eq!(entries[1].event(), &ProcessEvent::ErrUnrecognisedTx(1, "withdfrawal".to_string()));
    assert_eq!(entries[2].event(), &ProcessEvent::ProcessComplete);
    assert_eq!(entries[0].message(), "ProcessError: Transaction with id '7' is not found");
    assert_eq!(entries[2].message(), "Processed completed.");
}

#[test]
fn a_log_entry_is_written_as_a_heading_and_the_message()
{
    let entry = LogEntry::new(&ProcessEvent::ErrTxIdExists(3));
    assert_eq!(entry.event(), &ProcessEvent::ErrTxIdExists(3));
    assert_eq!(entry.message(), "ProcessError: Transaction with id '3' already exists");
    let timestamp = entry.timestamp().clone();
    let message = entry.message().clone();
    assert_eq!(entry.line(), format!("EVENT LOG {timestamp}:\n{message}\n"));
    assert!(chrono::DateTime::parse_from_str(&timestamp, "%Y-%m-%d %H:%M:%S%.f %:z").is_ok());
}
