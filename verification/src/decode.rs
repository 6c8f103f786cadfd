//! From text to rows: the fields of a record are trimmed, told apart and
//! parsed.

use vstd::prelude::*;
use vstd::string::{is_ascii, StrSliceExecFns};
use crate::common::{classify, kind_of, rows_view, Row, RowView, TxKind};
use crate::money::{money_of_text, Money};

verus! {

/// Whether `c` is one of the ten decimal digits.
pub open spec fn is_digit(c: char) -> bool {
    '0' <= c <= '9'
}

/// Whether `s` holds decimal digits only.
pub open spec fn all_digits(s: Seq<char>) -> bool {
    forall|i: int| 0 <= i < s.len() ==> is_digit(#[trigger] s[i])
}

/// The number that the digits of `s` write, the most significant first.
pub open spec fn digits_value(s: Seq<char>) -> nat
    decreases s.len(),
{
    if s.len() == 0 {
        0
    } else {
        digits_value(s.drop_last()) * 10 + (s.last() as u32 - '0' as u32) as nat
    }
}

/// The number that `s` writes, if it writes one that is at most `max`: an
/// optional `+`, then one digit or more, and nothing else.
pub open spec fn unsigned_of(s: Seq<char>, max: nat) -> Option<nat> {
    let digits = if s.len() > 0 && s[0] == '+' {
        s.drop_first()
    } else {
        s
    };
    if digits.len() > 0 && all_digits(digits) && digits_value(digits) <= max {
        Some(digits_value(digits))
    } else {
        None
    }
}

/// Digits that follow can only make a number larger.
proof fn lemma_digits_value_grows(s: Seq<char>, k: int)
    requires
        0 <= k <= s.len(),
    ensures
        digits_value(s.take(k)) <= digits_value(s),
    decreases s.len() - k,
{
    if k < s.len() {
        lemma_digits_value_grows(s.drop_last(), k);
        assert(s.drop_last().take(k) =~= s.take(k));
    } else {
        assert(s.take(k) =~= s);
    }
}

/// Reads `text` as an unsigned number of at most `max`.
pub fn parse_unsigned(text: &str, max: u32) -> (r: Option<u32>)
    ensures
        match r {
            Some(n) => unsigned_of(text@, max as nat) == Some(n as nat),
            None => unsigned_of(text@, max as nat).is_none(),
        },
{
    if !text.is_ascii() {
        proof {
            let i = choose|i: int|
                0 <= i < text@.len() && !('\0' <= #[trigger] text@[i] <= '\u{7f}');
            if text@[0] == '+' {
                assert(i > 0);
                assert(text@.drop_first()[i - 1] == text@[i]);
            }
        }
        return None;
    }
    let n = text.unicode_len();
    let start: usize = if n > 0 && text.get_ascii(0) == 43 {
        1
    } else {
        0
    };
    let ghost digits = if text@.len() > 0 && text@[0] == '+' {
        text@.drop_first()
    } else {
        text@
    };
    assert(digits =~= text@.subrange(start as int, n as int));
    if start == n {
        return None;
    }
    let mut value: u64 = 0;
    let mut i: usize = start;
    assert(digits.take(0) =~= Seq::<char>::empty());
    while i < n
        invariant
            start <= i <= n,
            n == text@.len(),
            is_ascii(text),
            digits == text@.subrange(start as int, n as int),
            digits == if text@.len() > 0 && text@[0] == '+' {
                text@.drop_first()
            } else {
                text@
            },
            all_digits(digits.take(i - start)),
            value == digits_value(digits.take(i - start)),
            value <= max,
        decreases n - i,
    {
        let b = text.get_ascii(i);
        let ghost c = text@[i as int];
        assert(c == digits[i - start]);
        if b < 48 || b > 57 {
            assert(!is_digit(c));
            return None;
        }
        let ghost longer = digits.take(i - start + 1);
        assert(longer.drop_last() =~= digits.take(i - start));
        assert(longer.last() == c);
        value = value * 10 + (b - 48) as u64;
        assert(value == digits_value(longer));
        if value > max as u64 {
            proof {
                lemma_digits_value_grows(digits, i - start + 1);
            }
            return None;
        }
        i += 1;
    }
    assert(digits.take(n - start) =~= digits);
    Some(value as u32)
}

/// Whether `c` is white space, as Unicode has it.
pub uninterp spec fn white_space(c: char) -> bool;

/// `char::is_whitespace`. The contract gives the result a name and claims only
/// that the same character is always judged in the same way.
#[verifier::external_body]
fn is_whitespace(c: char) -> (r: bool)
    ensures
        r == white_space(c),
{
    c.is_whitespace()
}

/// `s` without the white space at its start.
pub open spec fn trim_start(s: Seq<char>) -> Seq<char>
    decreases s.len(),
{
    if s.len() > 0 && white_space(s[0]) {
        trim_start(s.drop_first())
    } else {
        s
    }
}

/// `s` without the white space at its end.
pub open spec fn trim_end(s: Seq<char>) -> Seq<char>
    decreases s.len(),
{
    if s.len() > 0 && white_space(s.last()) {
        trim_end(s.drop_last())
    } else {
        s
    }
}

/// `s` without the white space at its two ends.
pub open spec fn trimmed(s: Seq<char>) -> Seq<char> {
    trim_end(trim_start(s))
}

/// `text` without the white space at its two ends.
pub fn trim(text: &str) -> (r: &str)
    ensures
        r@ == trimmed(text@),
{
    let n = text.unicode_len();
    let mut start: usize = 0;
    let mut scanning = true;
    assert(text@.subrange(0, n as int) =~= text@);
    while scanning && start < n
        invariant
            start <= n,
            n == text@.len(),
            trim_start(text@) == trim_start(text@.subrange(start as int, n as int)),
            !scanning ==> start < n && !white_space(text@[start as int]),
        decreases n - start + if scanning { 1nat } else { 0nat },
    {
        if is_whitespace(text.get_char(start)) {
            assert(text@.subrange(start as int, n as int).drop_first() =~= text@.subrange(
                start + 1,
                n as int,
            ));
            start += 1;
        } else {
            scanning = false;
        }
    }
    let ghost rest = text@.subrange(start as int, n as int);
    assert(trim_start(text@) == rest);
    let mut end: usize = n;
    scanning = true;
    assert(rest.subrange(0, end - start) =~= rest);
    while scanning && end > start
        invariant
            start <= end <= n,
            n == text@.len(),
            rest == text@.subrange(start as int, n as int),
            trim_end(rest) == trim_end(text@.subrange(start as int, end as int)),
            !scanning ==> end > start && !white_space(text@[end - 1]),
        decreases end - start + if scanning { 1nat } else { 0nat },
    {
        if is_whitespace(text.get_char(end - 1)) {
            assert(text@.subrange(start as int, end as int).drop_last() =~= text@.subrange(
                start as int,
                end - 1,
            ));
            end -= 1;
        } else {
            scanning = false;
        }
    }
    assert(trim_end(rest) == text@.subrange(start as int, end as int));
    text.substring_char(start, end)
}

/// The records that the `csv` crate reads in `text` after the header line,
/// each as the list of its fields; `None` where it reports an error.
pub uninterp spec fn csv_records(text: Seq<char>) -> Option<Seq<Seq<Seq<char>>>>;

/// `csv::Reader::from_reader` on the bytes of `text`, and `Reader::records`
/// walked to its end: every record's fields, copied out as strings. The
/// contract gives the result a name and claims only that the same text is
/// always read in the same way; the first error makes the whole `None`.
#[verifier::external_body]
fn read_records(text: &str) -> (r: Option<Vec<Vec<String>>>)
    ensures
        r.deep_view() == csv_records(text@),
{
    let mut reader = csv::Reader::from_reader(text.as_bytes());
    let mut records = Vec::new();
    for record in reader.records() {
        match record {
            Ok(fields) => records.push(fields.iter().map(String::from).collect()),
            Err(_) => return None,
        }
    }
    Some(records)
}

/// The row that four trimmed texts write. The client and the transaction must
/// be unsigned numbers of 16 and of 32 bits. A deposit or a withdrawal must
/// come with an amount that reads as a decimal; for any other type the amount
/// is not looked at.
pub open spec fn row_of_texts(
    tx_type: Seq<char>,
    client: Seq<char>,
    tx: Seq<char>,
    amount: Option<Seq<char>>,
) -> Option<RowView> {
    let client = unsigned_of(client, u16::MAX as nat);
    let tx = unsigned_of(tx, u32::MAX as nat);
    let with_amount = kind_of(tx_type) == TxKind::Deposit || kind_of(tx_type)
        == TxKind::Withdrawal;
    let units = match amount {
        Some(text) => money_of_text(text),
        None => None,
    };
    if client.is_none() || tx.is_none() || (with_amount && units.is_none()) {
        None
    } else {
        Some(
            RowView {
                tx_type,
                client: client.unwrap() as u16,
                tx: tx.unwrap() as u32,
                amount: if with_amount {
                    units
                } else {
                    None
                },
            },
        )
    }
}

/// The row that the fields of one record write: type, client, transaction
/// and, where there is a fourth field, amount, each trimmed.
pub open spec fn row_of_fields(fields: Seq<Seq<char>>) -> Option<RowView> {
    if fields.len() < 3 {
        None
    } else {
        row_of_texts(
            trimmed(fields[0]),
            trimmed(fields[1]),
            trimmed(fields[2]),
            if fields.len() > 3 {
                Some(trimmed(fields[3]))
            } else {
                None
            },
        )
    }
}

/// The rows that the records write, if every record writes one.
pub open spec fn rows_of_records(records: Seq<Seq<Seq<char>>>) -> Option<Seq<RowView>> {
    if forall|i: int| 0 <= i < records.len() ==> (#[trigger] row_of_fields(records[i])).is_some() {
        Some(Seq::new(records.len(), |i: int| row_of_fields(records[i]).unwrap()))
    } else {
        None
    }
}

/// The rows that a text in comma-separated form writes.
pub open spec fn rows_of_text(text: Seq<char>) -> Option<Seq<RowView>> {
    match csv_records(text) {
        Some(records) => rows_of_records(records),
        None => None,
    }
}

/// Makes a row of four texts that were trimmed already.
pub fn parse_row(tx_type: &str, client: &str, tx: &str, amount: Option<&str>) -> (r: Option<Row>)
    ensures
        match r {
            Some(row) => row_of_texts(tx_type@, client@, tx@, texts_view(amount)) == Some(row@)
                && row@.well_formed(),
            None => row_of_texts(tx_type@, client@, tx@, texts_view(amount)).is_none(),
        },
{
    let client_id = match parse_unsigned(client, 65535) {
        Some(n) => n as u16,
        None => {
            return None;
        },
    };
    let tx_id = match parse_unsigned(tx, u32::MAX) {
        Some(n) => n,
        None => {
            return None;
        },
    };
    let row = Row::new(tx_type, client_id, tx_id, None);
    let kind = classify(&row.tx_type);
    if kind == TxKind::Deposit || kind == TxKind::Withdrawal {
        let units = match amount {
            Some(text) => Money::parse(text),
            None => None,
        };
        match units {
            Some(m) => Some(Row { amount: Some(m), ..row }),
            None => None,
        }
    } else {
        Some(row)
    }
}

/// An optional text as the contracts see it.
pub open spec fn texts_view(text: Option<&str>) -> Option<Seq<char>> {
    match text {
        Some(t) => Some(t@),
        None => None,
    }
}

/// Makes a row of the fields of one record.
pub fn decode_row(fields: &Vec<String>) -> (r: Option<Row>)
    ensures
        match r {
            Some(row) => row_of_fields(fields.deep_view()) == Some(row@) && row@.well_formed(),
            None => row_of_fields(fields.deep_view()).is_none(),
        },
{
    if fields.len() < 3 {
        return None;
    }
    let amount = if fields.len() > 3 {
        Some(trim(fields[3].as_str()))
    } else {
        None
    };
    parse_row(trim(fields[0].as_str()), trim(fields[1].as_str()), trim(fields[2].as_str()), amount)
}

/// Makes rows of records, one of each; `None` if any record writes no row.
pub fn decode_rows(records: &Vec<Vec<String>>) -> (r: Option<Vec<Row>>)
    ensures
        match r {
            Some(rows) => rows_of_records(records.deep_view()) == Some(rows_view(rows@))
                && forall|i: int| 0 <= i < rows@.len() ==> (#[trigger] rows@[i])@.well_formed(),
            None => rows_of_records(records.deep_view()).is_none(),
        },
{
    let ghost all = records.deep_view();
    let mut rows: Vec<Row> = Vec::new();
    let mut i: usize = 0;
    while i < records.len()
        invariant
            i <= records.len(),
            all == records.deep_view(),
            rows@.len() == i,
            forall|j: int| 0 <= j < i ==> row_of_fields(all[j]) == Some((#[trigger] rows@[j])@),
            forall|j: int| 0 <= j < i ==> (#[trigger] rows@[j])@.well_formed(),
        decreases records.len() - i,
    {
        assert(all[i as int] == records[i as int].deep_view());
        match decode_row(&records[i]) {
            Some(row) => {
                rows.push(row);
            },
            None => {
                return None;
            },
        }
        i += 1;
    }
    proof {
        assert(all.len() == rows@.len());
        assert forall|j: int| 0 <= j < all.len() implies (#[trigger] row_of_fields(
            all[j],
        )).is_some() by {
            assert(row_of_fields(all[j]) == Some(rows@[j]@));
        }
        assert(rows_of_records(all).unwrap() =~= rows_view(rows@));
    }
    Some(rows)
}

/// Reads the rows of a text in comma-separated form: a header line, then one
/// record for each row. `None` if the text cannot be read as such, or if any
/// record writes no row.
pub fn read_rows(text: &str) -> (r: Option<Vec<Row>>)
    ensures
        match r {
            Some(rows) => rows_of_text(text@) == Some(rows_view(rows@))
                && forall|i: int| 0 <= i < rows@.len() ==> (#[trigger] rows@[i])@.well_formed(),
            None => rows_of_text(text@).is_none(),
        },
{
    match read_records(text) {
        Some(records) => decode_rows(&records),
        None => None,
    }
}

} // verus!
