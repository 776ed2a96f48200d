//! Transactions: as stored, as about to be stored, and their direction of flow.

use crate::amount::Amount;
use crate::calendar::Date;
use chrono::Datelike;
use vstd::prelude::*;

verus! {

/// A stored transaction.
pub struct Transaction {
    pub id: i64,
    pub date: Date,
    pub amount: Amount,
    pub category: String,
    pub description: String,
    pub bank: String,
}

/// A transaction that has no id yet.
pub struct NewTransaction {
    pub date: Date,
    pub amount: Amount,
    pub category: String,
    pub description: String,
    pub bank: String,
}

/// A transaction as stored: every field but the id as text.
pub struct TransactionDbRow {
    pub id: i64,
    pub date: String,
    pub amount: String,
    pub category: String,
    pub description: String,
    pub bank: String,
}

/// Whether money came in, went out, or neither.
#[derive(Clone, Copy, Debug, PartialEq, Eq, Structural)]
pub enum Direction {
    Inflow,
    Outflow,
    Noflow,
}

/// The direction of an amount by its sign: zero is no flow.
pub open spec fn direction_of(a: Amount) -> Direction {
    if a.magnitude == 0 {
        Direction::Noflow
    } else if a.negative {
        Direction::Outflow
    } else {
        Direction::Inflow
    }
}

impl From<Amount> for Direction {
    fn from(a: Amount) -> (r: Direction) {
        if a.magnitude == 0 {
            Direction::Noflow
        } else if a.negative {
            Direction::Outflow
        } else {
            Direction::Inflow
        }
    }
}

impl vstd::std_specs::convert::FromSpecImpl<Amount> for Direction {
    open spec fn obeys_from_spec() -> bool {
        true
    }

    open spec fn from_spec(a: Amount) -> Direction {
        direction_of(a)
    }
}

impl Direction {
    /// The direction's name: "Inflow", "Outflow" or "Noflow".
    pub fn name(&self) -> (r: &'static str)
        ensures
            r@ == direction_name(*self),
    {
        proof {
            reveal_strlit("Inflow");
            reveal_strlit("Outflow");
            reveal_strlit("Noflow");
        }
        match self {
            Direction::Inflow => "Inflow",
            Direction::Outflow => "Outflow",
            Direction::Noflow => "Noflow",
        }
    }
}

pub open spec fn direction_name(d: Direction) -> Seq<char> {
    match d {
        Direction::Inflow => seq!['I', 'n', 'f', 'l', 'o', 'w'],
        Direction::Outflow => seq!['O', 'u', 't', 'f', 'l', 'o', 'w'],
        Direction::Noflow => seq!['N', 'o', 'f', 'l', 'o', 'w'],
    }
}

/// chrono's error for text that is no date.
#[verifier::external_type_specification]
#[verifier::external_body]
pub struct ExDateParseError(chrono::ParseError);

/// rust_decimal's error for text that is no number.
#[verifier::external_type_specification]
#[verifier::external_body]
pub struct ExDecimalError(rust_decimal::Error);

/// The date that chrono reads from a text in ISO form ("2026-08-05"), if any.
pub uninterp spec fn iso_date_of(text: Seq<char>) -> Option<Date>;

/// The amount that rust_decimal reads from a text ("-17.50"), if any.
pub uninterp spec fn decimal_of(text: Seq<char>) -> Option<Amount>;

/// `NaiveDate::from_str`: a date exactly where `iso_date_of` gives one, and
/// then that date; dates chrono gives are days that exist.
#[verifier::external_body]
fn chrono_parse_iso_date(text: &str) -> (r: Result<Date, chrono::ParseError>)
    ensures
        r is Ok <==> iso_date_of(text@) is Some,
        r matches Ok(d) ==> iso_date_of(text@) == Some(d) && d.wf(),
{
    match <chrono::NaiveDate as std::str::FromStr>::from_str(text) {
        Ok(n) => Ok(Date { year: n.year(), month: n.month(), day: n.day() }),
        Err(e) => Err(e),
    }
}

/// `Decimal::from_str`: an amount exactly where `decimal_of` gives one, and
/// then that amount; amounts rust_decimal gives are ones it can hold.
#[verifier::external_body]
fn decimal_parse(text: &str) -> (r: Result<Amount, rust_decimal::Error>)
    ensures
        r is Ok <==> decimal_of(text@) is Some,
        r matches Ok(a) ==> decimal_of(text@) == Some(a) && a.wf(),
{
    match <rust_decimal::Decimal as std::str::FromStr>::from_str(text) {
        Ok(x) => Ok(Amount { negative: x.is_sign_negative(), magnitude: x.mantissa().unsigned_abs(), scale: x.scale() }),
        Err(e) => Err(e),
    }
}

/// Why a stored row is no transaction.
#[derive(Debug)]
pub enum RowError {
    Date(chrono::ParseError),
    Amount(rust_decimal::Error),
}

impl Transaction {
    /// The transaction of a stored row whose date and amount have been read:
    /// the date's error where it has one, else the amount's, else the
    /// transaction with the row's other fields.
    pub fn from_read_row(
        id: i64,
        date: Result<Date, chrono::ParseError>,
        amount: Result<Amount, rust_decimal::Error>,
        category: String,
        description: String,
        bank: String,
    ) -> (r: Result<Transaction, RowError>)
        ensures
            date is Err ==> r matches Err(RowError::Date(_)),
            date is Ok && amount is Err ==> r matches Err(RowError::Amount(_)),
            date is Ok && amount is Ok ==> (r matches Ok(t) && t.id == id && t.date == date->Ok_0
                && t.amount == amount->Ok_0 && t.category == category && t.description
                == description && t.bank == bank),
    {
        match date {
            Err(e) => Err(RowError::Date(e)),
            Ok(date) => match amount {
                Err(e) => Err(RowError::Amount(e)),
                Ok(amount) => Ok(Transaction { id, date, amount, category, description, bank }),
            },
        }
    }

    /// The transaction of a stored row: its date in ISO form and its amount as
    /// a decimal number are read; the date's error comes first.
    pub fn from_db_row(row: TransactionDbRow) -> (r: Result<Transaction, RowError>)
        ensures
            iso_date_of(row.date@) is None ==> r matches Err(RowError::Date(_)),
            iso_date_of(row.date@) is Some && decimal_of(row.amount@) is None ==> r matches Err(
                RowError::Amount(_),
            ),
            iso_date_of(row.date@) is Some && decimal_of(row.amount@) is Some ==> (r matches Ok(t)
                && t.id == row.id && Some(t.date) == iso_date_of(row.date@) && Some(t.amount)
                == decimal_of(row.amount@) && t.category == row.category && t.description
                == row.description && t.bank == row.bank && t.date.wf() && t.amount.wf()),
    {
        let date = chrono_parse_iso_date(row.date.as_str());
        let amount = decimal_parse(row.amount.as_str());
        Transaction::from_read_row(row.id, date, amount, row.category, row.description, row.bank)
    }
}

} // verus!
