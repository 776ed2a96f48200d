//! Bank statement rows and the transactions made from them.

use crate::amount::{decimal_difference, difference_fits, difference_overflows, Amount};
use crate::calendar::Date;
use crate::categorizer::{categorize_spec, categorizer};
use crate::config::{category_views, Category};
use crate::order::{key_of, stable_sort, stably_sorted, SortKey};
use crate::text::{collapse_whitespace, join_words, words};
use crate::transaction::NewTransaction;
use chrono::Datelike;
use vstd::prelude::*;

verus! {

/// The banks whose statements can be imported.
#[derive(Clone, Copy, Debug, PartialEq, Eq, Structural)]
pub enum Bank {
    Commonwealth,
    Westpac,
}

/// A row of a Commonwealth statement: date, amount, description.
pub struct CommonwealthRow {
    pub date: String,
    pub amount: Amount,
    pub description: String,
}

/// A row of a Westpac statement: date, narrative, and the amount debited or
/// credited, where given.
pub struct WestpacRow {
    pub date: String,
    pub narrative: String,
    pub debit: Option<Amount>,
    pub credit: Option<Amount>,
}

/// A statement row read: its date, its signed amount and its description.
pub struct ParsedRow {
    pub date: Date,
    pub amount: Amount,
    pub description: String,
}

/// What an import did: rows read, rows stored, rows already stored, and the
/// time it took.
#[derive(Debug, PartialEq, Eq)]
pub struct ImportSummary {
    pub parsed: usize,
    pub inserted: usize,
    pub duplicate: usize,
    pub elapsed: std::time::Duration,
}

pub open spec fn bank_name(b: Bank) -> Seq<char> {
    match b {
        Bank::Commonwealth => seq!['C', 'o', 'm', 'm', 'o', 'n', 'w', 'e', 'a', 'l', 't', 'h'],
        Bank::Westpac => seq!['W', 'e', 's', 't', 'p', 'a', 'c'],
    }
}

impl Bank {
    /// Westpac statements start with a row of column names; Commonwealth ones
    /// do not.
    pub fn has_headers(self) -> (r: bool)
        ensures
            r == (self == Bank::Westpac),
    {
        match self {
            Bank::Commonwealth => false,
            Bank::Westpac => true,
        }
    }

    /// The bank's name: "Commonwealth" or "Westpac".
    pub fn name(&self) -> (r: &'static str)
        ensures
            r@ == bank_name(*self),
    {
        proof {
            reveal_strlit("Commonwealth");
            reveal_strlit("Westpac");
        }
        match self {
            Bank::Commonwealth => "Commonwealth",
            Bank::Westpac => "Westpac",
        }
    }
}

/// The date that chrono reads from a text in day/month/year form
/// (`"%d/%m/%Y"`, as "31/07/2026"), if any.
pub uninterp spec fn day_month_year_date_of(text: Seq<char>) -> Option<Date>;

/// `NaiveDate::parse_from_str(text, "%d/%m/%Y")`: a date exactly where
/// `day_month_year_date_of` gives one, and then that date; dates chrono gives
/// are days that exist.
#[verifier::external_body]
fn chrono_parse_day_month_year(text: &str) -> (r: Result<Date, chrono::ParseError>)
    ensures
        r is Ok <==> day_month_year_date_of(text@) is Some,
        r matches Ok(d) ==> day_month_year_date_of(text@) == Some(d) && d.wf(),
{
    match chrono::NaiveDate::parse_from_str(text, "%d/%m/%Y") {
        Ok(n) => Ok(Date { year: n.year(), month: n.month(), day: n.day() }),
        Err(e) => Err(e),
    }
}

impl ParsedRow {
    /// A Commonwealth row read: its date in day/month/year form, its amount,
    /// its description with white space collapsed.
    pub fn from_commonwealth(row: CommonwealthRow) -> (r: Result<ParsedRow, chrono::ParseError>)
        ensures
            day_month_year_date_of(row.date@) is None ==> r is Err,
            day_month_year_date_of(row.date@) is Some ==> (r matches Ok(p) && Some(p.date)
                == day_month_year_date_of(row.date@) && p.date.wf() && p.amount == row.amount
                && p.description@ == join_words(words(row.description@))),
    {
        let date = chrono_parse_day_month_year(row.date.as_str());
        match date {
            Err(e) => Err(e),
            Ok(date) => Ok(
                ParsedRow {
                    date,
                    amount: row.amount,
                    description: collapse_whitespace(row.description.as_str()),
                },
            ),
        }
    }

    /// A Westpac row read: its date in day/month/year form, credit less debit
    /// (a missing one counting as zero), its narrative with white space
    /// collapsed. Credit less debit is as rust_decimal's `-` gives it, which
    /// must not overflow (`westpac_amounts_defined`).
    pub fn from_westpac(row: WestpacRow) -> (r: Result<ParsedRow, chrono::ParseError>)
        requires
            westpac_amounts_defined(row),
        ensures
            day_month_year_date_of(row.date@) is None ==> r is Err,
            day_month_year_date_of(row.date@) is Some ==> (r matches Ok(p) && Some(p.date)
                == day_month_year_date_of(row.date@) && p.date.wf() && p.amount.wf()
                && p.amount == decimal_difference(
                row.credit.unwrap_or(Amount::zero_spec()),
                row.debit.unwrap_or(Amount::zero_spec()),
            ) && (difference_fits(
                row.credit.unwrap_or(Amount::zero_spec()),
                row.debit.unwrap_or(Amount::zero_spec()),
            ) ==> p.amount.key() == row.credit.unwrap_or(Amount::zero_spec()).key()
                - row.debit.unwrap_or(Amount::zero_spec()).key()) && p.description@ == join_words(
                words(row.narrative@),
            )),
    {
        let credit = match row.credit {
            Some(c) => c,
            None => Amount::zero(),
        };
        let debit = match row.debit {
            Some(d) => d,
            None => Amount::zero(),
        };
        let date = chrono_parse_day_month_year(row.date.as_str());
        match date {
            Err(e) => Err(e),
            Ok(date) => Ok(
                ParsedRow {
                    date,
                    amount: credit.minus(&debit),
                    description: collapse_whitespace(row.narrative.as_str()),
                },
            ),
        }
    }
}

/// csv's error for a record that could not be read.
#[verifier::external_type_specification]
#[verifier::external_body]
pub struct ExCsvError(csv::Error);

/// Why a statement could not be read: a record csv could not read, or a date
/// that is not in day/month/year form.
#[derive(Debug)]
pub enum StatementError {
    Read(csv::Error),
    Date(chrono::ParseError),
}

/// A Commonwealth record that was read and has a date.
pub open spec fn commonwealth_record_ok(r: Result<CommonwealthRow, csv::Error>) -> bool {
    r matches Ok(row) && day_month_year_date_of(row.date@) is Some
}

/// A Westpac record that was read and has a date.
pub open spec fn westpac_record_ok(r: Result<WestpacRow, csv::Error>) -> bool {
    r matches Ok(row) && day_month_year_date_of(row.date@) is Some
}

/// The row read from a Commonwealth record.
pub open spec fn parsed_commonwealth(p: ParsedRow, row: CommonwealthRow) -> bool {
    &&& Some(p.date) == day_month_year_date_of(row.date@)
    &&& p.date.wf()
    &&& p.amount == row.amount
    &&& p.description@ == join_words(words(row.description@))
}

/// The row read from a Westpac record.
pub open spec fn parsed_westpac(p: ParsedRow, row: WestpacRow) -> bool {
    &&& Some(p.date) == day_month_year_date_of(row.date@)
    &&& p.date.wf()
    &&& p.amount.wf()
    &&& p.amount == decimal_difference(
        row.credit.unwrap_or(Amount::zero_spec()),
        row.debit.unwrap_or(Amount::zero_spec()),
    )
    &&& difference_fits(
        row.credit.unwrap_or(Amount::zero_spec()),
        row.debit.unwrap_or(Amount::zero_spec()),
    ) ==> p.amount.key() == row.credit.unwrap_or(Amount::zero_spec()).key() - row.debit.unwrap_or(
        Amount::zero_spec(),
    ).key()
    &&& p.description@ == join_words(words(row.narrative@))
}

/// The amounts of a Westpac row are ones rust_decimal holds, and rust_decimal's
/// `-` takes the debit from the credit without overflow.
pub open spec fn westpac_amounts_defined(row: WestpacRow) -> bool {
    &&& row.credit matches Some(c) ==> c.wf()
    &&& row.debit matches Some(d) ==> d.wf()
    &&& !difference_overflows(
        row.credit.unwrap_or(Amount::zero_spec()),
        row.debit.unwrap_or(Amount::zero_spec()),
    )
}

/// Whether a Westpac row's amounts are ones rust_decimal holds and its credit
/// less debit does not overflow (`westpac_amounts_defined`).
pub fn westpac_amounts_usable(row: &WestpacRow) -> (r: bool)
    ensures
        r == westpac_amounts_defined(*row),
{
    let limit: u128 = 0x1_0000_0000_0000_0000_0000_0000;
    let credit = match row.credit {
        Some(c) => c,
        None => Amount::zero(),
    };
    let debit = match row.debit {
        Some(d) => d,
        None => Amount::zero(),
    };
    if !(credit.magnitude < limit && credit.scale <= 28) || !(debit.magnitude < limit && debit.scale
        <= 28) {
        return false;
    }
    credit.checked_minus(&debit).is_some()
}

/// The rows of a Commonwealth statement, read from its records in order. The
/// first record that fails decides the error: one csv could not read, or one
/// whose date is not in day/month/year form.
pub fn parse_commonwealth(records: Vec<Result<CommonwealthRow, csv::Error>>) -> (r: Result<
    Vec<ParsedRow>,
    StatementError,
>)
    ensures
        r is Ok <==> forall|i: int| 0 <= i < records@.len() ==> commonwealth_record_ok(#[trigger] records@[i]),
        r matches Ok(rows) ==> rows@.len() == records@.len() && forall|i: int|
            0 <= i < rows@.len() ==> parsed_commonwealth(#[trigger] rows@[i], records@[i]->Ok_0),
        forall|i: int|
            0 <= i < records@.len() && !commonwealth_record_ok(#[trigger] records@[i]) && (forall|k: int|
                0 <= k < i ==> commonwealth_record_ok(records@[k])) ==> (if records@[i] is Err {
                r matches Err(StatementError::Read(_))
            } else {
                r matches Err(StatementError::Date(_))
            }),
{
    let ghost recs = records@;
    let mut rows: Vec<ParsedRow> = Vec::new();
    for record in it: records.into_iter()
        invariant
            it.seq() == recs,
            rows@.len() == it.index(),
            forall|k: int| 0 <= k < it.index() ==> commonwealth_record_ok(#[trigger] recs[k]),
            forall|k: int| 0 <= k < it.index() ==> parsed_commonwealth(#[trigger] rows@[k], recs[k]->Ok_0),
    {
        match record {
            Err(e) => return Err(StatementError::Read(e)),
            Ok(row) => match ParsedRow::from_commonwealth(row) {
                Ok(p) => rows.push(p),
                Err(e) => return Err(StatementError::Date(e)),
            },
        }
    }
    Ok(rows)
}

/// The rows of a Westpac statement, read from its records in order. The first
/// record that fails decides the error: one csv could not read, or one whose
/// date is not in day/month/year form. Credit less debit must not overflow in
/// any row (`westpac_amounts_defined`, which `westpac_amounts_usable` tests).
pub fn parse_westpac(records: Vec<Result<WestpacRow, csv::Error>>) -> (r: Result<
    Vec<ParsedRow>,
    StatementError,
>)
    requires
        forall|i: int|
            0 <= i < records@.len() ==> (#[trigger] records@[i] matches Ok(row) ==> westpac_amounts_defined(row)),
    ensures
        r is Ok <==> forall|i: int| 0 <= i < records@.len() ==> westpac_record_ok(#[trigger] records@[i]),
        r matches Ok(rows) ==> rows@.len() == records@.len() && forall|i: int|
            0 <= i < rows@.len() ==> parsed_westpac(#[trigger] rows@[i], records@[i]->Ok_0),
        forall|i: int|
            0 <= i < records@.len() && !westpac_record_ok(#[trigger] records@[i]) && (forall|k: int|
                0 <= k < i ==> westpac_record_ok(records@[k])) ==> (if records@[i] is Err {
                r matches Err(StatementError::Read(_))
            } else {
                r matches Err(StatementError::Date(_))
            }),
{
    let ghost recs = records@;
    let mut rows: Vec<ParsedRow> = Vec::new();
    for record in it: records.into_iter()
        invariant
            it.seq() == recs,
            forall|i: int| 0 <= i < recs.len() ==> (#[trigger] recs[i] matches Ok(row) ==> westpac_amounts_defined(row)),
            rows@.len() == it.index(),
            forall|k: int| 0 <= k < it.index() ==> westpac_record_ok(#[trigger] recs[k]),
            forall|k: int| 0 <= k < it.index() ==> parsed_westpac(#[trigger] rows@[k], recs[k]->Ok_0),
    {
        match record {
            Err(e) => return Err(StatementError::Read(e)),
            Ok(row) => match ParsedRow::from_westpac(row) {
                Ok(p) => rows.push(p),
                Err(e) => return Err(StatementError::Date(e)),
            },
        }
    }
    Ok(rows)
}

/// The date's number is the key by which transactions are ordered.
pub open spec fn date_key() -> spec_fn(NewTransaction) -> int {
    |t: NewTransaction| t.date.number()
}

/// Transactions are ordered by the number of their date.
impl SortKey for NewTransaction {
    open spec fn sort_key(&self) -> int {
        self.date.number()
    }

    open spec fn comparable(&self) -> bool {
        self.date.wf()
    }

    fn key_below(&self, other: &Self) -> (r: bool) {
        !other.date.on_or_before(&self.date)
    }
}

/// Orders transactions by date, keeping those of one date in their order.
pub fn sort_by_date(transactions: &mut Vec<NewTransaction>)
    requires
        forall|i: int| 0 <= i < old(transactions)@.len() ==> (#[trigger] old(transactions)@[i]).date.wf(),
    ensures
        stably_sorted(old(transactions)@, final(transactions)@, date_key()),
        final(transactions)@.len() == old(transactions)@.len(),
{
    stable_sort(transactions);
    assert(key_of::<NewTransaction>() =~= date_key());
}

/// The transactions made from rows: each row's date, amount and description,
/// its category by the rules, and the bank's name.
pub open spec fn made_from_rows(
    made: Seq<NewTransaction>,
    rows: Seq<ParsedRow>,
    rules: Seq<(Seq<char>, Seq<Seq<char>>, u32)>,
    bank: Bank,
) -> bool {
    &&& made.len() == rows.len()
    &&& forall|i: int|
        0 <= i < rows.len() ==> {
            &&& (#[trigger] made[i]).date == rows[i].date
            &&& made[i].amount == rows[i].amount
            &&& made[i].description@ == rows[i].description@
            &&& made[i].category@ == categorize_spec(rules, rows[i].description@)
            &&& made[i].bank@ == bank_name(bank)
        }
}

/// One transaction for each row, in the rows' order, categorised by the rules.
pub fn transactions_from_rows(rows: &Vec<ParsedRow>, categories: &Vec<Category>, bank: Bank) -> (r: Vec<NewTransaction>)
    ensures
        made_from_rows(r@, rows@, category_views(categories@), bank),
{
    let mut out: Vec<NewTransaction> = Vec::new();
    let n = rows.len();
    for i in 0..n
        invariant
            n == rows.len(),
            out.len() == i,
            forall|j: int|
                0 <= j < i ==> {
                    &&& (#[trigger] out@[j]).date == rows@[j].date
                    &&& out@[j].amount == rows@[j].amount
                    &&& out@[j].description@ == rows@[j].description@
                    &&& out@[j].category@ == categorize_spec(category_views(categories@), rows@[j].description@)
                    &&& out@[j].bank@ == bank_name(bank)
                },
    {
        let row = &rows[i];
        let category = categorizer(categories, row.description.as_str());
        let entry = NewTransaction {
            date: row.date,
            amount: row.amount,
            category,
            description: row.description.clone(),
            bank: String::from_str(bank.name()),
        };
        out.push(entry);
    }
    out
}

/// The transactions of an import: one for each row, categorised by the rules,
/// ordered by date (rows of one date keep their order).
pub fn prepare_import(rows: &Vec<ParsedRow>, categories: &Vec<Category>, bank: Bank) -> (r: Vec<NewTransaction>)
    requires
        forall|i: int| 0 <= i < rows.len() ==> (#[trigger] rows@[i]).date.wf(),
    ensures
        exists|made: Seq<NewTransaction>|
            made_from_rows(made, rows@, category_views(categories@), bank) && stably_sorted(
                made,
                r@,
                date_key(),
            ),
{
    let mut made = transactions_from_rows(rows, categories, bank);
    let ghost before = made@;
    assert forall|i: int| 0 <= i < made@.len() implies (#[trigger] made@[i]).date.wf() by {
        assert(made@[i].date == rows@[i].date);
    }
    sort_by_date(&mut made);
    assert(made_from_rows(before, rows@, category_views(categories@), bank));
    made
}

impl ImportSummary {
    /// The summary of an import that read `parsed` rows and stored `inserted`
    /// of them: the others were already stored.
    pub fn new(parsed: usize, inserted: usize, elapsed: std::time::Duration) -> (r: ImportSummary)
        requires
            inserted <= parsed,
        ensures
            r.parsed == parsed,
            r.inserted == inserted,
            r.duplicate == parsed - inserted,
            r.elapsed == elapsed,
    {
        ImportSummary { parsed, inserted, duplicate: parsed - inserted, elapsed }
    }
}

} // verus!
