use cashtrack::amount::Amount;
use cashtrack::calendar::Date;
use cashtrack::config::Category;
use cashtrack::import::{
    parse_commonwealth, parse_westpac, prepare_import, sort_by_date, Bank, CommonwealthRow,
    ImportSummary, ParsedRow, StatementError, WestpacRow,
};
use cashtrack::transaction::NewTransaction;

fn amt(negative: bool, magnitude: u128, scale: u32) -> Amount {
    Amount { negative, magnitude, scale }
}

fn date(year: i32, month: u32, day: u32) -> Date {
    Date { year, month, day }
}

fn cba(date: &str, amount: Amount, description: &str) -> CommonwealthRow {
    CommonwealthRow { date: date.to_string(), amount, description: description.to_string() }
}

fn wbc(date: &str, debit: Option<Amount>, credit: Option<Amount>) -> WestpacRow {
    WestpacRow {
        date: date.to_string(),
        narrative: "  DEPOSIT   ONLINE\tTRANSFER ".to_string(),
        debit,
        credit,
    }
}

#[test]
fn banks_and_headers() {
    assert!(!Bank::Commonwealth.has_headers());
    assert!(Bank::Westpac.has_headers());
    assert_eq!(Bank::Commonwealth.name(), "Commonwealth");
    assert_eq!(Bank::Westpac.name(), "Westpac");
}

#[test]
fn commonwealth_row_is_read() {
    let p = ParsedRow::from_commonwealth(cba("31/07/2026", amt(true, 1750, 2), "WOOLWORTHS  2764   NERANG")).unwrap();
    assert_eq!(p.date, date(2026, 7, 31));
    assert_eq!(p.amount, amt(true, 1750, 2));
    assert_eq!(p.description, "WOOLWORTHS 2764 NERANG");
}

#[test]
fn commonwealth_row_with_iso_date_is_refused() {
    assert!(ParsedRow::from_commonwealth(cba("2026-07-31", amt(false, 1, 0), "x")).is_err());
    assert!(ParsedRow::from_commonwealth(cba("31/02/2026", amt(false, 1, 0), "x")).is_err());
}

#[test]
fn westpac_amount_is_credit_less_debit() {
    let p = ParsedRow::from_westpac(wbc("01/08/2026", None, Some(amt(false, 10000, 2)))).unwrap();
    assert_eq!(p.amount, amt(false, 10000, 2));
    assert_eq!(p.description, "DEPOSIT ONLINE TRANSFER");
    assert_eq!(p.date, date(2026, 8, 1));
    let q = ParsedRow::from_westpac(wbc("02/08/2026", Some(amt(false, 55, 1)), None)).unwrap();
    assert_eq!(q.amount, amt(true, 55, 1));
    let r = ParsedRow::from_westpac(wbc("02/08/2026", Some(amt(false, 55, 1)), Some(amt(false, 1000, 2)))).unwrap();
    assert_eq!(r.amount.to_text(), "4.50");
    let z = ParsedRow::from_westpac(wbc("02/08/2026", None, None)).unwrap();
    assert!(z.amount.is_zero());
}

#[test]
fn commonwealth_statement_is_read_in_order() {
    let rows = parse_commonwealth(vec![
        Ok(cba("02/08/2026", amt(false, 5, 0), "B")),
        Ok(cba("01/08/2026", amt(true, 3, 0), "A")),
    ])
    .unwrap();
    assert_eq!(rows.len(), 2);
    assert_eq!(rows[0].date, date(2026, 8, 2));
    assert_eq!(rows[1].description, "A");
}

#[test]
fn first_failing_record_decides_the_error() {
    let bad_date = parse_commonwealth(vec![
        Ok(cba("01/08/2026", amt(false, 5, 0), "A")),
        Ok(cba("2026-08-02", amt(false, 5, 0), "B")),
    ]);
    assert!(matches!(bad_date, Err(StatementError::Date(_))));
    let empty = parse_westpac(Vec::new()).unwrap();
    assert!(empty.is_empty());
    let westpac = parse_westpac(vec![
        Ok(wbc("03/08/2026", Some(amt(false, 1, 0)), None)),
        Ok(wbc("not a date", None, None)),
    ]);
    assert!(matches!(westpac, Err(StatementError::Date(_))));
}

fn rules() -> Vec<Category> {
    vec![Category::new("groceries".to_string(), vec!["woolworths".to_string()], 1)]
}

fn parsed(day: u32, cents: u128, description: &str) -> ParsedRow {
    ParsedRow { date: date(2026, 8, day), amount: amt(true, cents, 2), description: description.to_string() }
}

#[test]
fn import_categorises_and_orders_by_date_stably() {
    let rows = vec![
        parsed(5, 100, "WOOLWORTHS 1"),
        parsed(3, 200, "EasyPark"),
        parsed(5, 300, "other"),
        parsed(1, 400, "WOOLWORTHS 2"),
    ];
    let made: Vec<NewTransaction> = prepare_import(&rows, &rules(), Bank::Westpac);
    let days: Vec<u32> = made.iter().map(|t| t.date.day).collect();
    assert_eq!(days, vec![1, 3, 5, 5]);
    let cents: Vec<u128> = made.iter().map(|t| t.amount.magnitude).collect();
    assert_eq!(cents, vec![400, 200, 100, 300]);
    let cats: Vec<&str> = made.iter().map(|t| t.category.as_str()).collect();
    assert_eq!(cats, vec!["groceries", "Unknown", "groceries", "Unknown"]);
    assert!(made.iter().all(|t| t.bank == "Westpac"));
    assert_eq!(made[0].description, "WOOLWORTHS 2");
}

#[test]
fn sort_by_date_keeps_equal_dates_in_order() {
    let mut ts: Vec<NewTransaction> = [(9, "a"), (2, "b"), (9, "c"), (2, "d")]
        .iter()
        .map(|(day, d)| NewTransaction {
            date: date(2026, 1, *day),
            amount: Amount::zero(),
            category: String::new(),
            description: d.to_string(),
            bank: String::new(),
        })
        .collect();
    sort_by_date(&mut ts);
    let order: Vec<&str> = ts.iter().map(|t| t.description.as_str()).collect();
    assert_eq!(order, vec!["b", "d", "a", "c"]);
}

#[test]
fn summary_counts_duplicates() {
    let s = ImportSummary::new(10, 7, std::time::Duration::from_millis(12));
    assert_eq!(s.parsed, 10);
    assert_eq!(s.inserted, 7);
    assert_eq!(s.duplicate, 3);
    assert_eq!(s.elapsed.as_millis(), 12);
}
