use cashtrack::amount::Amount;
use cashtrack::calendar::Date;
use cashtrack::listing::{report_lines, sort_by_amount, transaction_lines, try_report_lines, try_transaction_lines};
use cashtrack::report::Report;
use cashtrack::transaction::Transaction;

fn amt(negative: bool, magnitude: u128, scale: u32) -> Amount {
    Amount { negative, magnitude, scale }
}

fn tx(id: i64, day: u32, amount: Amount, category: &str) -> Transaction {
    Transaction {
        id,
        date: Date { year: 2026, month: 8, day },
        amount,
        category: category.to_string(),
        description: format!("row {id}"),
        bank: "Commonwealth".to_string(),
    }
}

fn sample() -> Vec<Transaction> {
    vec![
        tx(1, 5, amt(true, 1750, 2), "Groceries"),
        tx(2, 1, amt(false, 10000, 1), "Salary"),
        tx(3, 3, amt(true, 2000, 2), "Groceries"),
        tx(4, 4, amt(false, 0, 0), "Misc"),
    ]
}

#[test]
fn empty_report_is_the_default() {
    let r = Report::new(Vec::new());
    assert_eq!(r.start_date, Date { year: 1970, month: 1, day: 1 });
    assert_eq!(r.end_date, Date { year: 1970, month: 1, day: 1 });
    assert!(r.total_inflow.is_zero());
    assert!(r.total_outflow.is_zero());
    assert!(r.categories_total_flow.is_empty());
    let d = Report::default();
    assert_eq!(d.start_date, r.start_date);
}

#[test]
fn report_spans_all_dates_and_totals_all_but_the_first() {
    let r = Report::new(sample());
    assert_eq!(r.start_date, Date { year: 2026, month: 8, day: 1 });
    assert_eq!(r.end_date, Date { year: 2026, month: 8, day: 5 });
    assert_eq!(r.total_inflow, amt(false, 10000, 1));
    assert_eq!(r.total_outflow, amt(true, 2000, 2));
    let names: Vec<&str> = r.categories_total_flow.iter().map(|c| c.0.as_str()).collect();
    assert_eq!(names, vec!["Salary", "Groceries", "Misc"]);
    assert_eq!(r.categories_total_flow[1].1, amt(true, 2000, 2));
    assert!(r.categories_total_flow[2].1.is_zero());
}

#[test]
fn single_transaction_only_sets_the_dates() {
    let r = Report::new(vec![tx(1, 9, amt(false, 5, 0), "Salary")]);
    assert_eq!(r.start_date, Date { year: 2026, month: 8, day: 9 });
    assert_eq!(r.end_date, Date { year: 2026, month: 8, day: 9 });
    assert!(r.total_inflow.is_zero());
    assert!(r.categories_total_flow.is_empty());
}

#[test]
fn category_totals_add_up() {
    let mut ts = sample();
    ts.push(tx(5, 2, amt(true, 250, 2), "Salary"));
    let r = Report::new(ts);
    assert_eq!(r.categories_total_flow[0].1.to_text(), "997.50");
    assert_eq!(r.total_outflow.to_text(), "-22.50");
}

#[test]
fn report_as_text() {
    let r = Report::new(sample());
    let lines = report_lines(&r);
    assert_eq!(
        lines,
        vec![
            "Report for August 01, 2026 to August 05, 2026",
            "Inflow  1,000.00",
            "Outflow -20.00",
            "Balance 1,020.00",
            "  Groceries: -20.00",
            "  Misc: 0",
            "  Salary: 1000.0",
        ]
    );
}

#[test]
fn sorting_categories_keeps_equal_totals_in_order() {
    let mut cats = vec![
        ("b".to_string(), amt(false, 5, 0)),
        ("a".to_string(), amt(true, 1, 0)),
        ("c".to_string(), amt(false, 50, 1)),
    ];
    sort_by_amount(&mut cats);
    let names: Vec<&str> = cats.iter().map(|c| c.0.as_str()).collect();
    assert_eq!(names, vec!["a", "b", "c"]);
}

#[test]
fn listing_of_transactions() {
    let lines = transaction_lines(&sample());
    assert_eq!(
        lines,
        vec![
            "2026-08-05 |    Outflow |  -17.50 | Groceries",
            "2026-08-01 |     Inflow | 1000.00 |    Salary",
            "2026-08-03 |    Outflow |  -20.00 | Groceries",
            "",
            "Total In:  $1,000.00",
            "Total Out: $37.50 ",
            "Remaining: $962.50",
        ]
    );
}

#[test]
fn listing_of_nothing_has_only_totals() {
    let lines = transaction_lines(&Vec::new());
    assert_eq!(lines, vec!["", "Total In:  $0.00", "Total Out: $0.00 ", "Remaining: $0.00"]);
}

#[test]
fn listing_pads_by_characters_to_byte_widths() {
    let ts = vec![tx(1, 1, amt(false, 1, 0), "Café"), tx(2, 2, amt(false, 1, 0), "Pub")];
    let lines = transaction_lines(&ts);
    assert_eq!(lines[0], "2026-08-01 |     Inflow | 1.00 |  Café");
    assert_eq!(lines[1], "2026-08-02 |     Inflow | 1.00 |   Pub");
}

#[test]
fn large_amounts_are_listed() {
    let e = 4 * 10u128.pow(28);
    let ts = vec![tx(1, 1, amt(false, e, 0), "a"), tx(2, 2, amt(true, e, 0), "b")];
    let lines = try_transaction_lines(&ts).unwrap();
    assert_eq!(lines[5], "Remaining: $0.00");
    assert_eq!(lines[3], "Total In:  $40,000,000,000,000,000,000,000,000,000.00");
}

#[test]
fn sums_that_round_are_listed_and_reported() {
    let ts = vec![
        tx(1, 1, amt(false, 1, 0), "a"),
        tx(2, 2, amt(false, 100000, 2), "a"),
        tx(3, 3, amt(false, 1, 28), "a"),
    ];
    let lines = transaction_lines(&ts);
    assert_eq!(lines[4], "Total In:  $1,001.00");
    let r = Report::new(ts);
    assert_eq!(lines.len(), 7);
    assert_eq!(report_lines(&r)[1], "Inflow  1,000.00");
}

#[test]
fn overflowing_sums_give_none() {
    let e = 7 * 10u128.pow(28);
    let ts = vec![
        tx(1, 1, amt(false, 1, 0), "a"),
        tx(2, 2, amt(false, e, 0), "a"),
        tx(3, 3, amt(false, e, 0), "b"),
    ];
    assert!(try_transaction_lines(&ts).is_none());
    assert!(Report::try_new(ts).is_none());
    let mixed = vec![
        tx(1, 1, amt(false, 1, 0), "a"),
        tx(2, 2, amt(false, e, 0), "a"),
        tx(3, 3, amt(true, e, 0), "b"),
    ];
    let r = Report::try_new(mixed).unwrap();
    assert!(try_report_lines(&r).is_none());
}

#[test]
fn equal_money_in_and_out_leaves_zero() {
    let ts = vec![tx(1, 1, amt(false, 1000, 2), "Pay"), tx(2, 2, amt(true, 10, 0), "Rent")];
    let lines = transaction_lines(&ts);
    assert_eq!(lines[5], "Remaining: $0.00");
    assert_eq!(lines[4], "Total Out: $10.00 ");
}

#[test]
fn category_total_keeps_two_places() {
    let ts = vec![
        tx(1, 1, amt(false, 1, 0), "Pay"),
        tx(2, 2, amt(true, 1750, 2), "Groceries"),
        tx(3, 3, amt(false, 3, 0), "Groceries"),
    ];
    let r = Report::new(ts);
    let lines = report_lines(&r);
    assert_eq!(lines[3], "Balance 20.50");
    assert_eq!(lines[4], "  Groceries: -14.50");
}
