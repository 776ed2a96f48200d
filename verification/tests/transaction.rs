use cashtrack::amount::Amount;
use cashtrack::calendar::Date;
use cashtrack::transaction::{RowError, Transaction, TransactionDbRow};

fn row(date: &str, amount: &str) -> TransactionDbRow {
    TransactionDbRow {
        id: 7,
        date: date.to_string(),
        amount: amount.to_string(),
        category: "Groceries".to_string(),
        description: "WOOLWORTHS 2764 NERANG".to_string(),
        bank: "Commonwealth".to_string(),
    }
}

#[test]
fn stored_row_becomes_transaction() {
    let t = Transaction::from_db_row(row("2026-08-04", "-17.50")).unwrap();
    assert_eq!(t.id, 7);
    assert_eq!(t.date, Date { year: 2026, month: 8, day: 4 });
    assert_eq!(t.amount, Amount { negative: true, magnitude: 1750, scale: 2 });
    assert_eq!(t.category, "Groceries");
    assert_eq!(t.description, "WOOLWORTHS 2764 NERANG");
    assert_eq!(t.bank, "Commonwealth");
}

#[test]
fn stored_row_with_bad_date_is_refused() {
    assert!(matches!(Transaction::from_db_row(row("04/08/2026", "1")), Err(RowError::Date(_))));
    assert!(matches!(Transaction::from_db_row(row("2026-02-30", "1")), Err(RowError::Date(_))));
}

#[test]
fn stored_row_with_bad_amount_is_refused() {
    assert!(matches!(Transaction::from_db_row(row("2026-08-04", "abc")), Err(RowError::Amount(_))));
}

#[test]
fn date_error_comes_before_amount_error() {
    assert!(matches!(Transaction::from_db_row(row("x", "y")), Err(RowError::Date(_))));
}
