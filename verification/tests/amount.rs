use cashtrack::amount::{format_decimal, Amount};
use cashtrack::transaction::Direction;

fn amt(negative: bool, magnitude: u128, scale: u32) -> Amount {
    Amount { negative, magnitude, scale }
}

#[test]
fn format_decimal_groups_thousands_and_pads_cents() {
    assert_eq!(format_decimal(amt(false, 12345, 1)), "1,234.50");
    assert_eq!(format_decimal(amt(false, 12, 0)), "12.00");
    assert_eq!(format_decimal(amt(true, 1234567891, 3)), "-1,234,567.89");
    assert_eq!(format_decimal(amt(false, 999999, 3)), "1,000.00");
    assert_eq!(format_decimal(amt(false, 0, 0)), "0.00");
    assert_eq!(format_decimal(amt(false, 100, 0)), "100.00");
    assert_eq!(format_decimal(amt(false, 123456, 0)), "123,456.00");
}

#[test]
fn format_decimal_rounds_half_to_even() {
    assert_eq!(format_decimal(amt(false, 15, 3)), "0.02");
    assert_eq!(format_decimal(amt(false, 25, 3)), "0.02");
    assert_eq!(format_decimal(amt(false, 26, 3)), "0.03");
    assert_eq!(format_decimal(amt(true, 1, 3)), "0.00");
    assert_eq!(format_decimal(amt(true, 5, 3)), "0.00");
    assert_eq!(format_decimal(amt(true, 6, 3)), "-0.01");
}

#[test]
fn plus_and_minus_compute_values() {
    let a = amt(false, 1750, 2);
    let b = amt(true, 5, 1);
    let s = a.plus(&b);
    assert_eq!(s.to_text(), "17.00");
    let d = a.minus(&b);
    assert_eq!(d.to_text(), "18.00");
    let z = Amount::zero().minus(&amt(false, 55, 1));
    assert_eq!(z, amt(true, 55, 1));
}

#[test]
fn signs_and_comparison() {
    assert!(amt(false, 1, 2).is_positive());
    assert!(amt(true, 1, 2).is_negative());
    assert!(amt(true, 0, 2).is_zero());
    assert!(amt(true, 1, 0).less_than(&amt(false, 1, 5)));
    assert!(!amt(false, 10, 1).less_than(&amt(false, 100, 2)));
    assert_eq!(amt(true, 7, 1).abs(), amt(false, 7, 1));
}

#[test]
fn texts_of_amounts() {
    assert_eq!(amt(true, 1750, 2).to_text(), "-17.50");
    assert_eq!(amt(false, 10000, 1).to_two_place_text(), "1000.00");
    assert_eq!(amt(false, 12345, 3).to_two_place_text(), "12.34");
    assert_eq!(amt(false, 5, 3).to_text(), "0.005");
    assert_eq!(amt(false, 1235, 3).round_cents(), amt(false, 124, 2));
    assert_eq!(amt(true, 4, 3).round_cents(), amt(false, 0, 2));
    assert_eq!(amt(true, 125, 3).round_cents(), amt(true, 12, 2));
}

#[test]
fn direction_follows_sign() {
    assert_eq!(Direction::from(amt(false, 1, 0)), Direction::Inflow);
    assert_eq!(Direction::from(amt(true, 1, 0)), Direction::Outflow);
    assert_eq!(Direction::from(amt(true, 0, 2)), Direction::Noflow);
    assert_eq!(Direction::Outflow.name(), "Outflow");
}

#[test]
fn sums_follow_rust_decimal() {
    assert_eq!(amt(true, 1450, 2).plus(&amt(false, 0, 0)), amt(true, 1450, 2));
    assert_eq!(amt(false, 0, 3).plus(&amt(true, 145, 1)), amt(true, 145, 1));
    assert_eq!(amt(true, 145, 1).plus(&amt(false, 5, 2)), amt(true, 1445, 2));
    assert_eq!(amt(true, 5, 1).plus(&amt(false, 50, 2)), amt(false, 0, 2));
    assert_eq!(amt(false, 0, 0).minus(&amt(false, 0, 0)), amt(false, 0, 0));
    assert_eq!(amt(false, 1000, 2).minus(&amt(false, 10, 0)), amt(false, 0, 2));
}

#[test]
fn checked_sums_round_or_overflow_as_rust_decimal_does() {
    let big = amt(false, 7 * 10u128.pow(28), 0);
    assert_eq!(big.checked_plus(&big), None);
    assert_eq!(big.checked_minus(&amt(true, 7 * 10u128.pow(28), 0)), None);
    let s = amt(false, 100000, 2).checked_plus(&amt(false, 1, 28)).unwrap();
    assert_eq!(format_decimal(s), "1,000.00");
    assert!(s.scale < 28);
    assert_eq!(amt(false, 5, 0).checked_minus(&amt(false, 5, 0)), Some(amt(false, 0, 0)));
}
