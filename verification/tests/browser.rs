use cashtrack::amount::Amount;
use cashtrack::browser::{heading, key_action, row_cells, Action, KeyCode, KeyPress, Modifiers, PAGE};
use cashtrack::calendar::Date;
use cashtrack::period::TimePeriod;
use cashtrack::transaction::Transaction;

const NONE: Modifiers = Modifiers { shift: false, control: false, alt: false, other: false };
const CONTROL: Modifiers = Modifiers { shift: false, control: true, alt: false, other: false };
const ALT: Modifiers = Modifiers { shift: false, control: false, alt: true, other: false };

fn press(code: KeyCode, modifiers: Modifiers) -> KeyPress {
    KeyPress { code, modifiers, is_press: true }
}

#[test]
fn keys_quit() {
    assert_eq!(key_action(press(KeyCode::Char('q'), NONE)), Action::Quit);
    assert_eq!(key_action(press(KeyCode::Esc, ALT)), Action::Quit);
    assert_eq!(key_action(press(KeyCode::Char('c'), CONTROL)), Action::Quit);
    assert_eq!(key_action(press(KeyCode::Char('c'), NONE)), Action::Nothing);
    let control_shift = Modifiers { shift: true, ..CONTROL };
    assert_eq!(key_action(press(KeyCode::Char('c'), control_shift)), Action::Nothing);
}

#[test]
fn keys_move_the_selection() {
    assert_eq!(key_action(press(KeyCode::Down, NONE)), Action::SelectNext);
    assert_eq!(key_action(press(KeyCode::Char('j'), NONE)), Action::SelectNext);
    assert_eq!(key_action(press(KeyCode::Up, CONTROL)), Action::SelectPrevious);
    assert_eq!(key_action(press(KeyCode::Char('k'), NONE)), Action::SelectPrevious);
    assert_eq!(key_action(press(KeyCode::Home, NONE)), Action::SelectFirst);
    assert_eq!(key_action(press(KeyCode::Char('g'), NONE)), Action::SelectFirst);
    assert_eq!(key_action(press(KeyCode::End, NONE)), Action::SelectLast);
    assert_eq!(key_action(press(KeyCode::Char('G'), NONE)), Action::SelectLast);
    assert_eq!(key_action(press(KeyCode::Other, NONE)), Action::Nothing);
}

#[test]
fn alt_arrows_scroll_a_page() {
    assert_eq!(PAGE, 10);
    assert_eq!(key_action(press(KeyCode::Down, ALT)), Action::ScrollDown(10));
    assert_eq!(key_action(press(KeyCode::Up, ALT)), Action::ScrollUp(10));
}

#[test]
fn released_keys_do_nothing() {
    let k = KeyPress { code: KeyCode::Char('q'), modifiers: NONE, is_press: false };
    assert_eq!(key_action(k), Action::Nothing);
}

#[test]
fn heading_names_period_and_range() {
    let today = Date { year: 2026, month: 8, day: 5 };
    let range = TimePeriod::Monthly.range_containing(today);
    assert_eq!(heading(TimePeriod::Monthly, Some(range)), "Monthly · 01 Aug 2026 – 31 Aug 2026");
    assert_eq!(heading(TimePeriod::Yearly, None), "All time");
}

#[test]
fn cells_of_a_row() {
    let t = Transaction {
        id: 1,
        date: Date { year: 2026, month: 8, day: 4 },
        amount: Amount { negative: true, magnitude: 1750, scale: 2 },
        category: "Groceries".to_string(),
        description: "WOOLWOTHS 2764 NERANG".to_string(),
        bank: "Commonwealth".to_string(),
    };
    let c = row_cells(&t);
    assert_eq!(c.date, "2026-08-04");
    assert_eq!(c.amount, "-17.50");
    assert!(c.negative);
    assert_eq!(c.category, "Groceries");
    assert_eq!(c.description, "WOOLWOTHS 2764 NERANG");
    let income = Transaction { amount: Amount { negative: false, magnitude: 10000, scale: 1 }, ..t };
    let c = row_cells(&income);
    assert_eq!(c.amount, "1000.00");
    assert!(!c.negative);
}
