use cashtrack::calendar::Date;
use cashtrack::cli::{range_for, run, Cli, Command, Task};
use cashtrack::import::Bank;
use cashtrack::period::{DateRange, TimePeriod};
use std::path::PathBuf;

fn d(y: i32, m: u32, day: u32) -> Date {
    Date { year: y, month: m, day }
}

fn today() -> Date {
    d(2026, 8, 5)
}

#[test]
fn no_subcommand_browses_the_year() {
    match run(Cli { command: None }, today()) {
        Task::Browse { period, range } => {
            assert_eq!(period, TimePeriod::Yearly);
            assert_eq!(range, DateRange::new(d(2026, 1, 1), d(2026, 12, 31)));
        },
        _ => panic!("expected to browse"),
    }
}

#[test]
fn list_with_a_period_lists_its_range() {
    let cli = Cli { command: Some(Command::List { time_period: Some(TimePeriod::Monthly) }) };
    match run(cli, today()) {
        Task::List { range } => assert_eq!(range, Some(DateRange::new(d(2026, 8, 1), d(2026, 8, 31)))),
        _ => panic!("expected a listing"),
    }
}

#[test]
fn report_without_a_period_covers_everything() {
    let cli = Cli { command: Some(Command::Report { time_period: None }) };
    match run(cli, today()) {
        Task::Report { range } => assert_eq!(range, None),
        _ => panic!("expected a report"),
    }
    let weekly = Cli { command: Some(Command::Report { time_period: Some(TimePeriod::Weekly) }) };
    match run(weekly, today()) {
        Task::Report { range } => assert_eq!(range, Some(DateRange::new(d(2026, 8, 3), d(2026, 8, 9)))),
        _ => panic!("expected a report"),
    }
}

#[test]
fn import_passes_path_and_bank_on() {
    let cli = Cli {
        command: Some(Command::Import { csv_path: PathBuf::from("a/b.csv"), bank: Bank::Westpac }),
    };
    match run(cli, today()) {
        Task::Import { csv_path, bank } => {
            assert_eq!(csv_path, PathBuf::from("a/b.csv"));
            assert_eq!(bank, Bank::Westpac);
        },
        _ => panic!("expected an import"),
    }
}

#[test]
fn range_for_a_period() {
    assert_eq!(range_for(None, today()), None);
    assert_eq!(
        range_for(Some(TimePeriod::Fortnightly), today()),
        Some(DateRange::new(d(2026, 7, 27), d(2026, 8, 9)))
    );
}

#[test]
fn ranges_are_checked_for_the_period_needed() {
    use_ranges();
}

fn use_ranges() {
    let late = d(262142, 12, 5);
    assert!(cashtrack::cli::ranges_defined_on(&Cli { command: None }, late));
    let monthly = Cli { command: Some(Command::List { time_period: Some(TimePeriod::Monthly) }) };
    assert!(!cashtrack::cli::ranges_defined_on(&monthly, late));
    assert!(cashtrack::cli::ranges_defined_on(&monthly, today()));
    let all = Cli { command: Some(Command::Report { time_period: None }) };
    assert!(cashtrack::cli::ranges_defined_on(&all, late));
}
