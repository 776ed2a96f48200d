//! The command line: what each invocation asks for, and what it then does.

use crate::calendar::Date;
use crate::import::Bank;
use crate::period::{range_containing_defined, range_containing_spec, DateRange, TimePeriod};
use std::path::PathBuf;
use vstd::prelude::*;

verus! {

/// std's path type, carried through unread.
#[verifier::external_type_specification]
#[verifier::external_body]
pub struct ExPathBuf(PathBuf);

/// A parsed command line: a subcommand, or none to browse.
pub struct Cli {
    pub command: Option<Command>,
}

/// The subcommands.
pub enum Command {
    /// Report on the transactions of a period (of all of them without one).
    Report { time_period: Option<TimePeriod> },
    /// List the transactions of a period (all of them without one).
    List { time_period: Option<TimePeriod> },
    /// Import a bank's statement.
    Import { csv_path: PathBuf, bank: Bank },
}

/// What an invocation does.
pub enum Task {
    /// Browse the transactions of a period's range, interactively.
    Browse { period: TimePeriod, range: DateRange },
    /// List the transactions in the range (all of them for none).
    List { range: Option<DateRange> },
    /// Report on the transactions in the range (all of them for none).
    Report { range: Option<DateRange> },
    /// Import the statement at the path, read as the bank's.
    Import { csv_path: PathBuf, bank: Bank },
}

/// The period an invocation needs the range of, if any: its subcommand's, or
/// a year's for browsing.
pub open spec fn period_needed(cli: Cli) -> Option<TimePeriod> {
    match cli.command {
        None => Some(TimePeriod::Yearly),
        Some(Command::Report { time_period }) => time_period,
        Some(Command::List { time_period }) => time_period,
        Some(Command::Import { .. }) => None,
    }
}

/// The range of the period that contains `today`, if a period is given.
pub open spec fn range_for_spec(period: Option<TimePeriod>, today: Date) -> Option<DateRange> {
    match period {
        Some(p) => Some(range_containing_spec(p, today)),
        None => None,
    }
}

/// The range of the period that contains `today`, if a period is given.
pub fn range_for(period: Option<TimePeriod>, today: Date) -> (r: Option<DateRange>)
    requires
        period matches Some(p) ==> range_containing_defined(p, today),
    ensures
        r == range_for_spec(period, today),
        r matches Some(range) ==> range.wf(),
{
    match period {
        Some(p) => Some(p.range_containing(today)),
        None => None,
    }
}

/// Whether the range an invocation needs on `today` exists in the library's
/// calendar: the range of its period around today, where it needs one.
pub fn ranges_defined_on(cli: &Cli, today: Date) -> (r: bool)
    requires
        today.wf(),
    ensures
        r == (period_needed(*cli) matches Some(p) ==> range_containing_defined(p, today)),
{
    let period = match &cli.command {
        None => Some(TimePeriod::Yearly),
        Some(Command::Report { time_period }) => *time_period,
        Some(Command::List { time_period }) => *time_period,
        Some(Command::Import { .. }) => None,
    };
    match period {
        Some(p) => p.has_range_around(today),
        None => true,
    }
}

/// What an invocation does on `today`: with no subcommand, browse the year
/// that contains today; list or report on the range of the given period that
/// contains today (on everything without a period); or import the statement.
pub fn run(cli: Cli, today: Date) -> (r: Task)
    requires
        today.wf(),
        period_needed(cli) matches Some(p) ==> range_containing_defined(p, today),
    ensures
        match cli.command {
            None => r == Task::Browse {
                period: TimePeriod::Yearly,
                range: range_containing_spec(TimePeriod::Yearly, today),
            },
            Some(Command::Report { time_period }) => r == Task::Report {
                range: range_for_spec(time_period, today),
            },
            Some(Command::List { time_period }) => r == Task::List {
                range: range_for_spec(time_period, today),
            },
            Some(Command::Import { csv_path, bank }) => r == Task::Import { csv_path, bank },
        },
{
    match cli.command {
        None => Task::Browse {
            period: TimePeriod::Yearly,
            range: TimePeriod::Yearly.range_containing(today),
        },
        Some(Command::Report { time_period }) => Task::Report { range: range_for(time_period, today) },
        Some(Command::List { time_period }) => Task::List { range: range_for(time_period, today) },
        Some(Command::Import { csv_path, bank }) => Task::Import { csv_path, bank },
    }
}

} // verus!
