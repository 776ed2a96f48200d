//! Personal finance tracking: calendar periods, decimal amounts, categorisation
//! of bank transactions, statement rows, reports and the text shown for them.

pub mod amount;
pub mod browser;
pub mod calendar;
pub mod categorizer;
pub mod cli;
pub mod config;
pub mod import;
pub mod listing;
pub mod order;
pub mod period;
pub mod report;
pub mod text;
pub mod transaction;

pub use crate::cli::run;
