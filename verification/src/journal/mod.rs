//! Journal text: data types, parsing and formatting of transaction blocks.

pub mod types;
pub mod util;
pub mod parser;
pub mod number;
pub mod format;
pub mod periodic;
pub mod recurrence;
pub mod routing;
pub mod summary;
pub mod loading;
pub mod transactions;
pub mod edit;
pub mod files;
pub mod autocomplete;
pub mod search;
pub mod ranking;
pub mod search_results;
pub mod round_trip;
pub mod rule_round_trip;
pub mod display;
pub mod long_division;
