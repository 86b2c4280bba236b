//! Journal handling for an hledger desktop client: parsing of journal text,
//! amount styles, transaction validation and routing of new entries.

pub mod text;
pub mod app_error;
pub mod settings;
pub mod hledger;
pub mod updates;
pub mod logs;
pub mod accounts;
pub mod budget;
pub mod calendar;
pub mod sync;
pub mod journal;
pub mod amount_format;
pub mod amount_style;
