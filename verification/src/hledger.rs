//! Which hledger executable the application runs.

use vstd::prelude::*;
use crate::settings::AppSettings;
use crate::text::{string_of, to_chars, trim, trim_of};

verus! {

/// The executable and where it came from: the configured path when one is
/// set, else the detected one, else plain `hledger` from the search path.
pub open spec fn spec_hledger_executable_with_source(configured: Seq<char>, detected: Option<Seq<char>>) -> (Seq<char>, Seq<char>) {
    if trim(configured).len() > 0 {
        (trim(configured), "configured"@)
    } else {
        match detected {
            Some(d) => (d, "detected"@),
            None => ("hledger"@, "fallback"@),
        }
    }
}

/// The hledger executable and its source, given what detection found on
/// this machine (consulted only when no path is configured).
pub fn hledger_executable_with_source(settings: &AppSettings, detected: Option<String>) -> (r: (String, String))
    ensures
        (r.0@, r.1@) == spec_hledger_executable_with_source(
            settings.hledger_path@,
            match detected { Some(d) => Some(d@), None => None },
        ),
{
    let c = to_chars(settings.hledger_path.as_str());
    let t = trim_of(&c);
    if t.len() > 0 {
        return (string_of(&t), "configured".to_owned());
    }
    match detected {
        Some(d) => (d, "detected".to_owned()),
        None => ("hledger".to_owned(), "fallback".to_owned()),
    }
}

/// The hledger executable to run.
pub fn hledger_executable(settings: &AppSettings, detected: Option<String>) -> (r: String)
    ensures
        r@ == spec_hledger_executable_with_source(
            settings.hledger_path@,
            match detected { Some(d) => Some(d@), None => None },
        ).0,
{
    hledger_executable_with_source(settings, detected).0
}

} // verus!
