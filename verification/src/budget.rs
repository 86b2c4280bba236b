//! The hledger command lines of reports, and the labels of budget columns.

use vstd::prelude::*;
use crate::app_error::string_views;
use crate::journal::search::{char_index_at, is_char_boundary};
use crate::sync::{byte_len_below, char_index_of_byte};
use crate::text::{byte_len, ends_with, ends_with_str, push_str, slice_of, string_of, to_chars};

verus! {

/// The dates a report is limited to.
#[derive(Debug, Clone, PartialEq, Eq)]
pub struct ReportDateRange {
    pub begin: Option<String>,
    pub end: Option<String>,
}

pub open spec fn opt_args(flag: Seq<char>, v: Option<String>) -> Seq<Seq<char>> {
    match v {
        Some(s) => seq![flag, s@],
        None => seq![],
    }
}

/// `-f <journal> balance --budget`, the begin and end dates when given, the
/// interval when not empty, then `-O json`.
pub open spec fn spec_budget_args(journal_path: Seq<char>, interval: Seq<char>, range: ReportDateRange) -> Seq<Seq<char>> {
    seq!["-f"@, journal_path, "balance"@, "--budget"@] + opt_args("-b"@, range.begin) + opt_args("-e"@, range.end)
        + (if interval.len() > 0 { seq![interval] } else { seq![] }) + seq!["-O"@, "json"@]
}

fn push_text(args: &mut Vec<String>, s: String)
    ensures
        string_views(final(args)@) == string_views(old(args)@).push(s@),
{
    args.push(s);
    assert(string_views(args@) =~= string_views(old(args)@).push(s@));
}

/// The arguments of `hledger balance --budget` for a journal, interval and
/// date range.
pub fn hledger_budget_args(journal_path: &str, interval: &str, date_range: &ReportDateRange) -> (r: Vec<String>)
    ensures
        string_views(r@) == spec_budget_args(journal_path@, interval@, *date_range),
{
    let mut args: Vec<String> = Vec::new();
    push_text(&mut args, "-f".to_owned());
    push_text(&mut args, journal_path.to_owned());
    push_text(&mut args, "balance".to_owned());
    push_text(&mut args, "--budget".to_owned());
    match &date_range.begin {
        Some(b) => {
            push_text(&mut args, "-b".to_owned());
            push_text(&mut args, b.clone());
        },
        None => {},
    }
    match &date_range.end {
        Some(e) => {
            push_text(&mut args, "-e".to_owned());
            push_text(&mut args, e.clone());
        },
        None => {},
    }
    if !interval.is_empty() {
        push_text(&mut args, interval.to_owned());
    }
    push_text(&mut args, "-O".to_owned());
    push_text(&mut args, "json".to_owned());
    assert(string_views(args@) =~= spec_budget_args(journal_path@, interval@, *date_range));
    args
}

/// `-f <journal> <report>`, the interval when not empty, `--valuechange` for
/// the balance sheet (`bs`) and cash flow (`cf`) reports, then
/// `-V --infer-market-prices -O json`.
pub open spec fn spec_report_args(journal_path: Seq<char>, report_type: Seq<char>, interval: Seq<char>) -> Seq<Seq<char>> {
    seq!["-f"@, journal_path, report_type] + (if interval.len() > 0 { seq![interval] } else { seq![] }) + (if report_type
        == "bs"@ || report_type == "cf"@ {
        seq!["--valuechange"@]
    } else {
        seq![]
    }) + seq!["-V"@, "--infer-market-prices"@, "-O"@, "json"@]
}

/// The arguments of an hledger report (`bs`, `cf`, `is`, ...) for a journal
/// and interval.
pub fn hledger_report_args(journal_path: &str, report_type: &str, interval: &str) -> (r: Vec<String>)
    ensures
        string_views(r@) == spec_report_args(journal_path@, report_type@, interval@),
{
    let mut args: Vec<String> = Vec::new();
    push_text(&mut args, "-f".to_owned());
    push_text(&mut args, journal_path.to_owned());
    push_text(&mut args, report_type.to_owned());
    if !interval.is_empty() {
        push_text(&mut args, interval.to_owned());
    }
    if crate::text::str_eq(report_type, "bs") || crate::text::str_eq(report_type, "cf") {
        push_text(&mut args, "--valuechange".to_owned());
    }
    push_text(&mut args, "-V".to_owned());
    push_text(&mut args, "--infer-market-prices".to_owned());
    push_text(&mut args, "-O".to_owned());
    push_text(&mut args, "json".to_owned());
    assert(string_views(args@) =~= spec_report_args(journal_path@, report_type@, interval@));
    args
}

/// The column label of a budget period from its start date: `YYYY-MM` when
/// it starts on the first of a month, else its first ten bytes; a start
/// under ten bytes as it is.
pub open spec fn spec_budget_period_label(start: Seq<char>) -> Seq<char> {
    if byte_len(start) >= 10 && ends_with(start, "-01"@) {
        start.take(char_index_at(start, 7))
    } else if byte_len(start) >= 10 {
        start.take(char_index_at(start, 10))
    } else {
        start
    }
}

/// The byte offsets that the label cuts at fall between characters.
pub open spec fn budget_label_defined(start: Seq<char>) -> bool {
    byte_len(start) >= 10 ==> (if ends_with(start, "-01"@) {
        is_char_boundary(start, 7)
    } else {
        is_char_boundary(start, 10)
    })
}

fn prefix_to_byte(s: &Vec<char>, b: usize) -> (r: Vec<char>)
    requires
        is_char_boundary(s@, b as int),
    ensures
        r@ == s@.take(char_index_at(s@, b as int)),
{
    let k = char_index_of_byte(s, b).unwrap();
    let r = slice_of(s, 0, k);
    assert(r@ =~= s@.take(k as int));
    r
}

/// The label of a budget report column.
pub fn budget_period_label(start: &str) -> (r: String)
    requires
        budget_label_defined(start@),
    ensures
        r@ == spec_budget_period_label(start@),
{
    let s = to_chars(start);
    if byte_len_below(&s, 10) {
        return start.to_owned();
    }
    if ends_with_str(&s, "-01") {
        string_of(&prefix_to_byte(&s, 7))
    } else {
        string_of(&prefix_to_byte(&s, 10))
    }
}

/// The column label of a report period: `YYYY-MM` when it starts on the
/// first of a month, else `start → end` when both are known, else the start.
pub open spec fn spec_report_period_label(start: Seq<char>, end: Seq<char>) -> Seq<char> {
    if byte_len(start) >= 7 && ends_with(start, "-01"@) {
        start.take(char_index_at(start, 7))
    } else if start.len() > 0 && end.len() > 0 {
        start + " \u{2192} "@ + end
    } else {
        start
    }
}

/// The byte offset that the label cuts at falls between characters.
pub open spec fn report_label_defined(start: Seq<char>) -> bool {
    byte_len(start) >= 7 && ends_with(start, "-01"@) ==> is_char_boundary(start, 7)
}

/// The label of a report column.
pub fn report_period_label(start: &str, end: &str) -> (r: String)
    requires
        report_label_defined(start@),
    ensures
        r@ == spec_report_period_label(start@, end@),
{
    let s = to_chars(start);
    if !byte_len_below(&s, 7) && ends_with_str(&s, "-01") {
        return string_of(&prefix_to_byte(&s, 7));
    }
    if s.len() > 0 && !end.is_empty() {
        let mut out = s;
        push_str(&mut out, " \u{2192} ");
        push_str(&mut out, end);
        return string_of(&out);
    }
    start.to_owned()
}

} // verus!
