//! Which dates of a recurring rule are due: the rule's window up to the end of
//! the current month, its occurrences in that window, and those of them that
//! no generated transaction has yet.

use vstd::prelude::*;
use crate::app_error::string_views;
use crate::calendar::{
    date_le, date_not_after, date_views, format_date, is_occurrence_list, iso_date_format, iso_date_text,
    last_day_of_month, month_end, parse_date, parsed_date, recurrence_dates, CalDate, Recurrence, days_after,
    months_later, next_occurrence, year_later,
};
use crate::journal::types::{PeriodicRule, PeriodicRuleSpec};
use crate::text::{lowercase, push_str, str_eq, string_of, to_chars, to_lower, trim, trim_of};
use crate::updates::{lemma_text_order_flip, lemma_text_order_transitive, lemma_text_order_eq, text_order, text_order_of};

verus! {

/// The built-in period names and how each steps.
pub open spec fn recurrence_of(p: Seq<char>) -> Option<Recurrence> {
    if p == "daily"@ {
        Some(Recurrence::Days(1))
    } else if p == "weekly"@ {
        Some(Recurrence::Days(7))
    } else if p == "biweekly"@ {
        Some(Recurrence::Days(14))
    } else if p == "monthly"@ {
        Some(Recurrence::Months(1))
    } else if p == "bimonthly"@ {
        Some(Recurrence::Months(2))
    } else if p == "quarterly"@ {
        Some(Recurrence::Months(3))
    } else if p == "yearly"@ {
        Some(Recurrence::Yearly)
    } else {
        None
    }
}

/// The step of a built-in period name.
pub fn recurrence_for(p: &str) -> (r: Option<Recurrence>)
    ensures
        r == recurrence_of(p@),
{
    if str_eq(p, "daily") {
        Some(Recurrence::Days(1))
    } else if str_eq(p, "weekly") {
        Some(Recurrence::Days(7))
    } else if str_eq(p, "biweekly") {
        Some(Recurrence::Days(14))
    } else if str_eq(p, "monthly") {
        Some(Recurrence::Months(1))
    } else if str_eq(p, "bimonthly") {
        Some(Recurrence::Months(2))
    } else if str_eq(p, "quarterly") {
        Some(Recurrence::Months(3))
    } else if str_eq(p, "yearly") {
        Some(Recurrence::Yearly)
    } else {
        None
    }
}

/// The occurrences of a rule, or the period expression (trimmed and in lower
/// case) where hledger has to work them out.
#[derive(Debug, Clone, PartialEq, Eq)]
pub enum Occurrences {
    Dates(Vec<CalDate>),
    Custom(String),
}

/// The period expression as the occurrence code reads it.
pub open spec fn normalized_period(period: Seq<char>) -> Seq<char> {
    lowercase(trim(period))
}

/// The dates on which a rule with a built-in period occurs from `start` up to
/// `end`; other periods are handed back for hledger.
pub fn generate_occurrences(start: &CalDate, period: &str, end: &CalDate) -> (r: Occurrences)
    requires
        start.valid(),
        end.valid(),
    ensures
        match recurrence_of(normalized_period(period@)) {
            Some(kind) => r matches Occurrences::Dates(ds) && is_occurrence_list(date_views(ds@), kind, start@, end@)
                && forall|i: int| 0 <= i < ds.len() ==> (#[trigger] ds[i]).valid(),
            None => r matches Occurrences::Custom(p) && p@ == normalized_period(period@),
        },
{
    let trimmed = string_of(&trim_of(&to_chars(period)));
    let normalized = to_lower(trimmed.as_str());
    occurrences_of_normalized(start, normalized, end)
}

/// The occurrences from `start` up to `end` of a rule whose period
/// expression is already trimmed and in lower case: dates for a built-in
/// period, else the expression itself for hledger.
pub fn occurrences_of_normalized(start: &CalDate, normalized: String, end: &CalDate) -> (r: Occurrences)
    requires
        start.valid(),
        end.valid(),
    ensures
        match recurrence_of(normalized@) {
            Some(kind) => r matches Occurrences::Dates(ds) && is_occurrence_list(date_views(ds@), kind, start@, end@)
                && forall|i: int| 0 <= i < ds.len() ==> (#[trigger] ds[i]).valid(),
            None => r matches Occurrences::Custom(p) && p@ == normalized@,
        },
{
    match recurrence_for(normalized.as_str()) {
        Some(kind) => Occurrences::Dates(recurrence_dates(&kind, start, end)),
        None => Occurrences::Custom(normalized),
    }
}

/// The ISO texts of dates.
pub fn format_dates(dates: &Vec<CalDate>) -> (r: Vec<String>)
    requires
        forall|i: int| 0 <= i < dates.len() ==> (#[trigger] dates[i]).valid(),
    ensures
        r.len() == dates.len(),
        forall|i: int| 0 <= i < r.len() ==> (#[trigger] r[i])@ == iso_date_text(dates[i].year as int, dates[i].month as int, dates[i].day as int),
{
    let mut out: Vec<String> = Vec::new();
    let mut i: usize = 0;
    while i < dates.len()
        invariant
            0 <= i <= dates.len(),
            out.len() == i,
            forall|k: int| 0 <= k < dates.len() ==> (#[trigger] dates[k]).valid(),
            forall|k: int| 0 <= k < i ==> (#[trigger] out[k])@ == iso_date_text(dates[k].year as int, dates[k].month as int, dates[k].day as int),
        decreases dates.len() - i,
    {
        out.push(format_date(&dates[i], "%Y-%m-%d"));
        i += 1;
    }
    out
}

/// A rule's date text that is there and not blank.
pub open spec fn given_date(d: Option<Seq<char>>) -> Option<Seq<char>> {
    match d {
        Some(s) => if trim(s).len() > 0 { Some(trim(s)) } else { None },
        None => None,
    }
}

/// The end of a rule's window: the end of the current month, or the rule's
/// own end date where that parses and is earlier.
pub open spec fn window_end(end_date: Option<Seq<char>>, today: (int, int, int)) -> (int, int, int) {
    let eom = month_end(today);
    match given_date(end_date) {
        Some(e) => match parsed_date(e, iso_date_format()) {
            Ok(p) => if date_le(p, eom) { p } else { eom },
            Err(_) => eom,
        },
        None => eom,
    }
}

pub open spec fn invalid_start_message(start: Seq<char>, error: Seq<char>) -> Seq<char> {
    "Invalid start date '"@ + start + "': "@ + error
}

/// The days between which a rule's occurrences are due: none without a start
/// date or when the start is after the window's end; an error when the start
/// date does not parse.
pub open spec fn rule_window(rule: PeriodicRuleSpec, today: (int, int, int)) -> Result<
    Option<((int, int, int), (int, int, int))>,
    Seq<char>,
> {
    match given_date(rule.start_date) {
        None => Ok(None),
        Some(s) => match parsed_date(s, iso_date_format()) {
            Err(e) => Err(invalid_start_message(rule.start_date->0, e)),
            Ok(start) => {
                let end = window_end(rule.end_date, today);
                if date_le(start, end) {
                    Ok(Some((start, end)))
                } else {
                    Ok(None)
                }
            },
        },
    }
}

pub open spec fn window_view(r: Result<Option<(CalDate, CalDate)>, String>) -> Result<
    Option<((int, int, int), (int, int, int))>,
    Seq<char>,
> {
    match r {
        Ok(Some((s, e))) => Ok(Some((s@, e@))),
        Ok(None) => Ok(None),
        Err(m) => Err(m@),
    }
}

fn given_date_of(d: &Option<String>) -> (r: Option<String>)
    ensures
        match given_date(crate::journal::types::opt_text(*d)) {
            Some(t) => r matches Some(x) && x@ == t,
            None => r is None,
        },
{
    match d {
        Some(s) => {
            let t = trim_of(&to_chars(s.as_str()));
            if t.len() > 0 {
                Some(string_of(&t))
            } else {
                None
            }
        },
        None => None,
    }
}

/// The window of days in which a rule's occurrences are due, as of `today`.
pub fn pending_window(rule: &PeriodicRule, today: &CalDate) -> (r: Result<Option<(CalDate, CalDate)>, String>)
    requires
        today.valid(),
    ensures
        window_view(r) == rule_window(rule@, today@),
        r matches Ok(Some((s, e))) ==> s.valid() && e.valid(),
{
    let start_text = match given_date_of(&rule.start_date) {
        Some(t) => t,
        None => return Ok(None),
    };
    let start = match parse_date(start_text.as_str(), "%Y-%m-%d") {
        Ok(d) => d,
        Err(e) => {
            let raw = match &rule.start_date {
                Some(s) => s,
                None => return Ok(None),
            };
            let mut msg: Vec<char> = Vec::new();
            push_str(&mut msg, "Invalid start date '");
            push_str(&mut msg, raw.as_str());
            push_str(&mut msg, "': ");
            push_str(&mut msg, e.as_str());
            return Err(string_of(&msg));
        },
    };
    let mut end = last_day_of_month(today);
    match given_date_of(&rule.end_date) {
        Some(t) => {
            match parse_date(t.as_str(), "%Y-%m-%d") {
                Ok(p) => {
                    if date_not_after(&p, &end) {
                        end = p;
                    }
                },
                Err(_) => {},
            }
        },
        None => {},
    }
    if !date_not_after(&start, &end) {
        return Ok(None);
    }
    Ok(Some((start, end)))
}

/// The dates of `all` that `done` does not hold, in their order.
pub open spec fn not_done(all: Seq<Seq<char>>, done: Seq<Seq<char>>) -> Seq<Seq<char>>
    decreases all.len(),
{
    if all.len() == 0 {
        seq![]
    } else {
        let rest = not_done(all.drop_last(), done);
        if done.contains(all.last()) {
            rest
        } else {
            rest.push(all.last())
        }
    }
}

fn holds_text(items: &Vec<String>, s: &str) -> (r: bool)
    ensures
        r == string_views(items@).contains(s@),
{
    let mut i: usize = 0;
    while i < items.len()
        invariant
            0 <= i <= items.len(),
            forall|k: int| 0 <= k < i ==> (#[trigger] items[k])@ != s@,
        decreases items.len() - i,
    {
        if str_eq(items[i].as_str(), s) {
            assert(string_views(items@)[i as int] == s@);
            return true;
        }
        i += 1;
    }
    assert forall|k: int| 0 <= k < string_views(items@).len() implies string_views(items@)[k] != s@ by {
        assert(string_views(items@)[k] == items[k]@);
    }
    false
}

/// The occurrence dates that have no generated transaction yet.
pub fn pending_dates(all_dates: &Vec<String>, generated: &Vec<String>) -> (r: Vec<String>)
    ensures
        string_views(r@) == not_done(string_views(all_dates@), string_views(generated@)),
{
    let mut out: Vec<String> = Vec::new();
    let mut i: usize = 0;
    while i < all_dates.len()
        invariant
            0 <= i <= all_dates.len(),
            string_views(out@) == not_done(string_views(all_dates@).take(i as int), string_views(generated@)),
        decreases all_dates.len() - i,
    {
        let ghost prefix = string_views(all_dates@).take(i as int + 1);
        assert(prefix.drop_last() =~= string_views(all_dates@).take(i as int));
        assert(prefix.last() == all_dates[i as int]@);
        if !holds_text(generated, all_dates[i].as_str()) {
            out.push(all_dates[i].clone());
            assert(string_views(out@) =~= not_done(prefix, string_views(generated@)));
        }
        i += 1;
    }
    assert(string_views(all_dates@).take(all_dates.len() as int) =~= string_views(all_dates@));
    out
}

/// Texts in strictly increasing character order.
pub open spec fn strictly_sorted(s: Seq<Seq<char>>) -> bool {
    forall|i: int, j: int| 0 <= i < j < s.len() ==> text_order(#[trigger] s[i], #[trigger] s[j], 0) < 0
}

/// The texts that are there, of a list of optional texts.
pub open spec fn present_texts(s: Seq<Option<Seq<char>>>) -> Set<Seq<char>> {
    Set::new(|t: Seq<char>| s.contains(Some(t)))
}

/// The name for the `tdate` fields, where they are texts, of the entries of a
/// JSON array (none where the text is no such array).
pub uninterp spec fn json_tdate_fields(json: Seq<char>) -> Seq<Option<Seq<char>>>;

pub open spec fn opt_string_views(v: Seq<Option<String>>) -> Seq<Option<Seq<char>>> {
    v.map_values(|o: Option<String>| crate::journal::types::opt_text(o))
}

/// `serde_json::from_str::<Vec<serde_json::Value>>` on hledger's JSON output
/// (an empty list where it is no JSON array), then each entry's `tdate` field
/// where that is a string. The result depends on the text alone.
#[verifier::external_body]
fn tdate_fields(json: &str) -> (r: Vec<Option<String>>)
    ensures
        opt_string_views(r@) == json_tdate_fields(json@),
{
    let parsed: Vec<serde_json::Value> = serde_json::from_str(json).unwrap_or_default();
    parsed.iter().map(|entry| entry.get("tdate").and_then(|d| d.as_str()).map(|d| d.to_string())).collect()
}

/// Inserts a text into a strictly sorted list unless the list holds it.
fn insert_sorted_unique(out: &mut Vec<String>, s: String)
    requires
        strictly_sorted(string_views(old(out)@)),
    ensures
        strictly_sorted(string_views(final(out)@)),
        string_views(final(out)@).to_set() == string_views(old(out)@).to_set().insert(s@),
{
    let sc = to_chars(s.as_str());
    let mut p: usize = 0;
    while p < out.len()
        invariant
            0 <= p <= out.len(),
            sc@ == s@,
            forall|k: int| 0 <= k < p ==> text_order((#[trigger] out[k])@, s@, 0) < 0,
        ensures
            0 <= p <= out.len(),
            forall|k: int| 0 <= k < p ==> text_order((#[trigger] out[k])@, s@, 0) < 0,
            p < out.len() ==> text_order(out[p as int]@, s@, 0) >= 0,
        decreases out.len() - p,
    {
        let oc = to_chars(out[p].as_str());
        let o = text_order_of(&oc, &sc);
        if o >= 0 {
            break;
        }
        p += 1;
    }
    let ghost before = string_views(out@);
    if p < out.len() {
        let oc = to_chars(out[p].as_str());
        if text_order_of(&oc, &sc) == 0 {
            proof {
                lemma_text_order_eq(out[p as int]@, s@);
                assert(before[p as int] == s@);
                assert(before.to_set().insert(s@) =~= before.to_set());
            }
            return;
        }
    }
    out.insert(p, s);
    proof {
        let after = string_views(out@);
        assert(after =~= before.insert(p as int, sc@));
        assert forall|i: int, j: int| 0 <= i < j < after.len() implies text_order(#[trigger] after[i], #[trigger] after[j], 0) < 0 by {
            if j < p {
                assert(after[i] == before[i] && after[j] == before[j]);
            } else if j == p {
                assert(after[i] == before[i] && after[i] == out[i]@);
            } else if i == p {
                assert(after[j] == before[j - 1]);
                assert(text_order(before[p as int], s@, 0) > 0);
                lemma_text_order_flip(before[p as int], s@);
                if j - 1 > p {
                    lemma_text_order_transitive(s@, before[p as int], before[j - 1], 0);
                }
            } else if i < p {
                assert(after[i] == before[i] && after[j] == before[j - 1]);
                if j - 1 == i {
                } else {
                }
            } else {
                assert(after[i] == before[i - 1] && after[j] == before[j - 1]);
            }
        }
        assert(after.to_set() =~= before.to_set().insert(s@)) by {
            assert forall|x: Seq<char>| after.contains(x) implies before.to_set().insert(s@).contains(x) by {
                let k = choose|k: int| 0 <= k < after.len() && after[k] == x;
                if k < p {
                    assert(before[k] == x);
                } else if k > p {
                    assert(before[k - 1] == x);
                }
            }
            assert forall|x: Seq<char>| before.to_set().insert(s@).contains(x) implies after.contains(x) by {
                if x == s@ {
                    assert(after[p as int] == x);
                } else {
                    let k = choose|k: int| 0 <= k < before.len() && before[k] == x;
                    if k < p {
                        assert(after[k] == x);
                    } else {
                        assert(after[k + 1] == x);
                    }
                }
            }
        }
    }
}

/// The dates that hledger's JSON `print` output names, sorted, each once.
pub fn printed_dates(json: &str) -> (r: Vec<String>)
    ensures
        strictly_sorted(string_views(r@)),
        string_views(r@).to_set() == present_texts(json_tdate_fields(json@)),
{
    let fields = tdate_fields(json);
    sorted_dates(&fields)
}

/// The dates that are there among the `tdate` fields of hledger's entries,
/// sorted, each once.
pub fn sorted_dates(fields: &Vec<Option<String>>) -> (r: Vec<String>)
    ensures
        strictly_sorted(string_views(r@)),
        string_views(r@).to_set() == present_texts(opt_string_views(fields@)),
{
    let mut out: Vec<String> = Vec::new();
    let mut i: usize = 0;
    while i < fields.len()
        invariant
            0 <= i <= fields.len(),
            strictly_sorted(string_views(out@)),
            string_views(out@).to_set() == present_texts(opt_string_views(fields@).take(i as int)),
        decreases fields.len() - i,
    {
        let ghost prev = opt_string_views(fields@).take(i as int);
        let ghost next = opt_string_views(fields@).take(i as int + 1);
        assert(next =~= prev.push(opt_string_views(fields@)[i as int]));
        match &fields[i] {
            Some(d) => {
                insert_sorted_unique(&mut out, d.clone());
                assert(present_texts(next) =~= present_texts(prev).insert(d@)) by {
                    assert(next[i as int] == Some(d@));
                    assert forall|t: Seq<char>| present_texts(next).contains(t) implies present_texts(prev).insert(d@).contains(t) by {
                        let k = choose|k: int| 0 <= k < next.len() && next[k] == Some(t);
                        if k < i {
                            assert(prev[k] == Some(t));
                        }
                    }
                    assert forall|t: Seq<char>| present_texts(prev).insert(d@).contains(t) implies present_texts(next).contains(t) by {
                        if t == d@ {
                            assert(next[i as int] == Some(t));
                        } else {
                            let k = choose|k: int| 0 <= k < prev.len() && prev[k] == Some(t);
                            assert(next[k] == Some(t));
                        }
                    }
                }
            },
            None => {
                assert(present_texts(next) =~= present_texts(prev)) by {
                    assert(next[i as int] == None::<Seq<char>>);
                    assert forall|t: Seq<char>| present_texts(next).contains(t) implies present_texts(prev).contains(t) by {
                        let k = choose|k: int| 0 <= k < next.len() && next[k] == Some(t);
                        if k < i {
                            assert(prev[k] == Some(t));
                        }
                    }
                    assert forall|t: Seq<char>| present_texts(prev).contains(t) implies present_texts(next).contains(t) by {
                        let k = choose|k: int| 0 <= k < prev.len() && prev[k] == Some(t);
                        assert(next[k] == Some(t));
                    }
                }
            },
        }
        i += 1;
    }
    assert(opt_string_views(fields@).take(fields.len() as int) =~= opt_string_views(fields@));
    out
}

/// The pending dates are exactly the occurrence dates that no generated
/// transaction has.
pub proof fn law_pending_dates_exclude_generated(all: Seq<Seq<char>>, done: Seq<Seq<char>>)
    ensures
        forall|x: Seq<char>| #[trigger] not_done(all, done).contains(x) <==> all.contains(x) && !done.contains(x),
    decreases all.len(),
{
    if all.len() > 0 {
        law_pending_dates_exclude_generated(all.drop_last(), done);
        let rest = not_done(all.drop_last(), done);
        assert forall|x: Seq<char>| #[trigger] not_done(all, done).contains(x) <==> all.contains(x) && !done.contains(x) by {
            let front = all.drop_last();
            assert(rest.contains(x) <==> front.contains(x) && !done.contains(x));
            assert(all.contains(x) <==> front.contains(x) || all.last() == x) by {
                if all.contains(x) {
                    let m = choose|m: int| 0 <= m < all.len() && all[m] == x;
                    if m < all.len() - 1 {
                        assert(front[m] == x);
                    }
                }
                if front.contains(x) {
                    let m = choose|m: int| 0 <= m < front.len() && front[m] == x;
                    assert(all[m] == x);
                }
                if all.last() == x {
                    assert(all[all.len() - 1] == x);
                }
            }
            if !done.contains(all.last()) {
                assert(rest.push(all.last()).contains(x) <==> rest.contains(x) || all.last() == x) by {
                    if rest.push(all.last()).contains(x) {
                        let k = choose|k: int| 0 <= k < rest.len() + 1 && rest.push(all.last())[k] == x;
                        if k < rest.len() {
                            assert(rest[k] == x);
                        }
                    }
                    if rest.contains(x) {
                        let k = choose|k: int| 0 <= k < rest.len() && rest[k] == x;
                        assert(rest.push(all.last())[k] == x);
                    }
                    if all.last() == x {
                        assert(rest.push(all.last())[rest.len() as int] == x);
                    }
                }
            }
        }
    }
}


proof fn lemma_day_steps(r: Seq<(int, int, int)>, n: u32, start: (int, int, int), end: (int, int, int))
    requires
        is_occurrence_list(r, Recurrence::Days(n), start, end),
    ensures
        forall|i: int| 0 <= i < r.len() - 1 ==> #[trigger] r[i + 1] == days_after(r[i], n as nat),
{
    assert forall|i: int| 0 <= i < r.len() - 1 implies #[trigger] r[i + 1] == days_after(r[i], n as nat) by {
        assert(next_occurrence(Recurrence::Days(n), start, r[i]) == Some(r[i + 1]));
    }
}

proof fn lemma_month_steps(r: Seq<(int, int, int)>, n: u32, start: (int, int, int), end: (int, int, int))
    requires
        is_occurrence_list(r, Recurrence::Months(n), start, end),
    ensures
        forall|i: int| 0 <= i < r.len() - 1 ==> #[trigger] r[i + 1] == months_later(r[i], n as int, start.2),
{
    assert forall|i: int| 0 <= i < r.len() - 1 implies #[trigger] r[i + 1] == months_later(r[i], n as int, start.2) by {
        assert(next_occurrence(Recurrence::Months(n), start, r[i]) == Some(r[i + 1]));
    }
}

proof fn lemma_year_steps(r: Seq<(int, int, int)>, start: (int, int, int), end: (int, int, int))
    requires
        is_occurrence_list(r, Recurrence::Yearly, start, end),
    ensures
        forall|i: int| 0 <= i < r.len() - 1 ==> Some(#[trigger] r[i + 1]) == year_later(r[i], start.1, start.2),
{
    assert forall|i: int| 0 <= i < r.len() - 1 implies Some(#[trigger] r[i + 1]) == year_later(r[i], start.1, start.2) by {
        assert(next_occurrence(Recurrence::Yearly, start, r[i]) == Some(r[i + 1]));
    }
}

proof fn lemma_recurrence_names()
    ensures
        recurrence_of("daily"@) == Some(Recurrence::Days(1)),
        recurrence_of("weekly"@) == Some(Recurrence::Days(7)),
        recurrence_of("biweekly"@) == Some(Recurrence::Days(14)),
        recurrence_of("monthly"@) == Some(Recurrence::Months(1)),
        recurrence_of("bimonthly"@) == Some(Recurrence::Months(2)),
        recurrence_of("quarterly"@) == Some(Recurrence::Months(3)),
        recurrence_of("yearly"@) == Some(Recurrence::Yearly),
{
    reveal_strlit("daily");
    reveal_strlit("weekly");
    reveal_strlit("biweekly");
    reveal_strlit("monthly");
    reveal_strlit("bimonthly");
    reveal_strlit("quarterly");
    reveal_strlit("yearly");
    assert("daily"@.len() == 5 && "weekly"@.len() == 6 && "biweekly"@.len() == 8 && "monthly"@.len() == 7);
    assert("bimonthly"@.len() == 9 && "quarterly"@.len() == 9 && "yearly"@.len() == 6);
    assert("quarterly"@[0] != "bimonthly"@[0]);
    assert("yearly"@[0] != "weekly"@[0]);
}

/// The built-in periods step as their names say: every occurrence after the
/// first is 1 day after the one before for `daily`, 7 days for `weekly`, 14
/// days for `biweekly`; 1, 2 and 3 months on the start's day (or the
/// month's last day) for `monthly`, `bimonthly` and `quarterly`; one year on
/// the start's month and day for `yearly`. Other names are not built in.
#[verifier::spinoff_prover]
pub proof fn law_builtin_periods_step(
    period: Seq<char>,
    r: Seq<(int, int, int)>,
    start: (int, int, int),
    end: (int, int, int),
)
    requires
        recurrence_of(period) is Some,
        is_occurrence_list(r, recurrence_of(period)->0, start, end),
    ensures
        period == "daily"@ ==> forall|i: int| 0 <= i < r.len() - 1 ==> #[trigger] r[i + 1] == days_after(r[i], 1),
        period == "weekly"@ ==> forall|i: int| 0 <= i < r.len() - 1 ==> #[trigger] r[i + 1] == days_after(r[i], 7),
        period == "biweekly"@ ==> forall|i: int| 0 <= i < r.len() - 1 ==> #[trigger] r[i + 1] == days_after(r[i], 14),
        period == "monthly"@ ==> forall|i: int| 0 <= i < r.len() - 1 ==> #[trigger] r[i + 1] == months_later(r[i], 1, start.2),
        period == "bimonthly"@ ==> forall|i: int| 0 <= i < r.len() - 1 ==> #[trigger] r[i + 1] == months_later(r[i], 2, start.2),
        period == "quarterly"@ ==> forall|i: int| 0 <= i < r.len() - 1 ==> #[trigger] r[i + 1] == months_later(r[i], 3, start.2),
        period == "yearly"@ ==> forall|i: int| 0 <= i < r.len() - 1 ==> Some(#[trigger] r[i + 1]) == year_later(r[i], start.1, start.2),
        period == "daily"@ || period == "weekly"@ || period == "biweekly"@ || period == "monthly"@ || period
            == "bimonthly"@ || period == "quarterly"@ || period == "yearly"@,
{
    lemma_recurrence_names();
    if period == "daily"@ {
        lemma_day_steps(r, 1, start, end);
    } else if period == "weekly"@ {
        lemma_day_steps(r, 7, start, end);
    } else if period == "biweekly"@ {
        lemma_day_steps(r, 14, start, end);
    } else if period == "monthly"@ {
        lemma_month_steps(r, 1, start, end);
    } else if period == "bimonthly"@ {
        lemma_month_steps(r, 2, start, end);
    } else if period == "quarterly"@ {
        lemma_month_steps(r, 3, start, end);
    } else if period == "yearly"@ {
        lemma_year_steps(r, start, end);
    }
}

} // verus!
