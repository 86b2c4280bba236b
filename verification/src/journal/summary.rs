//! The dashboard's view of a journal: the transactions of the current month
//! up to today, those still scheduled in it, and how many accounts they touch.

use vstd::prelude::*;
use crate::app_error::string_views;
use crate::calendar::{date_le, date_not_after, iso_date_format, parse_date, parsed_date, CalDate};
use crate::journal::types::JournalTransaction;
use crate::text::{lowercase, str_eq, to_lower};

verus! {

/// A journal date (`YYYY-MM-DD`) as a day, where it parses.
pub open spec fn journal_date(value: Seq<char>) -> Option<(int, int, int)> {
    match parsed_date(value, iso_date_format()) {
        Ok(d) => Some(d),
        Err(_) => None,
    }
}

/// Reads a journal date.
pub fn parse_journal_date(value: &str) -> (r: Option<CalDate>)
    ensures
        match journal_date(value@) {
            Some(d) => r matches Some(x) && x@ == d && x.valid(),
            None => r is None,
        },
{
    match parse_date(value, "%Y-%m-%d") {
        Ok(d) => Some(d),
        Err(_) => None,
    }
}

/// A transaction dated in the month of `today`: on or before today, or
/// (`later`) after it.
pub open spec fn in_current_month(date: Seq<char>, today: (int, int, int), later: bool) -> bool {
    match journal_date(date) {
        Some(d) => d.0 == today.0 && d.1 == today.1 && (if later { !date_le(d, today) } else { date_le(d, today) }),
        None => false,
    }
}

fn is_current_month(date: &str, today: &CalDate, later: bool) -> (r: bool)
    ensures
        r == in_current_month(date@, today@, later),
{
    match parse_journal_date(date) {
        Some(d) => {
            let not_after = date_not_after(&d, today);
            d.year == today.year && d.month == today.month && (if later { !not_after } else { not_after })
        },
        None => false,
    }
}

/// Whether a transaction belongs to the current month up to today.
pub fn is_in_current_month_to_date(transaction: &JournalTransaction, today: &CalDate) -> (r: bool)
    ensures
        r == in_current_month(transaction.date@, today@, false),
{
    is_current_month(transaction.date.as_str(), today, false)
}

/// Whether a transaction is scheduled later in the current month.
pub fn is_scheduled_this_month(transaction: &JournalTransaction, today: &CalDate) -> (r: bool)
    ensures
        r == in_current_month(transaction.date@, today@, true),
{
    is_current_month(transaction.date.as_str(), today, true)
}

/// The dashboard's transaction groups.
#[derive(Debug, Clone, PartialEq, Eq)]
pub struct DashboardSummary {
    pub monthly_transactions: Vec<JournalTransaction>,
    pub scheduled_transactions: Vec<JournalTransaction>,
    pub active_accounts_count: usize,
}

/// The transactions of a month group, in their order.
pub open spec fn month_group(ts: Seq<JournalTransaction>, today: (int, int, int), later: bool) -> Seq<JournalTransaction>
    decreases ts.len(),
{
    if ts.len() == 0 {
        seq![]
    } else {
        let rest = month_group(ts.drop_last(), today, later);
        if in_current_month(ts.last().date@, today, later) {
            rest.push(ts.last())
        } else {
            rest
        }
    }
}

/// The lowercase account names of the postings of the transactions, in order.
pub open spec fn posting_accounts(ts: Seq<JournalTransaction>) -> Seq<Seq<char>>
    decreases ts.len(),
{
    if ts.len() == 0 {
        seq![]
    } else {
        posting_accounts(ts.drop_last()) + ts.last().postings@.map_values(|p: crate::journal::types::JournalPosting| lowercase(p.account@))
    }
}

/// The texts without repeats, each at its first place.
pub open spec fn distinct_texts(s: Seq<Seq<char>>) -> Seq<Seq<char>>
    decreases s.len(),
{
    if s.len() == 0 {
        seq![]
    } else {
        let d = distinct_texts(s.drop_last());
        if d.contains(s.last()) { d } else { d.push(s.last()) }
    }
}

fn add_distinct(seen: &mut Vec<String>, s: String)
    ensures
        string_views(final(seen)@) == (if string_views(old(seen)@).contains(s@) {
            string_views(old(seen)@)
        } else {
            string_views(old(seen)@).push(s@)
        }),
{
    let mut i: usize = 0;
    while i < seen.len()
        invariant
            0 <= i <= seen.len(),
            forall|k: int| 0 <= k < i ==> (#[trigger] seen[k])@ != s@,
        decreases seen.len() - i,
    {
        if str_eq(seen[i].as_str(), s.as_str()) {
            assert(string_views(seen@)[i as int] == s@);
            return;
        }
        i += 1;
    }
    assert(!string_views(seen@).contains(s@)) by {
        assert forall|k: int| 0 <= k < string_views(seen@).len() implies string_views(seen@)[k] != s@ by {
            assert(string_views(seen@)[k] == seen[k]@);
        }
    }
    let ghost before = string_views(seen@);
    seen.push(s);
    assert(string_views(seen@) =~= before.push(s@));
}

/// Adds the lowercase accounts of a transaction's postings to the accounts seen.
fn add_accounts(seen: &mut Vec<String>, t: &JournalTransaction, Ghost(prefix): Ghost<Seq<Seq<char>>>)
    requires
        string_views(old(seen)@) == distinct_texts(prefix),
    ensures
        string_views(final(seen)@) == distinct_texts(prefix + t.postings@.map_values(|p: crate::journal::types::JournalPosting| lowercase(p.account@))),
{
    let ghost accts = t.postings@.map_values(|p: crate::journal::types::JournalPosting| lowercase(p.account@));
    let mut i: usize = 0;
    while i < t.postings.len()
        invariant
            0 <= i <= t.postings.len(),
            accts == t.postings@.map_values(|p: crate::journal::types::JournalPosting| lowercase(p.account@)),
            string_views(seen@) == distinct_texts(prefix + accts.take(i as int)),
        decreases t.postings.len() - i,
    {
        let lower = to_lower(t.postings[i].account.as_str());
        assert((prefix + accts.take(i as int + 1)).drop_last() =~= prefix + accts.take(i as int));
        assert((prefix + accts.take(i as int + 1)).last() == lower@);
        add_distinct(seen, lower);
        i += 1;
    }
    assert(accts.take(t.postings.len() as int) =~= accts);
}

/// The dashboard groups of the transactions as of `today`: those of the
/// current month up to today, those later in it, and the number of distinct
/// accounts (case-insensitively) that their postings name.
pub fn build_dashboard_summary(transactions: Vec<JournalTransaction>, today: &CalDate) -> (r: DashboardSummary)
    ensures
        r.monthly_transactions@ == month_group(transactions@, today@, false),
        r.scheduled_transactions@ == month_group(transactions@, today@, true),
        r.active_accounts_count == distinct_texts(posting_accounts(
            month_group(transactions@, today@, false) + month_group(transactions@, today@, true),
        )).len(),
{
    let ghost all = transactions@;
    assert(all.len() == transactions.len());
    let mut rest = transactions;
    let mut monthly: Vec<JournalTransaction> = Vec::new();
    let mut scheduled: Vec<JournalTransaction> = Vec::new();
    let mut i: usize = 0;
    while rest.len() > 0
        invariant
            rest@ == all.skip(i as int),
            0 <= i <= all.len(),
            all.len() <= usize::MAX,
            monthly@ == month_group(all.take(i as int), today@, false),
            scheduled@ == month_group(all.take(i as int), today@, true),
        decreases rest.len(),
    {
        let t = rest.remove(0);
        assert(all.take(i as int + 1).drop_last() =~= all.take(i as int));
        assert(all.take(i as int + 1).last() == t);
        if is_in_current_month_to_date(&t, today) {
            monthly.push(t);
        } else if is_scheduled_this_month(&t, today) {
            scheduled.push(t);
        }
        i += 1;
        assert(rest@ =~= all.skip(i as int));
    }
    assert(all.take(i as int) =~= all);
    let mut seen: Vec<String> = Vec::new();
    let ghost groups = monthly@ + scheduled@;
    let mut k: usize = 0;
    while k < monthly.len()
        invariant
            0 <= k <= monthly.len(),
            groups == monthly@ + scheduled@,
            string_views(seen@) == distinct_texts(posting_accounts(groups.take(k as int))),
        decreases monthly.len() - k,
    {
        assert(monthly[k as int] == groups[k as int]);
        assert(groups.take(k as int + 1).drop_last() =~= groups.take(k as int));
        add_accounts(&mut seen, &monthly[k], Ghost(posting_accounts(groups.take(k as int))));
        k += 1;
    }
    let mut j: usize = 0;
    while j < scheduled.len()
        invariant
            0 <= j <= scheduled.len(),
            groups == monthly@ + scheduled@,
            string_views(seen@) == distinct_texts(posting_accounts(groups.take(monthly.len() + j))),
        decreases scheduled.len() - j,
    {
        let ghost n = monthly.len() + j;
        assert(scheduled[j as int] == groups[n]);
        assert(groups.take(n + 1).drop_last() =~= groups.take(n));
        add_accounts(&mut seen, &scheduled[j], Ghost(posting_accounts(groups.take(n))));
        j += 1;
    }
    assert(groups.take(groups.len() as int) =~= groups);
    assert(string_views(seen@).len() == seen.len());
    DashboardSummary { monthly_transactions: monthly, scheduled_transactions: scheduled, active_accounts_count: seen.len() }
}

/// The dashboard's groups hold exactly the transactions of the current month
/// up to today, and exactly those later in the month.
pub proof fn law_dashboard_groups(ts: Seq<JournalTransaction>, today: (int, int, int), later: bool)
    ensures
        forall|i: int| 0 <= i < month_group(ts, today, later).len() ==> in_current_month(
            (#[trigger] month_group(ts, today, later)[i]).date@,
            today,
            later,
        ),
        forall|i: int| 0 <= i < ts.len() && in_current_month((#[trigger] ts[i]).date@, today, later) ==> month_group(
            ts,
            today,
            later,
        ).contains(ts[i]),
    decreases ts.len(),
{
    if ts.len() > 0 {
        law_dashboard_groups(ts.drop_last(), today, later);
        let rest = month_group(ts.drop_last(), today, later);
        let g = month_group(ts, today, later);
        assert forall|i: int| 0 <= i < g.len() implies in_current_month((#[trigger] g[i]).date@, today, later) by {
            if i < rest.len() {
                assert(g[i] == rest[i]);
            }
        }
        assert forall|i: int| 0 <= i < ts.len() && in_current_month((#[trigger] ts[i]).date@, today, later) implies g.contains(ts[i]) by {
            if i < ts.len() - 1 {
                assert(ts.drop_last()[i] == ts[i]);
                let k = choose|k: int| 0 <= k < rest.len() && rest[k] == ts[i];
                if in_current_month(ts.last().date@, today, later) {
                    assert(g[k] == ts[i]);
                }
            } else {
                assert(g[rest.len() as int] == ts[i]);
            }
        }
    }
}

} // verus!
