//! Grouping accounts for the accounts overview.

use vstd::prelude::*;
use crate::app_error::string_views;
use crate::calendar::{date_le, date_not_after, date_sub_days, days_before, is_calendar_date, CalDate};
use crate::journal::files::split_on;
use crate::journal::summary::{journal_date, parse_journal_date};
use crate::updates::{
    lemma_text_order_eq, lemma_text_order_flip, lemma_text_order_transitive, parse_u64, parse_u64_chars, text_order,
    text_order_of,
};
use crate::journal::types::{same_transaction, JournalPosting, JournalTransaction};
use crate::text::{
    chars_eq, views, str_eq, char_pred, eq_ignore_ascii_case, eq_ignore_ascii_case_of, find_char, first_match, lemma_first_match_props, lowercase, slice_of, string_of, to_chars, to_lower, trim, trim_of};

verus! {

/// The overview group of an account root (already lowercase).
pub open spec fn group_of_root(root: Seq<char>) -> Seq<char> {
    if root == "asset"@ || root == "assets"@ {
        "assets"@
    } else if root == "liability"@ || root == "liabilities"@ || root == "debt"@ || root == "debts"@ {
        "liabilities"@
    } else if root == "equity"@ {
        "equity"@
    } else if root == "income"@ || root == "revenue"@ || root == "revenues"@ {
        "income"@
    } else if root == "expense"@ || root == "expenses"@ {
        "expenses"@
    } else {
        "other"@
    }
}

/// The first segment of an account name, trimmed and in lowercase.
pub open spec fn account_root(account: Seq<char>) -> Seq<char> {
    let k = first_match(account, char_pred(':'));
    lowercase(trim(if k < 0 { account } else { account.take(k) }))
}

fn is(v: &Vec<char>, s: &str) -> (r: bool)
    ensures
        r == (v@ == s@),
{
    let c = to_chars(s);
    crate::text::chars_eq(v, &c)
}

/// The overview group of an account, by its first segment.
pub fn account_group(account: &str) -> (r: &'static str)
    ensures
        r@ == group_of_root(account_root(account@)),
{
    let a = to_chars(account);
    proof {
        lemma_first_match_props(a@, char_pred(':'));
    }
    let first = match find_char(&a, ':') {
        Some(k) => {
            let f = slice_of(&a, 0, k);
            assert(f@ =~= a@.take(k as int));
            f
        },
        None => a,
    };
    let t = string_of(&trim_of(&first));
    let root = to_chars(to_lower(t.as_str()).as_str());
    if is(&root, "asset") || is(&root, "assets") {
        "assets"
    } else if is(&root, "liability") || is(&root, "liabilities") || is(&root, "debt") || is(&root, "debts") {
        "liabilities"
    } else if is(&root, "equity") {
        "equity"
    } else if is(&root, "income") || is(&root, "revenue") || is(&root, "revenues") {
        "income"
    } else if is(&root, "expense") || is(&root, "expenses") {
        "expenses"
    } else {
        "other"
    }
}

/// Whether a posting of the transaction names the account, ignoring ASCII
/// case and surrounding whitespace.
pub open spec fn includes_account(t: JournalTransaction, account: Seq<char>) -> bool {
    exists|i: int| 0 <= i < t.postings@.len() && eq_ignore_ascii_case(trim(#[trigger] t.postings@[i].account@), account)
}

/// Whether a transaction has a posting to the account.
pub fn transaction_includes_account(transaction: &JournalTransaction, account: &str) -> (r: bool)
    ensures
        r == includes_account(*transaction, account@),
{
    let want = to_chars(account);
    let mut i: usize = 0;
    while i < transaction.postings.len()
        invariant
            0 <= i <= transaction.postings.len(),
            want@ == account@,
            forall|j: int| 0 <= j < i ==> !eq_ignore_ascii_case(trim(#[trigger] transaction.postings@[j].account@), account@),
        decreases transaction.postings.len() - i,
    {
        let a = to_chars(transaction.postings[i].account.as_str());
        let t = trim_of(&a);
        if eq_ignore_ascii_case_of(&t, &want) {
            return true;
        }
        i += 1;
    }
    false
}

/// `str::parse::<i64>`: an optional sign, then one or more digits whose
/// value fits in 64 signed bits.
pub open spec fn parse_i64(s: Seq<char>) -> Option<int> {
    if s.len() > 0 && s[0] == '-' {
        let d = s.skip(1);
        if d.len() > 0 && d[0] != '+' && parse_u64(d) is Some && parse_u64(d)->0 <= 9223372036854775808 {
            Some(-(parse_u64(d)->0 as int))
        } else {
            None
        }
    } else {
        match parse_u64(s) {
            Some(v) => if v <= 9223372036854775807 { Some(v as int) } else { None },
            None => None,
        }
    }
}

fn parse_i64_chars(s: &Vec<char>) -> (r: Option<i64>)
    ensures
        match parse_i64(s@) {
            Some(v) => r == Some(v as i64),
            None => r is None,
        },
{
    if s.len() > 0 && s[0] == '-' {
        let d = slice_of(s, 1, s.len());
        assert(d@ =~= s@.skip(1));
        if d.len() == 0 || d[0] == '+' {
            return None;
        }
        match parse_u64_chars(&d) {
            Some(v) => {
                if v <= 9223372036854775807u64 {
                    Some(-(v as i64))
                } else if v == 9223372036854775808u64 {
                    Some(i64::MIN)
                } else {
                    None
                }
            },
            None => None,
        }
    } else {
        match parse_u64_chars(s) {
            Some(v) => if v <= 9223372036854775807u64 { Some(v as i64) } else { None },
            None => None,
        }
    }
}

/// The number of days an activity range covers: its number (30 where it is
/// none), at least 1.
pub open spec fn activity_days(range: Seq<char>) -> int {
    let d = match parse_i64(range) {
        Some(v) => v,
        None => 30,
    };
    if d < 1 { 1 } else { d }
}

/// Whether a transaction's date falls in the accounts overview's activity
/// range as of `today`: the current month, or the last so many days up to
/// today.
pub open spec fn in_activity_range(date: Seq<char>, range: Seq<char>, today: (int, int, int)) -> bool {
    match journal_date(date) {
        None => false,
        Some(d) => if range == "current-month"@ {
            d.0 == today.0 && d.1 == today.1
        } else {
            date_le(days_before(today, (activity_days(range) - 1) as nat), d) && date_le(d, today)
        },
    }
}

/// The first day of a range lies within chrono's calendar (else the day
/// arithmetic fails).
pub open spec fn activity_range_ok(date: Seq<char>, range: Seq<char>, today: (int, int, int)) -> bool {
    journal_date(date) is Some && range != "current-month"@ ==> activity_days(range) - 1 <= u32::MAX
        && is_calendar_date(days_before(today, (activity_days(range) - 1) as nat))
}

/// Whether a transaction counts as activity in the accounts overview.
pub fn is_in_account_activity_range(transaction: &JournalTransaction, range: &str, today: &CalDate) -> (r: bool)
    requires
        today.valid(),
        activity_range_ok(transaction.date@, range@, today@),
    ensures
        r == in_activity_range(transaction.date@, range@, today@),
{
    let date = match parse_journal_date(transaction.date.as_str()) {
        Some(d) => d,
        None => return false,
    };
    if str_eq(range, "current-month") {
        return date.year == today.year && date.month == today.month;
    }
    let parsed = parse_i64_chars(&to_chars(range));
    let days: i64 = match parsed {
        Some(v) => if v < 1 { 1 } else { v },
        None => 30,
    };
    let back = (days - 1) as u32;
    let start = match date_sub_days(today, back) {
        Some(s) => s,
        None => return false,
    };
    date_not_after(&start, &date) && date_not_after(&date, today)
}

} // verus!

verus! {

/// An account of the overview: its name, the index of its entry in the
/// balance list (the last entry with the same lowercase name), and the
/// transactions in the activity range that post to it.
#[derive(Debug, Clone, PartialEq, Eq)]
pub struct AccountOverviewRow {
    pub account: String,
    pub balance: Option<usize>,
    pub activity_count: usize,
    pub transactions: Vec<JournalTransaction>,
}

/// The accounts of one group, ordered by their lowercase names.
#[derive(Debug, Clone, PartialEq, Eq)]
pub struct AccountOverviewGroup {
    pub group: String,
    pub accounts: Vec<AccountOverviewRow>,
}

/// The overview: the groups that have accounts, in the order assets,
/// liabilities, equity, income, expenses, other.
#[derive(Debug, Clone, PartialEq, Eq)]
pub struct AccountsOverview {
    pub groups: Vec<AccountOverviewGroup>,
}

/// The account names of the postings of the transactions, in order.
pub open spec fn posting_account_texts(ts: Seq<JournalTransaction>) -> Seq<Seq<char>>
    decreases ts.len(),
{
    if ts.len() == 0 {
        seq![]
    } else {
        posting_account_texts(ts.drop_last()) + ts.last().postings@.map_values(|p: JournalPosting| p.account@)
    }
}

/// The lowercase forms of names.
pub open spec fn lowercase_all(ns: Seq<Seq<char>>) -> Seq<Seq<char>> {
    ns.map_values(|n: Seq<char>| lowercase(n))
}

/// The names, trimmed, leaving out the empty ones and those whose lowercase
/// form came before: the first spelling of each account wins.
pub open spec fn first_seen_names(cands: Seq<Seq<char>>) -> Seq<Seq<char>>
    decreases cands.len(),
{
    if cands.len() == 0 {
        seq![]
    } else {
        let r = first_seen_names(cands.drop_last());
        let c = trim(cands.last());
        if c.len() == 0 || lowercase_all(r).contains(lowercase(c)) {
            r
        } else {
            r.push(c)
        }
    }
}

/// The accounts of the overview: those of the postings, then those of the
/// balances.
pub open spec fn overview_accounts(ts: Seq<JournalTransaction>, bals: Seq<Seq<char>>) -> Seq<Seq<char>> {
    first_seen_names(posting_account_texts(ts) + bals)
}

/// The overview group of an account name.
pub open spec fn name_group(n: Seq<char>) -> Seq<char> {
    group_of_root(account_root(n))
}

/// An account is grouped by its first segment (trimmed, in lowercase): an
/// account whose first segment is a group's own name (`assets`,
/// `liabilities`, `equity`, `income`, `expenses`) is in that group, as are
/// the singular and alternative names (`asset`; `liability`, `debt`,
/// `debts`; `revenue`, `revenues`; `expense`); every other account is under
/// `other`. Two accounts with the same first segment are in the same group.
pub proof fn law_account_group_by_root(a: Seq<char>, b: Seq<char>)
    ensures
        account_root(a) == "assets"@ || account_root(a) == "asset"@ ==> name_group(a) == "assets"@,
        account_root(a) == "liabilities"@ || account_root(a) == "liability"@ || account_root(a) == "debt"@
            || account_root(a) == "debts"@ ==> name_group(a) == "liabilities"@,
        account_root(a) == "equity"@ ==> name_group(a) == "equity"@,
        account_root(a) == "income"@ || account_root(a) == "revenue"@ || account_root(a) == "revenues"@ ==> name_group(a)
            == "income"@,
        account_root(a) == "expenses"@ || account_root(a) == "expense"@ ==> name_group(a) == "expenses"@,
        !(account_root(a) == "assets"@ || account_root(a) == "asset"@ || account_root(a) == "liabilities"@
            || account_root(a) == "liability"@ || account_root(a) == "debt"@ || account_root(a) == "debts"@
            || account_root(a) == "equity"@ || account_root(a) == "income"@ || account_root(a) == "revenue"@
            || account_root(a) == "revenues"@ || account_root(a) == "expenses"@ || account_root(a) == "expense"@)
            ==> name_group(a) == "other"@,
        account_root(a) == account_root(b) ==> name_group(a) == name_group(b),
{
    reveal_strlit("assets");
    reveal_strlit("asset");
    reveal_strlit("liabilities");
    reveal_strlit("liability");
    reveal_strlit("debt");
    reveal_strlit("debts");
    reveal_strlit("equity");
    reveal_strlit("income");
    reveal_strlit("revenue");
    reveal_strlit("revenues");
    reveal_strlit("expenses");
    reveal_strlit("expense");
    reveal_strlit("other");
    assert("equity"@.len() == 6 && "assets"@.len() == 6 && "asset"@.len() == 5 && "debt"@.len() == 4);
    assert("debts"@.len() == 5 && "income"@.len() == 6 && "liability"@.len() == 9 && "liabilities"@.len() == 11);
    assert("revenue"@.len() == 7 && "revenues"@.len() == 8 && "expense"@.len() == 7 && "expenses"@.len() == 8);
    assert("equity"@[0] != "assets"@[0] && "equity"@[0] != "income"@[0]);
    assert("asset"@[0] != "debts"@[0]);
    assert("expenses"@[0] != "revenues"@[0] && "expense"@[0] != "revenue"@[0]);
}

/// The groups of the overview, in their order.
pub open spec fn overview_group_order() -> Seq<Seq<char>> {
    seq!["assets"@, "liabilities"@, "equity"@, "income"@, "expenses"@, "other"@]
}

/// Whether some account belongs to the group.
pub open spec fn has_group(names: Seq<Seq<char>>, g: Seq<char>) -> bool {
    exists|k: int| 0 <= k < names.len() && name_group(#[trigger] names[k]) == g
}

/// The groups that have accounts, in order.
pub open spec fn groups_present(gs: Seq<Seq<char>>, names: Seq<Seq<char>>) -> Seq<Seq<char>>
    decreases gs.len(),
{
    if gs.len() == 0 {
        seq![]
    } else {
        let r = groups_present(gs.drop_last(), names);
        if has_group(names, gs.last()) {
            r.push(gs.last())
        } else {
            r
        }
    }
}

/// The index of the last balance entry whose lowercase name is the key.
pub open spec fn last_balance_index(bals: Seq<Seq<char>>, key: Seq<char>) -> Option<int>
    decreases bals.len(),
{
    if bals.len() == 0 {
        None
    } else if lowercase(bals.last()) == key {
        Some(bals.len() - 1)
    } else {
        last_balance_index(bals.drop_last(), key)
    }
}

/// The transactions in the activity range that post to the account.
pub open spec fn account_activity(
    ts: Seq<JournalTransaction>,
    account: Seq<char>,
    range: Seq<char>,
    today: (int, int, int),
) -> Seq<JournalTransaction>
    decreases ts.len(),
{
    if ts.len() == 0 {
        seq![]
    } else {
        let r = account_activity(ts.drop_last(), account, range, today);
        if in_activity_range(ts.last().date@, range, today) && includes_account(ts.last(), account) {
            r.push(ts.last())
        } else {
            r
        }
    }
}

/// A row holds its account's balance index and activity.
pub open spec fn is_overview_row(
    row: AccountOverviewRow,
    ts: Seq<JournalTransaction>,
    bals: Seq<Seq<char>>,
    range: Seq<char>,
    today: (int, int, int),
) -> bool {
    let act = account_activity(ts, row.account@, range, today);
    &&& match last_balance_index(bals, lowercase(row.account@)) {
        Some(j) => row.balance == Some(j as usize),
        None => row.balance is None,
    }
    &&& row.transactions@.len() == act.len()
    &&& forall|i: int| 0 <= i < act.len() ==> same_transaction(#[trigger] row.transactions@[i], act[i])
    &&& row.activity_count == act.len()
}

/// A group holds exactly its accounts, ordered by lowercase name, each row
/// as `is_overview_row` says.
pub open spec fn is_overview_group(
    grp: AccountOverviewGroup,
    names: Seq<Seq<char>>,
    ts: Seq<JournalTransaction>,
    bals: Seq<Seq<char>>,
    range: Seq<char>,
    today: (int, int, int),
) -> bool {
    let rows = grp.accounts@;
    &&& forall|i: int, j: int| 0 <= i < j < rows.len() ==> text_order(
        lowercase(#[trigger] rows[i].account@),
        lowercase(#[trigger] rows[j].account@),
        0,
    ) < 0
    &&& forall|i: int| 0 <= i < rows.len() ==> names.contains(#[trigger] rows[i].account@) && name_group(
        rows[i].account@,
    ) == grp.group@
    &&& forall|k: int| 0 <= k < names.len() && name_group(#[trigger] names[k]) == grp.group@ ==> exists|i: int|
        0 <= i < rows.len() && #[trigger] rows[i].account@ == names[k]
    &&& forall|i: int| 0 <= i < rows.len() ==> is_overview_row(#[trigger] rows[i], ts, bals, range, today)
}

/// The overview of the transactions and balance entries: the groups that
/// have accounts, in order, each as `is_overview_group` says.
pub open spec fn is_accounts_overview(
    r: AccountsOverview,
    ts: Seq<JournalTransaction>,
    bals: Seq<Seq<char>>,
    range: Seq<char>,
    today: (int, int, int),
) -> bool {
    let names = overview_accounts(ts, bals);
    &&& r.groups@.map_values(|g: AccountOverviewGroup| g.group@) == groups_present(overview_group_order(), names)
    &&& forall|k: int| 0 <= k < r.groups@.len() ==> is_overview_group(#[trigger] r.groups@[k], names, ts, bals, range, today)
}

fn posting_account_list(ts: &Vec<JournalTransaction>) -> (r: Vec<Vec<char>>)
    ensures
        views(r@) == posting_account_texts(ts@),
{
    let mut r: Vec<Vec<char>> = Vec::new();
    let mut i: usize = 0;
    while i < ts.len()
        invariant
            i <= ts.len(),
            views(r@) == posting_account_texts(ts@.take(i as int)),
        decreases ts.len() - i,
    {
        let t = &ts[i];
        let ghost f = |p: JournalPosting| p.account@;
        let mut j: usize = 0;
        assert(t.postings@.take(0).map_values(f) =~= Seq::<Seq<char>>::empty());
        assert(views(r@) =~= posting_account_texts(ts@.take(i as int)) + t.postings@.take(0).map_values(f));
        while j < t.postings.len()
            invariant
                i < ts.len(),
                *t == ts@[i as int],
                j <= t.postings.len(),
                f == (|p: JournalPosting| p.account@),
                views(r@) == posting_account_texts(ts@.take(i as int)) + t.postings@.take(j as int).map_values(f),
            decreases t.postings.len() - j,
        {
            let ghost before = views(r@);
            r.push(to_chars(t.postings[j].account.as_str()));
            assert(views(r@) =~= before.push(t.postings@[j as int].account@));
            assert(t.postings@.take(j as int + 1).map_values(f) =~= t.postings@.take(j as int).map_values(f).push(
                t.postings@[j as int].account@,
            ));
            j += 1;
        }
        assert(t.postings@.take(t.postings.len() as int) =~= t.postings@);
        assert(ts@.take(i as int + 1).drop_last() =~= ts@.take(i as int));
        assert(ts@.take(i as int + 1).last() == ts@[i as int]);
        i += 1;
    }
    assert(ts@.take(ts.len() as int) =~= ts@);
    r
}

fn contains_text(list: &Vec<Vec<char>>, x: &Vec<char>) -> (r: bool)
    ensures
        r == views(list@).contains(x@),
{
    let mut i: usize = 0;
    while i < list.len()
        invariant
            i <= list.len(),
            forall|k: int| 0 <= k < i ==> list@[k]@ != x@,
        decreases list.len() - i,
    {
        if chars_eq(&list[i], x) {
            assert(views(list@)[i as int] == x@);
            return true;
        }
        i += 1;
    }
    assert forall|k: int| 0 <= k < views(list@).len() implies views(list@)[k] != x@ by {
        assert(views(list@)[k] == list@[k]@);
    }
    false
}

fn lowercase_chars(v: &Vec<char>) -> (r: Vec<char>)
    ensures
        r@ == lowercase(v@),
{
    to_chars(to_lower(string_of(v).as_str()).as_str())
}

/// The first-seen names of the candidates, with their lowercase forms, which
/// are all different.
fn first_seen_list(cands: &Vec<Vec<char>>) -> (r: (Vec<Vec<char>>, Vec<Vec<char>>))
    ensures
        views(r.0@) == first_seen_names(views(cands@)),
        views(r.1@) == lowercase_all(views(r.0@)),
        forall|i: int, j: int| 0 <= i < j < r.1@.len() ==> (#[trigger] r.1@[i])@ != (#[trigger] r.1@[j])@,
{
    let mut names: Vec<Vec<char>> = Vec::new();
    let mut keys: Vec<Vec<char>> = Vec::new();
    let mut k: usize = 0;
    while k < cands.len()
        invariant
            k <= cands.len(),
            views(names@) == first_seen_names(views(cands@).take(k as int)),
            views(keys@) == lowercase_all(views(names@)),
            forall|i: int, j: int| 0 <= i < j < keys@.len() ==> (#[trigger] keys@[i])@ != (#[trigger] keys@[j])@,
        decreases cands.len() - k,
    {
        let ghost cs = views(cands@).take(k as int + 1);
        assert(cs.drop_last() =~= views(cands@).take(k as int));
        assert(cs.last() == cands@[k as int]@);
        let t = trim_of(&cands[k]);
        if t.len() > 0 {
            let key = lowercase_chars(&t);
            if !contains_text(&keys, &key) {
                let ghost nb = views(names@);
                let ghost kb = views(keys@);
                names.push(t);
                keys.push(key);
                assert(views(names@) =~= nb.push(trim(cands@[k as int]@)));
                assert(views(keys@) =~= kb.push(lowercase(trim(cands@[k as int]@))));
                assert(lowercase_all(views(names@)) =~= lowercase_all(nb).push(lowercase(trim(cands@[k as int]@))));
                assert forall|i: int, j: int| 0 <= i < j < keys@.len() implies (#[trigger] keys@[i])@ != (#[trigger] keys@[j])@ by {
                    if j == keys@.len() - 1 {
                        assert(kb[i] == keys@[i]@);
                    }
                }
            }
        }
        k += 1;
    }
    assert(views(cands@).take(cands.len() as int) =~= views(cands@));
    (names, keys)
}

/// The name of the overview group at a place of the order.
fn overview_group_name(k: usize) -> (r: &'static str)
    requires
        k < 6,
    ensures
        r@ == overview_group_order()[k as int],
{
    if k == 0 {
        "assets"
    } else if k == 1 {
        "liabilities"
    } else if k == 2 {
        "equity"
    } else if k == 3 {
        "income"
    } else if k == 4 {
        "expenses"
    } else {
        "other"
    }
}

/// The places of the names of a group, ordered by their lowercase forms.
fn group_members(keys: &Vec<Vec<char>>, groups: &Vec<&'static str>, g: &str) -> (r: Vec<usize>)
    requires
        keys.len() == groups.len(),
        forall|i: int, j: int| 0 <= i < j < keys@.len() ==> (#[trigger] keys@[i])@ != (#[trigger] keys@[j])@,
    ensures
        forall|a: int| 0 <= a < r@.len() ==> (#[trigger] r@[a]) < keys.len() && groups@[r@[a] as int]@ == g@,
        forall|m: int| 0 <= m < keys.len() && (#[trigger] groups@[m])@ == g@ ==> r@.contains(m as usize),
        forall|a: int, b: int| 0 <= a < b < r@.len() ==> text_order(
            keys@[(#[trigger] r@[a]) as int]@,
            keys@[(#[trigger] r@[b]) as int]@,
            0,
        ) < 0,
{
    let mut r: Vec<usize> = Vec::new();
    let mut m: usize = 0;
    while m < keys.len()
        invariant
            m <= keys.len(),
            keys.len() == groups.len(),
            forall|i: int, j: int| 0 <= i < j < keys@.len() ==> (#[trigger] keys@[i])@ != (#[trigger] keys@[j])@,
            forall|a: int| 0 <= a < r@.len() ==> (#[trigger] r@[a]) < m && groups@[r@[a] as int]@ == g@,
            forall|x: int| 0 <= x < m && (#[trigger] groups@[x])@ == g@ ==> r@.contains(x as usize),
            forall|a: int, b: int| 0 <= a < b < r@.len() ==> text_order(
                keys@[(#[trigger] r@[a]) as int]@,
                keys@[(#[trigger] r@[b]) as int]@,
                0,
            ) < 0,
        decreases keys.len() - m,
    {
        if str_eq(groups[m], g) {
            let mut p: usize = 0;
            while p < r.len() && text_order_of(&keys[r[p]], &keys[m]) < 0
                invariant
                    p <= r.len(),
                    m < keys.len(),
                    forall|a: int| 0 <= a < r@.len() ==> (#[trigger] r@[a]) < m,
                    forall|a: int| 0 <= a < p ==> text_order(keys@[(#[trigger] r@[a]) as int]@, keys@[m as int]@, 0) < 0,
                decreases r.len() - p,
            {
                p += 1;
            }
            proof {
                assert forall|a: int| p <= a < r@.len() implies text_order(keys@[m as int]@, keys@[(#[trigger] r@[a]) as int]@, 0) < 0 by {
                    let kp = keys@[r@[p as int] as int]@;
                    let km = keys@[m as int]@;
                    assert(kp != km);
                    if text_order(kp, km, 0) == 0 {
                        lemma_text_order_eq(kp, km);
                    }
                    lemma_text_order_flip(kp, km);
                    if a > p {
                        lemma_text_order_transitive(km, kp, keys@[r@[a] as int]@, 0);
                    }
                }
            }
            let ghost old_r = r@;
            r.insert(p, m);
            proof {
                assert forall|a: int| 0 <= a < r@.len() implies r@[a] == (if a < p {
                    old_r[a]
                } else if a == p {
                    m
                } else {
                    old_r[a - 1]
                }) by {}
                assert forall|x: int| 0 <= x < m + 1 && (#[trigger] groups@[x])@ == g@ implies r@.contains(x as usize) by {
                    if x == m {
                        assert(r@[p as int] == m);
                    } else {
                        assert(old_r.contains(x as usize));
                        let a = choose|a: int| 0 <= a < old_r.len() && old_r[a] == x as usize;
                        if a < p {
                            assert(r@[a] == x as usize);
                        } else {
                            assert(r@[a + 1] == x as usize);
                        }
                    }
                }
                assert forall|a: int, b: int| 0 <= a < b < r@.len() implies text_order(
                    keys@[(#[trigger] r@[a]) as int]@,
                    keys@[(#[trigger] r@[b]) as int]@,
                    0,
                ) < 0 by {
                    if b < p {
                    } else if b == p {
                        assert(r@[a] == old_r[a]);
                    } else if a == p {
                        assert(r@[b] == old_r[b - 1]);
                    } else if a < p {
                        assert(r@[b] == old_r[b - 1]);
                        assert(r@[a] == old_r[a]);
                    } else {
                        assert(r@[b] == old_r[b - 1]);
                        assert(r@[a] == old_r[a - 1]);
                    }
                }
            }
        }
        m += 1;
    }
    r
}

fn balance_index(bkeys: &Vec<Vec<char>>, key: &Vec<char>, Ghost(bals): Ghost<Seq<Seq<char>>>) -> (r: Option<usize>)
    requires
        views(bkeys@) == lowercase_all(bals),
    ensures
        match last_balance_index(bals, key@) {
            Some(j) => r == Some(j as usize),
            None => r is None,
        },
{
    let mut found: Option<usize> = None;
    let mut j: usize = 0;
    assert(views(bkeys@).len() == bkeys@.len() && lowercase_all(bals).len() == bals.len());
    while j < bkeys.len()
        invariant
            j <= bkeys.len(),
            bals.len() == bkeys.len(),
            views(bkeys@) == lowercase_all(bals),
            match last_balance_index(bals.take(j as int), key@) {
                Some(x) => found == Some(x as usize),
                None => found is None,
            },
        decreases bkeys.len() - j,
    {
        assert(bals.take(j as int + 1).drop_last() =~= bals.take(j as int));
        assert(views(bkeys@)[j as int] == bkeys@[j as int]@);
        assert(lowercase_all(bals)[j as int] == lowercase(bals[j as int]));
        assert(bals.take(j as int + 1).last() == bals[j as int]);
        if chars_eq(&bkeys[j], key) {
            found = Some(j);
        }
        j += 1;
    }
    assert(bals.take(bkeys.len() as int) =~= bals);
    found
}

fn account_activity_list(
    ts: &Vec<JournalTransaction>,
    visible: &Vec<bool>,
    account: &String,
    Ghost(range): Ghost<Seq<char>>,
    Ghost(today): Ghost<(int, int, int)>,
) -> (r: Vec<JournalTransaction>)
    requires
        visible.len() == ts.len(),
        forall|i: int| 0 <= i < ts.len() ==> visible@[i] == in_activity_range(#[trigger] ts@[i].date@, range, today),
    ensures
        r@.len() == account_activity(ts@, account@, range, today).len(),
        forall|i: int| 0 <= i < r@.len() ==> same_transaction(#[trigger] r@[i], account_activity(ts@, account@, range, today)[i]),
{
    let mut r: Vec<JournalTransaction> = Vec::new();
    let mut i: usize = 0;
    while i < ts.len()
        invariant
            i <= ts.len(),
            visible.len() == ts.len(),
            forall|k: int| 0 <= k < ts.len() ==> visible@[k] == in_activity_range(#[trigger] ts@[k].date@, range, today),
            r@.len() == account_activity(ts@.take(i as int), account@, range, today).len(),
            forall|k: int| 0 <= k < r@.len() ==> same_transaction(
                #[trigger] r@[k],
                account_activity(ts@.take(i as int), account@, range, today)[k],
            ),
        decreases ts.len() - i,
    {
        let ghost prev = account_activity(ts@.take(i as int), account@, range, today);
        assert(ts@.take(i as int + 1).drop_last() =~= ts@.take(i as int));
        assert(ts@.take(i as int + 1).last() == ts@[i as int]);
        if visible[i] && transaction_includes_account(&ts[i], account.as_str()) {
            let ghost before = r@;
            r.push(ts[i].duplicate());
            assert forall|k: int| 0 <= k < r@.len() implies same_transaction(
                #[trigger] r@[k],
                account_activity(ts@.take(i as int + 1), account@, range, today)[k],
            ) by {
                if k < before.len() {
                    assert(r@[k] == before[k]);
                }
            }
        }
        i += 1;
    }
    assert(ts@.take(ts.len() as int) =~= ts@);
    r
}

fn overview_row(
    name: &Vec<char>,
    ts: &Vec<JournalTransaction>,
    visible: &Vec<bool>,
    bkeys: &Vec<Vec<char>>,
    Ghost(bals): Ghost<Seq<Seq<char>>>,
    Ghost(range): Ghost<Seq<char>>,
    Ghost(today): Ghost<(int, int, int)>,
) -> (r: AccountOverviewRow)
    requires
        visible.len() == ts.len(),
        forall|i: int| 0 <= i < ts.len() ==> visible@[i] == in_activity_range(#[trigger] ts@[i].date@, range, today),
        views(bkeys@) == lowercase_all(bals),
    ensures
        r.account@ == name@,
        is_overview_row(r, ts@, bals, range, today),
{
    let account = string_of(name);
    let key = lowercase_chars(name);
    let balance = balance_index(bkeys, &key, Ghost(bals));
    let transactions = account_activity_list(ts, visible, &account, Ghost(range), Ghost(today));
    AccountOverviewRow { account, balance, activity_count: transactions.len(), transactions }
}

fn overview_group(
    g: &str,
    names: &Vec<Vec<char>>,
    keys: &Vec<Vec<char>>,
    name_groups: &Vec<&'static str>,
    ts: &Vec<JournalTransaction>,
    visible: &Vec<bool>,
    bkeys: &Vec<Vec<char>>,
    Ghost(bals): Ghost<Seq<Seq<char>>>,
    Ghost(range): Ghost<Seq<char>>,
    Ghost(today): Ghost<(int, int, int)>,
) -> (r: Option<AccountOverviewGroup>)
    requires
        keys.len() == names.len(),
        name_groups.len() == names.len(),
        views(keys@) == lowercase_all(views(names@)),
        forall|i: int, j: int| 0 <= i < j < keys@.len() ==> (#[trigger] keys@[i])@ != (#[trigger] keys@[j])@,
        forall|k: int| 0 <= k < names.len() ==> (#[trigger] name_groups@[k])@ == name_group(names@[k]@),
        visible.len() == ts.len(),
        forall|i: int| 0 <= i < ts.len() ==> visible@[i] == in_activity_range(#[trigger] ts@[i].date@, range, today),
        views(bkeys@) == lowercase_all(bals),
    ensures
        r is None <==> !has_group(views(names@), g@),
        r matches Some(grp) ==> grp.group@ == g@ && is_overview_group(grp, views(names@), ts@, bals, range, today),
{
    let ghost nv = views(names@);
    let idx = group_members(keys, name_groups, g);
    if idx.len() == 0 {
        assert forall|k: int| 0 <= k < nv.len() implies name_group(#[trigger] nv[k]) != g@ by {
            if name_group(nv[k]) == g@ {
                assert(nv[k] == names@[k]@);
                assert(name_groups@[k]@ == g@);
                assert(idx@.contains(k as usize));
            }
        }
        return None;
    }
    let mut rows: Vec<AccountOverviewRow> = Vec::new();
    let mut a: usize = 0;
    while a < idx.len()
        invariant
            a <= idx.len(),
            rows@.len() == a,
            forall|x: int| 0 <= x < idx@.len() ==> (#[trigger] idx@[x]) < names.len(),
            visible.len() == ts.len(),
            forall|i: int| 0 <= i < ts.len() ==> visible@[i] == in_activity_range(#[trigger] ts@[i].date@, range, today),
            views(bkeys@) == lowercase_all(bals),
            forall|x: int| 0 <= x < a ==> (#[trigger] rows@[x]).account@ == names@[idx@[x] as int]@ && is_overview_row(
                rows@[x],
                ts@,
                bals,
                range,
                today,
            ),
        decreases idx.len() - a,
    {
        let row = overview_row(&names[idx[a]], ts, visible, bkeys, Ghost(bals), Ghost(range), Ghost(today));
        rows.push(row);
        a += 1;
    }
    let grp = AccountOverviewGroup { group: g.to_string(), accounts: rows };
    proof {
        assert(nv.len() == names.len());
        assert(nv[idx@[0] as int] == names@[idx@[0] as int]@);
        assert(name_group(nv[idx@[0] as int]) == g@);
        assert forall|x: int| 0 <= x < rows@.len() implies lowercase((#[trigger] rows@[x]).account@) == keys@[idx@[x] as int]@ by {
            assert(views(keys@)[idx@[x] as int] == lowercase_all(nv)[idx@[x] as int]);
        }
        assert forall|i: int, j: int| 0 <= i < j < rows@.len() implies text_order(
            lowercase(#[trigger] rows@[i].account@),
            lowercase(#[trigger] rows@[j].account@),
            0,
        ) < 0 by {
            assert(lowercase(rows@[i].account@) == keys@[idx@[i] as int]@);
            assert(lowercase(rows@[j].account@) == keys@[idx@[j] as int]@);
        }
        assert forall|i: int| 0 <= i < rows@.len() implies nv.contains(#[trigger] rows@[i].account@) && name_group(
            rows@[i].account@,
        ) == grp.group@ by {
            assert(nv[idx@[i] as int] == rows@[i].account@);
        }
        assert forall|k: int| 0 <= k < nv.len() && name_group(#[trigger] nv[k]) == grp.group@ implies exists|i: int|
            0 <= i < rows@.len() && #[trigger] rows@[i].account@ == nv[k] by {
            assert(nv[k] == names@[k]@);
            assert(name_groups@[k]@ == g@);
            assert(idx@.contains(k as usize));
            let i = choose|i: int| 0 <= i < idx@.len() && idx@[i] == k as usize;
            assert(rows@[i].account@ == nv[k]);
        }
    }
    Some(grp)
}

/// Groups the accounts of the transactions and of the balance entries (the
/// entries' account names, in order), each with the index of its balance
/// entry and its transactions in the activity range as of `today`.
pub fn build_accounts_overview(
    transactions: &Vec<JournalTransaction>,
    balance_accounts: &Vec<String>,
    activity_range: &str,
    today: &CalDate,
) -> (r: AccountsOverview)
    requires
        today.valid(),
        forall|i: int| 0 <= i < transactions.len() ==> activity_range_ok(#[trigger] transactions@[i].date@, activity_range@, today@),
    ensures
        is_accounts_overview(r, transactions@, string_views(balance_accounts@), activity_range@, today@),
{
    let ghost bals = string_views(balance_accounts@);
    let ghost range = activity_range@;
    let ghost day = today@;
    let mut cands = posting_account_list(transactions);
    let ghost pa = views(cands@);
    let mut i: usize = 0;
    while i < balance_accounts.len()
        invariant
            i <= balance_accounts.len(),
            bals == string_views(balance_accounts@),
            views(cands@) == pa + bals.take(i as int),
        decreases balance_accounts.len() - i,
    {
        let ghost before = views(cands@);
        cands.push(to_chars(balance_accounts[i].as_str()));
        assert(views(cands@) =~= before.push(balance_accounts@[i as int]@));
        assert(bals.take(i as int + 1) =~= bals.take(i as int).push(balance_accounts@[i as int]@));
        i += 1;
    }
    assert(bals.take(balance_accounts.len() as int) =~= bals);
    let (names, keys) = first_seen_list(&cands);
    let ghost nv = views(names@);
    assert(nv == overview_accounts(transactions@, bals));
    assert(views(keys@).len() == keys.len() && lowercase_all(nv).len() == nv.len());
    let mut name_groups: Vec<&'static str> = Vec::new();
    let mut k: usize = 0;
    while k < names.len()
        invariant
            k <= names.len(),
            name_groups.len() == k,
            forall|x: int| 0 <= x < k ==> (#[trigger] name_groups@[x])@ == name_group(names@[x]@),
        decreases names.len() - k,
    {
        name_groups.push(account_group(string_of(&names[k]).as_str()));
        k += 1;
    }
    let mut bkeys: Vec<Vec<char>> = Vec::new();
    let mut j: usize = 0;
    while j < balance_accounts.len()
        invariant
            j <= balance_accounts.len(),
            bals == string_views(balance_accounts@),
            views(bkeys@) == lowercase_all(bals.take(j as int)),
        decreases balance_accounts.len() - j,
    {
        let ghost before = views(bkeys@);
        bkeys.push(lowercase_chars(&to_chars(balance_accounts[j].as_str())));
        assert(views(bkeys@) =~= before.push(lowercase(balance_accounts@[j as int]@)));
        assert(lowercase_all(bals.take(j as int + 1)) =~= lowercase_all(bals.take(j as int)).push(
            lowercase(balance_accounts@[j as int]@),
        ));
        j += 1;
    }
    assert(bals.take(balance_accounts.len() as int) =~= bals);
    let mut visible: Vec<bool> = Vec::new();
    let mut t: usize = 0;
    while t < transactions.len()
        invariant
            t <= transactions.len(),
            visible.len() == t,
            today.valid(),
            range == activity_range@,
            day == today@,
            forall|x: int| 0 <= x < transactions.len() ==> activity_range_ok(#[trigger] transactions@[x].date@, activity_range@, today@),
            forall|x: int| 0 <= x < t ==> visible@[x] == in_activity_range(#[trigger] transactions@[x].date@, range, day),
        decreases transactions.len() - t,
    {
        assert(activity_range_ok(transactions@[t as int].date@, activity_range@, today@));
        visible.push(is_in_account_activity_range(&transactions[t], activity_range, today));
        t += 1;
    }
    let mut groups: Vec<AccountOverviewGroup> = Vec::new();
    let mut g: usize = 0;
    while g < 6
        invariant
            g <= 6,
            nv == views(names@),
            keys.len() == names.len(),
            name_groups.len() == names.len(),
            views(keys@) == lowercase_all(nv),
            forall|a: int, b: int| 0 <= a < b < keys@.len() ==> (#[trigger] keys@[a])@ != (#[trigger] keys@[b])@,
            forall|x: int| 0 <= x < names.len() ==> (#[trigger] name_groups@[x])@ == name_group(names@[x]@),
            visible.len() == transactions.len(),
            forall|x: int| 0 <= x < transactions.len() ==> visible@[x] == in_activity_range(#[trigger] transactions@[x].date@, range, day),
            views(bkeys@) == lowercase_all(bals),
            groups@.map_values(|a: AccountOverviewGroup| a.group@) == groups_present(overview_group_order().take(g as int), nv),
            forall|x: int| 0 <= x < groups@.len() ==> is_overview_group(#[trigger] groups@[x], nv, transactions@, bals, range, day),
        decreases 6 - g,
    {
        let name = overview_group_name(g);
        let ghost before = groups@;
        let ghost gs = overview_group_order().take(g as int + 1);
        assert(gs.drop_last() =~= overview_group_order().take(g as int));
        assert(gs.last() == name@);
        match overview_group(name, &names, &keys, &name_groups, transactions, &visible, &bkeys, Ghost(bals), Ghost(range), Ghost(day)) {
            Some(grp) => {
                groups.push(grp);
                assert(groups@.map_values(|a: AccountOverviewGroup| a.group@) =~= before.map_values(
                    |a: AccountOverviewGroup| a.group@,
                ).push(name@));
            },
            None => {},
        }
        g += 1;
    }
    assert(overview_group_order().take(6) =~= overview_group_order());
    AccountsOverview { groups }
}

} // verus!
