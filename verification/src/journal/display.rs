//! Small pieces of how a transaction is shown: commodity names without
//! prices, signed display amounts, and the kinds of accounts.

use vstd::prelude::*;
use crate::app_error::string_views;
use crate::journal::types::{JournalPosting, TransactionFlow};
use crate::text::{
    char_pred, find_char, find_str, find_sub, first_match, lemma_first_match_props, lowercase, slice_of, starts_with,
    starts_with_str, string_of, to_chars, to_lower, trim, trim_of,
};

verus! {

/// Whether an account is an asset or liability account (in lowercase).
pub open spec fn is_balance_account(account: Seq<char>) -> bool {
    starts_with(lowercase(account), "assets"@) || starts_with(lowercase(account), "liabilities"@)
}

/// Whether an account is an asset or liability account.
pub fn is_asset_or_liability_account(account: &str) -> (r: bool)
    ensures
        r == is_balance_account(account@),
{
    let l = to_chars(to_lower(account).as_str());
    starts_with_str(&l, "assets") || starts_with_str(&l, "liabilities")
}

/// A commodity field without a price part: the text before the first `@@`,
/// then before the first `@`, trimmed.
pub open spec fn spec_clean_commodity(c: Seq<char>) -> Seq<char> {
    let i = find_sub(c, "@@"@);
    let a = if i >= 0 { c.take(i) } else { c };
    let j = first_match(a, char_pred('@'));
    trim(if j >= 0 { a.take(j) } else { a })
}

/// A commodity without a price part.
pub fn clean_commodity(commodity: &str) -> (r: String)
    ensures
        r@ == spec_clean_commodity(commodity@),
{
    let c = to_chars(commodity);
    proof {
        crate::text::lemma_find_sub_occurs(c@, "@@"@);
    }
    let a = match find_str(&c, "@@") {
        Some(i) => {
            let a = slice_of(&c, 0, i);
            assert(a@ =~= c@.take(i as int));
            a
        },
        None => c,
    };
    proof {
        lemma_first_match_props(a@, char_pred('@'));
    }
    let b = match find_char(&a, '@') {
        Some(j) => {
            let b = slice_of(&a, 0, j);
            assert(b@ =~= a@.take(j as int));
            b
        },
        None => a,
    };
    string_of(&trim_of(&b))
}

/// The text without its `-` characters.
pub open spec fn without_minus(s: Seq<char>) -> Seq<char>
    decreases s.len(),
{
    if s.len() == 0 {
        seq![]
    } else if s.last() == '-' {
        without_minus(s.drop_last())
    } else {
        without_minus(s.drop_last()).push(s.last())
    }
}

/// A display amount signed by the kind of transaction: `+` for income, `-`
/// for expenses (other signs removed), unchanged otherwise.
pub open spec fn spec_format_display_amount(amount: Seq<char>, kind: Seq<char>) -> Seq<char> {
    if kind == "income"@ {
        seq!['+'] + without_minus(amount)
    } else if kind == "expense"@ {
        seq!['-'] + without_minus(amount)
    } else {
        amount
    }
}

/// Signs a display amount by the kind of transaction.
pub fn format_display_amount(amount: &str, kind: &str) -> (r: String)
    ensures
        r@ == spec_format_display_amount(amount@, kind@),
{
    let a = to_chars(amount);
    let mut n: Vec<char> = Vec::new();
    let mut i: usize = 0;
    while i < a.len()
        invariant
            0 <= i <= a.len(),
            n@ == without_minus(a@.take(i as int)),
        decreases a.len() - i,
    {
        proof {
            assert(a@.take(i + 1).drop_last() =~= a@.take(i as int));
        }
        if a[i] != '-' {
            n.push(a[i]);
        }
        i += 1;
    }
    assert(a@.take(a.len() as int) =~= a@);
    let k = to_chars(kind);
    let inc = to_chars("income");
    let exp = to_chars("expense");
    if crate::text::chars_eq(&k, &inc) {
        let mut r: Vec<char> = Vec::new();
        r.push('+');
        crate::text::push_all(&mut r, &n);
        string_of(&r)
    } else if crate::text::chars_eq(&k, &exp) {
        let mut r: Vec<char> = Vec::new();
        r.push('-');
        crate::text::push_all(&mut r, &n);
        string_of(&r)
    } else {
        amount.to_owned()
    }
}

/// Adds an account to a list unless the list holds it.
pub fn push_unique(accounts: &mut Vec<String>, account: &str)
    ensures
        string_views(final(accounts)@) == if string_views(old(accounts)@).contains(account@) {
            string_views(old(accounts)@)
        } else {
            string_views(old(accounts)@).push(account@)
        },
{
    let ghost v0 = string_views(accounts@);
    let mut i: usize = 0;
    while i < accounts.len()
        invariant
            0 <= i <= accounts.len(),
            v0 == string_views(accounts@),
            accounts@ == old(accounts)@,
            forall|j: int| 0 <= j < i ==> v0[j] != account@,
        decreases accounts.len() - i,
    {
        assert(v0[i as int] == accounts@[i as int]@);
        if crate::text::str_eq(accounts[i].as_str(), account) {
            return;
        }
        i += 1;
    }
    accounts.push(account.to_owned());
    assert(string_views(accounts@) =~= v0.push(account@));
}

/// A list of accounts with one more, unless it holds it.
pub open spec fn push_new(v: Seq<Seq<char>>, a: Seq<char>) -> Seq<Seq<char>> {
    if v.contains(a) {
        v
    } else {
        v.push(a)
    }
}

/// The accounts (trimmed, not empty, each once, in order) of the first `n`
/// postings whose value is below zero (`neg`) or above zero (else).
pub open spec fn flow_side(accounts: Seq<Seq<char>>, signs: Seq<i8>, neg: bool, n: int) -> Seq<Seq<char>>
    decreases n,
{
    if n <= 0 {
        seq![]
    } else {
        let rest = flow_side(accounts, signs, neg, n - 1);
        let a = trim(accounts[n - 1]);
        if a.len() > 0 && (if neg {
            signs[n - 1] < 0
        } else {
            signs[n - 1] > 0
        }) {
            push_new(rest, a)
        } else {
            rest
        }
    }
}

/// The accounts of the first `n` postings, trimmed, that are not empty.
pub open spec fn named_accounts(accounts: Seq<Seq<char>>, n: int) -> Seq<Seq<char>>
    decreases n,
{
    if n <= 0 {
        seq![]
    } else {
        let rest = named_accounts(accounts, n - 1);
        if trim(accounts[n - 1]).len() > 0 {
            rest.push(trim(accounts[n - 1]))
        } else {
            rest
        }
    }
}

/// Where money moved in a transaction, as (from, to): the accounts of the
/// postings (paired with their value signs) whose value is below zero, and
/// those whose value is above zero. Where neither has one, the last named
/// account is the source and the first the destination (a single named
/// account is only the destination).
pub open spec fn spec_transaction_flow(accounts: Seq<Seq<char>>, signs: Seq<i8>) -> (Seq<Seq<char>>, Seq<Seq<char>>) {
    let n = if accounts.len() < signs.len() {
        accounts.len() as int
    } else {
        signs.len() as int
    };
    let from = flow_side(accounts, signs, true, n);
    let to = flow_side(accounts, signs, false, n);
    let named = named_accounts(accounts, accounts.len() as int);
    if from.len() == 0 && to.len() == 0 {
        if named.len() > 1 {
            (seq![named.last()], seq![named[0]])
        } else if named.len() == 1 {
            (seq![], seq![named[0]])
        } else {
            (seq![], seq![])
        }
    } else {
        (from, to)
    }
}

/// Where money moved in a transaction: from the accounts of postings whose
/// value (given by its sign, one per posting, paired in order) is below zero,
/// to those whose value is above zero; with neither, from the last named
/// account to the first.
pub fn transaction_flow(accounts: &Vec<String>, signs: &Vec<i8>) -> (r: TransactionFlow)
    ensures
        (string_views(r.from@), string_views(r.to@)) == spec_transaction_flow(string_views(accounts@), signs@),
{
    let ghost av = string_views(accounts@);
    let n: usize = if accounts.len() < signs.len() {
        accounts.len()
    } else {
        signs.len()
    };
    let mut from: Vec<String> = Vec::new();
    let mut to: Vec<String> = Vec::new();
    let mut i: usize = 0;
    while i < n
        invariant
            i <= n,
            n <= accounts.len(),
            n <= signs.len(),
            av == string_views(accounts@),
            string_views(from@) == flow_side(av, signs@, true, i as int),
            string_views(to@) == flow_side(av, signs@, false, i as int),
        decreases n - i,
    {
        let t = trim_of(&to_chars(accounts[i].as_str()));
        assert(av[i as int] == accounts@[i as int]@);
        if t.len() > 0 {
            let a = string_of(&t);
            if signs[i] < 0 {
                push_unique(&mut from, a.as_str());
            } else if signs[i] > 0 {
                push_unique(&mut to, a.as_str());
            }
        }
        i += 1;
    }
    if from.len() == 0 && to.len() == 0 {
        let mut named: Vec<String> = Vec::new();
        let mut j: usize = 0;
        while j < accounts.len()
            invariant
                j <= accounts.len(),
                av == string_views(accounts@),
                string_views(named@) == named_accounts(av, j as int),
            decreases accounts.len() - j,
        {
            let t = trim_of(&to_chars(accounts[j].as_str()));
            assert(av[j as int] == accounts@[j as int]@);
            if t.len() > 0 {
                let a = string_of(&t);
                let ghost before = string_views(named@);
                named.push(a);
                assert(string_views(named@) =~= before.push(a@));
            }
            j += 1;
        }
        let ghost nv = string_views(named@);
        if named.len() > 1 {
            let last = named[named.len() - 1].as_str();
            push_unique(&mut from, last);
            push_unique(&mut to, named[0].as_str());
            assert(nv.last() == named@[named.len() - 1]@);
            assert(string_views(from@) =~= seq![nv.last()]);
            assert(string_views(to@) =~= seq![nv[0]]);
        } else if named.len() == 1 {
            push_unique(&mut to, named[0].as_str());
            assert(string_views(to@) =~= seq![nv[0]]);
        }
    }
    TransactionFlow { from, to }
}

/// Whether an account, in lowercase, starts with a prefix.
pub fn lower_starts_with(account: &str, prefix: &str) -> (r: bool)
    ensures
        r == starts_with(lowercase(account@), prefix@),
{
    let l = to_chars(to_lower(account).as_str());
    starts_with_str(&l, prefix)
}

/// The sign of a posting's value, where it has one (0 past the signs).
pub open spec fn sign_at(signs: Seq<i8>, k: int) -> i8 {
    if 0 <= k < signs.len() {
        signs[k]
    } else {
        0
    }
}

/// The first of the first `n` postings whose account, in lowercase, starts
/// with `prefix` (-1 if none).
pub open spec fn first_prefixed(ps: Seq<JournalPosting>, prefix: Seq<char>, n: int) -> int
    decreases n,
{
    if n <= 0 {
        -1
    } else if first_prefixed(ps, prefix, n - 1) >= 0 {
        first_prefixed(ps, prefix, n - 1)
    } else if starts_with(lowercase(ps[n - 1].account@), prefix) {
        n - 1
    } else {
        -1
    }
}

/// The first of the first `n` postings of an asset or liability account
/// whose value is below zero (-1 if none).
pub open spec fn first_source(ps: Seq<JournalPosting>, signs: Seq<i8>, n: int) -> int
    decreases n,
{
    if n <= 0 {
        -1
    } else if first_source(ps, signs, n - 1) >= 0 {
        first_source(ps, signs, n - 1)
    } else if is_balance_account(ps[n - 1].account@) && sign_at(signs, n - 1) < 0 {
        n - 1
    } else {
        -1
    }
}

/// The first of the first `n` postings of an asset account whose value is
/// above zero (-1 if none).
pub open spec fn first_gaining_asset(ps: Seq<JournalPosting>, signs: Seq<i8>, n: int) -> int
    decreases n,
{
    if n <= 0 {
        -1
    } else if first_gaining_asset(ps, signs, n - 1) >= 0 {
        first_gaining_asset(ps, signs, n - 1)
    } else if starts_with(lowercase(ps[n - 1].account@), "assets"@) && sign_at(signs, n - 1) > 0 {
        n - 1
    } else {
        -1
    }
}

/// The first of the first `n` postings that has an amount (-1 if none).
pub open spec fn first_with_amount(ps: Seq<JournalPosting>, n: int) -> int
    decreases n,
{
    if n <= 0 {
        -1
    } else if first_with_amount(ps, n - 1) >= 0 {
        first_with_amount(ps, n - 1)
    } else if trim(ps[n - 1].amount@).len() > 0 {
        n - 1
    } else {
        -1
    }
}

/// Which posting a transaction is shown by, and as what.
#[derive(Debug, Clone, Copy, PartialEq, Eq, Structural)]
pub enum SummaryPick {
    /// Money moved out of this asset or liability posting into assets, with
    /// expenses beside: a transfer, shown as going out.
    AssetTransfer(usize),
    /// An expense, shown by its first expense posting.
    Expense(usize),
    /// An income, shown by its first income posting.
    Income(usize),
    /// Neither: shown by its first posting with an amount, as a transfer.
    Transfer(usize),
    /// No posting has an amount: shown by its first posting, of unknown kind.
    Unknown(usize),
    /// No postings at all.
    Empty,
}

/// Which posting a transaction is shown by: an asset transfer where it has
/// an expense posting, an asset or liability posting whose value is below
/// zero (the one shown) and an asset posting whose value is above zero; else
/// its first expense posting; else its first income posting; else its first
/// posting with an amount (a transfer); else its first posting (unknown).
pub open spec fn spec_summary_pick(ps: Seq<JournalPosting>, signs: Seq<i8>) -> SummaryPick {
    let n = ps.len() as int;
    let e = first_prefixed(ps, "expenses"@, n);
    let s = first_source(ps, signs, n);
    if e >= 0 && s >= 0 && first_gaining_asset(ps, signs, n) >= 0 {
        SummaryPick::AssetTransfer(s as usize)
    } else if e >= 0 {
        SummaryPick::Expense(e as usize)
    } else if first_prefixed(ps, "income"@, n) >= 0 {
        SummaryPick::Income(first_prefixed(ps, "income"@, n) as usize)
    } else if first_with_amount(ps, n) >= 0 {
        SummaryPick::Transfer(first_with_amount(ps, n) as usize)
    } else if n > 0 {
        SummaryPick::Unknown(0)
    } else {
        SummaryPick::Empty
    }
}

proof fn lemma_first_bounds(ps: Seq<JournalPosting>, signs: Seq<i8>, n: int)
    requires
        0 <= n,
    ensures
        -1 <= first_prefixed(ps, "expenses"@, n) < n,
        -1 <= first_prefixed(ps, "income"@, n) < n,
        -1 <= first_source(ps, signs, n) < n,
        -1 <= first_gaining_asset(ps, signs, n) < n,
        -1 <= first_with_amount(ps, n) < n,
    decreases n,
{
    if n > 0 {
        lemma_first_bounds(ps, signs, n - 1);
    }
}

/// Which posting a transaction is shown by, and as what, from its postings
/// and the signs of their values (one per posting, in order: below zero,
/// zero or none, above zero).
pub fn summary_pick(postings: &Vec<JournalPosting>, signs: &Vec<i8>) -> (r: SummaryPick)
    ensures
        r == spec_summary_pick(postings@, signs@),
{
    let ghost ps = postings@;
    let mut e: Option<usize> = None;
    let mut inc: Option<usize> = None;
    let mut s: Option<usize> = None;
    let mut ga: Option<usize> = None;
    let mut w: Option<usize> = None;
    let mut i: usize = 0;
    while i < postings.len()
        invariant
            i <= postings.len(),
            ps == postings@,
            (match e { Some(k) => k as int, None => -1 }) == first_prefixed(ps, "expenses"@, i as int),
            (match inc { Some(k) => k as int, None => -1 }) == first_prefixed(ps, "income"@, i as int),
            (match s { Some(k) => k as int, None => -1 }) == first_source(ps, signs@, i as int),
            (match ga { Some(k) => k as int, None => -1 }) == first_gaining_asset(ps, signs@, i as int),
            (match w { Some(k) => k as int, None => -1 }) == first_with_amount(ps, i as int),
        decreases postings.len() - i,
    {
        proof {
            lemma_first_bounds(ps, signs@, i as int);
        }
        let acc = postings[i].account.as_str();
        let sign: i8 = if i < signs.len() {
            signs[i]
        } else {
            0
        };
        if e.is_none() && lower_starts_with(acc, "expenses") {
            e = Some(i);
        }
        if inc.is_none() && lower_starts_with(acc, "income") {
            inc = Some(i);
        }
        if s.is_none() && sign < 0 && is_asset_or_liability_account(acc) {
            s = Some(i);
        }
        if ga.is_none() && sign > 0 && lower_starts_with(acc, "assets") {
            ga = Some(i);
        }
        if w.is_none() && trim_of(&to_chars(postings[i].amount.as_str())).len() > 0 {
            w = Some(i);
        }
        i += 1;
    }
    proof {
        lemma_first_bounds(ps, signs@, postings.len() as int);
    }
    match (e, s, ga) {
        (Some(_), Some(k), Some(_)) => {
            return SummaryPick::AssetTransfer(k);
        },
        _ => {},
    }
    if let Some(k) = e {
        return SummaryPick::Expense(k);
    }
    if let Some(k) = inc {
        return SummaryPick::Income(k);
    }
    if let Some(k) = w {
        return SummaryPick::Transfer(k);
    }
    if postings.len() > 0 {
        SummaryPick::Unknown(0)
    } else {
        SummaryPick::Empty
    }
}

proof fn lemma_without_minus_filter(s: Seq<char>)
    ensures
        without_minus(s) == s.filter(|c: char| c != '-'),
    decreases s.len(),
{
    reveal(Seq::filter);
    if s.len() > 0 {
        lemma_without_minus_filter(s.drop_last());
    }
}

/// The sign of a displayed amount follows the kind: an income is shown as
/// `+` and an expense as `-`, each followed by the amount with its `-` signs
/// taken out, so the two kinds never share a sign; other kinds show the
/// amount as it is.
pub proof fn law_display_amount_sign(amount: Seq<char>)
    ensures
        spec_format_display_amount(amount, "income"@)[0] == '+',
        spec_format_display_amount(amount, "expense"@)[0] == '-',
        spec_format_display_amount(amount, "income"@).skip(1) == amount.filter(|c: char| c != '-'),
        spec_format_display_amount(amount, "expense"@).skip(1) == amount.filter(|c: char| c != '-'),
        !amount.filter(|c: char| c != '-').contains('-'),
        forall|kind: Seq<char>| kind != "income"@ && kind != "expense"@ ==> #[trigger] spec_format_display_amount(amount, kind)
            == amount,
{
    reveal_strlit("income");
    reveal_strlit("expense");
    assert("income"@.len() == 6 && "expense"@.len() == 7);
    lemma_without_minus_filter(amount);
    let f = amount.filter(|c: char| c != '-');
    assert((seq!['+'] + f).skip(1) =~= f);
    assert((seq!['-'] + f).skip(1) =~= f);
    if f.contains('-') {
        let k = choose|k: int| 0 <= k < f.len() && f[k] == '-';
        amount.lemma_filter_pred(|c: char| c != '-', k);
    }
}

} // verus!
