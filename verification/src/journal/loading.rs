//! The transactions of a whole journal, newest first, and the lookup of one
//! transaction by its id.

use vstd::prelude::*;
use crate::amount_style::StyleContext;
use crate::app_error::{app_error_json, to_error_string_with_details, AppErrorSpec};
use crate::journal::files::JournalFile;
use crate::journal::parser::{parse_transactions, spec_transactions_from, transaction_views};
use crate::journal::types::{ParsedTransaction, TransactionSpec};
use crate::text::{lines, push_str, str_eq, string_of, to_chars};
use crate::updates::{lemma_text_order_flip, lemma_text_order_transitive, text_order, text_order_of};

verus! {

/// The first place in a newest-first list whose date is not after `date`.
pub open spec fn first_not_newer(sorted: Seq<TransactionSpec>, date: Seq<char>) -> int
    decreases sorted.len(),
{
    if sorted.len() == 0 {
        0
    } else if first_not_newer(sorted.drop_last(), date) < sorted.len() - 1 {
        first_not_newer(sorted.drop_last(), date)
    } else if text_order(sorted.last().date, date, 0) <= 0 {
        sorted.len() - 1
    } else {
        sorted.len() as int
    }
}

/// The transactions ordered newest first; of those with the same date, the
/// one that comes later in the journal first.
pub open spec fn newest_first(ts: Seq<TransactionSpec>) -> Seq<TransactionSpec>
    decreases ts.len(),
{
    if ts.len() == 0 {
        seq![]
    } else {
        let sorted = newest_first(ts.drop_last());
        sorted.insert(first_not_newer(sorted, ts.last().date), ts.last())
    }
}

proof fn lemma_first_not_newer(sorted: Seq<TransactionSpec>, date: Seq<char>)
    ensures
        0 <= first_not_newer(sorted, date) <= sorted.len(),
        forall|k: int| 0 <= k < first_not_newer(sorted, date) ==> text_order(#[trigger] sorted[k].date, date, 0) > 0,
        first_not_newer(sorted, date) < sorted.len() ==> text_order(sorted[first_not_newer(sorted, date)].date, date, 0) <= 0,
    decreases sorted.len(),
{
    if sorted.len() > 0 {
        lemma_first_not_newer(sorted.drop_last(), date);
        let p = first_not_newer(sorted.drop_last(), date);
        assert forall|k: int| 0 <= k < first_not_newer(sorted, date) implies text_order(#[trigger] sorted[k].date, date, 0) > 0 by {
            if k < p {
                assert(sorted[k] == sorted.drop_last()[k]);
            }
        }
        if p < sorted.len() - 1 {
            assert(sorted[p] == sorted.drop_last()[p]);
        }
    }
}

/// Inserts a transaction into a newest-first list.
fn insert_newest_first(sorted: &mut Vec<ParsedTransaction>, t: ParsedTransaction)
    ensures
        transaction_views(final(sorted)@) == transaction_views(old(sorted)@).insert(
            first_not_newer(transaction_views(old(sorted)@), t@.date),
            t@,
        ),
{
    let ghost sv = transaction_views(sorted@);
    let date = to_chars(t.date.as_str());
    let mut p: usize = 0;
    while p < sorted.len()
        invariant
            0 <= p <= sorted.len(),
            sv == transaction_views(sorted@),
            date@ == t.date@,
            first_not_newer(sv.take(p as int), t@.date) == p,
        ensures
            0 <= p <= sorted.len(),
            first_not_newer(sv.take(p as int), t@.date) == p,
            p < sorted.len() ==> text_order(sv[p as int].date, t@.date, 0) <= 0,
        decreases sorted.len() - p,
    {
        let d = to_chars(sorted[p].date.as_str());
        assert(sv[p as int] == sorted@[p as int]@);
        if text_order_of(&d, &date) <= 0 {
            break;
        }
        assert(sv.take(p as int + 1).drop_last() =~= sv.take(p as int));
        assert(sv.take(p as int + 1).last() == sv[p as int]);
        p += 1;
    }
    proof {
        lemma_first_not_newer_prefix(sv, p as int, t@.date);
    }
    sorted.insert(p, t);
    assert(transaction_views(sorted@) =~= sv.insert(p as int, t@));
}

/// The insertion place found on a prefix that stops before the end holds for
/// the whole list.
proof fn lemma_first_not_newer_prefix(sv: Seq<TransactionSpec>, p: int, date: Seq<char>)
    requires
        0 <= p <= sv.len(),
        first_not_newer(sv.take(p), date) == p,
        p < sv.len() ==> text_order(sv[p].date, date, 0) <= 0,
    ensures
        first_not_newer(sv, date) == p,
    decreases sv.len() - p,
{
    if p == sv.len() {
        assert(sv.take(p) =~= sv);
    } else {
        assert(sv.take(p + 1).drop_last() =~= sv.take(p));
        assert(sv.take(p + 1).last() == sv[p]);
        assert(first_not_newer(sv.take(p + 1), date) == p);
        lemma_first_not_newer_stays(sv, p + 1, p, date);
    }
}

proof fn lemma_first_not_newer_stays(sv: Seq<TransactionSpec>, n: int, p: int, date: Seq<char>)
    requires
        0 <= p < n <= sv.len(),
        first_not_newer(sv.take(n), date) == p,
    ensures
        first_not_newer(sv, date) == p,
    decreases sv.len() - n,
{
    if n == sv.len() {
        assert(sv.take(n) =~= sv);
    } else {
        assert(sv.take(n + 1).drop_last() =~= sv.take(n));
        assert(first_not_newer(sv.take(n + 1), date) == p);
        lemma_first_not_newer_stays(sv, n + 1, p, date);
    }
}

/// The transactions of the journal files, file after file.
pub open spec fn files_transactions(files: Seq<JournalFile>, ctx_comma: bool) -> Seq<TransactionSpec>
    decreases files.len(),
{
    if files.len() == 0 {
        seq![]
    } else {
        files_transactions(files.drop_last(), ctx_comma) + spec_transactions_from(
            lines(files.last().content@),
            0,
            files.last().path@,
            ctx_comma,
        )
    }
}

/// The transactions of all the journal's files, newest first.
pub fn load_transactions_from_journal_via_files(files: &Vec<JournalFile>, ctx: &StyleContext) -> (r: Vec<ParsedTransaction>)
    ensures
        transaction_views(r@) == newest_first(files_transactions(files@, ctx.comma_mark())),
{
    let mut sorted: Vec<ParsedTransaction> = Vec::new();
    let ghost mut seen: Seq<TransactionSpec> = seq![];
    let mut f: usize = 0;
    while f < files.len()
        invariant
            0 <= f <= files.len(),
            seen == files_transactions(files@.take(f as int), ctx.comma_mark()),
            transaction_views(sorted@) == newest_first(seen),
        decreases files.len() - f,
    {
        let mut parsed = parse_transactions(files[f].content.as_str(), files[f].path.as_str(), ctx);
        let ghost fresh = transaction_views(parsed@);
        assert(files@.take(f as int + 1).drop_last() =~= files@.take(f as int));
        assert(files@.take(f as int + 1).last() == files@[f as int]);
        let mut k: usize = 0;
        let ghost total = parsed.len();
        while parsed.len() > 0
            invariant
                fresh.len() == total,
                0 <= k <= total,
                k + parsed.len() == total,
                transaction_views(parsed@) == fresh.skip(k as int),
                transaction_views(sorted@) == newest_first(seen + fresh.take(k as int)),
            decreases parsed.len(),
        {
            let ghost before = parsed@;
            assert(transaction_views(before)[0] == before[0]@);
            let t = parsed.remove(0);
            assert(t@ == fresh[k as int]);
            assert(parsed@ =~= before.subrange(1, before.len() as int));
            assert forall|j: int| 0 <= j < parsed.len() implies transaction_views(parsed@)[j] == fresh[k + 1 + j] by {
                assert(transaction_views(before)[j + 1] == before[j + 1]@);
            }
            assert(transaction_views(parsed@) =~= fresh.skip(k as int + 1));
            assert((seen + fresh.take(k as int + 1)).drop_last() =~= seen + fresh.take(k as int));
            assert((seen + fresh.take(k as int + 1)).last() == t@);
            insert_newest_first(&mut sorted, t);
            k += 1;
        }
        assert(fresh.take(k as int) =~= fresh);
        proof {
            seen = seen + fresh;
        }
        f += 1;
    }
    assert(files@.take(files.len() as int) =~= files@);
    sorted
}

/// The error for an id that no transaction has.
pub open spec fn not_found_error(id: Seq<char>) -> Seq<char> {
    app_error_json(AppErrorSpec {
        code: "transaction_not_found"@,
        message: "Transaction not found. It may have been deleted or moved."@,
        details: Some("Transaction id: "@ + id),
        field_errors: seq![],
    })
}

/// The first transaction with an id, or -1.
pub open spec fn first_with_id(ts: Seq<TransactionSpec>, id: Seq<char>) -> int
    decreases ts.len(),
{
    if ts.len() == 0 {
        -1
    } else if first_with_id(ts.drop_last(), id) >= 0 {
        first_with_id(ts.drop_last(), id)
    } else if ts.last().id == id {
        ts.len() - 1
    } else {
        -1
    }
}

/// The transaction with an id, taken out of the loaded transactions.
pub fn find_block(transactions: Vec<ParsedTransaction>, id: &str) -> (r: Result<ParsedTransaction, String>)
    ensures
        first_with_id(transaction_views(transactions@), id@) >= 0 ==> (r matches Ok(t)
            && t@ == transaction_views(transactions@)[first_with_id(transaction_views(transactions@), id@)]),
        first_with_id(transaction_views(transactions@), id@) < 0 ==> (r matches Err(e) && e@ == not_found_error(id@)),
{
    let ghost tv = transaction_views(transactions@);
    let mut ts = transactions;
    let mut i: usize = 0;
    while i < ts.len()
        invariant
            0 <= i <= ts.len(),
            tv == transaction_views(ts@),
            tv == transaction_views(transactions@),
            first_with_id(tv.take(i as int), id@) < 0,
        decreases ts.len() - i,
    {
        assert(tv.take(i as int + 1).drop_last() =~= tv.take(i as int));
        assert(tv.take(i as int + 1).last() == ts@[i as int]@);
        if str_eq(ts[i].id.as_str(), id) {
            proof {
                assert(first_with_id(tv.take(i as int + 1), id@) == i);
                lemma_first_with_id_stays(tv, i as int + 1, i as int, id@);
                assert(first_with_id(tv, id@) == i);
            }
            let ghost before = ts@;
            assert(tv[i as int] == before[i as int]@);
            let t = ts.remove(i);
            assert(t@ == tv[i as int]);
            return Ok(t);
        }
        i += 1;
    }
    assert(tv.take(ts.len() as int) =~= tv);
    let mut details = to_chars("Transaction id: ");
    push_str(&mut details, id);
    let d = string_of(&details);
    Err(to_error_string_with_details(
        "transaction_not_found",
        "Transaction not found. It may have been deleted or moved.",
        d.as_str(),
    ))
}

proof fn lemma_first_with_id_stays(ts: Seq<TransactionSpec>, n: int, p: int, id: Seq<char>)
    requires
        0 <= p < n <= ts.len(),
        first_with_id(ts.take(n), id) == p,
    ensures
        first_with_id(ts, id) == p,
    decreases ts.len() - n,
{
    if n == ts.len() {
        assert(ts.take(n) =~= ts);
    } else {
        assert(ts.take(n + 1).drop_last() =~= ts.take(n));
        lemma_first_with_id_stays(ts, n + 1, p, id);
    }
}

/// Dates that never increase along the list.
pub open spec fn dates_descending(s: Seq<TransactionSpec>) -> bool {
    forall|i: int, j: int| 0 <= i < j < s.len() ==> text_order(#[trigger] s[i].date, #[trigger] s[j].date, 0) >= 0
}

/// Loaded transactions come newest first, and they are the journal's
/// transactions, none lost and none added.
pub proof fn law_newest_first(ts: Seq<TransactionSpec>)
    ensures
        dates_descending(newest_first(ts)),
        newest_first(ts).to_multiset() == ts.to_multiset(),
    decreases ts.len(),
{
    if ts.len() > 0 {
        let sorted = newest_first(ts.drop_last());
        let x = ts.last();
        law_newest_first(ts.drop_last());
        lemma_first_not_newer(sorted, x.date);
        let p = first_not_newer(sorted, x.date);
        let r = sorted.insert(p, x);
        assert forall|i: int, j: int| 0 <= i < j < r.len() implies text_order(#[trigger] r[i].date, #[trigger] r[j].date, 0) >= 0 by {
            if j < p {
                assert(r[i] == sorted[i] && r[j] == sorted[j]);
            } else if j == p {
                assert(r[i] == sorted[i] && r[j] == x);
            } else if i < p {
                assert(r[i] == sorted[i] && r[j] == sorted[j - 1]);
            } else if i == p {
                assert(r[i] == x && r[j] == sorted[j - 1]);
                lemma_text_order_flip(sorted[p].date, x.date);
                if j - 1 > p {
                    assert(text_order(sorted[p].date, sorted[j - 1].date, 0) >= 0);
                    lemma_text_order_flip(sorted[p].date, sorted[j - 1].date);
                    lemma_text_order_transitive(sorted[j - 1].date, sorted[p].date, x.date, 0);
                    lemma_text_order_flip(sorted[j - 1].date, x.date);
                }
            } else {
                assert(r[i] == sorted[i - 1] && r[j] == sorted[j - 1]);
            }
        }
        vstd::seq_lib::to_multiset_insert(sorted, p, x);
        vstd::seq_lib::to_multiset_build(ts.drop_last(), x);
        assert(ts.drop_last().push(x) =~= ts);
    } else {
        assert(newest_first(ts) =~= ts);
    }
}

} // verus!
