//! Searching one transaction: which of its fields match a query, how well,
//! and where to highlight them.

use vstd::prelude::*;
use crate::journal::search::{
    highlight_of, pair_less, range_views, ranges_are_defined, ranges_defined, raw_ranges, score_search_match,
    search_match_ranges, spec_score, SearchMatchRange,
};
use crate::journal::types::{JournalPosting, JournalTransaction};
use crate::text::{byte_len, lowercase};

verus! {

/// A field of a transaction that matches a query.
#[derive(Debug, Clone, PartialEq, Eq)]
pub struct JournalSearchMatch {
    pub field: String,
    pub value: String,
    pub ranges: Vec<SearchMatchRange>,
    pub posting_index: Option<usize>,
}

/// A transaction that matches a query, with its matching fields.
#[derive(Debug, Clone, PartialEq, Eq)]
pub struct JournalSearchResult {
    pub transaction: JournalTransaction,
    pub matches: Vec<JournalSearchMatch>,
}

/// The searched fields of postings: the account, then the comment, of each.
pub open spec fn posting_search_fields(ps: Seq<JournalPosting>) -> Seq<(Seq<char>, Seq<char>, Option<usize>)>
    decreases ps.len(),
{
    if ps.len() == 0 {
        seq![]
    } else {
        let i = (ps.len() - 1) as usize;
        posting_search_fields(ps.drop_last()) + seq![
            ("account"@, ps.last().account@, Some(i)),
            ("comment"@, ps.last().comment@, Some(i)),
        ]
    }
}

/// The searched fields of a transaction: its description, then its
/// postings' accounts and comments; each with its name and posting index.
pub open spec fn search_fields(t: JournalTransaction) -> Seq<(Seq<char>, Seq<char>, Option<usize>)> {
    seq![("description"@, t.description@, None::<usize>)] + posting_search_fields(t.postings@)
}

/// The best score of the fields that match (0 when none does).
pub open spec fn best_score(fields: Seq<(Seq<char>, Seq<char>, Option<usize>)>, needle: Seq<char>) -> int
    decreases fields.len(),
{
    if fields.len() == 0 {
        0
    } else {
        let best = best_score(fields.drop_last(), needle);
        let s = spec_score(fields.last().1, needle);
        if s != 0 && s > best { s } else { best }
    }
}

/// The fields that match, in order.
pub open spec fn matching_fields(fields: Seq<(Seq<char>, Seq<char>, Option<usize>)>, needle: Seq<char>) -> Seq<(Seq<char>, Seq<char>, Option<usize>)>
    decreases fields.len(),
{
    if fields.len() == 0 {
        seq![]
    } else {
        let rest = matching_fields(fields.drop_last(), needle);
        if spec_score(fields.last().1, needle) != 0 { rest.push(fields.last()) } else { rest }
    }
}

/// The highlight ranges of a text for a query, sorted, each once.
pub open spec fn is_highlight_list(value: Seq<char>, needle: Seq<char>, rs: Seq<(int, int)>) -> bool {
    &&& forall|i: int, j: int| 0 <= i < j < rs.len() ==> pair_less(#[trigger] rs[i], #[trigger] rs[j])
    &&& forall|c: (int, int)| #[trigger] rs.contains(c) <==> exists|k: int|
        0 <= k < raw_ranges(value, needle).len() && c == highlight_of(value, #[trigger] raw_ranges(value, needle)[k])
}

/// Every matching field's highlight ranges are defined.
pub open spec fn search_ready(t: JournalTransaction, needle: Seq<char>) -> bool {
    forall|i: int| 0 <= i < search_fields(t).len() && spec_score(#[trigger] search_fields(t)[i].1, needle) != 0 ==> byte_len(
        lowercase(search_fields(t)[i].1),
    ) <= usize::MAX && ranges_defined(search_fields(t)[i].1, needle)
}

pub open spec fn match_view(m: JournalSearchMatch) -> (Seq<char>, Seq<char>, Option<usize>) {
    (m.field@, m.value@, m.posting_index)
}

/// The matches hold the matching fields, each with its highlight list.
pub open spec fn matches_fields(ms: Seq<JournalSearchMatch>, fields: Seq<(Seq<char>, Seq<char>, Option<usize>)>, needle: Seq<char>) -> bool {
    &&& ms.len() == fields.len()
    &&& forall|k: int| 0 <= k < ms.len() ==> match_view(#[trigger] ms[k]) == fields[k] && is_highlight_list(
        fields[k].1,
        needle,
        range_views(ms[k].ranges@),
    )
}

/// What searching a transaction gives: none when no field matches; else
/// the best score and the matching fields with their highlight lists.
pub open spec fn is_search_outcome(t: JournalTransaction, needle: Seq<char>, r: Option<(i32, JournalSearchResult)>) -> bool {
    &&& best_score(search_fields(t), needle) == 0 ==> r is None
    &&& best_score(search_fields(t), needle) != 0 ==> (r matches Some((score, result))
        && score as int == best_score(search_fields(t), needle)
        && result.transaction == t
        && matches_fields(result.matches@, matching_fields(search_fields(t), needle), needle))
}

/// Whether one field is ready: it does not match, or its highlight
/// ranges are defined.
fn field_ready(value: &String, needle: &str) -> (r: bool)
    ensures
        r == (spec_score(value@, needle@) != 0 ==> byte_len(lowercase(value@)) <= usize::MAX && ranges_defined(value@, needle@)),
{
    score_search_match(value.as_str(), needle) == 0 || ranges_are_defined(value.as_str(), needle)
}

/// Searches one transaction, first checking that the highlight ranges of
/// every matching field are defined; none when one is not.
pub fn search_journal_transaction_checked(transaction: JournalTransaction, needle: &str) -> (r: Option<Option<(i32, JournalSearchResult)>>)
    ensures
        r is Some <==> search_ready(transaction, needle@),
        r matches Some(x) ==> is_search_outcome(transaction, needle@, x),
{
    let ghost fields = search_fields(transaction);
    proof {
        lemma_posting_fields_len(transaction.postings@);
    }
    assert(fields[0] == ("description"@, transaction.description@, None::<usize>));
    if !field_ready(&transaction.description, needle) {
        assert(spec_score(search_fields(transaction)[0].1, needle@) != 0);
        return None;
    }
    let mut i: usize = 0;
    while i < transaction.postings.len()
        invariant
            0 <= i <= transaction.postings.len(),
            fields == search_fields(transaction),
            fields.len() == 1 + 2 * transaction.postings.len(),
            forall|j: int| 0 <= j < 1 + 2 * i && spec_score(#[trigger] fields[j].1, needle@) != 0 ==> byte_len(
                lowercase(fields[j].1),
            ) <= usize::MAX && ranges_defined(fields[j].1, needle@),
        decreases transaction.postings.len() - i,
    {
        proof {
            lemma_posting_fields(transaction.postings@, i as int);
        }
        let p = &transaction.postings[i];
        let ghost k = 1 + 2 * i;
        assert(fields[k] == ("account"@, p.account@, Some(i)));
        assert(fields[k + 1] == ("comment"@, p.comment@, Some(i)));
        if !field_ready(&p.account, needle) {
            assert(spec_score(search_fields(transaction)[k].1, needle@) != 0);
            return None;
        }
        if !field_ready(&p.comment, needle) {
            assert(spec_score(search_fields(transaction)[k + 1].1, needle@) != 0);
            return None;
        }
        i += 1;
    }
    Some(search_journal_transaction(transaction, needle))
}

fn add_search_match(
    matches: &mut Vec<JournalSearchMatch>,
    score: &mut i32,
    field: &str,
    value: &String,
    posting_index: Option<usize>,
    needle: &str,
    Ghost(done): Ghost<Seq<(Seq<char>, Seq<char>, Option<usize>)>>,
)
    requires
        matches_fields(old(matches)@, matching_fields(done, needle@), needle@),
        *old(score) as int == best_score(done, needle@),
        spec_score(value@, needle@) != 0 ==> byte_len(lowercase(value@)) <= usize::MAX && ranges_defined(value@, needle@),
    ensures
        matches_fields(final(matches)@, matching_fields(done.push((field@, value@, posting_index)), needle@), needle@),
        *final(score) as int == best_score(done.push((field@, value@, posting_index)), needle@),
{
    let ghost next = done.push((field@, value@, posting_index));
    assert(next.drop_last() =~= done);
    let s = score_search_match(value.as_str(), needle);
    if s == 0 {
        return;
    }
    if s > *score {
        *score = s;
    }
    let ranges = search_match_ranges(value.as_str(), needle);
    let m = JournalSearchMatch { field: field.to_owned(), value: value.clone(), ranges, posting_index };
    let ghost before = matches@;
    matches.push(m);
    assert(matches@ =~= before.push(m));
}

/// How well a transaction matches a query, with its matching fields; none
/// when no field matches. The score is the best of its fields' scores.
pub fn search_journal_transaction(transaction: JournalTransaction, needle: &str) -> (r: Option<(i32, JournalSearchResult)>)
    requires
        search_ready(transaction, needle@),
    ensures
        is_search_outcome(transaction, needle@, r),
{
    let ghost fields = search_fields(transaction);
    let mut score: i32 = 0;
    let mut matches: Vec<JournalSearchMatch> = Vec::new();
    assert(fields.take(0) =~= Seq::<(Seq<char>, Seq<char>, Option<usize>)>::empty());
    assert(fields.take(1) =~= seq![("description"@, transaction.description@, None::<usize>)]);
    assert(fields[0] == ("description"@, transaction.description@, None::<usize>));
    assert(spec_score(fields[0].1, needle@) != 0 ==> byte_len(lowercase(fields[0].1)) <= usize::MAX && ranges_defined(fields[0].1, needle@));
    proof {
        lemma_posting_fields_len(transaction.postings@);
    }
    add_search_match(&mut matches, &mut score, "description", &transaction.description, None, needle, Ghost(fields.take(0)));
    assert(fields.take(0).push(("description"@, transaction.description@, None::<usize>)) =~= fields.take(1));
    let mut i: usize = 0;
    while i < transaction.postings.len()
        invariant
            0 <= i <= transaction.postings.len(),
            fields == search_fields(transaction),
            search_ready(transaction, needle@),
            fields.len() == 1 + 2 * transaction.postings.len(),
            matches_fields(matches@, matching_fields(fields.take(1 + 2 * i), needle@), needle@),
            score as int == best_score(fields.take(1 + 2 * i), needle@),
        decreases transaction.postings.len() - i,
    {
        proof {
            lemma_posting_fields(transaction.postings@, i as int);
        }
        let p = &transaction.postings[i];
        let ghost k = 1 + 2 * i;
        assert(fields[k] == ("account"@, p.account@, Some(i)));
        assert(fields[k + 1] == ("comment"@, p.comment@, Some(i)));
        assert(spec_score(fields[k].1, needle@) != 0 ==> byte_len(lowercase(fields[k].1)) <= usize::MAX && ranges_defined(fields[k].1, needle@));
        assert(spec_score(fields[k + 1].1, needle@) != 0 ==> byte_len(lowercase(fields[k + 1].1)) <= usize::MAX && ranges_defined(fields[k + 1].1, needle@));
        add_search_match(&mut matches, &mut score, "account", &p.account, Some(i), needle, Ghost(fields.take(k)));
        assert(fields.take(k).push(fields[k]) =~= fields.take(k + 1));
        add_search_match(&mut matches, &mut score, "comment", &p.comment, Some(i), needle, Ghost(fields.take(k + 1)));
        assert(fields.take(k + 1).push(fields[k + 1]) =~= fields.take(k + 2));
        i += 1;
    }
    assert(fields.take(1 + 2 * transaction.postings.len()) =~= fields);
    if score == 0 {
        return None;
    }
    Some((score, JournalSearchResult { transaction, matches }))
}

proof fn lemma_posting_fields(ps: Seq<JournalPosting>, i: int)
    requires
        0 <= i < ps.len(),
    ensures
        posting_search_fields(ps).len() == 2 * ps.len(),
        posting_search_fields(ps)[2 * i] == ("account"@, ps[i].account@, Some(i as usize)),
        posting_search_fields(ps)[2 * i + 1] == ("comment"@, ps[i].comment@, Some(i as usize)),
    decreases ps.len(),
{
    lemma_posting_fields_len(ps);
    if i < ps.len() - 1 {
        lemma_posting_fields(ps.drop_last(), i);
        lemma_posting_fields_len(ps.drop_last());
        assert(ps.drop_last()[i] == ps[i]);
    }
}

proof fn lemma_posting_fields_len(ps: Seq<JournalPosting>)
    ensures
        posting_search_fields(ps).len() == 2 * ps.len(),
    decreases ps.len(),
{
    if ps.len() > 0 {
        lemma_posting_fields_len(ps.drop_last());
    }
}

} // verus!
