//! Searching journal text: normalizing queries, scoring how well a field
//! matches, and the character ranges to highlight.

use vstd::prelude::*;
use crate::app_error::join_with;
use crate::text::{
    byte_len, contains, find_chars, first_match, is_ws, lemma_first_match_props, lowercase, push_all, slice_of, starts_with,
    starts_with_chars, string_of, to_chars, to_lower, trim, trim_of, trim_start, trim_start_of, views, ws_pred,
    char_is_ws, find_ws,
};

verus! {

/// The whitespace-separated words of a text (`str::split_whitespace`).
pub open spec fn words(s: Seq<char>) -> Seq<Seq<char>>
    decreases s.len(),
{
    let t = trim_start(s);
    if t.len() == 0 {
        seq![]
    } else {
        let k = first_match(t, ws_pred());
        if k < 0 {
            seq![t]
        } else {
            proof {
                lemma_first_match_props(t, ws_pred());
                crate::text::lemma_trim_start_len(s);
            }
            seq![t.take(k)] + words(t.skip(k))
        }
    }
}

pub fn words_of(s: &Vec<char>) -> (r: Vec<Vec<char>>)
    ensures
        views(r@) == words(s@),
    decreases s.len(),
{
    let t = trim_start_of(s);
    if t.len() == 0 {
        return Vec::new();
    }
    proof {
        lemma_first_match_props(t@, ws_pred());
        crate::text::lemma_trim_start_len(s@);
    }
    match find_ws(&t) {
        None => {
            let mut r: Vec<Vec<char>> = Vec::new();
            r.push(t);
            assert(views(r@) =~= seq![r@[0]@]);
            r
        },
        Some(k) => {
            let w = slice_of(&t, 0, k);
            let rest = slice_of(&t, k, t.len());
            assert(w@ =~= t@.take(k as int));
            assert(rest@ =~= t@.skip(k as int));
            let tail = words_of(&rest);
            let mut r: Vec<Vec<char>> = Vec::new();
            r.push(w);
            let mut i: usize = 0;
            while i < tail.len()
                invariant
                    0 <= i <= tail.len(),
                    views(r@) == seq![t@.take(k as int)] + views(tail@).take(i as int),
                decreases tail.len() - i,
            {
                let ghost before = r@;
                r.push(tail[i].clone());
                proof {
                    assert(views(r@) =~= views(before).push(tail@[i as int]@));
                    assert(views(tail@).take(i + 1) =~= views(tail@).take(i as int).push(tail@[i as int]@));
                }
                i += 1;
            }
            assert(views(tail@).take(tail.len() as int) =~= views(tail@));
            r
        },
    }
}

/// A query in lowercase with its words separated by single spaces.
pub open spec fn spec_normalize_search_query(value: Seq<char>) -> Seq<char> {
    join_with(words(lowercase(trim(value))), seq![' '])
}

fn join_spaced(items: &Vec<Vec<char>>) -> (r: Vec<char>)
    ensures
        r@ == join_with(views(items@), seq![' ']),
{
    let mut r: Vec<char> = Vec::new();
    let mut i: usize = 0;
    while i < items.len()
        invariant
            0 <= i <= items.len(),
            r@ == join_with(views(items@).take(i as int), seq![' ']),
        decreases items.len() - i,
    {
        proof {
            assert(views(items@).take(i + 1).drop_last() =~= views(items@).take(i as int));
            assert(views(items@).take(i + 1).last() == items@[i as int]@);
        }
        if i > 0 {
            r.push(' ');
        } else {
            assert(views(items@).take(1) =~= seq![items@[0]@]);
        }
        push_all(&mut r, &items[i]);
        i += 1;
    }
    assert(views(items@).take(items.len() as int) =~= views(items@));
    r
}

pub fn normalize_search_query_chars(value: &str) -> (r: Vec<char>)
    ensures
        r@ == spec_normalize_search_query(value@),
{
    let v = to_chars(value);
    let t = trim_of(&v);
    let ts = string_of(&t);
    let lower = to_lower(ts.as_str());
    to_chars(spaced_words(lower.as_str()).as_str())
}

/// The words of a text (split at whitespace, empty ones dropped), joined by
/// single spaces.
pub fn spaced_words(text: &str) -> (r: String)
    ensures
        r@ == join_with(words(text@), seq![' ']),
{
    let ws = words_of(&to_chars(text));
    string_of(&join_spaced(&ws))
}

/// Normalizes a search query: trimmed, lowercase, single spaces between
/// words.
pub fn normalize_search_query(value: &str) -> (r: String)
    ensures
        r@ == spec_normalize_search_query(value@),
{
    string_of(&normalize_search_query_chars(value))
}

pub open spec fn is_word_separator(c: char) -> bool {
    is_ws(c) || c == '-' || c == '_' || c == ':' || c == '/'
}

pub open spec fn separator_pred() -> spec_fn(char) -> bool {
    |c: char| is_word_separator(c)
}

/// The pieces of a text between word separators (whitespace, `-`, `_`, `:`,
/// `/`), empty pieces included.
pub open spec fn separated_pieces(s: Seq<char>) -> Seq<Seq<char>>
    decreases s.len(),
{
    let k = first_match(s, separator_pred());
    if k < 0 {
        seq![s]
    } else {
        proof {
            lemma_first_match_props(s, separator_pred());
        }
        seq![s.take(k)] + separated_pieces(s.skip(k + 1))
    }
}

/// Whether some word of the text starts with the needle.
pub open spec fn some_word_starts_with(h: Seq<char>, n: Seq<char>) -> bool {
    exists|i: int| 0 <= i < separated_pieces(h).len()
        && #[trigger] separated_pieces(h)[i].len() > 0 && starts_with(separated_pieces(h)[i], n)
}

/// Whether every term occurs in the text.
pub open spec fn all_terms_occur(h: Seq<char>, terms: Seq<Seq<char>>) -> bool {
    forall|i: int| 0 <= i < terms.len() ==> contains(h, #[trigger] terms[i])
}

/// How well a field matches a query, both normalized: 100 when equal, 80
/// when the field starts with the query, 60 when one of its words does, 40
/// when it holds the query, 30 when it holds each of two or more query
/// words, else 0.
pub open spec fn spec_score(haystack: Seq<char>, needle: Seq<char>) -> int {
    spec_score_normalized(spec_normalize_search_query(haystack), spec_normalize_search_query(needle))
}

/// How well a normalized field `h` matches a normalized query `n`: 100 when
/// equal, 80 when the field starts with the query, 60 when one of its words
/// does, 40 when it holds the query, 30 when it holds each of two or more
/// query words, else 0 (and 0 when either is empty).
pub open spec fn spec_score_normalized(h: Seq<char>, n: Seq<char>) -> int {
    if n.len() == 0 || h.len() == 0 {
        0
    } else if h == n {
        100
    } else if starts_with(h, n) {
        80
    } else if some_word_starts_with(h, n) {
        60
    } else if contains(h, n) {
        40
    } else if words(n).len() > 1 && all_terms_occur(h, words(n)) {
        30
    } else {
        0
    }
}

fn some_word_starts_with_of(h: &Vec<char>, n: &Vec<char>) -> (r: bool)
    ensures
        r == some_word_starts_with(h@, n@),
    decreases h.len(),
{
    proof {
        lemma_first_match_props(h@, separator_pred());
    }
    let mut k: usize = 0;
    while k < h.len() && !(char_is_ws(h[k]) || h[k] == '-' || h[k] == '_' || h[k] == ':' || h[k] == '/')
        invariant
            0 <= k <= h.len(),
            forall|j: int| 0 <= j < k ==> !is_word_separator(h@[j]),
        decreases h.len() - k,
    {
        k += 1;
    }
    proof {
        crate::text::lemma_first_match(h@, separator_pred(), k as int);
    }
    let piece = slice_of(h, 0, k);
    assert(piece@ =~= h@.take(k as int));
    let hit = piece.len() > 0 && starts_with_chars(&piece, n);
    if k == h.len() {
        proof {
            assert(h@.take(k as int) =~= h@);
            assert(separated_pieces(h@) == seq![h@]);
            if hit {
                assert(separated_pieces(h@)[0].len() > 0);
            }
        }
        return hit;
    }
    let rest = slice_of(h, k + 1, h.len());
    assert(rest@ =~= h@.skip(k + 1));
    let ghost ps = separated_pieces(h@);
    assert(ps == seq![h@.take(k as int)] + separated_pieces(rest@));
    if hit {
        assert(ps[0].len() > 0 && starts_with(ps[0], n@));
        return true;
    }
    let r = some_word_starts_with_of(&rest, n);
    proof {
        if r {
            let i = choose|i: int| 0 <= i < separated_pieces(rest@).len()
                && #[trigger] separated_pieces(rest@)[i].len() > 0 && starts_with(separated_pieces(rest@)[i], n@);
            assert(ps[i + 1] == separated_pieces(rest@)[i]);
        } else {
            assert forall|i: int| 0 <= i < ps.len() && #[trigger] ps[i].len() > 0 implies !starts_with(ps[i], n@) by {
                if i > 0 {
                    assert(ps[i] == separated_pieces(rest@)[i - 1]);
                }
            }
        }
    }
    r
}

/// Scores how well a field matches a search query.
pub fn score_search_match(haystack: &str, needle: &str) -> (r: i32)
    ensures
        r as int == spec_score(haystack@, needle@),
{
    let h = string_of(&normalize_search_query_chars(haystack));
    let n = string_of(&normalize_search_query_chars(needle));
    score_normalized(h.as_str(), n.as_str())
}

/// Scores how well a field matches a search query, both already normalized.
pub fn score_normalized(field: &str, query: &str) -> (r: i32)
    ensures
        r as int == spec_score_normalized(field@, query@),
{
    let h = to_chars(field);
    let n = to_chars(query);
    if n.len() == 0 || h.len() == 0 {
        return 0;
    }
    if crate::text::chars_eq(&h, &n) {
        return 100;
    }
    if starts_with_chars(&h, &n) {
        return 80;
    }
    if some_word_starts_with_of(&h, &n) {
        return 60;
    }
    if crate::text::contains_chars(&h, &n) {
        return 40;
    }
    let terms = words_of(&n);
    if terms.len() > 1 && all_terms_in(&h, &terms) {
        return 30;
    }
    0
}

fn all_terms_in(h: &Vec<char>, terms: &Vec<Vec<char>>) -> (r: bool)
    ensures
        r == all_terms_occur(h@, views(terms@)),
{
    let mut i: usize = 0;
    while i < terms.len()
        invariant
            0 <= i <= terms.len(),
            forall|j: int| 0 <= j < i ==> contains(h@, #[trigger] views(terms@)[j]),
        decreases terms.len() - i,
    {
        assert(views(terms@)[i as int] == terms@[i as int]@);
        if !crate::text::contains_chars(h, &terms[i]) {
            assert(!contains(h@, views(terms@)[i as int]));
            return false;
        }
        i += 1;
    }
    true
}


/// A range of characters to highlight.
#[derive(Debug, Clone, Copy, PartialEq, Eq)]
pub struct SearchMatchRange {
    pub start: usize,
    pub end: usize,
}

/// Whether a byte offset falls between two characters of the text.
pub open spec fn is_char_boundary(value: Seq<char>, b: int) -> bool {
    exists|k: int| 0 <= k <= value.len() && byte_len(value.take(k)) == b
}

/// The number of characters before a byte offset.
pub open spec fn char_index_at(value: Seq<char>, b: int) -> int {
    choose|k: int| 0 <= k <= value.len() && byte_len(value.take(k)) == b
}

pub proof fn lemma_byte_len_take(s: Seq<char>, a: int, b: int)
    requires
        0 <= a <= b <= s.len(),
    ensures
        byte_len(s.take(a)) <= byte_len(s.take(b)),
        a < b ==> byte_len(s.take(a)) < byte_len(s.take(b)),
    decreases b - a,
{
    if a < b {
        lemma_byte_len_take(s, a, b - 1);
        assert(s.take(b).drop_last() =~= s.take(b - 1));
    }
}

/// The number of characters of a text before a byte offset between two of
/// its characters.
pub fn byte_to_char_index(value: &str, byte_index: usize) -> (r: usize)
    requires
        is_char_boundary(value@, byte_index as int),
    ensures
        r <= value@.len(),
        byte_len(value@.take(r as int)) == byte_index,
        r == char_index_at(value@, byte_index as int),
{
    let v = to_chars(value);
    let ghost target = choose|k: int| 0 <= k <= value@.len() && byte_len(value@.take(k)) == byte_index;
    let mut k: usize = 0;
    let mut acc: usize = 0;
    while acc < byte_index
        invariant
            v@ == value@,
            0 <= k <= target <= v.len(),
            byte_len(v@.take(target)) == byte_index,
            acc == byte_len(v@.take(k as int)),
        decreases target - k,
    {
        proof {
            if k == target {
                assert(false);
            }
            lemma_byte_len_take(v@, k + 1, target);
            assert(v@.take(k + 1).drop_last() =~= v@.take(k as int));
        }
        acc = acc + crate::text::utf8_len_of(v[k]);
        k += 1;
    }
    proof {
        if k < target {
            lemma_byte_len_take(v@, k as int, target);
        }
        assert(k == target);
        let c = char_index_at(value@, byte_index as int);
        if c != target {
            if c < target {
                lemma_byte_len_take(v@, c, target);
            } else {
                lemma_byte_len_take(v@, target, c);
            }
        }
    }
    k
}

/// The character positions where a term is found in `lv` scanning from
/// `s`, each search starting after the previous match.
#[verifier::opaque]
pub open spec fn term_matches(lv: Seq<char>, term: Seq<char>, s: int) -> Seq<int>
    decreases lv.len() - s,
{
    if term.len() == 0 || s < 0 || s >= lv.len() {
        seq![]
    } else {
        let i = crate::text::find_sub(lv.skip(s), term);
        if i < 0 {
            seq![]
        } else {
            proof {
                crate::text::lemma_find_sub_occurs(lv.skip(s), term);
            }
            seq![s + i] + term_matches(lv, term, s + i + term.len())
        }
    }
}

/// The matched character ranges of the terms in `lv`, term by term.
pub open spec fn term_ranges(lv: Seq<char>, terms: Seq<Seq<char>>) -> Seq<(int, int)>
    decreases terms.len(),
{
    if terms.len() == 0 {
        seq![]
    } else {
        let t = terms.last();
        term_ranges(lv, terms.drop_last()) + term_matches(lv, t, 0).map_values(|p: int| (p, p + t.len()))
    }
}

/// The terms of a normalized query: its words when it has a space, else the
/// whole query.
pub open spec fn query_terms(n: Seq<char>) -> Seq<Seq<char>> {
    if n.contains(' ') { words(n) } else { seq![n] }
}

/// The ranges of the matches of a query's terms in a lowercased text, as
/// byte offsets.
pub open spec fn raw_ranges_in(lv: Seq<char>, n: Seq<char>) -> Seq<(int, int)> {
    if lv.len() == 0 || n.len() == 0 {
        seq![]
    } else {
        term_ranges(lv, query_terms(n)).map_values(|r: (int, int)| (byte_len(lv.take(r.0)) as int, byte_len(lv.take(r.1)) as int))
    }
}

/// The ranges in the lowercased text, as byte offsets.
pub open spec fn raw_ranges(value: Seq<char>, needle: Seq<char>) -> Seq<(int, int)> {
    raw_ranges_in(lowercase(value), spec_normalize_search_query(needle))
}

/// Whether every byte offset matched in the lowercased text `lv` falls
/// between two characters of the text itself (lowercasing can change the
/// width of a character).
pub open spec fn ranges_defined_in(value: Seq<char>, lv: Seq<char>, n: Seq<char>) -> bool {
    forall|i: int| 0 <= i < raw_ranges_in(lv, n).len() ==> is_char_boundary(value, #[trigger] raw_ranges_in(lv, n)[i].0)
        && is_char_boundary(value, raw_ranges_in(lv, n)[i].1)
}

/// Whether every matched byte offset falls between two characters of the
/// text itself.
pub open spec fn ranges_defined(value: Seq<char>, needle: Seq<char>) -> bool {
    ranges_defined_in(value, lowercase(value), spec_normalize_search_query(needle))
}

/// The highlight range of a byte range of the lowercased text.
pub open spec fn highlight_of(value: Seq<char>, r: (int, int)) -> (int, int) {
    (char_index_at(value, r.0), char_index_at(value, r.1))
}

pub open spec fn pair_less(a: (int, int), b: (int, int)) -> bool {
    a.0 < b.0 || (a.0 == b.0 && a.1 < b.1)
}

pub open spec fn range_views(v: Seq<SearchMatchRange>) -> Seq<(int, int)> {
    v.map_values(|r: SearchMatchRange| (r.start as int, r.end as int))
}


proof fn lemma_term_matches_step(lv: Seq<char>, term: Seq<char>, s: int)
    requires
        term.len() > 0,
        0 <= s,
    ensures
        s >= lv.len() ==> term_matches(lv, term, s) == Seq::<int>::empty(),
        s < lv.len() && crate::text::find_sub(lv.skip(s), term) < 0 ==> term_matches(lv, term, s) == Seq::<int>::empty(),
        s < lv.len() && crate::text::find_sub(lv.skip(s), term) >= 0 ==> term_matches(lv, term, s)
            == seq![s + crate::text::find_sub(lv.skip(s), term)]
                + term_matches(lv, term, s + crate::text::find_sub(lv.skip(s), term) + term.len()),
{
    reveal(term_matches);
}

fn term_matches_of(lv: &Vec<char>, term: &Vec<char>) -> (r: Vec<usize>)
    ensures
        r.len() == term_matches(lv@, term@, 0).len(),
        forall|k: int| 0 <= k < r.len() ==> r@[k] as int == #[trigger] term_matches(lv@, term@, 0)[k],
        forall|k: int| 0 <= k < r.len() ==> r@[k] + term.len() <= lv.len(),
{
    let ghost tm = term_matches(lv@, term@, 0);
    let mut r: Vec<usize> = Vec::new();
    if term.len() == 0 {
        assert(tm == Seq::<int>::empty()) by {
            reveal(term_matches);
        }
        return r;
    }
    let ghost mut done: Seq<int> = seq![];
    let mut s: usize = 0;
    while s < lv.len()
        invariant
            term.len() > 0,
            0 <= s <= lv.len(),
            tm == term_matches(lv@, term@, 0),
            tm == done + term_matches(lv@, term@, s as int),
            done.len() == r.len(),
            forall|k: int| 0 <= k < r.len() ==> r@[k] as int == #[trigger] done[k],
            forall|k: int| 0 <= k < r.len() ==> r@[k] + term.len() <= lv.len(),
        decreases lv.len() - s,
    {
        let tail = slice_of(lv, s, lv.len());
        assert(tail@ =~= lv@.skip(s as int));
        proof {
            lemma_term_matches_step(lv@, term@, s as int);
        }
        match find_chars(&tail, term) {
            None => {
                assert(term_matches(lv@, term@, s as int) =~= seq![]);
                assert(tm =~= done);
                return r;
            },
            Some(i) => {
                proof {
                    crate::text::lemma_find_sub_occurs(lv@.skip(s as int), term@);
                    assert(done + (seq![(s + i) as int] + term_matches(lv@, term@, s + i + term.len()))
                        =~= done.push((s + i) as int) + term_matches(lv@, term@, s + i + term.len()));
                    done = done.push((s + i) as int);
                }
                r.push(s + i);
                s = s + i + term.len();
            },
        }
    }
    proof {
        lemma_term_matches_step(lv@, term@, s as int);
    }
    assert(tm =~= done);
    r
}

fn byte_to_char_index_chars(v: &Vec<char>, byte_index: usize) -> (r: usize)
    requires
        is_char_boundary(v@, byte_index as int),
    ensures
        r == char_index_at(v@, byte_index as int),
{
    let s = string_of(v);
    byte_to_char_index(s.as_str(), byte_index)
}

/// Adds a range to a list sorted by start then end, unless it is there.
fn insert_range(list: &mut Vec<SearchMatchRange>, x: SearchMatchRange)
    requires
        forall|i: int, j: int| 0 <= i < j < old(list).len() ==> pair_less(#[trigger] range_views(old(list)@)[i], #[trigger] range_views(old(list)@)[j]),
    ensures
        forall|i: int, j: int| 0 <= i < j < final(list).len() ==> pair_less(#[trigger] range_views(final(list)@)[i], #[trigger] range_views(final(list)@)[j]),
        forall|c: (int, int)| #[trigger] range_views(final(list)@).contains(c) <==> (range_views(old(list)@).contains(c) || c == (x.start as int, x.end as int)),
{
    let ghost v0 = range_views(list@);
    let ghost xv = (x.start as int, x.end as int);
    let mut p: usize = 0;
    let mut found = false;
    let mut i: usize = 0;
    while i < list.len()
        invariant
            0 <= p <= i <= list.len(),
            range_views(list@) == v0,
            list.len() == v0.len(),
            xv == (x.start as int, x.end as int),
            forall|a: int, b: int| 0 <= a < b < v0.len() ==> pair_less(#[trigger] v0[a], #[trigger] v0[b]),
            forall|k: int| 0 <= k < p ==> pair_less(#[trigger] v0[k], xv),
            forall|k: int| p <= k < i ==> !pair_less(#[trigger] v0[k], xv),
            found == exists|k: int| 0 <= k < i && v0[k] == xv,
        decreases list.len() - i,
    {
        let e = list[i];
        assert(v0[i as int] == (e.start as int, e.end as int));
        let less = e.start < x.start || (e.start == x.start && e.end < x.end);
        if less {
            proof {
                if p < i {
                    assert(pair_less(v0[p as int], v0[i as int]));
                    assert(!pair_less(v0[p as int], xv));
                }
            }
            p = i + 1;
        }
        if e.start == x.start && e.end == x.end {
            found = true;
        }
        i += 1;
    }
    if found {
        proof {
            assert forall|c: (int, int)| #[trigger] range_views(list@).contains(c) <==> (v0.contains(c) || c == xv) by {
                if c == xv {
                    let k = choose|k: int| 0 <= k < list.len() && v0[k] == xv;
                    assert(v0[k] == c);
                }
            }
        }
        return;
    }
    list.insert(p, x);
    proof {
        let v1 = range_views(list@);
        assert(v1 =~= v0.insert(p as int, xv));
        assert forall|a: int, b: int| 0 <= a < b < v1.len() implies pair_less(#[trigger] v1[a], #[trigger] v1[b]) by {
            if b < p {
                assert(v1[a] == v0[a] && v1[b] == v0[b]);
            } else if b == p {
                assert(v1[a] == v0[a]);
            } else if a == p {
                assert(v1[b] == v0[b - 1]);
                assert(v0[b - 1] != xv);
            } else if a < p {
                assert(v1[a] == v0[a] && v1[b] == v0[b - 1]);
                if p > 0 && a < p - 1 {
                    assert(pair_less(v0[a], v0[p - 1]));
                }
                assert(pair_less(v0[a], xv));
                assert(!pair_less(v0[b - 1], xv));
                assert(v0[b - 1] != xv);
            } else {
                assert(v1[a] == v0[a - 1] && v1[b] == v0[b - 1]);
            }
        }
        assert forall|c: (int, int)| #[trigger] v1.contains(c) <==> (v0.contains(c) || c == xv) by {
            if v0.contains(c) {
                let k = choose|k: int| 0 <= k < v0.len() && v0[k] == c;
                if k < p {
                    assert(v1[k] == c);
                } else {
                    assert(v1[k + 1] == c);
                }
            }
            if c == xv {
                assert(v1[p as int] == c);
            }
            if v1.contains(c) {
                let k = choose|k: int| 0 <= k < v1.len() && v1[k] == c;
                if k < p {
                    assert(v0[k] == c);
                } else if k > p {
                    assert(v0[k - 1] == c);
                }
            }
        }
    }
}


proof fn lemma_term_ranges_prefix(lv: Seq<char>, terms: Seq<Seq<char>>, t: int)
    requires
        0 <= t <= terms.len(),
    ensures
        term_ranges(lv, terms.take(t)).len() <= term_ranges(lv, terms).len(),
        forall|k: int| 0 <= k < term_ranges(lv, terms.take(t)).len()
            ==> term_ranges(lv, terms)[k] == #[trigger] term_ranges(lv, terms.take(t))[k],
    decreases terms.len() - t,
{
    if t < terms.len() {
        lemma_term_ranges_prefix(lv, terms, t + 1);
        assert(terms.take(t + 1).drop_last() =~= terms.take(t));
        let a = term_ranges(lv, terms.take(t));
        let b = term_ranges(lv, terms.take(t + 1));
        assert forall|k: int| 0 <= k < a.len() implies term_ranges(lv, terms)[k] == #[trigger] a[k] by {
            assert(b[k] == a[k]);
        }
    } else {
        assert(terms.take(t) =~= terms);
    }
}

/// The ranges of a text to highlight for a query: the matches of the query
/// (or of each of its words) in the lowercased text, as character positions
/// of the text, sorted and each listed once.
pub fn search_match_ranges(value: &str, needle: &str) -> (r: Vec<SearchMatchRange>)
    requires
        byte_len(lowercase(value@)) <= usize::MAX,
        ranges_defined(value@, needle@),
    ensures
        forall|i: int, j: int| 0 <= i < j < r.len() ==> pair_less(#[trigger] range_views(r@)[i], #[trigger] range_views(r@)[j]),
        forall|c: (int, int)| #[trigger] range_views(r@).contains(c) <==> exists|k: int|
            0 <= k < raw_ranges(value@, needle@).len() && c == highlight_of(value@, #[trigger] raw_ranges(value@, needle@)[k]),
{
    let lowered = to_lower(value);
    let query = normalize_search_query(needle);
    assert(raw_ranges(value@, needle@) == raw_ranges_in(lowered@, query@));
    match_ranges_in(value, lowered.as_str(), query.as_str())
}

/// The ranges of a text to highlight for a query, given the text in
/// lowercase and the query normalized: the matches of the query (or of each
/// of its words, where it has a space) in the lowercased text, as character
/// positions of the text, sorted and each listed once.
pub fn match_ranges_in(value: &str, lowered: &str, query: &str) -> (r: Vec<SearchMatchRange>)
    requires
        byte_len(lowered@) <= usize::MAX,
        ranges_defined_in(value@, lowered@, query@),
    ensures
        forall|i: int, j: int| 0 <= i < j < r.len() ==> pair_less(#[trigger] range_views(r@)[i], #[trigger] range_views(r@)[j]),
        forall|c: (int, int)| #[trigger] range_views(r@).contains(c) <==> exists|k: int|
            0 <= k < raw_ranges_in(lowered@, query@).len() && c == highlight_of(value@, #[trigger] raw_ranges_in(lowered@, query@)[k]),
{
    let v = to_chars(value);
    let lv = to_chars(lowered);
    let n = to_chars(query);
    let ghost raw = raw_ranges_in(lowered@, query@);
    let mut list: Vec<SearchMatchRange> = Vec::new();
    if lv.len() == 0 || n.len() == 0 {
        proof {
            assert forall|c: (int, int)| #[trigger] range_views(list@).contains(c) <==> exists|k: int|
                0 <= k < raw.len() && c == highlight_of(value@, #[trigger] raw[k]) by {
                assert(raw.len() == 0);
            }
        }
        return list;
    }
    let terms = if crate::text::contains_char(&n, ' ') {
        words_of(&n)
    } else {
        let mut one: Vec<Vec<char>> = Vec::new();
        one.push(n);
        assert(views(one@) =~= seq![one@[0]@]);
        one
    };
    let ghost tv = views(terms@);
    let ghost tr = term_ranges(lv@, tv);
    assert(tv == query_terms(query@));
    assert(raw == tr.map_values(|r: (int, int)| (byte_len(lv@.take(r.0)) as int, byte_len(lv@.take(r.1)) as int)));
    let mut t: usize = 0;
    while t < terms.len()
        invariant
            0 <= t <= terms.len(),
            v@ == value@,
            lv@ == lowered@,
            byte_len(lv@) <= usize::MAX,
            tv == views(terms@),
            tr == term_ranges(lv@, tv),
            raw == tr.map_values(|r: (int, int)| (byte_len(lv@.take(r.0)) as int, byte_len(lv@.take(r.1)) as int)),
            ranges_defined_in(value@, lowered@, query@),
            raw == raw_ranges_in(lowered@, query@),
            forall|i: int, j: int| 0 <= i < j < list.len() ==> pair_less(#[trigger] range_views(list@)[i], #[trigger] range_views(list@)[j]),
            forall|c: (int, int)| #[trigger] range_views(list@).contains(c) <==> exists|k: int|
                0 <= k < term_ranges(lv@, tv.take(t as int)).len() && c == highlight_of(value@, #[trigger] raw[k]),
        decreases terms.len() - t,
    {
        let term = &terms[t];
        assert(tv[t as int] == term@);
        let ms = term_matches_of(&lv, term);
        let ghost base = term_ranges(lv@, tv.take(t as int)).len();
        let ghost step = term_matches(lv@, term@, 0).map_values(|p: int| (p, p + term@.len()));
        proof {
            assert(tv.take(t + 1).drop_last() =~= tv.take(t as int));
            assert(tv.take(t + 1).last() == term@);
            assert(term_ranges(lv@, tv.take(t + 1)) == term_ranges(lv@, tv.take(t as int)) + step);
            lemma_term_ranges_prefix(lv@, tv, t + 1);
        }
        let mut m: usize = 0;
        while m < ms.len()
            invariant
                0 <= m <= ms.len(),
                v@ == value@,
                lv@ == lowered@,
                byte_len(lv@) <= usize::MAX,
                ms.len() == term_matches(lv@, term@, 0).len(),
                forall|k: int| 0 <= k < ms.len() ==> ms@[k] as int == #[trigger] term_matches(lv@, term@, 0)[k],
                forall|k: int| 0 <= k < ms.len() ==> ms@[k] + term.len() <= lv.len(),
                step == term_matches(lv@, term@, 0).map_values(|p: int| (p, p + term@.len())),
                term_ranges(lv@, tv.take(t + 1)) == term_ranges(lv@, tv.take(t as int)) + step,
                base == term_ranges(lv@, tv.take(t as int)).len(),
                term_ranges(lv@, tv.take(t + 1)).len() <= tr.len(),
                forall|k: int| 0 <= k < term_ranges(lv@, tv.take(t + 1)).len()
                    ==> tr[k] == #[trigger] term_ranges(lv@, tv.take(t + 1))[k],
                raw == tr.map_values(|r: (int, int)| (byte_len(lv@.take(r.0)) as int, byte_len(lv@.take(r.1)) as int)),
                ranges_defined_in(value@, lowered@, query@),
                raw == raw_ranges_in(lowered@, query@),
                forall|i: int, j: int| 0 <= i < j < list.len() ==> pair_less(#[trigger] range_views(list@)[i], #[trigger] range_views(list@)[j]),
                forall|c: (int, int)| #[trigger] range_views(list@).contains(c) <==> exists|k: int|
                    0 <= k < base + m && c == highlight_of(value@, #[trigger] raw[k]),
            decreases ms.len() - m,
        {
            let p = ms[m];
            let e = p + term.len();
            let ghost idx = base + m;
            proof {
                assert(step[m as int] == (p as int, e as int));
                assert(term_ranges(lv@, tv.take(t + 1))[idx] == step[m as int]);
                assert(tr[idx] == (p as int, e as int));
                assert(raw[idx] == (byte_len(lv@.take(p as int)) as int, byte_len(lv@.take(e as int)) as int));
                crate::text::lemma_byte_len_mono(lv@, p as int);
                crate::text::lemma_byte_len_mono(lv@, e as int);
                assert(is_char_boundary(value@, raw_ranges_in(lowered@, query@)[idx].0));
                assert(is_char_boundary(value@, raw[idx].0) && is_char_boundary(value@, raw[idx].1));
            }
            let b1 = crate::text::byte_len_of(&lv, p);
            let b2 = crate::text::byte_len_of(&lv, e);
            let c1 = byte_to_char_index_chars(&v, b1);
            let c2 = byte_to_char_index_chars(&v, b2);
            let ghost before = range_views(list@);
            insert_range(&mut list, SearchMatchRange { start: c1, end: c2 });
            proof {
                assert(highlight_of(value@, raw[idx]) == (c1 as int, c2 as int));
                assert forall|c: (int, int)| #[trigger] range_views(list@).contains(c) <==> exists|k: int|
                    0 <= k < base + m + 1 && c == highlight_of(value@, #[trigger] raw[k]) by {
                    if exists|k: int| 0 <= k < base + m + 1 && c == highlight_of(value@, #[trigger] raw[k]) {
                        let k = choose|k: int| 0 <= k < base + m + 1 && c == highlight_of(value@, #[trigger] raw[k]);
                        if k < base + m {
                            assert(before.contains(c));
                        }
                    }
                    if before.contains(c) {
                        let k = choose|k: int| 0 <= k < base + m && c == highlight_of(value@, #[trigger] raw[k]);
                        assert(0 <= k < base + m + 1);
                    }
                }
            }
            m += 1;
        }
        proof {
            assert(base + ms.len() == term_ranges(lv@, tv.take(t + 1)).len());
        }
        t += 1;
    }
    proof {
        assert(tv.take(terms.len() as int) =~= tv);
        assert forall|c: (int, int)| #[trigger] range_views(list@).contains(c) <==> exists|k: int|
            0 <= k < raw.len() && c == highlight_of(value@, #[trigger] raw[k]) by {
            assert(raw.len() == tr.len());
        }
    }
    list
}


fn is_boundary_of(v: &Vec<char>, b: usize) -> (r: bool)
    ensures
        r == is_char_boundary(v@, b as int),
{
    let mut k: usize = 0;
    let mut acc: usize = 0;
    while k < v.len() && acc < b
        invariant
            0 <= k <= v.len(),
            acc == byte_len(v@.take(k as int)),
            acc <= b,
        decreases v.len() - k,
    {
        let w = crate::text::utf8_len_of(v[k]);
        proof {
            assert(v@.take(k + 1).drop_last() =~= v@.take(k as int));
        }
        if w > b - acc {
            proof {
                assert forall|j: int| 0 <= j <= v.len() implies byte_len(v@.take(j)) != b by {
                    if j <= k {
                        lemma_byte_len_take(v@, j, k as int);
                    } else {
                        lemma_byte_len_take(v@, k + 1, j);
                    }
                }
            }
            return false;
        }
        acc = acc + w;
        k += 1;
    }
    if acc == b {
        return true;
    }
    proof {
        assert forall|j: int| 0 <= j <= v.len() implies byte_len(v@.take(j)) != b by {
            if j <= k {
                lemma_byte_len_take(v@, j, k as int);
            }
        }
    }
    false
}

fn byte_len_checked(v: &Vec<char>) -> (r: Option<usize>)
    ensures
        match r {
            Some(n) => n == byte_len(v@) && byte_len(v@) <= usize::MAX,
            None => byte_len(v@) > usize::MAX,
        },
{
    let mut k: usize = 0;
    let mut acc: usize = 0;
    while k < v.len()
        invariant
            0 <= k <= v.len(),
            acc == byte_len(v@.take(k as int)),
        decreases v.len() - k,
    {
        let w = crate::text::utf8_len_of(v[k]);
        proof {
            assert(v@.take(k + 1).drop_last() =~= v@.take(k as int));
        }
        if acc > usize::MAX - w {
            proof {
                crate::text::lemma_byte_len_mono(v@, k + 1);
            }
            return None;
        }
        acc = acc + w;
        k += 1;
    }
    assert(v@.take(v.len() as int) =~= v@);
    Some(acc)
}

/// Range `k` falls between characters of the text.
pub open spec fn range_ok(value: Seq<char>, raw: Seq<(int, int)>, k: int) -> bool {
    is_char_boundary(value, raw[k].0) && is_char_boundary(value, raw[k].1)
}

/// The first `n` ranges fall between characters of the text.
pub open spec fn bounds_ok(value: Seq<char>, raw: Seq<(int, int)>, n: int) -> bool {
    forall|k: int| 0 <= k < n ==> #[trigger] range_ok(value, raw, k)
}

proof fn lemma_bounds_ok_step(value: Seq<char>, raw: Seq<(int, int)>, n: int)
    requires
        bounds_ok(value, raw, n),
        range_ok(value, raw, n),
    ensures
        bounds_ok(value, raw, n + 1),
{
    assert forall|k: int| 0 <= k < n + 1 implies #[trigger] range_ok(value, raw, k) by {
        if k < n {
            assert(range_ok(value, raw, k));
        }
    }
}

fn match_in_bounds(v: &Vec<char>, lv: &Vec<char>, p: usize, e: usize) -> (r: bool)
    requires
        p <= e <= lv.len(),
        byte_len(lv@) <= usize::MAX,
    ensures
        r == (is_char_boundary(v@, byte_len(lv@.take(p as int)) as int) && is_char_boundary(v@, byte_len(lv@.take(e as int)) as int)),
{
    proof {
        crate::text::lemma_byte_len_mono(lv@, p as int);
        crate::text::lemma_byte_len_mono(lv@, e as int);
    }
    let b1 = crate::text::byte_len_of(lv, p);
    let b2 = crate::text::byte_len_of(lv, e);
    is_boundary_of(v, b1) && is_boundary_of(v, b2)
}

/// Whether the highlight ranges of a text are defined: its lowercase form
/// fits in memory and every match falls between two of its characters.
pub(crate) fn ranges_are_defined(value: &str, needle: &str) -> (r: bool)
    ensures
        r == (byte_len(lowercase(value@)) <= usize::MAX && ranges_defined(value@, needle@)),
{
    let lowered = to_lower(value);
    let query = normalize_search_query(needle);
    ranges_defined_for(value, lowered.as_str(), query.as_str())
}

/// Whether the highlight ranges of a text are defined, given the text in
/// lowercase and the query normalized: the lowercase form fits in memory and
/// every match falls between two characters of the text.
#[verifier::rlimit(40)]
pub fn ranges_defined_for(value: &str, lowered: &str, query: &str) -> (r: bool)
    ensures
        r == (byte_len(lowered@) <= usize::MAX && ranges_defined_in(value@, lowered@, query@)),
{
    let v = to_chars(value);
    let lv = to_chars(lowered);
    if byte_len_checked(&lv).is_none() {
        return false;
    }
    let n = to_chars(query);
    let ghost raw = raw_ranges_in(lowered@, query@);
    if lv.len() == 0 || n.len() == 0 {
        assert(raw.len() == 0);
        return true;
    }
    let terms = if crate::text::contains_char(&n, ' ') {
        words_of(&n)
    } else {
        let mut one: Vec<Vec<char>> = Vec::new();
        one.push(n);
        assert(views(one@) =~= seq![one@[0]@]);
        one
    };
    let ghost tv = views(terms@);
    let ghost tr = term_ranges(lv@, tv);
    assert(tv == query_terms(query@));
    assert(raw == tr.map_values(|r: (int, int)| (byte_len(lv@.take(r.0)) as int, byte_len(lv@.take(r.1)) as int)));
    assert(tv.take(0) =~= Seq::<Seq<char>>::empty());
    let mut t: usize = 0;
    while t < terms.len()
        invariant
            0 <= t <= terms.len(),
            v@ == value@,
            lv@ == lowered@,
            byte_len(lv@) <= usize::MAX,
            tv == views(terms@),
            tr == term_ranges(lv@, tv),
            raw == tr.map_values(|r: (int, int)| (byte_len(lv@.take(r.0)) as int, byte_len(lv@.take(r.1)) as int)),
            raw == raw_ranges_in(lowered@, query@),
            bounds_ok(value@, raw, term_ranges(lv@, tv.take(t as int)).len() as int),
        decreases terms.len() - t,
    {
        let term = &terms[t];
        assert(tv[t as int] == term@);
        let ms = term_matches_of(&lv, term);
        let ghost base = term_ranges(lv@, tv.take(t as int)).len();
        let ghost step = term_matches(lv@, term@, 0).map_values(|p: int| (p, p + term@.len()));
        proof {
            assert(tv.take(t + 1).drop_last() =~= tv.take(t as int));
            assert(tv.take(t + 1).last() == term@);
            assert(term_ranges(lv@, tv.take(t + 1)) == term_ranges(lv@, tv.take(t as int)) + step);
            lemma_term_ranges_prefix(lv@, tv, t + 1);
        }
        let mut m: usize = 0;
        while m < ms.len()
            invariant
                0 <= m <= ms.len(),
                v@ == value@,
                lv@ == lowered@,
                byte_len(lv@) <= usize::MAX,
                ms.len() == term_matches(lv@, term@, 0).len(),
                forall|k: int| 0 <= k < ms.len() ==> ms@[k] as int == #[trigger] term_matches(lv@, term@, 0)[k],
                forall|k: int| 0 <= k < ms.len() ==> ms@[k] + term.len() <= lv.len(),
                step == term_matches(lv@, term@, 0).map_values(|p: int| (p, p + term@.len())),
                term_ranges(lv@, tv.take(t + 1)) == term_ranges(lv@, tv.take(t as int)) + step,
                base == term_ranges(lv@, tv.take(t as int)).len(),
                term_ranges(lv@, tv.take(t + 1)).len() <= tr.len(),
                forall|k: int| 0 <= k < term_ranges(lv@, tv.take(t + 1)).len()
                    ==> tr[k] == #[trigger] term_ranges(lv@, tv.take(t + 1))[k],
                raw == tr.map_values(|r: (int, int)| (byte_len(lv@.take(r.0)) as int, byte_len(lv@.take(r.1)) as int)),
                raw == raw_ranges_in(lowered@, query@),
                bounds_ok(value@, raw, base + m),
            decreases ms.len() - m,
        {
            let p = ms[m];
            let e = p + term.len();
            let ghost idx = base + m;
            proof {
                assert(step[m as int] == (p as int, e as int));
                assert(term_ranges(lv@, tv.take(t + 1))[idx] == step[m as int]);
                assert(tr[idx] == (p as int, e as int));
                assert(raw[idx] == (byte_len(lv@.take(p as int)) as int, byte_len(lv@.take(e as int)) as int));
            }
            if !match_in_bounds(&v, &lv, p, e) {
                assert(idx < term_ranges(lv@, tv.take(t + 1)).len());
                assert(0 <= idx < raw.len());
                assert(raw_ranges_in(lowered@, query@)[idx] == raw[idx]);
                assert(!(is_char_boundary(value@, raw_ranges_in(lowered@, query@)[idx].0)
                    && is_char_boundary(value@, raw_ranges_in(lowered@, query@)[idx].1)));
                assert(!ranges_defined_in(value@, lowered@, query@));
                return false;
            }
            assert(is_char_boundary(value@, raw[idx].0) && is_char_boundary(value@, raw[idx].1));
            proof {
                assert(range_ok(value@, raw, idx));
                lemma_bounds_ok_step(value@, raw, idx);
            }
            m += 1;
        }
        proof {
            assert(base + ms.len() == term_ranges(lv@, tv.take(t + 1)).len());
        }
        t += 1;
    }
    proof {
        assert(tv.take(terms.len() as int) =~= tv);
        assert(term_ranges(lv@, tv.take(t as int)) == tr);
        assert(raw.len() == tr.len());
        assert forall|i: int| 0 <= i < raw_ranges_in(lowered@, query@).len() implies is_char_boundary(value@,
            #[trigger] raw_ranges_in(lowered@, query@)[i].0) && is_char_boundary(value@, raw_ranges_in(lowered@, query@)[i].1) by {
            assert(0 <= i < term_ranges(lv@, tv.take(t as int)).len());
            assert(bounds_ok(value@, raw, term_ranges(lv@, tv.take(t as int)).len() as int));
            assert(range_ok(value@, raw, i));
        }
        assert(ranges_defined_in(value@, lowered@, query@));
        assert(byte_len(lowered@) <= usize::MAX);
    }
    true
}

/// The highlight ranges of a text for a query, when they are defined (see
/// `search_match_ranges`); none when a match of the lowercased text does
/// not fall between two characters of the text.
pub fn search_match_ranges_checked(value: &str, needle: &str) -> (r: Option<Vec<SearchMatchRange>>)
    ensures
        r is Some <==> (byte_len(lowercase(value@)) <= usize::MAX && ranges_defined(value@, needle@)),
        r matches Some(v) ==> (forall|i: int, j: int| 0 <= i < j < v.len() ==> pair_less(#[trigger] range_views(v@)[i], #[trigger] range_views(v@)[j]))
            && (forall|c: (int, int)| #[trigger] range_views(v@).contains(c) <==> exists|k: int|
                0 <= k < raw_ranges(value@, needle@).len() && c == highlight_of(value@, #[trigger] raw_ranges(value@, needle@)[k])),
{
    if ranges_are_defined(value, needle) {
        Some(search_match_ranges(value, needle))
    } else {
        None
    }
}

} // verus!
