//! Values offered while editing: declared commodities, distinct earlier
//! entries, and the accounts a journal uses most for each kind of entry.

use vstd::prelude::*;
use crate::amount_style::file_contents;
use crate::app_error::string_views;
use crate::journal::files::JournalFile;
use crate::journal::types::{posting_views, JournalPosting, JournalTransaction, PostingSpec};
use crate::journal::util::{spec_split_first_token, spec_split_inline_comment, split_first_token_chars, split_inline_comment_chars};
use crate::text::{
    eq_ignore_ascii_case, eq_ignore_ascii_case_of, lines, starts_with, lines_of, lowercase, string_of, to_chars, to_lower, trim,
    trim_char, trim_char_of, trim_of, views,
};
use crate::updates::{lemma_text_order_eq, lemma_text_order_flip, lemma_text_order_transitive, text_order, text_order_of};

verus! {

/// The commodity named by a `commodity` directive line, without an inline
/// comment and surrounding quotes.
pub open spec fn spec_parse_commodity_directive(line: Seq<char>) -> Option<Seq<char>> {
    let t = trim(line);
    if t.len() == 0 || t[0] == ';' || t[0] == '#' {
        None
    } else {
        let (directive, rest) = spec_split_first_token(t);
        if directive != "commodity"@ {
            None
        } else {
            let c = trim_char(trim(spec_split_inline_comment(trim(rest)).0), '"');
            if c.len() == 0 { None } else { Some(c) }
        }
    }
}

pub fn parse_commodity_directive_chars(line: &Vec<char>) -> (r: Option<Vec<char>>)
    ensures
        match r {
            Some(c) => spec_parse_commodity_directive(line@) == Some(c@),
            None => spec_parse_commodity_directive(line@).is_none(),
        },
{
    let t = trim_of(line);
    if t.len() == 0 || t[0] == ';' || t[0] == '#' {
        return None;
    }
    let (directive, rest) = split_first_token_chars(&t);
    let kw = to_chars("commodity");
    if !crate::text::chars_eq(&directive, &kw) {
        return None;
    }
    let rt = trim_of(&rest);
    let (body, _comment) = split_inline_comment_chars(&rt);
    let bt = trim_of(&body);
    let c = trim_char_of(&bt, '"');
    if c.len() == 0 { None } else { Some(c) }
}

/// The commodity of a `commodity` directive line, if it is one.
pub fn parse_commodity_directive(line: &str) -> (r: Option<String>)
    ensures
        match r {
            Some(c) => spec_parse_commodity_directive(line@) == Some(c@),
            None => spec_parse_commodity_directive(line@).is_none(),
        },
{
    let l = to_chars(line);
    match parse_commodity_directive_chars(&l) {
        Some(c) => Some(string_of(&c)),
        None => None,
    }
}

/// Whether a text is the commodity of some directive line of the files.
pub open spec fn is_declared_commodity(contents: Seq<Seq<char>>, c: Seq<char>) -> bool {
    exists|i: int, j: int|
        0 <= i < contents.len() && 0 <= j < lines(contents[i]).len()
            && spec_parse_commodity_directive(#[trigger] lines(contents[i])[j]) == Some(c)
}

/// A list in strictly increasing character order.
pub open spec fn strictly_sorted(s: Seq<Seq<char>>) -> bool {
    forall|i: int, j: int| 0 <= i < j < s.len() ==> text_order(#[trigger] s[i], #[trigger] s[j], 0) < 0
}

/// Adds a text to a strictly sorted list of texts, unless it is there.
fn insert_sorted_unique(list: &mut Vec<Vec<char>>, x: Vec<char>)
    requires
        strictly_sorted(views(old(list)@)),
    ensures
        strictly_sorted(views(final(list)@)),
        forall|c: Seq<char>| views(final(list)@).contains(c) <==> (views(old(list)@).contains(c) || c == x@),
{
    let ghost v0 = views(list@);
    let mut p: usize = 0;
    let mut found = false;
    let mut i: usize = 0;
    while i < list.len()
        invariant
            0 <= p <= i <= list.len(),
            views(list@) == v0,
            strictly_sorted(v0),
            forall|k: int| 0 <= k < p ==> text_order(v0[k], x@, 0) < 0,
            forall|k: int| p <= k < i ==> text_order(v0[k], x@, 0) >= 0,
            found == exists|k: int| 0 <= k < i && v0[k] == x@,
        decreases list.len() - i,
    {
        assert(v0[i as int] == list@[i as int]@);
        let o = text_order_of(&list[i], &x);
        if o < 0 {
            proof {
                if p < i {
                    assert(text_order(v0[p as int], x@, 0) >= 0);
                    assert(text_order(v0[p as int], v0[i as int], 0) < 0);
                    lemma_text_order_flip(v0[i as int], x@);
                    lemma_text_order_flip(v0[p as int], x@);
                    lemma_text_order_transitive(x@, v0[p as int], v0[i as int], 0);
                    assert(false);
                }
            }
            p = i + 1;
        }
        if o == 0 {
            proof {
                lemma_text_order_eq(v0[i as int], x@);
            }
            found = true;
        } else {
            proof {
                if v0[i as int] == x@ {
                    crate::updates::lemma_text_order_reflexive_pub(x@);
                }
            }
        }
        i += 1;
    }
    if found {
        proof {
            assert forall|c: Seq<char>| views(list@).contains(c) <==> (v0.contains(c) || c == x@) by {
                if c == x@ {
                    let k = choose|k: int| 0 <= k < list.len() && v0[k] == x@;
                    assert(v0[k] == c);
                }
            }
        }
        return;
    }
    let ghost xv = x@;
    list.insert(p, x);
    proof {
        let v1 = views(list@);
        assert(v1 =~= v0.insert(p as int, xv));
        assert forall|a: int, b: int| 0 <= a < b < v1.len() implies text_order(#[trigger] v1[a], #[trigger] v1[b], 0) < 0 by {
            if b < p {
                assert(v1[a] == v0[a] && v1[b] == v0[b]);
            } else if b == p {
                assert(v1[a] == v0[a]);
            } else if a == p {
                assert(v1[b] == v0[b - 1]);
                assert(text_order(v0[b - 1], xv, 0) >= 0);
                assert(v0[b - 1] != xv);
                lemma_text_order_flip(v0[b - 1], xv);
                if text_order(v0[b - 1], xv, 0) == 0 {
                    lemma_text_order_eq(v0[b - 1], xv);
                }
            } else if a < p {
                assert(v1[a] == v0[a] && v1[b] == v0[b - 1]);
            } else {
                assert(v1[a] == v0[a - 1] && v1[b] == v0[b - 1]);
            }
        }
        assert forall|c: Seq<char>| v1.contains(c) <==> (v0.contains(c) || c == xv) by {
            if v0.contains(c) {
                let k = choose|k: int| 0 <= k < v0.len() && v0[k] == c;
                if k < p {
                    assert(v1[k] == c);
                } else {
                    assert(v1[k + 1] == c);
                }
            }
            if c == xv {
                assert(v1[p as int] == c);
            }
            if v1.contains(c) {
                let k = choose|k: int| 0 <= k < v1.len() && v1[k] == c;
                if k < p {
                    assert(v0[k] == c);
                } else if k > p {
                    assert(v0[k - 1] == c);
                }
            }
        }
    }
}

/// The commodities declared by `commodity` directives in the files, sorted
/// and each listed once.
pub fn collect_declared_commodities(files: &Vec<JournalFile>) -> (r: Vec<String>)
    ensures
        strictly_sorted(string_views(r@)),
        forall|c: Seq<char>| string_views(r@).contains(c) <==> is_declared_commodity(file_contents(files@), c),
{
    let ghost fc = file_contents(files@);
    let mut list: Vec<Vec<char>> = Vec::new();
    let mut i: usize = 0;
    while i < files.len()
        invariant
            0 <= i <= files.len(),
            fc == file_contents(files@),
            strictly_sorted(views(list@)),
            forall|c: Seq<char>| views(list@).contains(c) <==> exists|a: int, b: int|
                0 <= a < i && 0 <= b < lines(fc[a]).len()
                    && spec_parse_commodity_directive(#[trigger] lines(fc[a])[b]) == Some(c),
        decreases files.len() - i,
    {
        let content = to_chars(files[i].content.as_str());
        assert(fc[i as int] == files@[i as int].content@);
        let ls = lines_of(&content);
        let ghost lv = views(ls@);
        let mut j: usize = 0;
        while j < ls.len()
            invariant
                0 <= j <= ls.len(),
                0 <= i < files.len(),
                fc == file_contents(files@),
                lv == views(ls@),
                lv == lines(fc[i as int]),
                strictly_sorted(views(list@)),
                forall|c: Seq<char>| views(list@).contains(c) <==> (exists|a: int, b: int|
                    0 <= a < i && 0 <= b < lines(fc[a]).len()
                        && spec_parse_commodity_directive(#[trigger] lines(fc[a])[b]) == Some(c))
                    || (exists|b: int| 0 <= b < j && spec_parse_commodity_directive(#[trigger] lv[b]) == Some(c)),
            decreases ls.len() - j,
        {
            assert(lv[j as int] == ls@[j as int]@);
            match parse_commodity_directive_chars(&ls[j]) {
                Some(c) => {
                    let ghost cv = c@;
                    insert_sorted_unique(&mut list, c);
                    proof {
                        assert forall|d: Seq<char>| #[trigger] views(list@).contains(d) <==> (exists|a: int, b: int|
                            0 <= a < i && 0 <= b < lines(fc[a]).len()
                                && spec_parse_commodity_directive(#[trigger] lines(fc[a])[b]) == Some(d))
                            || (exists|b: int| 0 <= b < j + 1 && spec_parse_commodity_directive(#[trigger] lv[b]) == Some(d)) by {
                            if d == cv {
                                assert(spec_parse_commodity_directive(lv[j as int]) == Some(d));
                            }
                            if exists|b: int| 0 <= b < j + 1 && spec_parse_commodity_directive(#[trigger] lv[b]) == Some(d) {
                                let b = choose|b: int| 0 <= b < j + 1 && spec_parse_commodity_directive(#[trigger] lv[b]) == Some(d);
                                if b < j {
                                    assert(exists|b: int| 0 <= b < j && spec_parse_commodity_directive(#[trigger] lv[b]) == Some(d));
                                }
                            }
                        }
                    }
                },
                None => {
                    proof {
                        assert forall|d: Seq<char>| #[trigger] views(list@).contains(d) <==> (exists|a: int, b: int|
                            0 <= a < i && 0 <= b < lines(fc[a]).len()
                                && spec_parse_commodity_directive(#[trigger] lines(fc[a])[b]) == Some(d))
                            || (exists|b: int| 0 <= b < j + 1 && spec_parse_commodity_directive(#[trigger] lv[b]) == Some(d)) by {
                            if exists|b: int| 0 <= b < j + 1 && spec_parse_commodity_directive(#[trigger] lv[b]) == Some(d) {
                                let b = choose|b: int| 0 <= b < j + 1 && spec_parse_commodity_directive(#[trigger] lv[b]) == Some(d);
                                assert(b != j);
                            }
                        }
                    }
                },
            }
            j += 1;
        }
        proof {
            assert forall|d: Seq<char>| #[trigger] views(list@).contains(d) <==> exists|a: int, b: int|
                0 <= a < i + 1 && 0 <= b < lines(fc[a]).len()
                    && spec_parse_commodity_directive(#[trigger] lines(fc[a])[b]) == Some(d) by {
                if exists|b: int| 0 <= b < j && spec_parse_commodity_directive(#[trigger] lv[b]) == Some(d) {
                    let b = choose|b: int| 0 <= b < j && spec_parse_commodity_directive(#[trigger] lv[b]) == Some(d);
                    assert(spec_parse_commodity_directive(lines(fc[i as int])[b]) == Some(d));
                }
                if exists|a: int, b: int| 0 <= a < i + 1 && 0 <= b < lines(fc[a]).len()
                    && spec_parse_commodity_directive(#[trigger] lines(fc[a])[b]) == Some(d) {
                    let (a, b) = choose|a: int, b: int| 0 <= a < i + 1 && 0 <= b < lines(fc[a]).len()
                        && spec_parse_commodity_directive(#[trigger] lines(fc[a])[b]) == Some(d);
                    if a == i {
                        assert(spec_parse_commodity_directive(lv[b]) == Some(d));
                    } else {
                        assert(exists|a: int, b: int| 0 <= a < i && 0 <= b < lines(fc[a]).len()
                            && spec_parse_commodity_directive(#[trigger] lines(fc[a])[b]) == Some(d));
                    }
                }
            }
        }
        i += 1;
    }
    let mut r: Vec<String> = Vec::new();
    let mut k: usize = 0;
    while k < list.len()
        invariant
            0 <= k <= list.len(),
            string_views(r@) == views(list@).take(k as int),
        decreases list.len() - k,
    {
        let ghost before = r@;
        r.push(string_of(&list[k]));
        proof {
            assert(string_views(r@) =~= string_views(before).push(list@[k as int]@));
            assert(views(list@).take(k + 1) =~= views(list@).take(k as int).push(list@[k as int]@));
        }
        k += 1;
    }
    assert(views(list@).take(list.len() as int) =~= views(list@));
    r
}


/// `x` placed after every element whose lowercase form sorts at or before
/// its own, scanning from the end: one step of a stable sort by lowercase.
pub open spec fn insert_by_lowercase(s: Seq<Seq<char>>, x: Seq<char>) -> Seq<Seq<char>>
    decreases s.len(),
{
    if s.len() == 0 {
        seq![x]
    } else if text_order(lowercase(s.last()), lowercase(x), 0) <= 0 {
        s.push(x)
    } else {
        insert_by_lowercase(s.drop_last(), x).push(s.last())
    }
}

/// The values stably sorted by their lowercase forms.
pub open spec fn sort_by_lowercase(values: Seq<Seq<char>>) -> Seq<Seq<char>>
    decreases values.len(),
{
    if values.len() == 0 {
        seq![]
    } else {
        insert_by_lowercase(sort_by_lowercase(values.drop_last()), values.last())
    }
}

/// The values with each one dropped that equals, ignoring ASCII case, the
/// last value kept before it.
pub open spec fn dedup_ignore_ascii_case(values: Seq<Seq<char>>) -> Seq<Seq<char>>
    decreases values.len(),
{
    if values.len() == 0 {
        seq![]
    } else {
        let r = dedup_ignore_ascii_case(values.drop_last());
        if r.len() > 0 && eq_ignore_ascii_case(values.last(), r.last()) { r } else { r.push(values.last()) }
    }
}

proof fn lemma_insert_prefix(s: Seq<Seq<char>>, x: Seq<char>, p: int)
    requires
        0 <= p <= s.len(),
        forall|k: int| p <= k < s.len() ==> text_order(lowercase(#[trigger] s[k]), lowercase(x), 0) > 0,
    ensures
        insert_by_lowercase(s, x) == insert_by_lowercase(s.take(p), x) + s.skip(p),
    decreases s.len() - p,
{
    if p < s.len() {
        assert(s.drop_last().take(p) =~= s.take(p));
        lemma_insert_prefix(s.drop_last(), x, p);
        assert(text_order(lowercase(s.last()), lowercase(x), 0) > 0);
        assert(s.drop_last().skip(p).push(s.last()) =~= s.skip(p));
        assert((insert_by_lowercase(s.take(p), x) + s.drop_last().skip(p)).push(s.last())
            =~= insert_by_lowercase(s.take(p), x) + s.skip(p));
    } else {
        assert(s.take(p) =~= s);
        assert(s.skip(p) =~= seq![]);
        assert(insert_by_lowercase(s, x) + seq![] =~= insert_by_lowercase(s, x));
    }
}

/// Sorts values by their lowercase forms, keeping equal ones in order, and
/// drops each value that equals the one kept before it ignoring ASCII case.
pub fn unique_sorted(values: Vec<String>) -> (r: Vec<String>)
    ensures
        string_views(r@) == dedup_ignore_ascii_case(sort_by_lowercase(string_views(values@))),
{
    let ghost vs = string_views(values@);
    let mut sorted: Vec<String> = Vec::new();
    let mut keys: Vec<Vec<char>> = Vec::new();
    let mut i: usize = 0;
    while i < values.len()
        invariant
            0 <= i <= values.len(),
            vs == string_views(values@),
            string_views(sorted@) == sort_by_lowercase(vs.take(i as int)),
            keys.len() == sorted.len(),
            forall|k: int| 0 <= k < keys.len() ==> (#[trigger] keys@[k])@ == lowercase(sorted@[k]@),
        decreases values.len() - i,
    {
        let x = values[i].clone();
        let ghost s0 = string_views(sorted@);
        proof {
            assert(vs.take(i + 1).drop_last() =~= vs.take(i as int));
            assert(vs.take(i + 1).last() == x@);
        }
        let kx = to_chars(to_lower(x.as_str()).as_str());
        let mut p: usize = sorted.len();
        while p > 0 && text_order_of(&keys[p - 1], &kx) > 0
            invariant
                0 <= p <= sorted.len(),
                keys.len() == sorted.len(),
                s0 == string_views(sorted@),
                kx@ == lowercase(x@),
                forall|k: int| 0 <= k < keys.len() ==> (#[trigger] keys@[k])@ == lowercase(sorted@[k]@),
                forall|k: int| p <= k < s0.len() ==> text_order(lowercase(#[trigger] s0[k]), lowercase(x@), 0) > 0,
            decreases p,
        {
            assert(keys@[p - 1]@ == lowercase(s0[p - 1]));
            p -= 1;
        }
        proof {
            lemma_insert_prefix(s0, x@, p as int);
            if p > 0 {
                assert(keys@[p - 1]@ == lowercase(s0[p - 1]));
                assert(s0.take(p as int).drop_last() =~= s0.take(p - 1));
                assert(s0.take(p as int).last() == s0[p - 1]);
                assert(insert_by_lowercase(s0.take(p as int), x@) == s0.take(p as int).push(x@));
            } else {
                assert(s0.take(0) =~= seq![]);
            }
        }
        let ghost xv = x@;
        let ghost kv = kx@;
        let ghost k0 = keys@;
        let ghost o0 = sorted@;
        sorted.insert(p, x);
        keys.insert(p, kx);
        proof {
            assert(string_views(sorted@) =~= s0.take(p as int).push(xv) + s0.skip(p as int));
            assert forall|k: int| 0 <= k < keys.len() implies (#[trigger] keys@[k])@ == lowercase(sorted@[k]@) by {
                if k < p {
                    assert(keys@[k] == k0[k] && sorted@[k] == o0[k]);
                } else if k == p {
                } else {
                    assert(keys@[k] == k0[k - 1] && sorted@[k] == o0[k - 1]);
                }
            }
        }
        i += 1;
    }
    assert(vs.take(values.len() as int) =~= vs);
    let ghost sv = string_views(sorted@);
    let mut r: Vec<String> = Vec::new();
    let mut j: usize = 0;
    while j < sorted.len()
        invariant
            0 <= j <= sorted.len(),
            sv == string_views(sorted@),
            string_views(r@) == dedup_ignore_ascii_case(sv.take(j as int)),
        decreases sorted.len() - j,
    {
        proof {
            assert(sv.take(j + 1).drop_last() =~= sv.take(j as int));
            assert(sv.take(j + 1).last() == sorted@[j as int]@);
        }
        let ghost before = r@;
        let keep = if r.len() > 0 {
            let a = to_chars(sorted[j].as_str());
            let b = to_chars(r[r.len() - 1].as_str());
            assert(string_views(r@).last() == r@[r.len() - 1]@);
            !eq_ignore_ascii_case_of(&a, &b)
        } else {
            true
        };
        if keep {
            r.push(sorted[j].clone());
            assert(string_views(r@) =~= string_views(before).push(sorted@[j as int]@));
        }
        j += 1;
    }
    assert(sv.take(sorted.len() as int) =~= sv);
    r
}


/// How often each text was counted.
pub open spec fn bump(m: Map<Seq<char>, nat>, k: Seq<char>) -> Map<Seq<char>, nat> {
    m.insert(k, if m.dom().contains(k) { m[k] + 1 } else { 1 })
}

/// The text counted most often; among equally frequent ones the first in
/// character order; empty when nothing was counted.
pub open spec fn is_most_frequent(m: Map<Seq<char>, nat>, r: Seq<char>) -> bool {
    if m.dom() == Set::<Seq<char>>::empty() {
        r == Seq::<char>::empty()
    } else {
        &&& m.dom().contains(r)
        &&& forall|k: Seq<char>| #[trigger] m.dom().contains(k) ==> m[k] < m[r] || (m[k] == m[r] && text_order(r, k, 0) <= 0)
    }
}

/// Counts of texts, each text once.
struct CountTable {
    names: Vec<Vec<char>>,
    counts: Vec<usize>,
}

impl CountTable {
    spec fn wf(&self) -> bool {
        &&& self.names.len() == self.counts.len()
        &&& forall|i: int, j: int| 0 <= i < j < self.names.len() ==> self.names@[i]@ != self.names@[j]@
    }

    #[verifier::opaque]
    spec fn view_map(&self) -> Map<Seq<char>, nat> {
        Map::new(
            |k: Seq<char>| exists|i: int| 0 <= i < self.names.len() && self.names@[i]@ == k,
            |k: Seq<char>| {
                let i = choose|i: int| 0 <= i < self.names.len() && self.names@[i]@ == k;
                self.counts@[i] as nat
            },
        )
    }

    spec fn bounded(&self, n: nat) -> bool {
        forall|i: int| 0 <= i < self.counts.len() ==> self.counts@[i] <= n
    }

    proof fn lemma_entry(&self, i: int)
        requires
            self.wf(),
            0 <= i < self.names.len(),
        ensures
            self.view_map().dom().contains(self.names@[i]@),
            self.view_map()[self.names@[i]@] == self.counts@[i] as nat,
    {
        reveal(CountTable::view_map);
        let k = self.names@[i]@;
        assert(exists|i: int| 0 <= i < self.names.len() && self.names@[i]@ == k);
        let j = choose|j: int| 0 <= j < self.names.len() && self.names@[j]@ == k;
        if j != i {
            if j < i {
                assert(self.names@[j]@ != self.names@[i]@);
            } else {
                assert(self.names@[i]@ != self.names@[j]@);
            }
        }
    }

    fn new() -> (r: CountTable)
        ensures
            r.wf(),
            r.view_map() == Map::<Seq<char>, nat>::empty(),
            r.bounded(0),
    {
        let r = CountTable { names: Vec::new(), counts: Vec::new() };
        reveal(CountTable::view_map);
        assert(r.view_map() =~= Map::<Seq<char>, nat>::empty());
        r
    }

    fn bump(&mut self, k: &Vec<char>, Ghost(n): Ghost<nat>)
        requires
            old(self).wf(),
            old(self).bounded(n),
            n < usize::MAX,
        ensures
            final(self).wf(),
            final(self).view_map() == bump(old(self).view_map(), k@),
            final(self).bounded(n + 1),
    {
        reveal(CountTable::view_map);
        let ghost m0 = self.view_map();
        let mut i: usize = 0;
        while i < self.names.len()
            invariant
                self.wf(),
                self.bounded(n),
                n < usize::MAX,
                m0 == self.view_map(),
                self == old(self),
                0 <= i <= self.names.len(),
                forall|j: int| 0 <= j < i ==> self.names@[j]@ != k@,
            decreases self.names.len() - i,
        {
            if crate::text::chars_eq(&self.names[i], k) {
                proof {
                    reveal(CountTable::view_map);
                    self.lemma_entry(i as int);
                }
                let c = self.counts[i];
                self.counts.set(i, c + 1);
                proof {
                    reveal(CountTable::view_map);
                    assert forall|j: int| 0 <= j < self.names.len() implies self.view_map().dom().contains(self.names@[j]@)
                        && self.view_map()[self.names@[j]@] == self.counts@[j] as nat by {
                        self.lemma_entry(j);
                    }
                    assert(self.view_map() =~= bump(m0, k@)) by {
                        assert forall|key: Seq<char>| #[trigger] self.view_map().dom().contains(key) <==> bump(m0, k@).dom().contains(key) by {
                            if self.view_map().dom().contains(key) {
                                let j = choose|j: int| 0 <= j < self.names.len() && self.names@[j]@ == key;
                                old(self).lemma_entry(j);
                            }
                            if m0.dom().contains(key) {
                                let j = choose|j: int| 0 <= j < old(self).names.len() && old(self).names@[j]@ == key;
                                self.lemma_entry(j);
                            }
                        }
                        assert forall|key: Seq<char>| #[trigger] self.view_map().dom().contains(key)
                            implies self.view_map()[key] == bump(m0, k@)[key] by {
                            let j = choose|j: int| 0 <= j < self.names.len() && self.names@[j]@ == key;
                            self.lemma_entry(j);
                            old(self).lemma_entry(j);
                        }
                    }
                }
                return;
            }
            i += 1;
        }
        self.names.push(k.clone());
        self.counts.push(1);
        proof {
            let last = self.names.len() - 1;
            assert(self.names@[last]@ == k@);
            assert forall|a: int, b: int| 0 <= a < b < self.names.len() implies self.names@[a]@ != self.names@[b]@ by {
                if b < last {
                    assert(old(self).names@[a]@ != old(self).names@[b]@);
                }
            }
            assert(self.view_map() =~= bump(m0, k@)) by {
                assert forall|key: Seq<char>| #[trigger] self.view_map().dom().contains(key) <==> bump(m0, k@).dom().contains(key) by {
                    if self.view_map().dom().contains(key) {
                        let j = choose|j: int| 0 <= j < self.names.len() && self.names@[j]@ == key;
                        if j < last {
                            old(self).lemma_entry(j);
                        }
                    }
                    if m0.dom().contains(key) {
                        let j = choose|j: int| 0 <= j < old(self).names.len() && old(self).names@[j]@ == key;
                        self.lemma_entry(j);
                    }
                    if key == k@ {
                        self.lemma_entry(last);
                    }
                }
                assert forall|key: Seq<char>| #[trigger] self.view_map().dom().contains(key)
                    implies self.view_map()[key] == bump(m0, k@)[key] by {
                    let j = choose|j: int| 0 <= j < self.names.len() && self.names@[j]@ == key;
                    self.lemma_entry(j);
                    if j < last {
                        old(self).lemma_entry(j);
                    } else {
                        if m0.dom().contains(key) {
                            let j2 = choose|j2: int| 0 <= j2 < old(self).names.len() && old(self).names@[j2]@ == key;
                            assert(old(self).names@[j2]@ == k@);
                        }
                    }
                }
            }
        }
    }

    /// Entry `b` is counted more often than entry `j`, or as often and
    /// first in character order.
    spec fn dominates(&self, b: int, j: int) -> bool {
        self.counts@[j] < self.counts@[b]
            || (self.counts@[j] == self.counts@[b] && text_order(self.names@[b]@, self.names@[j]@, 0) <= 0)
    }

    fn most_frequent(&self) -> (r: String)
        requires
            self.wf(),
        ensures
            is_most_frequent(self.view_map(), r@),
    {
        reveal(CountTable::view_map);
        if self.names.len() == 0 {
            assert(self.view_map().dom() =~= Set::<Seq<char>>::empty());
            return String::new();
        }
        let mut best: usize = 0;
        let mut i: usize = 1;
        proof {
            crate::updates::lemma_text_order_reflexive_pub(self.names@[0]@);
            assert(self.dominates(0, 0));
        }
        while i < self.names.len()
            invariant
                self.wf(),
                0 <= best < i <= self.names.len(),
                forall|j: int| 0 <= j < i ==> #[trigger] self.dominates(best as int, j),
            decreases self.names.len() - i,
        {
            let better = self.counts[i] > self.counts[best]
                || (self.counts[i] == self.counts[best] && text_order_of(&self.names[i], &self.names[best]) < 0);
            let ghost b = best as int;
            let ghost ii = i as int;
            if better {
                proof {
                    assert forall|j: int| 0 <= j < ii + 1 implies #[trigger] self.dominates(ii, j) by {
                        if j == ii {
                            crate::updates::lemma_text_order_reflexive_pub(self.names@[j]@);
                        } else {
                            assert(self.dominates(b, j));
                            if self.counts@[j] == self.counts@[ii] {
                                lemma_text_order_transitive(self.names@[ii]@, self.names@[b]@, self.names@[j]@, 0);
                            }
                        }
                    }
                }
                best = i;
            } else {
                proof {
                    if self.counts@[ii] == self.counts@[b] {
                        lemma_text_order_flip(self.names@[ii]@, self.names@[b]@);
                    }
                    assert(self.dominates(b, ii));
                }
            }
            i += 1;
        }
        proof {
            let bb = best as int;
            self.lemma_entry(bb);
            assert forall|k: Seq<char>| #[trigger] self.view_map().dom().contains(k) implies self.view_map()[k]
                < self.view_map()[self.names@[bb]@] || (self.view_map()[k] == self.view_map()[self.names@[bb]@]
                && text_order(self.names@[bb]@, k, 0) <= 0) by {
                let j = choose|j: int| 0 <= j < self.names.len() && self.names@[j]@ == k;
                self.lemma_entry(j);
                assert(self.dominates(bb, j));
            }
            assert(self.view_map().dom() != Set::<Seq<char>>::empty()) by {
                assert(self.view_map().dom().contains(self.names@[bb]@));
            }
        }
        string_of(&self.names[best])
    }
}


/// The default accounts and investment commodity that a journal's history
/// suggests.
#[derive(Debug, Clone, PartialEq, Eq, Default)]
pub struct JournalProfile {
    pub default_cash_account: String,
    pub default_expense_account: String,
    pub default_income_account: String,
    pub default_transfer_account: String,
    pub default_investment_account: String,
    pub default_investment_commodity: String,
}

/// Whether a lowercased account is a root or lies below it.
pub open spec fn under_root(account: Seq<char>, root: Seq<char>) -> bool {
    account == root || starts_with(account, root + seq![':'])
}

/// Whether an account (compared in lowercase) lies in one of the roots.
pub open spec fn in_roots(account: Seq<char>, roots: Seq<Seq<char>>) -> bool {
    exists|i: int| 0 <= i < roots.len() && under_root(lowercase(account), #[trigger] roots[i])
}

pub open spec fn root_views(roots: Seq<&str>) -> Seq<Seq<char>> {
    roots.map_values(|r: &str| r@)
}

/// Whether an account lies in one of the roots, compared in lowercase.
pub fn is_account_root(account: &str, roots: &Vec<&str>) -> (r: bool)
    ensures
        r == in_roots(account@, root_views(roots@)),
{
    let lower = to_chars(to_lower(account).as_str());
    let mut i: usize = 0;
    while i < roots.len()
        invariant
            0 <= i <= roots.len(),
            lower@ == lowercase(account@),
            forall|k: int| 0 <= k < i ==> !under_root(lower@, #[trigger] root_views(roots@)[k]),
        decreases roots.len() - i,
    {
        let root = to_chars(roots[i]);
        assert(root_views(roots@)[i as int] == root@);
        let mut prefix = root.clone();
        assert(prefix@ =~= root@);
        prefix.push(':');
        assert(prefix@ =~= root@ + seq![':']);
        if crate::text::chars_eq(&lower, &root) || crate::text::starts_with_chars(&lower, &prefix) {
            assert(under_root(lowercase(account@), root_views(roots@)[i as int]));
            return true;
        }
        i += 1;
    }
    false
}

pub open spec fn income_expense_roots() -> Seq<Seq<char>> {
    seq!["income"@, "revenue"@, "expenses"@, "expense"@]
}

pub open spec fn expense_roots() -> Seq<Seq<char>> {
    seq!["expenses"@, "expense"@]
}

pub open spec fn income_roots() -> Seq<Seq<char>> {
    seq!["income"@, "revenue"@]
}

pub open spec fn balance_roots() -> Seq<Seq<char>> {
    seq!["assets"@, "asset"@, "liabilities"@, "liability"@]
}

/// The counts the profile is chosen from.
pub struct ProfileCounts {
    pub cash: Map<Seq<char>, nat>,
    pub expense: Map<Seq<char>, nat>,
    pub income: Map<Seq<char>, nat>,
    pub transfer: Map<Seq<char>, nat>,
    pub investment_accounts: Map<Seq<char>, nat>,
    pub investment_commodities: Map<Seq<char>, nat>,
}

pub open spec fn empty_counts() -> ProfileCounts {
    ProfileCounts {
        cash: Map::empty(),
        expense: Map::empty(),
        income: Map::empty(),
        transfer: Map::empty(),
        investment_accounts: Map::empty(),
        investment_commodities: Map::empty(),
    }
}

/// A balance account looks like an investment when its name mentions one or
/// its commodity is not the default one.
pub open spec fn looks_like_investment(account: Seq<char>, non_monetary: bool) -> bool {
    let l = lowercase(account);
    crate::text::contains(l, "invest"@) || crate::text::contains(l, "broker"@) || crate::text::contains(l, "portfolio"@)
        || non_monetary
}

/// Counting one posting: expense and income accounts by kind; balance
/// accounts as transfer accounts when the transaction has no income or
/// expense, and as investment accounts (with their commodity) or cash
/// accounts.
pub open spec fn count_posting(c: ProfileCounts, p: PostingSpec, has_income_or_expense: bool, default_commodity: Seq<char>) -> ProfileCounts {
    let account = trim(p.account);
    let commodity = trim(p.commodity);
    if account.len() == 0 {
        c
    } else if in_roots(account, expense_roots()) {
        ProfileCounts { expense: bump(c.expense, account), ..c }
    } else if in_roots(account, income_roots()) {
        ProfileCounts { income: bump(c.income, account), ..c }
    } else if in_roots(account, balance_roots()) {
        count_balance_posting(c, account, commodity, has_income_or_expense, default_commodity)
    } else {
        c
    }
}

/// Counting a posting to a balance (asset or liability) account.
pub open spec fn count_balance_posting(
    c: ProfileCounts,
    account: Seq<char>,
    commodity: Seq<char>,
    has_income_or_expense: bool,
    default_commodity: Seq<char>,
) -> ProfileCounts {
    let c1 = if !has_income_or_expense { ProfileCounts { transfer: bump(c.transfer, account), ..c } } else { c };
    let non_monetary = commodity.len() > 0 && commodity != default_commodity;
    if looks_like_investment(account, non_monetary) && non_monetary {
        ProfileCounts {
            investment_accounts: bump(c1.investment_accounts, account),
            investment_commodities: bump(c1.investment_commodities, commodity),
            ..c1
        }
    } else {
        ProfileCounts { cash: bump(c1.cash, account), ..c1 }
    }
}

pub open spec fn count_postings(c: ProfileCounts, ps: Seq<PostingSpec>, has_ie: bool, default_commodity: Seq<char>) -> ProfileCounts
    decreases ps.len(),
{
    if ps.len() == 0 {
        c
    } else {
        count_posting(count_postings(c, ps.drop_last(), has_ie, default_commodity), ps.last(), has_ie, default_commodity)
    }
}

pub open spec fn has_income_or_expense(ps: Seq<PostingSpec>) -> bool {
    exists|i: int| 0 <= i < ps.len() && in_roots(#[trigger] ps[i].account, income_expense_roots())
}

pub open spec fn count_transactions(ts: Seq<JournalTransaction>, default_commodity: Seq<char>) -> ProfileCounts
    decreases ts.len(),
{
    if ts.len() == 0 {
        empty_counts()
    } else {
        let ps = posting_views(ts.last().postings@);
        count_postings(count_transactions(ts.drop_last(), default_commodity), ps, has_income_or_expense(ps), default_commodity)
    }
}

pub open spec fn total_postings(ts: Seq<JournalTransaction>) -> nat
    decreases ts.len(),
{
    if ts.len() == 0 { 0 } else { total_postings(ts.drop_last()) + ts.last().postings@.len() }
}


struct ProfileTables {
    cash: CountTable,
    expense: CountTable,
    income: CountTable,
    transfer: CountTable,
    investment_accounts: CountTable,
    investment_commodities: CountTable,
}

impl ProfileTables {
    spec fn wf(&self) -> bool {
        self.cash.wf() && self.expense.wf() && self.income.wf() && self.transfer.wf()
            && self.investment_accounts.wf() && self.investment_commodities.wf()
    }

    spec fn bounded(&self, n: nat) -> bool {
        self.cash.bounded(n) && self.expense.bounded(n) && self.income.bounded(n) && self.transfer.bounded(n)
            && self.investment_accounts.bounded(n) && self.investment_commodities.bounded(n)
    }

    spec fn counts(&self) -> ProfileCounts {
        ProfileCounts {
            cash: self.cash.view_map(),
            expense: self.expense.view_map(),
            income: self.income.view_map(),
            transfer: self.transfer.view_map(),
            investment_accounts: self.investment_accounts.view_map(),
            investment_commodities: self.investment_commodities.view_map(),
        }
    }
}

proof fn lemma_bounded_mono(t: &CountTable, n: nat, m: nat)
    requires
        t.bounded(n),
        n <= m,
    ensures
        t.bounded(m),
{
}

fn roots_of_income_expense() -> (r: Vec<&'static str>)
    ensures
        root_views(r@) == income_expense_roots(),
{
    let r: Vec<&'static str> = vec!["income", "revenue", "expenses", "expense"];
    assert(root_views(r@) =~= income_expense_roots());
    r
}

fn roots_of_expense() -> (r: Vec<&'static str>)
    ensures
        root_views(r@) == expense_roots(),
{
    let r: Vec<&'static str> = vec!["expenses", "expense"];
    assert(root_views(r@) =~= expense_roots());
    r
}

fn roots_of_income() -> (r: Vec<&'static str>)
    ensures
        root_views(r@) == income_roots(),
{
    let r: Vec<&'static str> = vec!["income", "revenue"];
    assert(root_views(r@) =~= income_roots());
    r
}

fn roots_of_balance() -> (r: Vec<&'static str>)
    ensures
        root_views(r@) == balance_roots(),
{
    let r: Vec<&'static str> = vec!["assets", "asset", "liabilities", "liability"];
    assert(root_views(r@) =~= balance_roots());
    r
}

fn count_posting_exec(
    t: &mut ProfileTables,
    p: &JournalPosting,
    has_ie: bool,
    default_commodity: &Vec<char>,
    Ghost(n): Ghost<nat>,
)
    requires
        old(t).wf(),
        old(t).bounded(n),
        n < usize::MAX,
    ensures
        final(t).wf(),
        final(t).bounded(n + 1),
        final(t).counts() == count_posting(old(t).counts(), p@, has_ie, default_commodity@),
{
    let a = to_chars(p.account.as_str());
    let account = trim_of(&a);
    let c = to_chars(p.commodity.as_str());
    let commodity = trim_of(&c);
    proof {
        lemma_bounded_mono(&t.cash, n, n + 1);
        lemma_bounded_mono(&t.expense, n, n + 1);
        lemma_bounded_mono(&t.income, n, n + 1);
        lemma_bounded_mono(&t.transfer, n, n + 1);
        lemma_bounded_mono(&t.investment_accounts, n, n + 1);
        lemma_bounded_mono(&t.investment_commodities, n, n + 1);
    }
    if account.len() == 0 {
        return;
    }
    let acc = string_of(&account);
    if is_account_root(acc.as_str(), &roots_of_expense()) {
        t.expense.bump(&account, Ghost(n));
        return;
    }
    if is_account_root(acc.as_str(), &roots_of_income()) {
        t.income.bump(&account, Ghost(n));
        return;
    }
    if !is_account_root(acc.as_str(), &roots_of_balance()) {
        return;
    }
    count_balance_exec(t, &account, &commodity, has_ie, default_commodity, Ghost(n));
}

#[verifier::rlimit(60)]
fn count_balance_exec(
    t: &mut ProfileTables,
    account: &Vec<char>,
    commodity: &Vec<char>,
    has_ie: bool,
    default_commodity: &Vec<char>,
    Ghost(n): Ghost<nat>,
)
    requires
        old(t).wf(),
        old(t).bounded(n),
        n < usize::MAX,
    ensures
        final(t).wf(),
        final(t).bounded(n + 1),
        final(t).counts() == count_balance_posting(old(t).counts(), account@, commodity@, has_ie, default_commodity@),
{
    if !has_ie {
        t.transfer.bump(account, Ghost(n));
    } else {
        proof {
            lemma_bounded_mono(&t.transfer, n, n + 1);
        }
    }
    let non_monetary = commodity.len() > 0 && !crate::text::chars_eq(commodity, default_commodity);
    let acc = string_of(account);
    let lower = to_chars(to_lower(acc.as_str()).as_str());
    let looks = crate::text::find_str(&lower, "invest").is_some() || crate::text::find_str(&lower, "broker").is_some()
        || crate::text::find_str(&lower, "portfolio").is_some() || non_monetary;
    if looks && non_monetary {
        t.investment_accounts.bump(account, Ghost(n));
        t.investment_commodities.bump(commodity, Ghost(n));
        proof {
            lemma_bounded_mono(&t.cash, n, n + 1);
        }
    } else {
        t.cash.bump(account, Ghost(n));
        proof {
            lemma_bounded_mono(&t.investment_accounts, n, n + 1);
            lemma_bounded_mono(&t.investment_commodities, n, n + 1);
        }
    }
    proof {
        lemma_bounded_mono(&t.expense, n, n + 1);
        lemma_bounded_mono(&t.income, n, n + 1);
    }
}

/// Chooses default accounts and the investment commodity by how often the
/// journal's postings use them.
pub fn build_journal_profile(transactions: &Vec<JournalTransaction>, default_commodity: &str) -> (r: JournalProfile)
    requires
        total_postings(transactions@) < usize::MAX,
    ensures
        ({
            let c = count_transactions(transactions@, default_commodity@);
            &&& is_most_frequent(c.cash, r.default_cash_account@)
            &&& is_most_frequent(c.expense, r.default_expense_account@)
            &&& is_most_frequent(c.income, r.default_income_account@)
            &&& is_most_frequent(c.transfer, r.default_transfer_account@)
            &&& is_most_frequent(c.investment_accounts, r.default_investment_account@)
            &&& is_most_frequent(c.investment_commodities, r.default_investment_commodity@)
        }),
{
    let dc = to_chars(default_commodity);
    let ie = roots_of_income_expense();
    let mut t = ProfileTables {
        cash: CountTable::new(),
        expense: CountTable::new(),
        income: CountTable::new(),
        transfer: CountTable::new(),
        investment_accounts: CountTable::new(),
        investment_commodities: CountTable::new(),
    };
    assert(t.counts() == empty_counts());
    let mut i: usize = 0;
    while i < transactions.len()
        invariant
            0 <= i <= transactions.len(),
            dc@ == default_commodity@,
            root_views(ie@) == income_expense_roots(),
            total_postings(transactions@) < usize::MAX,
            t.wf(),
            t.bounded(total_postings(transactions@.take(i as int))),
            t.counts() == count_transactions(transactions@.take(i as int), default_commodity@),
        decreases transactions.len() - i,
    {
        let tx = &transactions[i];
        let ghost ps = posting_views(tx.postings@);
        proof {
            assert(transactions@.take(i + 1).drop_last() =~= transactions@.take(i as int));
            assert(transactions@.take(i + 1).last() == *tx);
            lemma_total_postings_prefix(transactions@, i + 1);
        }
        let mut has_ie = false;
        let mut k: usize = 0;
        while k < tx.postings.len()
            invariant
                0 <= k <= tx.postings.len(),
                ps == posting_views(tx.postings@),
                root_views(ie@) == income_expense_roots(),
                has_ie == exists|j: int| 0 <= j < k && in_roots(#[trigger] ps[j].account, income_expense_roots()),
            decreases tx.postings.len() - k,
        {
            assert(ps[k as int] == tx.postings@[k as int]@);
            let hit = is_account_root(tx.postings[k].account.as_str(), &ie);
            proof {
                if hit {
                    assert(in_roots(ps[k as int].account, income_expense_roots()));
                } else {
                    assert forall|jj: int| 0 <= jj < k + 1 && in_roots(#[trigger] ps[jj].account, income_expense_roots())
                        implies jj < k by {}
                }
            }
            if hit {
                has_ie = true;
            }
            k += 1;
        }
        let ghost base = total_postings(transactions@.take(i as int));
        let mut j: usize = 0;
        while j < tx.postings.len()
            invariant
                0 <= j <= tx.postings.len(),
                ps == posting_views(tx.postings@),
                has_ie == has_income_or_expense(ps),
                dc@ == default_commodity@,
                base + tx.postings.len() <= total_postings(transactions@.take(i + 1)),
                total_postings(transactions@.take(i + 1)) <= total_postings(transactions@),
                total_postings(transactions@) < usize::MAX,
                t.wf(),
                t.bounded(base + j as nat),
                t.counts() == count_postings(count_transactions(transactions@.take(i as int), default_commodity@),
                    ps.take(j as int), has_ie, default_commodity@),
            decreases tx.postings.len() - j,
        {
            proof {
                assert(ps.take(j + 1).drop_last() =~= ps.take(j as int));
                assert(ps.take(j + 1).last() == tx.postings@[j as int]@);
            }
            count_posting_exec(&mut t, &tx.postings[j], has_ie, &dc, Ghost(base + j as nat));
            j += 1;
        }
        proof {
            assert(ps.take(tx.postings.len() as int) =~= ps);
            assert(total_postings(transactions@.take(i + 1)) == base + tx.postings.len());
        }
        i += 1;
    }
    assert(transactions@.take(transactions.len() as int) =~= transactions@);
    JournalProfile {
        default_cash_account: t.cash.most_frequent(),
        default_expense_account: t.expense.most_frequent(),
        default_income_account: t.income.most_frequent(),
        default_transfer_account: t.transfer.most_frequent(),
        default_investment_account: t.investment_accounts.most_frequent(),
        default_investment_commodity: t.investment_commodities.most_frequent(),
    }
}

proof fn lemma_total_postings_prefix(ts: Seq<JournalTransaction>, k: int)
    requires
        0 <= k <= ts.len(),
    ensures
        total_postings(ts.take(k)) <= total_postings(ts),
    decreases ts.len() - k,
{
    if k < ts.len() {
        lemma_total_postings_prefix(ts, k + 1);
        assert(ts.take(k + 1).drop_last() =~= ts.take(k));
    } else {
        assert(ts.take(k) =~= ts);
    }
}

/// The texts, trimmed, that are not blank, in order.
pub open spec fn trimmed_present(s: Seq<Seq<char>>) -> Seq<Seq<char>>
    decreases s.len(),
{
    if s.len() == 0 {
        seq![]
    } else {
        let rest = trimmed_present(s.drop_last());
        if crate::text::trim(s.last()).len() > 0 { rest.push(crate::text::trim(s.last())) } else { rest }
    }
}

/// A header field of each transaction: its code (`codes`) or description.
pub open spec fn header_texts(ts: Seq<JournalTransaction>, codes: bool) -> Seq<Seq<char>> {
    ts.map_values(|t: JournalTransaction| if codes { t.code@ } else { t.description@ })
}

/// A field of every posting, transaction after transaction: its account
/// (`accounts`) or comment.
pub open spec fn posting_texts(ts: Seq<JournalTransaction>, accounts: bool) -> Seq<Seq<char>>
    decreases ts.len(),
{
    if ts.len() == 0 {
        seq![]
    } else {
        posting_texts(ts.drop_last(), accounts) + ts.last().postings@.map_values(
            |p: JournalPosting| if accounts { p.account@ } else { p.comment@ },
        )
    }
}

/// The distinct values offered while entering a field.
pub open spec fn suggestion_list(values: Seq<Seq<char>>) -> Seq<Seq<char>> {
    dedup_ignore_ascii_case(sort_by_lowercase(trimmed_present(values)))
}

/// What the entry forms suggest.
#[derive(Debug, Clone, PartialEq, Eq)]
pub struct AutocompleteSuggestions {
    pub codes: Vec<String>,
    pub descriptions: Vec<String>,
    pub accounts: Vec<String>,
    pub commodities: Vec<String>,
    pub comments: Vec<String>,
    pub default_commodity: String,
    pub default_cash_account: String,
    pub default_expense_account: String,
    pub default_income_account: String,
    pub default_transfer_account: String,
    pub default_investment_account: String,
    pub default_investment_commodity: String,
}

fn push_trimmed(out: &mut Vec<String>, value: &str, Ghost(seen): Ghost<Seq<Seq<char>>>)
    requires
        string_views(old(out)@) == trimmed_present(seen),
    ensures
        string_views(final(out)@) == trimmed_present(seen.push(value@)),
{
    let t = crate::text::trim_of(&crate::text::to_chars(value));
    assert(seen.push(value@).drop_last() =~= seen);
    if t.len() > 0 {
        let ghost before = string_views(out@);
        out.push(crate::text::string_of(&t));
        assert(string_views(out@) =~= before.push(t@));
    }
}

fn header_values(transactions: &Vec<JournalTransaction>, codes: bool) -> (r: Vec<String>)
    ensures
        string_views(r@) == trimmed_present(header_texts(transactions@, codes)),
{
    let ghost all = header_texts(transactions@, codes);
    let mut out: Vec<String> = Vec::new();
    let mut i: usize = 0;
    while i < transactions.len()
        invariant
            0 <= i <= transactions.len(),
            all == header_texts(transactions@, codes),
            string_views(out@) == trimmed_present(all.take(i as int)),
        decreases transactions.len() - i,
    {
        let t = &transactions[i];
        let v = if codes { t.code.as_str() } else { t.description.as_str() };
        assert(all.take(i as int + 1) =~= all.take(i as int).push(v@));
        push_trimmed(&mut out, v, Ghost(all.take(i as int)));
        i += 1;
    }
    assert(all.take(transactions.len() as int) =~= all);
    out
}

fn posting_values(transactions: &Vec<JournalTransaction>, accounts: bool) -> (r: Vec<String>)
    ensures
        string_views(r@) == trimmed_present(posting_texts(transactions@, accounts)),
{
    let mut out: Vec<String> = Vec::new();
    let mut i: usize = 0;
    while i < transactions.len()
        invariant
            0 <= i <= transactions.len(),
            string_views(out@) == trimmed_present(posting_texts(transactions@.take(i as int), accounts)),
        decreases transactions.len() - i,
    {
        let t = &transactions[i];
        let ghost prefix = posting_texts(transactions@.take(i as int), accounts);
        let ghost fields = t.postings@.map_values(|p: JournalPosting| if accounts { p.account@ } else { p.comment@ });
        assert(transactions@.take(i as int + 1).drop_last() =~= transactions@.take(i as int));
        assert(transactions@.take(i as int + 1).last() == *t);
        let mut k: usize = 0;
        while k < t.postings.len()
            invariant
                0 <= k <= t.postings.len(),
                fields == t.postings@.map_values(|p: JournalPosting| if accounts { p.account@ } else { p.comment@ }),
                string_views(out@) == trimmed_present(prefix + fields.take(k as int)),
            decreases t.postings.len() - k,
        {
            let p = &t.postings[k];
            let v = if accounts { p.account.as_str() } else { p.comment.as_str() };
            assert(prefix + fields.take(k as int + 1) =~= (prefix + fields.take(k as int)).push(v@));
            push_trimmed(&mut out, v, Ghost(prefix + fields.take(k as int)));
            k += 1;
        }
        assert(fields.take(t.postings.len() as int) =~= fields);
        i += 1;
    }
    assert(transactions@.take(transactions.len() as int) =~= transactions@);
    out
}

/// The suggestions of the entry forms: the distinct codes, descriptions,
/// accounts and posting comments of the journal, sorted; its declared
/// commodities; the default commodity; and the defaults of its profile.
pub fn autocomplete_suggestions(
    transactions: &Vec<JournalTransaction>,
    commodities: Vec<String>,
    default_commodity: &str,
    profile: JournalProfile,
) -> (r: AutocompleteSuggestions)
    ensures
        string_views(r.codes@) == suggestion_list(header_texts(transactions@, true)),
        string_views(r.descriptions@) == suggestion_list(header_texts(transactions@, false)),
        string_views(r.accounts@) == suggestion_list(posting_texts(transactions@, true)),
        string_views(r.comments@) == suggestion_list(posting_texts(transactions@, false)),
        r.commodities == commodities,
        r.default_commodity@ == default_commodity@,
        r.default_cash_account == profile.default_cash_account,
        r.default_expense_account == profile.default_expense_account,
        r.default_income_account == profile.default_income_account,
        r.default_transfer_account == profile.default_transfer_account,
        r.default_investment_account == profile.default_investment_account,
        r.default_investment_commodity == profile.default_investment_commodity,
{
    AutocompleteSuggestions {
        codes: unique_sorted(header_values(transactions, true)),
        descriptions: unique_sorted(header_values(transactions, false)),
        accounts: unique_sorted(posting_values(transactions, true)),
        commodities,
        comments: unique_sorted(posting_values(transactions, false)),
        default_commodity: default_commodity.to_owned(),
        default_cash_account: profile.default_cash_account,
        default_expense_account: profile.default_expense_account,
        default_income_account: profile.default_income_account,
        default_transfer_account: profile.default_transfer_account,
        default_investment_account: profile.default_investment_account,
        default_investment_commodity: profile.default_investment_commodity,
    }
}

} // verus!
