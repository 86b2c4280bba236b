//! The files of a journal: the configured main file, `include` directives
//! and the wildcard patterns they may hold.

use vstd::prelude::*;
use crate::app_error::{app_error_json, to_error_string, to_error_string_with_details, AppErrorSpec};
use crate::journal::util::{spec_split_inline_comment, split_inline_comment_chars};
use crate::settings::AppSettings;
use crate::text::{
    char_pred, ends_with, ends_with_chars, find_char, find_chars, find_sub, first_match, lemma_find_sub_occurs,
    lemma_first_match_props, slice_of, starts_with, starts_with_chars, string_of, to_chars, trim, trim_char,
    trim_char_of, trim_of, trim_start, trim_start_of, occurs_at,
};

verus! {

/// A journal file and its text.
#[derive(Debug, Clone, PartialEq, Eq)]
pub struct JournalFile {
    pub path: String,
    pub content: String,
}

pub open spec fn include_kw() -> Seq<char> {
    seq!['i', 'n', 'c', 'l', 'u', 'd', 'e']
}

/// The target of an `include` directive: the text after the keyword, without
/// an inline comment and surrounding quotes; none for blank lines, comment
/// lines, other lines and an `include` without a target.
pub open spec fn spec_parse_include_directive(line: Seq<char>) -> Option<Seq<char>> {
    let t = trim(line);
    if t.len() == 0 || t[0] == ';' || t[0] == '#' || !starts_with(t, include_kw()) {
        None
    } else {
        let inc = trim_start(t.skip(7));
        if inc.len() == 0 {
            None
        } else {
            Some(trim_char(trim(spec_split_inline_comment(inc).0), '"'))
        }
    }
}

pub fn parse_include_directive_chars(line: &Vec<char>) -> (r: Option<Vec<char>>)
    ensures
        match r {
            Some(v) => spec_parse_include_directive(line@) == Some(v@),
            None => spec_parse_include_directive(line@).is_none(),
        },
{
    let t = trim_of(line);
    if t.len() == 0 || t[0] == ';' || t[0] == '#' {
        return None;
    }
    let kw = to_chars("include");
    proof {
        reveal_strlit("include");
        assert("include"@ =~= include_kw());
    }
    if !starts_with_chars(&t, &kw) {
        return None;
    }
    let rest = slice_of(&t, 7, t.len());
    assert(rest@ =~= t@.skip(7));
    let inc = trim_start_of(&rest);
    if inc.len() == 0 {
        return None;
    }
    let (body, _comment) = split_inline_comment_chars(&inc);
    let body = trim_of(&body);
    Some(trim_char_of(&body, '"'))
}

/// The target of an `include` directive line, if it is one.
pub fn parse_include_directive(line: &str) -> (r: Option<String>)
    ensures
        match r {
            Some(v) => spec_parse_include_directive(line@) == Some(v@),
            None => spec_parse_include_directive(line@).is_none(),
        },
{
    let l = to_chars(line);
    match parse_include_directive_chars(&l) {
        Some(v) => Some(string_of(&v)),
        None => None,
    }
}

/// The pieces of `s` between the occurrences of `c` (`str::split`).
pub open spec fn split_on(s: Seq<char>, c: char) -> Seq<Seq<char>>
    decreases s.len(),
{
    let k = first_match(s, char_pred(c));
    if k < 0 {
        seq![s]
    } else {
        proof {
            lemma_first_match_props(s, char_pred(c));
        }
        seq![s.take(k)] + split_on(s.skip(k + 1), c)
    }
}

pub proof fn lemma_split_on_len(s: Seq<char>, c: char)
    ensures
        split_on(s, c).len() >= 1,
        split_on(s, c).len() == 1 <==> !s.contains(c),
    decreases s.len(),
{
    lemma_first_match_props(s, char_pred(c));
    let k = first_match(s, char_pred(c));
    if k >= 0 {
        lemma_split_on_len(s.skip(k + 1), c);
        assert(s[k] == c);
    } else {
        assert forall|j: int| 0 <= j < s.len() implies s[j] != c by {
            assert(!(char_pred(c))(s[j]));
        }
    }
}

pub fn split_on_chars(s: &Vec<char>, c: char) -> (r: Vec<Vec<char>>)
    ensures
        crate::text::views(r@) == split_on(s@, c),
    decreases s.len(),
{
    proof {
        lemma_first_match_props(s@, char_pred(c));
    }
    match find_char(s, c) {
        None => {
            let mut r: Vec<Vec<char>> = Vec::new();
            r.push(s.clone());
            assert(crate::text::views(r@) =~= seq![s@]);
            r
        },
        Some(k) => {
            let head = slice_of(s, 0, k);
            let tail = slice_of(s, k + 1, s.len());
            assert(head@ =~= s@.take(k as int));
            assert(tail@ =~= s@.skip(k + 1));
            let rest = split_on_chars(&tail, c);
            let mut r: Vec<Vec<char>> = Vec::new();
            r.push(head);
            let mut i: usize = 0;
            while i < rest.len()
                invariant
                    0 <= i <= rest.len(),
                    crate::text::views(r@) == seq![s@.take(k as int)] + crate::text::views(rest@).take(i as int),
                decreases rest.len() - i,
            {
                let ghost before = r@;
                r.push(rest[i].clone());
                proof {
                    assert(crate::text::views(r@) =~= crate::text::views(before).push(rest@[i as int]@));
                    assert(crate::text::views(rest@).take(i + 1) =~= crate::text::views(rest@).take(i as int).push(rest@[i as int]@));
                }
                i += 1;
            }
            assert(crate::text::views(rest@).take(rest.len() as int) =~= crate::text::views(rest@));
            r
        },
    }
}

/// What is left of `rem` after finding the middle pieces one after the
/// other, each at its first occurrence; none when one is missing.
pub open spec fn match_middle(parts: Seq<Seq<char>>, rem: Seq<char>) -> Option<Seq<char>>
    decreases parts.len(),
{
    if parts.len() == 0 {
        Some(rem)
    } else if parts[0].len() == 0 {
        match_middle(parts.skip(1), rem)
    } else {
        let i = find_sub(rem, parts[0]);
        if i < 0 {
            None
        } else {
            match_middle(parts.skip(1), rem.skip(i + parts[0].len()))
        }
    }
}

/// Whether a file name matches a pattern with `*` wildcards: the text before
/// the first `*` starts the name, the pieces between stars are found in
/// order, and the text after the last `*` ends what is left.
pub open spec fn spec_wildcard_matches(pattern: Seq<char>, value: Seq<char>) -> bool {
    let parts = split_on(pattern, '*');
    if pattern == seq!['*'] {
        true
    } else if parts.len() == 1 {
        pattern == value
    } else if parts[0].len() > 0 && !starts_with(value, parts[0]) {
        false
    } else {
        let rem = if parts[0].len() > 0 { value.skip(parts[0].len() as int) } else { value };
        match match_middle(parts.subrange(1, parts.len() - 1), rem) {
            None => false,
            Some(rest) => parts.last().len() == 0 || ends_with(rest, parts.last()),
        }
    }
}

fn match_middle_of(parts: &Vec<Vec<char>>, from: usize, to: usize, rem: Vec<char>) -> (r: Option<Vec<char>>)
    requires
        from <= to <= parts.len(),
    ensures
        match r {
            Some(v) => match_middle(crate::text::views(parts@).subrange(from as int, to as int), rem@) == Some(v@),
            None => match_middle(crate::text::views(parts@).subrange(from as int, to as int), rem@).is_none(),
        },
    decreases to - from,
{
    let ghost ps = crate::text::views(parts@).subrange(from as int, to as int);
    if from == to {
        return Some(rem);
    }
    assert(ps[0] == parts@[from as int]@);
    assert(ps.skip(1) =~= crate::text::views(parts@).subrange(from + 1, to as int));
    if parts[from].len() == 0 {
        return match_middle_of(parts, from + 1, to, rem);
    }
    match find_chars(&rem, &parts[from]) {
        None => None,
        Some(i) => {
            proof {
                lemma_find_sub_occurs(rem@, parts@[from as int]@);
            }
            assert(i + parts[from as int]@.len() <= rem.len());
            let next = slice_of(&rem, i + parts[from].len(), rem.len());
            assert(next@ =~= rem@.skip(i + parts@[from as int]@.len()));
            match_middle_of(parts, from + 1, to, next)
        },
    }
}

/// Whether a file name matches a pattern with `*` wildcards.
pub fn wildcard_matches(pattern: &str, value: &str) -> (r: bool)
    ensures
        r == spec_wildcard_matches(pattern@, value@),
{
    let p = to_chars(pattern);
    let v = to_chars(value);
    if p.len() == 1 && p[0] == '*' {
        assert(p@ =~= seq!['*']);
        return true;
    }
    assert(p@ != seq!['*']);
    let parts = split_on_chars(&p, '*');
    proof {
        lemma_split_on_len(p@, '*');
    }
    let ghost ps = crate::text::views(parts@);
    if parts.len() == 1 {
        return crate::text::chars_eq(&p, &v);
    }
    assert(ps[0] == parts@[0]@);
    let mut rem = v.clone();
    assert(rem@ =~= v@);
    if parts[0].len() > 0 {
        if !starts_with_chars(&v, &parts[0]) {
            return false;
        }
        rem = slice_of(&v, parts[0].len(), v.len());
        assert(rem@ =~= v@.skip(ps[0].len() as int));
    }
    let last = parts.len() - 1;
    assert(ps.last() == parts@[last as int]@);
    match match_middle_of(&parts, 1, last, rem) {
        None => false,
        Some(rest) => parts[last].len() == 0 || ends_with_chars(&rest, &parts[last]),
    }
}

/// The errors of a journal path setting: none configured, or a configured
/// path where no file exists.
pub open spec fn journal_path_error(setting: Seq<char>, path_exists: bool) -> Option<Seq<char>> {
    if trim(setting).len() == 0 {
        Some(app_error_json(AppErrorSpec {
            code: "journal_not_configured"@,
            message: "Configure a journal path in Settings before loading transactions."@,
            details: None,
            field_errors: seq![],
        }))
    } else if !path_exists {
        Some(app_error_json(AppErrorSpec {
            code: "journal_not_found"@,
            message: "Journal file does not exist."@,
            details: Some("Expected at: "@ + trim(setting)),
            field_errors: seq![],
        }))
    } else {
        None
    }
}

/// The configured journal path, trimmed, given whether a file exists there;
/// else the JSON text of the error.
pub fn require_journal_path(settings: &AppSettings, path_exists: bool) -> (r: Result<String, String>)
    ensures
        match r {
            Ok(p) => journal_path_error(settings.journal_path@, path_exists).is_none()
                && p@ == trim(settings.journal_path@),
            Err(e) => journal_path_error(settings.journal_path@, path_exists) == Some(e@),
        },
{
    let c = to_chars(settings.journal_path.as_str());
    let t = trim_of(&c);
    if t.len() == 0 {
        return Err(to_error_string(
            "journal_not_configured",
            "Configure a journal path in Settings before loading transactions.",
        ));
    }
    let path = string_of(&t);
    if !path_exists {
        let mut details = to_chars("Expected at: ");
        crate::text::push_all(&mut details, &t);
        let d = string_of(&details);
        return Err(to_error_string_with_details("journal_not_found", "Journal file does not exist.", d.as_str()));
    }
    Ok(path)
}

} // verus!

verus! {

/// The pieces found in the text in order, each anywhere after the one
/// before, the last one ending the text.
pub open spec fn pieces_float(ps: Seq<Seq<char>>, v: Seq<char>) -> bool
    decreases ps.len(),
{
    if ps.len() == 0 {
        true
    } else if ps.len() == 1 {
        ends_with(v, ps[0])
    } else {
        exists|i: int| #[trigger] occurs_at(v, ps[0], i) && pieces_float(ps.skip(1), v.skip(i + ps[0].len()))
    }
}

/// The text is the pieces with any text between them: it starts with the
/// first piece and the others follow as `pieces_float` says (a single piece
/// must be all of the text).
pub open spec fn pieces_with_gaps(ps: Seq<Seq<char>>, v: Seq<char>) -> bool {
    if ps.len() <= 1 {
        ps == seq![v]
    } else {
        starts_with(v, ps[0]) && pieces_float(ps.skip(1), v.skip(ps[0].len() as int))
    }
}

/// Dropping a prefix of the text only makes it harder to fit the pieces.
proof fn lemma_float_skip(ps: Seq<Seq<char>>, v: Seq<char>, j: int)
    requires
        0 <= j <= v.len(),
        pieces_float(ps, v.skip(j)),
    ensures
        pieces_float(ps, v),
    decreases ps.len(),
{
    let w = v.skip(j);
    if ps.len() == 1 {
        assert(v.skip(v.len() - ps[0].len()) =~= w.skip(w.len() - ps[0].len()));
    } else if ps.len() > 1 {
        let i = choose|i: int| #[trigger] occurs_at(w, ps[0], i) && pieces_float(ps.skip(1), w.skip(i + ps[0].len()));
        assert(v.subrange(i + j, i + j + ps[0].len()) =~= w.subrange(i, i + ps[0].len()));
        assert(occurs_at(v, ps[0], i + j));
        assert(v.skip(i + j + ps[0].len()) =~= w.skip(i + ps[0].len()));
    }
}

/// Finding the middle pieces greedily, each at its first occurrence, and
/// then the last piece at the end is the same as fitting them anywhere.
proof fn lemma_match_middle_floats(mids: Seq<Seq<char>>, last: Seq<char>, rem: Seq<char>)
    ensures
        pieces_float(mids.push(last), rem) <==> (match match_middle(mids, rem) {
            None => false,
            Some(rest) => ends_with(rest, last),
        }),
    decreases mids.len(),
{
    let ps = mids.push(last);
    if mids.len() == 0 {
        assert(ps =~= seq![last]);
    } else {
        let m = mids[0];
        let tail = mids.skip(1);
        assert(ps.skip(1) =~= tail.push(last));
        assert(ps[0] == m);
        if m.len() == 0 {
            lemma_match_middle_floats(tail, last, rem);
            if pieces_float(ps, rem) {
                let i = choose|i: int| #[trigger] occurs_at(rem, ps[0], i) && pieces_float(ps.skip(1), rem.skip(i + ps[0].len()));
                lemma_float_skip(tail.push(last), rem, i);
            }
            if pieces_float(tail.push(last), rem) {
                assert(rem.subrange(0, 0) =~= m);
                assert(occurs_at(rem, ps[0], 0));
                assert(rem.skip(0) =~= rem);
            }
        } else {
            let k = find_sub(rem, m);
            lemma_find_sub_occurs(rem, m);
            if k >= 0 {
                let next = rem.skip(k + m.len());
                lemma_match_middle_floats(tail, last, next);
                if pieces_float(ps, rem) {
                    let i = choose|i: int| #[trigger] occurs_at(rem, ps[0], i) && pieces_float(ps.skip(1), rem.skip(i + ps[0].len()));
                    assert(i >= k);
                    assert(rem.skip(i + m.len()) =~= next.skip(i - k));
                    lemma_float_skip(tail.push(last), next, i - k);
                }
                if pieces_float(tail.push(last), next) {
                    assert(occurs_at(rem, ps[0], k));
                }
            } else {
                if pieces_float(ps, rem) {
                    let i = choose|i: int| #[trigger] occurs_at(rem, ps[0], i) && pieces_float(ps.skip(1), rem.skip(i + ps[0].len()));
                    assert(occurs_at(rem, m, i));
                }
            }
        }
    }
}

/// A file name matches a pattern with `*` exactly when it is the pattern's
/// pieces (the texts between the stars) with any text between them.
pub proof fn law_wildcard_matches_pieces(pattern: Seq<char>, value: Seq<char>)
    ensures
        spec_wildcard_matches(pattern, value) <==> pieces_with_gaps(split_on(pattern, '*'), value),
{
    let parts = split_on(pattern, '*');
    lemma_split_on_len(pattern, '*');
    if parts.len() == 1 {
        assert(parts == seq![pattern]) by {
            lemma_first_match_props(pattern, char_pred('*'));
            if first_match(pattern, char_pred('*')) >= 0 {
                assert(pattern.contains('*'));
            }
        }
    } else {
        let p0 = parts[0];
        let mids = parts.subrange(1, parts.len() - 1);
        let last = parts.last();
        assert(parts.skip(1) =~= mids.push(last));
        assert(value.skip(0) =~= value);
        lemma_match_middle_floats(mids, last, value.skip(p0.len() as int));
        if pattern == seq!['*'] {
            assert(first_match(pattern, char_pred('*')) == 0);
            assert(pattern.skip(1) =~= Seq::<char>::empty());
            assert(first_match(pattern.skip(1), char_pred('*')) == -1);
            assert(split_on(pattern.skip(1), '*') == seq![pattern.skip(1)]);
            assert(pattern.take(0) =~= Seq::<char>::empty());
            assert(parts =~= seq![Seq::<char>::empty(), Seq::<char>::empty()]);
            assert(value.skip(value.len() - 0) =~= Seq::<char>::empty());
            assert(value.take(0) =~= Seq::<char>::empty());
        }
        if last.len() == 0 {
            assert(forall|r: Seq<char>| r.skip(r.len() - last.len()) =~= last);
        }
        if p0.len() == 0 {
            assert(value.take(0) =~= p0);
        }
    }
}


/// The pieces with the gaps between them: `ps[0] + gs[0] + ps[1] + ... +
/// ps[k]` (one gap fewer than pieces).
pub open spec fn interleave(ps: Seq<Seq<char>>, gs: Seq<Seq<char>>) -> Seq<char>
    decreases ps.len(),
{
    if ps.len() == 0 {
        seq![]
    } else if ps.len() == 1 {
        ps[0]
    } else {
        ps[0] + gs[0] + interleave(ps.skip(1), gs.skip(1))
    }
}

spec fn after_gap(x: Seq<char>, ps: Seq<Seq<char>>, gs: Seq<Seq<char>>) -> Seq<char> {
    x + interleave(ps, gs)
}

proof fn lemma_float_gaps(ps: Seq<Seq<char>>, w: Seq<char>)
    requires
        ps.len() >= 1,
        pieces_float(ps, w),
    ensures
        exists|x: Seq<char>, gs: Seq<Seq<char>>| gs.len() + 1 == ps.len() && w == #[trigger] after_gap(x, ps, gs),
    decreases ps.len(),
{
    if ps.len() == 1 {
        let x = w.take(w.len() - ps[0].len());
        let gs = Seq::<Seq<char>>::empty();
        assert(w =~= after_gap(x, ps, gs));
    } else {
        let i = choose|i: int| #[trigger] occurs_at(w, ps[0], i) && pieces_float(ps.skip(1), w.skip(i + ps[0].len()));
        let rest = w.skip(i + ps[0].len());
        lemma_float_gaps(ps.skip(1), rest);
        let (x1, gs1) = choose|x: Seq<char>, gs: Seq<Seq<char>>| gs.len() + 1 == ps.skip(1).len() && rest
            == #[trigger] after_gap(x, ps.skip(1), gs);
        let gs = seq![x1] + gs1;
        assert(gs.skip(1) =~= gs1);
        assert(interleave(ps, gs) == ps[0] + x1 + interleave(ps.skip(1), gs1));
        assert(rest == x1 + interleave(ps.skip(1), gs1));
        assert(w.subrange(i, i + ps[0].len()) == ps[0]);
        assert(w =~= w.take(i) + w.subrange(i, i + ps[0].len()) + rest);
        assert(w =~= w.take(i) + (ps[0] + x1 + interleave(ps.skip(1), gs1)));
        assert(w =~= after_gap(w.take(i), ps, gs));
    }
}

proof fn lemma_gaps_float(ps: Seq<Seq<char>>, gs: Seq<Seq<char>>, x: Seq<char>)
    requires
        ps.len() >= 1,
        gs.len() + 1 == ps.len(),
    ensures
        pieces_float(ps, x + interleave(ps, gs)),
    decreases ps.len(),
{
    let w = x + interleave(ps, gs);
    if ps.len() == 1 {
        assert(w.skip(w.len() - ps[0].len()) =~= ps[0]);
    } else {
        let rest = interleave(ps.skip(1), gs.skip(1));
        assert(w =~= x + ps[0] + (gs[0] + rest));
        assert(w.subrange(x.len() as int, x.len() + ps[0].len() as int) =~= ps[0]);
        assert(occurs_at(w, ps[0], x.len() as int));
        assert(w.skip(x.len() + ps[0].len() as int) =~= gs[0] + rest);
        lemma_gaps_float(ps.skip(1), gs.skip(1), gs[0]);
    }
}

/// The pieces fit the text with gaps exactly when the text is the pieces
/// with some texts between them.
pub proof fn lemma_pieces_with_gaps_interleave(ps: Seq<Seq<char>>, v: Seq<char>)
    requires
        ps.len() >= 1,
    ensures
        pieces_with_gaps(ps, v) <==> exists|gs: Seq<Seq<char>>| gs.len() + 1 == ps.len() && v == #[trigger] interleave(ps, gs),
{
    if ps.len() == 1 {
        if v == ps[0] {
            assert(v == interleave(ps, Seq::<Seq<char>>::empty()));
            assert(ps =~= seq![v]);
        }
    } else {
        let p0 = ps[0];
        let tail = v.skip(p0.len() as int);
        if pieces_with_gaps(ps, v) {
            lemma_float_gaps(ps.skip(1), tail);
            let (x, gs1) = choose|x: Seq<char>, gs: Seq<Seq<char>>| gs.len() + 1 == ps.skip(1).len() && tail
                == #[trigger] after_gap(x, ps.skip(1), gs);
            let gs = seq![x] + gs1;
            assert(gs.skip(1) =~= gs1);
            assert(v =~= p0 + tail);
            assert(v =~= interleave(ps, gs));
        }
        if exists|gs: Seq<Seq<char>>| gs.len() + 1 == ps.len() && v == #[trigger] interleave(ps, gs) {
            let gs = choose|gs: Seq<Seq<char>>| gs.len() + 1 == ps.len() && v == #[trigger] interleave(ps, gs);
            let rest = interleave(ps.skip(1), gs.skip(1));
            assert(v =~= p0 + (gs[0] + rest));
            assert(v.take(p0.len() as int) =~= p0);
            assert(tail =~= gs[0] + rest);
            lemma_gaps_float(ps.skip(1), gs.skip(1), gs[0]);
        }
    }
}

/// A file name matches a pattern with `*` exactly when it is the pattern's
/// pieces (the texts between the stars, `pattern.split('*')`) with some text
/// between each two of them: `s0 + x1 + s1 + ... + xk + sk`. A pattern
/// without `*` matches only itself.
pub proof fn law_wildcard_matches_split(pattern: Seq<char>, value: Seq<char>)
    ensures
        spec_wildcard_matches(pattern, value) <==> exists|gs: Seq<Seq<char>>|
            gs.len() + 1 == split_on(pattern, '*').len() && value == #[trigger] interleave(split_on(pattern, '*'), gs),
{
    law_wildcard_matches_pieces(pattern, value);
    lemma_split_on_len(pattern, '*');
    lemma_pieces_with_gaps_interleave(split_on(pattern, '*'), value);
}

} // verus!
