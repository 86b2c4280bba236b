//! Editing journal files by line ranges: a transaction or rule block is
//! replaced or removed by the one-based line numbers it was read from.

use vstd::prelude::*;
use crate::app_error::string_views;
use crate::text::{
    char_pred, first_match, join_lines, join_lines_of, lemma_first_match, lines, lines_of, strip_cr, string_of,
    to_chars, trim, trim_of, views,
};

verus! {

/// Splits text into lines as `str::lines` does.
pub fn split_lines(content: &str) -> (r: Vec<String>)
    ensures
        string_views(r@) == lines(content@),
{
    let c = to_chars(content);
    let ls = lines_of(&c);
    let mut r: Vec<String> = Vec::new();
    let mut i: usize = 0;
    while i < ls.len()
        invariant
            0 <= i <= ls.len(),
            string_views(r@) == views(ls@).take(i as int),
        decreases ls.len() - i,
    {
        let ghost before = r@;
        r.push(string_of(&ls[i]));
        proof {
            assert(string_views(r@) =~= string_views(before).push(ls@[i as int]@));
            assert(views(ls@).take(i + 1) =~= views(ls@).take(i as int).push(ls@[i as int]@));
        }
        i += 1;
    }
    assert(views(ls@).take(ls.len() as int) =~= views(ls@));
    r
}

/// The zero-based index of a one-based first line (line 0 counts as 1).
pub open spec fn start_index(start_line: nat) -> nat {
    if start_line == 0 { 0 } else { (start_line - 1) as nat }
}

/// The lines that replace a range: none for a blank replacement.
pub open spec fn replacement_lines(replacement: Seq<char>) -> Seq<Seq<char>> {
    if trim(replacement).len() > 0 { lines(replacement) } else { seq![] }
}

/// The lines before `start_line`, the replacement's lines and the lines after
/// `end_line` (both one-based and inclusive), joined with `\n` and ended by
/// one `\n`.
pub open spec fn spec_replace_line_range(ls: Seq<Seq<char>>, start_line: nat, end_line: nat, replacement: Seq<char>) -> Seq<char> {
    let e = if end_line < ls.len() { end_line as int } else { ls.len() as int };
    join_lines(ls.take(start_index(start_line) as int) + replacement_lines(replacement) + ls.skip(e)) + seq!['\n']
}

/// Replaces a one-based inclusive line range; a blank replacement removes
/// the lines.
pub fn replace_line_range(lines: &Vec<String>, start_line: usize, end_line: usize, replacement: &str) -> (r: String)
    requires
        start_index(start_line as nat) <= lines.len(),
    ensures
        r@ == spec_replace_line_range(string_views(lines@), start_line as nat, end_line as nat, replacement@),
{
    let ghost ls = string_views(lines@);
    let start = if start_line == 0 { 0 } else { start_line - 1 };
    let end = if end_line < lines.len() { end_line } else { lines.len() };
    let mut parts: Vec<Vec<char>> = Vec::new();
    let mut i: usize = 0;
    while i < start
        invariant
            0 <= i <= start <= lines.len(),
            ls == string_views(lines@),
            views(parts@) == ls.take(i as int),
        decreases start - i,
    {
        let ghost before = parts@;
        parts.push(to_chars(lines[i].as_str()));
        proof {
            assert(views(parts@) =~= views(before).push(ls[i as int]));
            assert(ls.take(i + 1) =~= ls.take(i as int).push(ls[i as int]));
        }
        i += 1;
    }
    let rc = to_chars(replacement);
    let rt = trim_of(&rc);
    let ghost head = views(parts@);
    if rt.len() > 0 {
        let rl = lines_of(&rc);
        let mut j: usize = 0;
        while j < rl.len()
            invariant
                0 <= j <= rl.len(),
                views(parts@) == head + views(rl@).take(j as int),
            decreases rl.len() - j,
        {
            let ghost before = parts@;
            parts.push(rl[j].clone());
            proof {
                assert(views(parts@) =~= views(before).push(rl@[j as int]@));
                assert(views(rl@).take(j + 1) =~= views(rl@).take(j as int).push(rl@[j as int]@));
            }
            j += 1;
        }
        assert(views(rl@).take(rl.len() as int) =~= views(rl@));
    } else {
        assert(views(parts@) =~= head + seq![]);
    }
    let ghost mid = views(parts@);
    assert(mid == ls.take(start as int) + replacement_lines(replacement@));
    let mut k: usize = end;
    while k < lines.len()
        invariant
            end <= k <= lines.len(),
            ls == string_views(lines@),
            views(parts@) == mid + ls.subrange(end as int, k as int),
        decreases lines.len() - k,
    {
        let ghost before = parts@;
        parts.push(to_chars(lines[k].as_str()));
        proof {
            assert(views(parts@) =~= views(before).push(ls[k as int]));
            assert(ls.subrange(end as int, k + 1) =~= ls.subrange(end as int, k as int).push(ls[k as int]));
        }
        k += 1;
    }
    assert(ls.subrange(end as int, lines.len() as int) =~= ls.skip(end as int));
    let mut out = join_lines_of(&parts, 0, parts.len());
    assert(views(parts@).subrange(0, parts.len() as int) =~= views(parts@));
    out.push('\n');
    string_of(&out)
}

/// A line as `str::lines` gives it back unchanged: no `\n`, no final `\r`.
pub open spec fn is_plain_line(l: Seq<char>) -> bool {
    !l.contains('\n') && !(l.len() > 0 && l.last() == '\r')
}

pub(crate) proof fn lemma_lines_after_first(a: Seq<char>, b: Seq<char>)
    requires
        !a.contains('\n'),
    ensures
        lines(a + seq!['\n'] + b) == seq![strip_cr(a)] + lines(b),
{
    let s = a + seq!['\n'] + b;
    assert forall|j: int| 0 <= j < a.len() implies !(char_pred('\n'))(s[j]) by {
        assert(s[j] == a[j]);
        if s[j] == '\n' {
            assert(a.contains('\n'));
        }
    }
    assert(s[a.len() as int] == '\n');
    lemma_first_match(s, char_pred('\n'), a.len() as int);
    assert(s.take(a.len() as int) =~= a);
    assert(s.skip(a.len() as int + 1) =~= b);
}

pub(crate) proof fn lemma_join_lines_front(xs: Seq<Seq<char>>)
    requires
        xs.len() >= 2,
    ensures
        join_lines(xs) == xs[0] + seq!['\n'] + join_lines(xs.skip(1)),
    decreases xs.len(),
{
    let dl = xs.drop_last();
    if xs.len() == 2 {
        assert(join_lines(dl) == xs[0]);
        assert(join_lines(xs.skip(1)) == xs[1]);
        assert(join_lines(xs) == join_lines(dl) + seq!['\n'] + xs.last());
    } else {
        lemma_join_lines_front(dl);
        assert(xs.skip(1).drop_last() =~= dl.skip(1));
        assert(xs.skip(1).last() == xs.last());
        assert(dl[0] == xs[0]);
        let j = join_lines(dl.skip(1));
        assert(join_lines(xs.skip(1)) == j + seq!['\n'] + xs.last());
        assert(join_lines(xs) == (xs[0] + seq!['\n'] + j) + seq!['\n'] + xs.last());
        assert((xs[0] + seq!['\n'] + j) + seq!['\n'] + xs.last() =~= xs[0] + seq!['\n'] + (j + seq!['\n'] + xs.last()));
    }
}

/// Lines joined with `\n` and ended by `\n` read back as the same lines,
/// when no line holds a `\n` or ends with `\r`.
pub proof fn lemma_lines_of_joined(xs: Seq<Seq<char>>)
    requires
        xs.len() > 0,
        forall|i: int| 0 <= i < xs.len() ==> is_plain_line(#[trigger] xs[i]),
    ensures
        lines(join_lines(xs) + seq!['\n']) == xs,
    decreases xs.len(),
{
    assert(is_plain_line(xs[0]));
    if xs.len() == 1 {
        lemma_lines_after_first(xs[0], seq![]);
        assert(xs[0] + seq!['\n'] + seq![] =~= join_lines(xs) + seq!['\n']);
        assert(lines(seq![]) =~= seq![]);
        assert(strip_cr(xs[0]) == xs[0]);
        assert(seq![xs[0]] + seq![] =~= xs);
    } else {
        let rest = xs.skip(1);
        assert forall|i: int| 0 <= i < rest.len() implies is_plain_line(#[trigger] rest[i]) by {
            assert(rest[i] == xs[i + 1]);
        }
        lemma_lines_of_joined(rest);
        lemma_join_lines_front(xs);
        lemma_lines_after_first(xs[0], join_lines(rest) + seq!['\n']);
        assert(join_lines(xs) + seq!['\n'] =~= xs[0] + seq!['\n'] + (join_lines(rest) + seq!['\n']));
        assert(strip_cr(xs[0]) == xs[0]);
        assert(seq![xs[0]] + rest =~= xs);
    }
}

/// Replacing a range of lines keeps every line outside it: the result reads
/// back as the lines before the range, the replacement's lines and the lines
/// after the range. (A line that ends with `\r` is read back without it, and
/// an empty result reads back as one empty line, so both are left out.)
pub proof fn law_replace_line_range_keeps_other_lines(
    ls: Seq<Seq<char>>,
    start_line: nat,
    end_line: nat,
    replacement: Seq<char>,
)
    requires
        start_index(start_line) <= ls.len(),
        forall|i: int| 0 <= i < ls.len() ==> is_plain_line(#[trigger] ls[i]),
        forall|i: int| 0 <= i < replacement_lines(replacement).len() ==> is_plain_line(#[trigger] replacement_lines(replacement)[i]),
        ({
            let e = if end_line < ls.len() { end_line as int } else { ls.len() as int };
            (ls.take(start_index(start_line) as int) + replacement_lines(replacement) + ls.skip(e)).len() > 0
        }),
    ensures
        ({
            let e = if end_line < ls.len() { end_line as int } else { ls.len() as int };
            lines(spec_replace_line_range(ls, start_line, end_line, replacement))
                == ls.take(start_index(start_line) as int) + replacement_lines(replacement) + ls.skip(e)
        }),
{
    let e = if end_line < ls.len() { end_line as int } else { ls.len() as int };
    let rl = replacement_lines(replacement);
    let xs = ls.take(start_index(start_line) as int) + rl + ls.skip(e);
    assert forall|i: int| 0 <= i < xs.len() implies is_plain_line(#[trigger] xs[i]) by {
        let s = start_index(start_line) as int;
        if i < s {
            assert(xs[i] == ls[i]);
        } else if i < s + rl.len() {
            assert(xs[i] == rl[i - s]);
        } else {
            assert(xs[i] == ls[e + (i - s - rl.len())]);
        }
    }
    lemma_lines_of_joined(xs);
}

} // verus!
