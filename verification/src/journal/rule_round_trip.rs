//! What a written periodic rule reads back as.

use vstd::prelude::*;
use crate::amount_style::CommodityStyles;
use crate::journal::edit::is_plain_line;
use crate::journal::format::{opt_part, preserved_posting_lines, spec_format_posting_preserving};
use crate::journal::parser::spec_parse_posting;
use crate::journal::round_trip::{
    entered_amount, lemma_lines_of_block, lemma_posting_line_reads_back, lemma_written_posting_lines, named_postings,
    posting_reads_back, written_comment,
};
use crate::text::{join_lines, lines};
use crate::journal::periodic::{
    names_other_rule, rule_postings, spec_format_periodic_rule_text, spec_parse_periodic_rule_block, from_kw, opt_date_part, rule_comment_text, rule_id_prefix, spec_extract_rule_id_from_comment, spec_is_date_literal,
    spec_parse_periodic_header, spec_periodic_rule_header, to_kw, trailing_date,
};
use crate::journal::round_trip::{
    lemma_concat_no, lemma_no_char, lemma_trim_edges, lemma_trim_padded, lemma_trim_plain, lemma_trim_start_space,
};
use crate::journal::types::PeriodicRuleInputSpec;
use crate::journal::util::spec_split_inline_comment;
use crate::text::{char_pred, first_match, lemma_first_match, lemma_first_match_props, starts_with, trim_start, ws_pred};
use crate::text::{contains, is_ws, lemma_rfind_sub, occurs_at, rfind_sub, trim};

verus! {

/// A window whose character at offset `o` differs from the keyword's is no
/// occurrence of it.
proof fn lemma_mismatch(x: Seq<char>, kw: Seq<char>, j: int, o: int)
    requires
        0 <= o < kw.len(),
        0 <= j,
        j + o < x.len(),
        x[j + o] != kw[o],
    ensures
        !occurs_at(x, kw, j),
{
    if occurs_at(x, kw, j) {
        assert(x.subrange(j, j + kw.len())[o] == x[j + o]);
    }
}

/// A date literal is its own trimmed form and holds no space.
proof fn lemma_date_literal(d: Seq<char>)
    requires
        spec_is_date_literal(d),
    ensures
        trim(d) == d,
        forall|i: int| 0 <= i < d.len() ==> d[i] != ' ' && d[i] != 't' && d[i] != 'f' && d[i] != ';' && !is_ws(#[trigger] d[i]),
{
    assert forall|i: int| 0 <= i < d.len() implies d[i] != ' ' && d[i] != 't' && d[i] != 'f' && d[i] != ';' && !is_ws(#[trigger] d[i]) by {
        if i != 4 && i != 7 {
            assert(crate::text::is_digit(d[i]));
        }
    }
    lemma_trim_plain(d);
}

/// A trailing clause found at its last occurrence gives its date and the
/// text before it.
proof fn lemma_trailing_found(b: Seq<char>, kw: Seq<char>, idx: int, d: Seq<char>)
    requires
        occurs_at(b, kw, idx),
        forall|j: int| idx < j ==> !occurs_at(b, kw, j),
        b.skip(idx + kw.len()) == d,
        spec_is_date_literal(d),
    ensures
        trailing_date(b, kw) == (Some(d), trim(b.take(idx))),
{
    lemma_rfind_sub(b, kw, idx);
    lemma_date_literal(d);
}

/// Without an occurrence of the keyword there is no trailing clause.
proof fn lemma_trailing_absent(b: Seq<char>, kw: Seq<char>)
    requires
        forall|j: int| !occurs_at(b, kw, j),
    ensures
        trailing_date(b, kw) == (None::<Seq<char>>, b),
{
    assert(rfind_sub(b, kw) == -1);
}

/// An occurrence inside a text is one inside the text with a space after.
proof fn lemma_occurs_in_prefix(p: Seq<char>, x: Seq<char>, kw: Seq<char>, j: int)
    requires
        occurs_at(x, kw, j),
        j + kw.len() <= p.len(),
        forall|i: int| 0 <= i < p.len() ==> x[i] == p[i],
    ensures
        occurs_at(p, kw, j),
{
    assert(x.subrange(j, j + kw.len()) =~= p.subrange(j, j + kw.len()));
}

/// ` from ` and a date: the clause is the last occurrence of ` from `.
proof fn lemma_from_clause(p: Seq<char>, d: Seq<char>)
    requires
        spec_is_date_literal(d),
    ensures
        occurs_at(p + from_kw() + d, from_kw(), p.len() as int),
        forall|j: int| p.len() < j ==> !occurs_at(p + from_kw() + d, from_kw(), j),
        (p + from_kw() + d).skip(p.len() as int + 6) == d,
        (p + from_kw() + d).take(p.len() as int) == p,
{
    let x = p + from_kw() + d;
    let n = p.len() as int;
    lemma_date_literal(d);
    assert(x.subrange(n, n + 6) =~= from_kw());
    assert forall|j: int| n < j implies !occurs_at(x, from_kw(), j) by {
        if j + 6 <= x.len() {
            if j < n + 5 {
                lemma_mismatch(x, from_kw(), j, 0);
            } else if j == n + 5 {
                assert(x[j + 1] == d[0]);
                lemma_mismatch(x, from_kw(), j, 1);
            } else {
                assert(x[j] == d[j - n - 6]);
                lemma_mismatch(x, from_kw(), j, 0);
            }
        }
    }
    assert(x.skip(n + 6) =~= d);
    assert(x.take(n) =~= p);
}

/// ` to ` and a date: the clause is the last occurrence of ` to `.
proof fn lemma_to_clause(y: Seq<char>, d: Seq<char>)
    requires
        spec_is_date_literal(d),
    ensures
        occurs_at(y + to_kw() + d, to_kw(), y.len() as int),
        forall|j: int| y.len() < j ==> !occurs_at(y + to_kw() + d, to_kw(), j),
        (y + to_kw() + d).skip(y.len() as int + 4) == d,
        (y + to_kw() + d).take(y.len() as int) == y,
{
    let x = y + to_kw() + d;
    let n = y.len() as int;
    lemma_date_literal(d);
    assert(x.subrange(n, n + 4) =~= to_kw());
    assert forall|j: int| n < j implies !occurs_at(x, to_kw(), j) by {
        if j + 4 <= x.len() {
            if j < n + 3 {
                lemma_mismatch(x, to_kw(), j, 0);
            } else if j == n + 3 {
                assert(x[j + 1] == d[0]);
                lemma_mismatch(x, to_kw(), j, 1);
            } else {
                assert(x[j] == d[j - n - 4]);
                lemma_mismatch(x, to_kw(), j, 0);
            }
        }
    }
    assert(x.skip(n + 4) =~= d);
    assert(x.take(n) =~= y);
}

/// A keyword that the text with a space after does not hold is not in it.
proof fn lemma_kw_absent(p: Seq<char>, kw: Seq<char>)
    requires
        !contains(p + seq![' '], kw),
    ensures
        forall|j: int| !occurs_at(p, kw, j),
{
    assert forall|j: int| !occurs_at(p, kw, j) by {
        if occurs_at(p, kw, j) {
            assert(p.subrange(j, j + kw.len()) =~= (p + seq![' ']).subrange(j, j + kw.len()));
            assert(occurs_at(p + seq![' '], kw, j));
        }
    }
}

/// ` to ` is nowhere in a period expression followed by a ` from ` clause,
/// when the expression with a space after holds none.
proof fn lemma_to_absent_after_from(p: Seq<char>, d: Seq<char>)
    requires
        !contains(p + seq![' '], to_kw()),
        spec_is_date_literal(d),
    ensures
        forall|j: int| !occurs_at(p + from_kw() + d, to_kw(), j),
{
    let x = p + from_kw() + d;
    let q = p + seq![' '];
    let n = p.len() as int;
    lemma_date_literal(d);
    assert forall|j: int| !occurs_at(x, to_kw(), j) by {
        if 0 <= j && j + 4 <= x.len() {
            if j + 4 <= n + 1 {
                if occurs_at(x, to_kw(), j) {
                    assert forall|i: int| 0 <= i < q.len() implies x[i] == q[i] by {}
                    lemma_occurs_in_prefix(q, x, to_kw(), j);
                }
            } else if j <= n + 1 {
                lemma_mismatch(x, to_kw(), j, n + 1 - j);
            } else if j < n + 5 {
                lemma_mismatch(x, to_kw(), j, 0);
            } else if j == n + 5 {
                assert(x[j + 1] == d[0]);
                lemma_mismatch(x, to_kw(), j, 1);
            } else {
                assert(x[j] == d[j - n - 6]);
                lemma_mismatch(x, to_kw(), j, 0);
            }
        }
    }
}

/// A keyword and a date, or nothing.
pub open spec fn date_clause(kw: Seq<char>, d: Option<Seq<char>>) -> Seq<char> {
    match d {
        Some(v) => kw + v,
        None => Seq::<char>::empty(),
    }
}

/// The start date clause after a period expression reads back.
proof fn lemma_start_part(p: Seq<char>, start: Option<Seq<char>>)
    requires
        p.len() > 0,
        !is_ws(p[0]),
        !is_ws(p.last()),
        !contains(p + seq![' '], from_kw()),
        start matches Some(d) ==> spec_is_date_literal(d),
    ensures
        ({
            let y = p + date_clause(from_kw(), start);
            &&& y.len() > 0 && !is_ws(y[0]) && !is_ws(y.last())
            &&& trailing_date(y, from_kw()) == (start, p)
        }),
{
    let y = p + date_clause(from_kw(), start);
    lemma_trim_plain(p);
    assert(y[0] == p[0]);
    match start {
        Some(d) => {
            lemma_date_literal(d);
            assert(y.last() == d.last());
            assert(y =~= p + from_kw() + d);
            lemma_from_clause(p, d);
            lemma_trailing_found(y, from_kw(), p.len() as int, d);
        },
        None => {
            assert(y =~= p);
            lemma_kw_absent(p, from_kw());
            lemma_trailing_absent(y, from_kw());
        },
    }
}

/// The end date clause after the period expression and start date reads
/// back.
proof fn lemma_end_part(p: Seq<char>, start: Option<Seq<char>>, end: Option<Seq<char>>)
    requires
        p.len() > 0,
        !is_ws(p[0]),
        !is_ws(p.last()),
        !contains(p + seq![' '], to_kw()),
        start matches Some(d) ==> spec_is_date_literal(d),
        end matches Some(d) ==> spec_is_date_literal(d),
        ({
            let y = p + date_clause(from_kw(), start);
            y.len() > 0 && !is_ws(y[0]) && !is_ws(y.last())
        }),
    ensures
        ({
            let y = p + date_clause(from_kw(), start);
            let x = y + date_clause(to_kw(), end);
            &&& x.len() > 0 && !is_ws(x[0]) && !is_ws(x.last())
            &&& trim(x) == x
            &&& trailing_date(x, to_kw()) == (end, y)
        }),
{
    let y = p + date_clause(from_kw(), start);
    let x = y + date_clause(to_kw(), end);
    lemma_trim_plain(y);
    assert(x[0] == y[0]);
    match end {
        Some(d) => {
            lemma_date_literal(d);
            assert(x.last() == d.last());
            lemma_trim_plain(x);
            assert(x =~= y + to_kw() + d);
            lemma_to_clause(y, d);
            lemma_trailing_found(x, to_kw(), y.len() as int, d);
        },
        None => {
            assert(x =~= y);
            lemma_trim_plain(x);
            match start {
                Some(sd) => {
                    assert(y =~= p + from_kw() + sd);
                    lemma_to_absent_after_from(p, sd);
                },
                None => {
                    assert(y =~= p);
                    lemma_kw_absent(p, to_kw());
                },
            }
            lemma_trailing_absent(x, to_kw());
        },
    }
}

/// A date as it is written: trimmed, and left out when blank.
pub open spec fn written_date(d: Option<Seq<char>>) -> Option<Seq<char>> {
    match d {
        Some(v) => if trim(v).len() > 0 { Some(trim(v)) } else { None },
        None => None,
    }
}

/// The description a written rule reads back with: its description and
/// free comment joined by a space when it has a rule id, else the free
/// comment (each trimmed).
pub open spec fn written_rule_description(input: PeriodicRuleInputSpec) -> Seq<char> {
    let d = trim(input.description);
    let k = trim(input.comment);
    if trim(input.rule_id).len() > 0 {
        if d.len() > 0 && k.len() > 0 {
            d + seq![' '] + k
        } else if d.len() > 0 {
            d
        } else {
            k
        }
    } else {
        k
    }
}

/// The rule headers that read back as written: a period expression without
/// `;`, line break or a ` to ` / ` from ` of its own; dates written as
/// `YYYY-MM-DD`; a rule id without whitespace; no free comment that could be
/// taken for a rule id; and no line break in the header comment.
pub open spec fn rule_header_reads_back(input: PeriodicRuleInputSpec) -> bool {
    let p = trim(input.period_expr);
    let id = trim(input.rule_id);
    &&& p.len() > 0
    &&& !p.contains(';') && !p.contains('\n')
    &&& !contains(p + seq![' '], to_kw())
    &&& !contains(p + seq![' '], from_kw())
    &&& written_date(input.start_date) matches Some(d) ==> spec_is_date_literal(d)
    &&& written_date(input.end_date) matches Some(d) ==> spec_is_date_literal(d)
    &&& forall|i: int| 0 <= i < id.len() ==> !is_ws(#[trigger] id[i])
    &&& id.len() == 0 ==> !starts_with(trim(input.comment), rule_id_prefix())
    &&& !rule_comment_text(input).contains('\n')
}

proof fn lemma_opt_date(prefix: Seq<char>, d: Option<Seq<char>>)
    ensures
        opt_date_part(prefix, d) == date_clause(prefix, written_date(d)),
{
    match d {
        Some(v) => {
            if trim(v).len() == 0 {
                assert(opt_part(prefix, v) =~= Seq::<char>::empty());
            }
        },
        None => {},
    }
}

/// The header comment of a written rule: trimmed, and read as its rule id
/// and description.
#[verifier::spinoff_prover]
#[verifier::rlimit(40)]
proof fn lemma_rule_comment(input: PeriodicRuleInputSpec)
    requires
        rule_header_reads_back(input),
    ensures
        ({
            let c = rule_comment_text(input);
            &&& c.len() > 0 ==> !is_ws(c[0]) && !is_ws(c.last())
            &&& spec_extract_rule_id_from_comment(c) == (trim(input.rule_id), written_rule_description(input))
        }),
{
    let id = trim(input.rule_id);
    let d = trim(input.description);
    let k = trim(input.comment);
    let c = rule_comment_text(input);
    lemma_trim_edges(input.rule_id);
    lemma_trim_edges(input.description);
    lemma_trim_edges(input.comment);
    if id.len() > 0 {
        let tail = (if d.len() > 0 { seq![' '] + d } else { Seq::<char>::empty() }) + (if k.len() > 0 {
            seq![' '] + k
        } else {
            Seq::<char>::empty()
        });
        assert(opt_part(seq![' '], input.description) == (if d.len() > 0 { seq![' '] + d } else { Seq::<char>::empty() }));
        assert(c =~= rule_id_prefix() + (id + tail));
        assert(c[0] == 'r');
        assert(!is_ws(c.last())) by {
            if k.len() > 0 {
                assert(c.last() == k.last());
            } else if d.len() > 0 {
                assert(c.last() == d.last());
            } else {
                assert(c.last() == id.last());
            }
        }
        lemma_trim_plain(c);
        assert(c.take(8) =~= rule_id_prefix());
        let rest = c.skip(8);
        assert(rest =~= id + tail);
        if tail.len() > 0 {
            assert forall|j: int| 0 <= j < id.len() implies !(ws_pred())(rest[j]) by {
                assert(rest[j] == id[j]);
            }
            assert(rest[id.len() as int] == ' ');
            lemma_first_match(rest, ws_pred(), id.len() as int);
            assert(rest.take(id.len() as int) =~= id);
            assert(rest.skip(id.len() as int + 1) =~= written_rule_description(input));
        } else {
            assert(rest =~= id);
            assert forall|j: int| 0 <= j < rest.len() implies !(ws_pred())(rest[j]) by {}
            lemma_first_match(rest, ws_pred(), rest.len() as int);
            assert(written_rule_description(input) =~= Seq::<char>::empty());
        }
    } else {
        assert(c == k);
        lemma_trim_plain(k);
        if k.len() == 0 {
            assert(!starts_with(k, rule_id_prefix()));
        }
    }
}

proof fn lemma_clause_no(kw: Seq<char>, d: Option<Seq<char>>, ch: char)
    requires
        ch == ';' || ch == '\n',
        kw == from_kw() || kw == to_kw(),
        d matches Some(v) ==> spec_is_date_literal(v),
    ensures
        !date_clause(kw, d).contains(ch),
{
    assert forall|i: int| 0 <= i < kw.len() implies kw[i] != ch by {}
    lemma_no_char(kw, ch);
    match d {
        Some(v) => {
            lemma_date_literal(v);
            assert forall|i: int| 0 <= i < v.len() implies v[i] != ch by {
                if ch == '\n' {
                    assert(!is_ws(v[i]));
                }
            }
            lemma_no_char(v, ch);
            lemma_concat_no(kw, v, ch);
        },
        None => {
            lemma_no_char(date_clause(kw, d), ch);
        },
    }
}

/// What a rule header line reads back as, kept folded in the proofs below.
#[verifier::opaque]
pub open spec fn header_fields(h: Seq<char>) -> Option<(Seq<char>, Option<Seq<char>>, Option<Seq<char>>, Seq<char>)> {
    spec_parse_periodic_header(h)
}

/// A rule header's parse from its parts.
proof fn lemma_header_from_parts(
    h: Seq<char>,
    rest: Seq<char>,
    body: Seq<char>,
    comment: Seq<char>,
    y: Seq<char>,
    p: Seq<char>,
    st: Option<Seq<char>>,
    en: Option<Seq<char>>,
)
    requires
        h.len() > 0,
        trim_start(h) == h,
        h[0] == '~',
        trim_start(h.skip(1)) == rest,
        spec_split_inline_comment(rest) == (body, comment),
        trailing_date(trim(body), to_kw()) == (en, y),
        trailing_date(y, from_kw()) == (st, p),
        p.len() > 0,
    ensures
        header_fields(h) == Some((p, st, en, comment)),
{
    reveal(header_fields);
}

/// The comment split of a written rule header's text after `~ `.
proof fn lemma_header_comment_split(x: Seq<char>, c: Seq<char>)
    requires
        x.len() > 0,
        !is_ws(x[0]),
        !is_ws(x.last()),
        !x.contains(';'),
        c.len() > 0 ==> !is_ws(c[0]) && !is_ws(c.last()),
    ensures
        ({
            let rest = x + (if c.len() > 0 { seq![' ', ' ', ';', ' '] + c } else { Seq::<char>::empty() });
            spec_split_inline_comment(rest) matches (body, comment) && trim(body) == x && comment == c
        }),
{
    let cpart = if c.len() > 0 { seq![' ', ' ', ';', ' '] + c } else { Seq::<char>::empty() };
    let rest = x + cpart;
    if c.len() > 0 {
        let k: int = x.len() as int + 2;
        assert forall|j: int| 0 <= j < k implies !(char_pred(';'))(rest[j]) by {
            if j < x.len() {
                assert(rest[j] == x[j]);
                if x[j] == ';' {
                    assert(x.contains(';'));
                }
            }
        }
        assert(rest[k] == ';');
        lemma_first_match(rest, char_pred(';'), k);
        assert(rest.take(k) =~= Seq::<char>::empty() + x + seq![' ', ' ']);
        assert(rest.skip(k + 1) =~= seq![' '] + c + Seq::<char>::empty());
        lemma_trim_padded(seq![' '], c, Seq::<char>::empty());
        lemma_trim_padded(Seq::<char>::empty(), x, seq![' ', ' ']);
    } else {
        assert(rest =~= x);
        assert forall|j: int| 0 <= j < x.len() implies !(char_pred(';'))(x[j]) by {
            if x[j] == ';' {
                assert(x.contains(';'));
            }
        }
        lemma_first_match(x, char_pred(';'), x.len() as int);
        lemma_trim_plain(x);
    }
}

/// The text of a rule header from its parts.
pub open spec fn header_text(p: Seq<char>, st: Option<Seq<char>>, en: Option<Seq<char>>, c: Seq<char>) -> Seq<char> {
    seq!['~', ' '] + (p + date_clause(from_kw(), st) + date_clause(to_kw(), en) + (if c.len() > 0 {
        seq![' ', ' ', ';', ' '] + c
    } else {
        Seq::<char>::empty()
    }))
}

/// The text after `~ ` of a rule header written from its parts.
pub open spec fn header_rest(p: Seq<char>, st: Option<Seq<char>>, en: Option<Seq<char>>, c: Seq<char>) -> Seq<char> {
    p + date_clause(from_kw(), st) + date_clause(to_kw(), en) + (if c.len() > 0 {
        seq![' ', ' ', ';', ' '] + c
    } else {
        Seq::<char>::empty()
    })
}

/// The shape of a rule header written from its parts.
#[verifier::spinoff_prover]
proof fn lemma_header_shape(p: Seq<char>, st: Option<Seq<char>>, en: Option<Seq<char>>, c: Seq<char>)
    requires
        p.len() > 0,
        !is_ws(p[0]),
        !is_ws(p.last()),
        !p.contains(';') && !p.contains('\n'),
        st matches Some(d) ==> spec_is_date_literal(d),
        en matches Some(d) ==> spec_is_date_literal(d),
        c.len() > 0 ==> !is_ws(c[0]) && !is_ws(c.last()),
        !c.contains('\n'),
        ({
            let x = p + date_clause(from_kw(), st) + date_clause(to_kw(), en);
            x.len() > 0 && !is_ws(x[0]) && !is_ws(x.last())
        }),
    ensures
        ({
            let x = p + date_clause(from_kw(), st) + date_clause(to_kw(), en);
            let h = header_text(p, st, en, c);
            let rest = header_rest(p, st, en, c);
            &&& !x.contains(';')
            &&& h.len() > 0
            &&& h[0] == '~'
            &&& trim_start(h) == h
            &&& trim(h) == h
            &&& trim_start(h.skip(1)) == rest
            &&& !h.contains('\n')
            &&& !is_ws(h.last())
        }),
{
    let y = p + date_clause(from_kw(), st);
    let x = y + date_clause(to_kw(), en);
    let cpart = if c.len() > 0 { seq![' ', ' ', ';', ' '] + c } else { Seq::<char>::empty() };
    let rest = x + cpart;
    let h = header_text(p, st, en, c);
    assert(h == seq!['~', ' '] + rest);
    assert(rest[0] == x[0]);
    lemma_trim_start_space(rest);
    assert(h.skip(1) =~= seq![' '] + rest);
    assert(!is_ws(h.last())) by {
        if c.len() > 0 {
            assert(h.last() == c.last());
        } else {
            assert(h.last() == x.last());
        }
    }
    lemma_trim_plain(h);
    lemma_trim_start_space(h);
    assert forall|ch: char| ch == ';' || ch == '\n' implies !x.contains(ch) by {
        lemma_clause_no(from_kw(), st, ch);
        lemma_clause_no(to_kw(), en, ch);
        lemma_concat_no(p, date_clause(from_kw(), st), ch);
        lemma_concat_no(y, date_clause(to_kw(), en), ch);
    }
    assert forall|ch: char| ch == '\n' implies !h.contains(ch) by {
        lemma_no_char(seq!['~', ' '], ch);
        lemma_no_char(seq![' ', ' ', ';', ' '], ch);
        if c.len() > 0 {
            lemma_concat_no(seq![' ', ' ', ';', ' '], c, ch);
        } else {
            lemma_no_char(cpart, ch);
        }
        lemma_concat_no(x, cpart, ch);
        lemma_concat_no(seq!['~', ' '], rest, ch);
    }
}

/// A rule header written from its parts reads back as them, and is one
/// plain line.
proof fn lemma_header_text(p: Seq<char>, st: Option<Seq<char>>, en: Option<Seq<char>>, c: Seq<char>)
    requires
        p.len() > 0,
        !is_ws(p[0]),
        !is_ws(p.last()),
        !p.contains(';') && !p.contains('\n'),
        !contains(p + seq![' '], to_kw()),
        !contains(p + seq![' '], from_kw()),
        st matches Some(d) ==> spec_is_date_literal(d),
        en matches Some(d) ==> spec_is_date_literal(d),
        c.len() > 0 ==> !is_ws(c[0]) && !is_ws(c.last()),
        !c.contains('\n'),
    ensures
        ({
            let h = header_text(p, st, en, c);
            &&& h.len() > 0
            &&& trim(h) == h
            &&& !h.contains('\n')
            &&& !is_ws(h.last())
            &&& header_fields(h) == Some((p, st, en, c))
        }),
{
    let h = header_text(p, st, en, c);
    lemma_start_part(p, st);
    lemma_end_part(p, st, en);
    let y = p + date_clause(from_kw(), st);
    let x = y + date_clause(to_kw(), en);
    lemma_header_shape(p, st, en, c);
    let rest = header_rest(p, st, en, c);
    lemma_header_comment_split(x, c);
    let (body, comment) = spec_split_inline_comment(rest);
    lemma_header_from_parts(h, rest, body, comment, y, p, st, en);
}

/// A written rule header is the header text of its trimmed parts.
proof fn lemma_rule_header_text(input: PeriodicRuleInputSpec)
    ensures
        spec_periodic_rule_header(input) == header_text(
            trim(input.period_expr),
            written_date(input.start_date),
            written_date(input.end_date),
            rule_comment_text(input),
        ),
{
    lemma_opt_date(from_kw(), input.start_date);
    lemma_opt_date(to_kw(), input.end_date);
    let c = rule_comment_text(input);
    assert(spec_periodic_rule_header(input) =~= header_text(
        trim(input.period_expr),
        written_date(input.start_date),
        written_date(input.end_date),
        c,
    ));
}

/// The postings of a rule read from lines that each read as a posting not
/// naming another rule: one per line.
proof fn lemma_rule_postings_of_lines(xs: Seq<Seq<char>>, rule_id: Seq<char>, comma_mark: bool)
    requires
        forall|i: int| 0 <= i < xs.len() ==> (spec_parse_posting(#[trigger] xs[i], comma_mark) matches Some(r)
            && !names_other_rule(r.comment, rule_id)),
    ensures
        rule_postings(xs, rule_id, comma_mark).len() == xs.len(),
        forall|i: int| 0 <= i < xs.len() ==> spec_parse_posting(#[trigger] xs[i], comma_mark) == Some(
            rule_postings(xs, rule_id, comma_mark)[i],
        ),
    decreases xs.len(),
{
    if xs.len() > 0 {
        let t = xs.skip(1);
        assert forall|i: int| 0 <= i < t.len() implies (spec_parse_posting(#[trigger] t[i], comma_mark) matches Some(r)
            && !names_other_rule(r.comment, rule_id)) by {
            assert(t[i] == xs[i + 1]);
        }
        lemma_rule_postings_of_lines(t, rule_id, comma_mark);
        assert(spec_parse_posting(xs[0], comma_mark) is Some);
        assert forall|i: int| 0 <= i < xs.len() implies spec_parse_posting(#[trigger] xs[i], comma_mark) == Some(
            rule_postings(xs, rule_id, comma_mark)[i],
        ) by {
            if i > 0 {
                assert(t[i - 1] == xs[i]);
            }
        }
    }
}

/// A periodic rule written with its quantities as entered reads back,
/// parsed as a rule block, with its period expression (trimmed), its start
/// and end dates as written, its rule id (trimmed), its description (for a
/// rule with an id, the description and free comment joined by a space;
/// else the free comment), and one posting for each posting that names an
/// account, in order, with that account, its comment as written and its
/// quantity, commodity and unit price as entered. This holds for the rules
/// of `rule_header_reads_back` whose postings read back as written and name
/// no other rule in their comments.
#[verifier::spinoff_prover]
pub proof fn law_written_rule_reads_back(
    input: PeriodicRuleInputSpec,
    styles: CommodityStyles,
    source_file: Seq<char>,
    start_line: nat,
    end_line: nat,
    comma_mark: bool,
)
    requires
        rule_header_reads_back(input),
        forall|i: int|
            0 <= i < input.postings.len() && trim(input.postings[i].account).len() > 0 ==> posting_reads_back(
                #[trigger] input.postings[i],
                styles,
            ) && !names_other_rule(written_comment(input.postings[i].comment), trim(input.rule_id)),
    ensures
        spec_parse_periodic_rule_block(
            source_file,
            start_line,
            end_line,
            spec_format_periodic_rule_text(input, styles),
            comma_mark,
        ) matches Some(r) && r.period_expr == trim(input.period_expr) && r.start_date == written_date(input.start_date)
            && r.end_date == written_date(input.end_date) && r.rule_id == trim(input.rule_id) && r.description
            == written_rule_description(input) && r.postings.len() == named_postings(input.postings).len() && (forall|i: int|
            0 <= i < r.postings.len() ==> (#[trigger] r.postings[i]).account == trim(named_postings(input.postings)[i].account)
                && r.postings[i].comment == written_comment(named_postings(input.postings)[i].comment) && (
            r.postings[i].amount,
            r.postings[i].commodity,
            r.postings[i].unit_price,
        ) == entered_amount(named_postings(input.postings)[i])),
{
    reveal(spec_parse_periodic_rule_block);
    let p = trim(input.period_expr);
    let st = written_date(input.start_date);
    let en = written_date(input.end_date);
    let c = rule_comment_text(input);
    let id = trim(input.rule_id);
    lemma_trim_edges(input.period_expr);
    lemma_trim_edges(input.start_date->0);
    lemma_trim_edges(input.end_date->0);
    lemma_rule_comment(input);
    lemma_rule_header_text(input);
    lemma_header_text(p, st, en, c);
    reveal(header_fields);
    let h = spec_periodic_rule_header(input);
    let named = named_postings(input.postings);
    let pls = preserved_posting_lines(input.postings, styles);
    let xs = seq![h] + pls;
    lemma_written_posting_lines(input.postings, styles);
    assert forall|i: int| 0 <= i < named.len() implies {
        &&& (#[trigger] pls[i]).len() > 0
        &&& is_plain_line(pls[i])
        &&& spec_parse_posting(pls[i], comma_mark) matches Some(r) && r.account == trim(named[i].account) && r.comment
            == written_comment(named[i].comment) && (r.amount, r.commodity, r.unit_price) == entered_amount(named[i])
    } by {
        assert(input.postings.contains(named[i]));
        let k = choose|k: int| 0 <= k < input.postings.len() && input.postings[k] == named[i];
        assert(posting_reads_back(input.postings[k], styles));
        lemma_posting_line_reads_back(named[i], styles, comma_mark);
        assert(pls[i] == spec_format_posting_preserving(named[i], styles));
    }
    assert(is_plain_line(h)) by {
        if h.len() > 0 && h.last() == '\r' {
            assert(is_ws('\r'));
        }
    }
    assert forall|i: int| 0 <= i < xs.len() implies is_plain_line(#[trigger] xs[i]) by {
        if i > 0 {
            assert(xs[i] == pls[i - 1]);
        }
    }
    assert(xs.last().len() > 0) by {
        if pls.len() > 0 {
            assert(xs.last() == pls[pls.len() - 1]);
        }
    }
    lemma_lines_of_block(xs);
    let ls = lines(join_lines(xs));
    assert(ls[0] == h);
    assert(ls.skip(1) =~= pls);
    assert forall|i: int| 0 <= i < pls.len() implies (spec_parse_posting(#[trigger] pls[i], comma_mark) matches Some(r)
        && !names_other_rule(r.comment, id)) by {
        assert(input.postings.contains(named[i]));
        let k = choose|k: int| 0 <= k < input.postings.len() && input.postings[k] == named[i];
        assert(!names_other_rule(written_comment(input.postings[k].comment), id));
    }
    lemma_rule_postings_of_lines(pls, id, comma_mark);
    let rp = rule_postings(pls, id, comma_mark);
    assert forall|i: int| 0 <= i < rp.len() implies (#[trigger] rp[i]).account == trim(named[i].account) && rp[i].comment
        == written_comment(named[i].comment) && (rp[i].amount, rp[i].commodity, rp[i].unit_price) == entered_amount(
        named[i],
    ) by {
        assert(spec_parse_posting(pls[i], comma_mark) == Some(rp[i]));
    }
}

/// The header line of a written periodic rule reads back as the trimmed
/// period expression, the start and end dates as written, and a comment
/// whose rule id is the trimmed rule id and whose description is the one
/// the rule was written with. This holds for the rules of
/// `rule_header_reads_back`.
pub proof fn law_written_rule_header_reads_back(input: PeriodicRuleInputSpec)
    requires
        rule_header_reads_back(input),
    ensures
        spec_parse_periodic_header(spec_periodic_rule_header(input)) == Some(
            (
                trim(input.period_expr),
                written_date(input.start_date),
                written_date(input.end_date),
                rule_comment_text(input),
            ),
        ),
        spec_extract_rule_id_from_comment(rule_comment_text(input)) == (
            trim(input.rule_id),
            written_rule_description(input),
        ),
{
    lemma_trim_edges(input.period_expr);
    lemma_trim_edges(input.start_date->0);
    lemma_trim_edges(input.end_date->0);
    lemma_rule_comment(input);
    lemma_rule_header_text(input);
    lemma_header_text(
        trim(input.period_expr),
        written_date(input.start_date),
        written_date(input.end_date),
        rule_comment_text(input),
    );
    reveal(header_fields);
}

} // verus!
