//! What a written transaction reads back as: the header fields and the
//! posting accounts and comments of a formatted transaction, parsed again.

use vstd::prelude::*;
use crate::amount_style::CommodityStyles;
use crate::journal::format::is_right;
use crate::journal::edit::{is_plain_line, lemma_join_lines_front, lemma_lines_after_first};
use crate::journal::format::{
    opt_part, posting_quantity_and_commodity, preserved_posting_lines, sign_text, spec_amount_from_quantity,
    spec_format_posting_preserving, spec_format_quantity_and_commodity, spec_format_with_style, spec_posting_line,
    spec_format_transaction_preserving, spec_transaction_header, normalized_posting_lines,
    spec_format_transaction_with_mode, spec_format_posting_normalized, QuantityFormat,
};
use crate::journal::util::spec_split_inline_comment;
use crate::journal::parser::{
    spec_parse_posting_amount as parse_amount, rate_token_index, spec_parse_simple_amount, is_amount_char, non_amount_pred, number_end, prefix_commodity, sign_of_prefix, spec_extract_price,
    spec_parse_transaction_block, spec_parse_posting_amount, is_split_point, spec_header_fields, spec_parse_posting, spec_postings, spec_split_posting_account_amount, split_code,
    split_status, ws_run_start,
};
use crate::journal::types::{PostingInputSpec, PostingSpec, TransactionInputSpec};
use crate::journal::util::spec_split_first_token;
use crate::text::{
    char_pred, first_match, is_ws, last_match, lemma_first_match, lemma_first_match_props, lemma_last_match,
    lemma_last_match_props, all_alphabetic, find_sub, lemma_find_sub, lemma_find_sub_none, occurs_at, ne_pred, digit_pred, is_digit, trim_char, pad_right, trim_start_char, byte_len, join_lines, lines, utf8_len, non_ws_pred, strip_cr, trim, trim_end, trim_start, ws_pred,
};

verus! {

/// A trimmed text starts and ends with a character that is not whitespace,
/// and holds only characters of the text.
pub(crate) proof fn lemma_trim_edges(s: Seq<char>)
    ensures
        trim(s).len() > 0 ==> !is_ws(trim(s)[0]) && !is_ws(trim(s).last()),
        forall|c: char| trim(s).contains(c) ==> s.contains(c),
{
    lemma_first_match_props(s, non_ws_pred());
    let u = trim_start(s);
    lemma_last_match_props(u, non_ws_pred());
    let k = first_match(s, non_ws_pred());
    let m = last_match(u, non_ws_pred());
    if k >= 0 {
        assert(u =~= s.skip(k));
        if m >= 0 {
            assert(trim(s) =~= u.take(m + 1));
            assert(trim(s)[0] == s[k]);
            assert(trim(s).last() == u[m]);
        }
    }
    assert forall|c: char| trim(s).contains(c) implies s.contains(c) by {
        let i = choose|i: int| 0 <= i < trim(s).len() && trim(s)[i] == c;
        assert(trim(s)[i] == u[i]);
        assert(u[i] == s[i + k]);
    }
}

/// A text that starts and ends with a non-whitespace character (or is
/// empty) is its own trimmed form.
pub(crate) proof fn lemma_trim_plain(s: Seq<char>)
    requires
        s.len() == 0 || (!is_ws(s[0]) && !is_ws(s.last())),
    ensures
        trim(s) == s,
{
    if s.len() == 0 {
        lemma_first_match_props(s, non_ws_pred());
        assert(trim_start(s) =~= s);
        lemma_last_match_props(s, non_ws_pred());
        assert(trim(s) =~= s);
    } else {
        lemma_first_match(s, non_ws_pred(), 0);
        assert(trim_start(s) =~= s);
        lemma_last_match(s, non_ws_pred(), s.len() - 1);
        assert(trim(s) =~= s);
    }
}

/// A space then a text that is empty or starts with a non-whitespace
/// character loses the space to `trim_start`, and the text keeps itself.
pub(crate) proof fn lemma_trim_start_space(v: Seq<char>)
    requires
        v.len() == 0 || !is_ws(v[0]),
    ensures
        trim_start(v) == v,
        trim_start(seq![' '] + v) == v,
{
    let w = seq![' '] + v;
    if v.len() == 0 {
        lemma_first_match_props(v, non_ws_pred());
        assert(trim_start(v) =~= v);
        lemma_first_match(w, non_ws_pred(), 1);
        assert(trim_start(w) =~= v);
    } else {
        lemma_first_match(v, non_ws_pred(), 0);
        assert(trim_start(v) =~= v);
        assert(w[1] == v[0]);
        lemma_first_match(w, non_ws_pred(), 1);
        assert(w.skip(1) =~= v);
    }
}

/// A field after a space, or nothing when it is empty.
pub open spec fn opt_field(v: Seq<char>) -> Seq<char> {
    if v.len() > 0 { seq![' '] + v } else { seq![] }
}

/// The header fields that read back as written: a date without whitespace,
/// a status that is blank, `*` or `!`, a code that is blank or in
/// parentheses with no `)` before its end, and a description that cannot be
/// taken for a status or a code; neither code nor description holds a line
/// break. (Each field is taken trimmed, as it is written.)
pub open spec fn header_reads_back(t: TransactionInputSpec) -> bool {
    let d = trim(t.date);
    let s = trim(t.status);
    let c = trim(t.code);
    let x = trim(t.description);
    &&& d.len() > 0
    &&& forall|i: int| 0 <= i < d.len() ==> !is_ws(#[trigger] d[i])
    &&& s.len() == 0 || s == seq!['*'] || s == seq!['!']
    &&& c.len() == 0 || (c[0] == '(' && first_match(c, char_pred(')')) == c.len() - 1)
    &&& !c.contains('\n') && !x.contains('\n')
    &&& (c.len() == 0 && x.len() > 0 ==> x[0] != '(')
    &&& (s.len() == 0 && c.len() == 0 && x.len() > 0 ==> x[0] != '*' && x[0] != '!')
}

#[verifier::spinoff_prover]
#[verifier::rlimit(30)]
proof fn lemma_header_fields(t: TransactionInputSpec)
    requires
        header_reads_back(t),
    ensures
        ({
            let h = spec_transaction_header(t, seq![]);
            &&& h.len() > 0
            &&& !h.contains('\n')
            &&& !is_ws(h.last())
            &&& trim(h) == h
            &&& spec_header_fields(h) == (trim(t.date), trim(t.status), trim(t.code), trim(t.description))
        }),
{
    let d = trim(t.date);
    let s = trim(t.status);
    let c = trim(t.code);
    let x = trim(t.description);
    lemma_trim_edges(t.date);
    lemma_trim_edges(t.status);
    lemma_trim_edges(t.code);
    lemma_trim_edges(t.description);
    let r2 = if c.len() > 0 { c + opt_field(x) } else { x };
    let r1 = if s.len() > 0 { s + opt_field(r2) } else { r2 };
    let t1 = opt_field(r1);
    let h = spec_transaction_header(t, seq![]);
    assert(opt_part(seq![' '], seq![]) =~= seq![]);
    assert(opt_part(seq![' '], t.status) == opt_field(s));
    assert(opt_part(seq![' '], t.code) == opt_field(c));
    assert(opt_part(seq![' '], t.description) == opt_field(x));
    assert(t1 =~= opt_field(s) + opt_field(c) + opt_field(x));
    assert(h =~= d + t1);
    // the pieces after the date start with a non-whitespace character
    assert(r2.len() == 0 || !is_ws(r2[0]));
    assert(r1.len() == 0 || !is_ws(r1[0]));
    lemma_trim_start_space(r1);
    lemma_trim_start_space(r2);
    lemma_trim_start_space(x);
    // the date ends at the first whitespace
    if t1.len() > 0 {
        assert(h[d.len() as int] == ' ');
        assert forall|j: int| 0 <= j < d.len() implies !(ws_pred())(h[j]) by {
            assert(h[j] == d[j]);
        }
        lemma_first_match(h, ws_pred(), d.len() as int);
        assert(h.take(d.len() as int) =~= d);
        assert(h.skip(d.len() as int) =~= t1);
    } else {
        assert forall|j: int| 0 <= j < h.len() implies !(ws_pred())(h[j]) by {
            assert(h[j] == d[j]);
        }
        lemma_first_match(h, ws_pred(), h.len() as int);
        assert(h =~= d);
    }
    assert(spec_split_first_token(h) == (d, t1));
    assert(trim_start(t1) == r1);
    // the status
    if s.len() > 0 {
        assert(r1.take(1) =~= s);
        assert(r1.skip(1) =~= opt_field(r2));
    }
    assert(split_status(r1) == (s, r2));
    // the code
    if c.len() > 0 {
        lemma_first_match_props(c, char_pred(')'));
        assert forall|j: int| 0 <= j < c.len() - 1 implies !(char_pred(')'))(r2[j]) by {
            assert(r2[j] == c[j]);
        }
        assert(r2[c.len() - 1] == ')');
        lemma_first_match(r2, char_pred(')'), c.len() - 1);
        assert(r2.take(c.len() as int) =~= c);
        assert(r2.skip(c.len() as int) =~= opt_field(x));
    }
    assert(split_code(r2) == (c, x));
    // the header has no line break and no surrounding whitespace
    assert(!is_ws(h[0])) by {
        assert(h[0] == d[0]);
    }
    assert(!is_ws(h.last())) by {
        if x.len() > 0 {
            assert(h.last() == x.last());
        } else if c.len() > 0 {
            assert(h.last() == c.last());
        } else if s.len() > 0 {
            assert(h.last() == s.last());
        } else {
            assert(h.last() == d.last());
        }
    }
    lemma_trim_plain(h);
    assert(!d.contains('\n')) by {
        if d.contains('\n') {
            let i = choose|i: int| 0 <= i < d.len() && d[i] == '\n';
            assert(!is_ws(d[i]));
        }
    }
    assert(!s.contains('\n')) by {
        if s.contains('\n') {
            let i = choose|i: int| 0 <= i < s.len() && s[i] == '\n';
            assert(s[i] == s[0]);
        }
    }
    lemma_opt_field_no(s, '\n');
    lemma_opt_field_no(c, '\n');
    lemma_opt_field_no(x, '\n');
    lemma_concat_no(opt_field(s), opt_field(c), '\n');
    lemma_concat_no(opt_field(s) + opt_field(c), opt_field(x), '\n');
    lemma_concat_no(d, t1, '\n');
}

/// A character that neither text holds is not in their concatenation.
pub(crate) proof fn lemma_concat_no(a: Seq<char>, b: Seq<char>, ch: char)
    requires
        !a.contains(ch),
        !b.contains(ch),
    ensures
        !(a + b).contains(ch),
{
    if (a + b).contains(ch) {
        let i = choose|i: int| 0 <= i < (a + b).len() && (a + b)[i] == ch;
        if i < a.len() {
            assert(a[i] == ch);
        } else {
            assert(b[i - a.len()] == ch);
        }
    }
}

proof fn lemma_opt_field_no(v: Seq<char>, ch: char)
    requires
        !v.contains(ch),
        ch != ' ',
    ensures
        !opt_field(v).contains(ch),
{
    if v.len() > 0 {
        assert(!seq![' '].contains(ch)) by {
            if seq![' '].contains(ch) {
                let i = choose|i: int| 0 <= i < 1 && seq![' '][i] == ch;
            }
        }
        lemma_concat_no(seq![' '], v, ch);
    } else {
        assert(opt_field(v) =~= seq![]);
    }
}

/// Lines joined with `\n` read back as the same lines, when none holds a
/// `\n` or ends with `\r` and the last one is not empty.
pub(crate) proof fn lemma_lines_of_block(xs: Seq<Seq<char>>)
    requires
        xs.len() > 0,
        forall|i: int| 0 <= i < xs.len() ==> is_plain_line(#[trigger] xs[i]),
        xs.last().len() > 0,
    ensures
        lines(join_lines(xs)) == xs,
    decreases xs.len(),
{
    assert(is_plain_line(xs[0]));
    assert(strip_cr(xs[0]) == xs[0]);
    if xs.len() == 1 {
        let l = xs[0];
        assert forall|j: int| 0 <= j < l.len() implies !(char_pred('\n'))(l[j]) by {
            if l[j] == '\n' {
                assert(l.contains('\n'));
            }
        }
        lemma_first_match(l, char_pred('\n'), l.len() as int);
        assert(join_lines(xs) == l);
        assert(lines(l) =~= seq![l]);
        assert(xs =~= seq![l]);
    } else {
        let rest = xs.skip(1);
        assert forall|i: int| 0 <= i < rest.len() implies is_plain_line(#[trigger] rest[i]) by {
            assert(rest[i] == xs[i + 1]);
        }
        assert(rest.last() == xs.last());
        lemma_lines_of_block(rest);
        lemma_join_lines_front(xs);
        lemma_lines_after_first(xs[0], join_lines(rest));
        assert(seq![xs[0]] + rest =~= xs);
    }
}

/// The postings that name an account (after trimming), in order: those that
/// are written.
pub open spec fn named_postings(ps: Seq<PostingInputSpec>) -> Seq<PostingInputSpec>
    decreases ps.len(),
{
    if ps.len() == 0 {
        seq![]
    } else {
        let r = named_postings(ps.drop_last());
        if trim(ps.last().account).len() > 0 {
            r.push(ps.last())
        } else {
            r
        }
    }
}

pub(crate) proof fn lemma_written_posting_lines(ps: Seq<PostingInputSpec>, styles: CommodityStyles)
    ensures
        preserved_posting_lines(ps, styles).len() == named_postings(ps).len(),
        forall|i: int| 0 <= i < named_postings(ps).len() ==> (#[trigger] preserved_posting_lines(ps, styles)[i])
            == spec_format_posting_preserving(named_postings(ps)[i], styles),
        forall|i: int| 0 <= i < named_postings(ps).len() ==> ps.contains(#[trigger] named_postings(ps)[i]),
        forall|i: int| 0 <= i < named_postings(ps).len() ==> trim((#[trigger] named_postings(ps)[i]).account).len() > 0,
    decreases ps.len(),
{
    if ps.len() > 0 {
        lemma_written_posting_lines(ps.drop_last(), styles);
        let r = named_postings(ps.drop_last());
        assert forall|i: int| 0 <= i < named_postings(ps).len() implies ps.contains(#[trigger] named_postings(ps)[i]) by {
            if i < r.len() {
                assert(named_postings(ps)[i] == r[i]);
                assert(ps.drop_last().contains(r[i]));
                let k = choose|k: int| 0 <= k < ps.drop_last().len() && ps.drop_last()[k] == r[i];
                assert(ps[k] == r[i]);
            } else {
                assert(named_postings(ps)[i] == ps[ps.len() - 1]);
            }
        }
    }
}

/// Postings read from lines that each read as a posting: one per line.
proof fn lemma_postings_of_lines(xs: Seq<Seq<char>>, comma_mark: bool)
    requires
        forall|i: int| 0 <= i < xs.len() ==> spec_parse_posting(#[trigger] xs[i], comma_mark) is Some,
    ensures
        spec_postings(xs, comma_mark).len() == xs.len(),
        forall|i: int| 0 <= i < xs.len() ==> spec_parse_posting(#[trigger] xs[i], comma_mark) == Some(
            spec_postings(xs, comma_mark)[i],
        ),
    decreases xs.len(),
{
    if xs.len() > 0 {
        let d = xs.drop_last();
        assert forall|i: int| 0 <= i < d.len() implies spec_parse_posting(#[trigger] d[i], comma_mark) is Some by {
            assert(d[i] == xs[i]);
        }
        lemma_postings_of_lines(d, comma_mark);
        assert(spec_parse_posting(xs[xs.len() - 1], comma_mark) is Some);
        assert forall|i: int| 0 <= i < xs.len() implies spec_parse_posting(#[trigger] xs[i], comma_mark) == Some(
            spec_postings(xs, comma_mark)[i],
        ) by {
            if i < d.len() {
                assert(d[i] == xs[i]);
            }
        }
    }
}

/// Account names whose whitespace is single spaces between other
/// characters: nothing in them reads as the gap before an amount.
pub open spec fn plain_account(a: Seq<char>) -> bool {
    forall|i: int| 0 <= i < a.len() && is_ws(#[trigger] a[i]) ==> a[i] == ' ' && 0 < i && i + 1 < a.len()
        && !is_ws(a[i - 1]) && !is_ws(a[i + 1])
}

proof fn lemma_byte_len_at_least_len(s: Seq<char>)
    ensures
        byte_len(s) >= s.len(),
    decreases s.len(),
{
    if s.len() > 0 {
        lemma_byte_len_at_least_len(s.drop_last());
        assert(utf8_len(s.last()) >= 1);
    }
}

/// No split point falls inside a plain account name or on the whitespace
/// after it.
proof fn lemma_no_split_in_account(s: Seq<char>, a: Seq<char>, i: int, e: int)
    requires
        plain_account(a),
        a.len() > 0,
        !is_ws(a[0]),
        a.len() <= e <= s.len(),
        forall|j: int| 0 <= j < a.len() ==> s[j] == a[j],
        forall|j: int| a.len() <= j < e ==> is_ws(#[trigger] s[j]),
        0 <= i < e,
    ensures
        !is_split_point(s, i),
{
    if i < a.len() && 0 < i && !is_ws(s[i]) && is_ws(s[i - 1]) {
        assert(s[i - 1] == a[i - 1]);
        assert(is_ws(a[i - 1]));
        assert(i - 1 > 0 && !is_ws(a[i - 2]));
        assert(s[i - 2] == a[i - 2]);
        lemma_last_match(s.take(i), non_ws_pred(), i - 2);
        assert(ws_run_start(s, i) == i - 1);
        let x = s.subrange(i - 1, i);
        assert(x.len() == 1);
        assert(x.drop_last() =~= Seq::<char>::empty());
        assert(byte_len(x.drop_last()) == 0);
        assert(a[i - 1] == ' ');
        assert(x.last() == ' ');
        assert((' ' as u32) < 0x80);
        assert(utf8_len(' ') == 1);
        assert(byte_len(x) == 1);
    }
}

/// A posting's text with a plain account, spaces up to place 41 and a
/// non-whitespace character there splits into that account and the rest.
proof fn lemma_split_after_account(s: Seq<char>, a: Seq<char>)
    requires
        plain_account(a),
        0 < a.len() < 40,
        !is_ws(a[0]),
        !is_ws(a.last()),
        s.len() > 41,
        forall|j: int| 0 <= j < a.len() ==> s[j] == a[j],
        forall|j: int| a.len() <= j < 41 ==> s[j] == ' ',
        !is_ws(s[41]),
    ensures
        spec_split_posting_account_amount(s) == (a, s.skip(41)),
{
    assert forall|j: int| a.len() <= j < 41 implies is_ws(#[trigger] s[j]) by {
        assert(s[j] == ' ');
    }
    assert forall|j: int| 0 <= j < 41 implies !is_split_point(s, j) by {
        lemma_no_split_in_account(s, a, j, 41);
    }
    assert(s[a.len() - 1] == a.last());
    lemma_last_match(s.take(41), non_ws_pred(), a.len() - 1);
    assert(ws_run_start(s, 41) == a.len());
    lemma_byte_len_at_least_len(s.subrange(a.len() as int, 41));
    assert(is_split_point(s, 41));
    let i = choose|i: int| is_split_point(s, i) && forall|j: int| 0 <= j < i ==> !is_split_point(s, j);
    assert(i == 41) by {
        if i < 41 {
        } else if i > 41 {
            assert(!is_split_point(s, 41));
        }
    }
    assert(s.take(a.len() as int) =~= a);
}

/// A plain account followed only by whitespace has no split point.
proof fn lemma_account_alone(s: Seq<char>, a: Seq<char>)
    requires
        plain_account(a),
        a.len() > 0,
        !is_ws(a[0]),
        a.len() <= s.len(),
        forall|j: int| 0 <= j < a.len() ==> s[j] == a[j],
        forall|j: int| a.len() <= j < s.len() ==> is_ws(#[trigger] s[j]),
    ensures
        spec_split_posting_account_amount(s) == (s, Seq::<char>::empty()),
{
    assert forall|j: int| !is_split_point(s, j) by {
        if 0 <= j < s.len() {
            lemma_no_split_in_account(s, a, j, s.len() as int);
        }
    }
}

/// The amount text a posting is written with.
pub open spec fn written_amount(p: PostingInputSpec, styles: CommodityStyles) -> Seq<char> {
    let (q, selected) = posting_quantity_and_commodity(p.amount, p.commodity);
    spec_amount_from_quantity(q, selected, styles)
}

/// The comment a posting is written with: trimmed, without leading `;`.
pub open spec fn written_comment(c: Seq<char>) -> Seq<char> {
    trim(trim_start_char(trim(c), ';'))
}

/// The postings whose account and comment read back as written: a plain
/// account without `;`, shorter than 40 characters when an amount follows
/// it; an amount text and unit price without `;`; and no line break in the
/// amount, the unit price or the comment.
pub open spec fn posting_reads_back(p: PostingInputSpec, styles: CommodityStyles) -> bool {
    let a = trim(p.account);
    let am = written_amount(p, styles);
    let u = trim(p.unit_price);
    let cm = written_comment(p.comment);
    &&& plain_account(a)
    &&& !a.contains(';')
    &&& !am.contains(';') && !am.contains('\n') && !am.contains('\r')
    &&& !u.contains(';') && !u.contains('\n') && !u.contains('\r')
    &&& !cm.contains('\n') && !cm.contains('\r')
    &&& (am.len() > 0 ==> a.len() < 40)
    &&& amount_reads_back(p)
}

/// The amounts that read back as entered: a number as quantity, a commodity
/// that cannot be taken for part of one, and a unit price without `@` that
/// comes with a commodity.
pub open spec fn amount_reads_back(p: PostingInputSpec) -> bool {
    let (q, sel) = posting_quantity_and_commodity(p.amount, p.commodity);
    let u = trim(p.unit_price);
    q.len() > 0 ==> {
        &&& is_number_text(q)
        &&& plain_commodity(sel)
        &&& (u.len() > 0 ==> sel.len() > 0)
        &&& forall|i: int| 0 <= i < u.len() ==> u[i] != '@'
    }
}

/// The amount fields a posting is written from: the quantity and commodity
/// of its amount (the commodity in the amount text, else its own) and its
/// unit price; none when it has no quantity.
pub open spec fn entered_amount(p: PostingInputSpec) -> (Seq<char>, Seq<char>, Seq<char>) {
    let (q, sel) = posting_quantity_and_commodity(p.amount, p.commodity);
    if q.len() > 0 {
        (q, sel, trim(p.unit_price))
    } else {
        (Seq::<char>::empty(), Seq::<char>::empty(), Seq::<char>::empty())
    }
}

/// A written amount starts with a character that is not whitespace.
proof fn lemma_written_amount_start(p: PostingInputSpec, styles: CommodityStyles)
    ensures
        written_amount(p, styles).len() > 0 ==> !is_ws(written_amount(p, styles)[0]),
{
    let (q0, c0, u0) = spec_parse_posting_amount(p.amount, false);
    lemma_trim_edges(q0);
    lemma_trim_edges(c0);
    lemma_trim_edges(p.commodity);
    let (q, sel) = posting_quantity_and_commodity(p.amount, p.commodity);
    assert(q == trim(q0));
    assert(sel.len() > 0 ==> !is_ws(sel[0]));
    if q.len() > 0 && sel.len() > 0 {
        if q[0] != '-' {
            lemma_first_match(q, ne_pred('-'), 0);
            assert(trim_start_char(q, '-') =~= q);
            assert(sign_text(q) =~= Seq::<char>::empty());
        } else {
            assert(sign_text(q) =~= seq!['-']);
        }
        if styles.has(sel) {
            let st = styles.style_of(sel);
            let f = spec_format_with_style(q, sel, st);
            assert(f.len() > 0 && !is_ws(f[0]));
        }
    }
}

/// A text with whitespace before and after a part that starts and ends with
/// other characters trims to that part.
pub(crate) proof fn lemma_trim_padded(pre: Seq<char>, v: Seq<char>, post: Seq<char>)
    requires
        forall|i: int| 0 <= i < pre.len() ==> is_ws(#[trigger] pre[i]),
        forall|i: int| 0 <= i < post.len() ==> is_ws(#[trigger] post[i]),
        v.len() > 0,
        !is_ws(v[0]),
        !is_ws(v.last()),
    ensures
        trim(pre + v + post) == v,
{
    let s = pre + v + post;
    assert forall|j: int| 0 <= j < pre.len() implies !(non_ws_pred())(s[j]) by {
        assert(s[j] == pre[j]);
    }
    assert(s[pre.len() as int] == v[0]);
    lemma_first_match(s, non_ws_pred(), pre.len() as int);
    let u = s.skip(pre.len() as int);
    assert(u =~= v + post);
    assert forall|j: int| v.len() <= j < u.len() implies !(non_ws_pred())(u[j]) by {
        assert(u[j] == post[j - v.len()]);
    }
    assert(u[v.len() - 1] == v.last());
    lemma_last_match(u, non_ws_pred(), v.len() - 1);
    assert(u.take(v.len() as int) =~= v);
}

/// A text that starts with a non-whitespace character trims to something.
pub(crate) proof fn lemma_trim_nonempty(s: Seq<char>)
    requires
        s.len() > 0,
        !is_ws(s[0]),
    ensures
        trim(s).len() > 0,
        trim(s)[0] == s[0],
{
    lemma_first_match(s, non_ws_pred(), 0);
    assert(trim_start(s) =~= s);
    lemma_last_match_props(s, non_ws_pred());
    assert(last_match(s, non_ws_pred()) >= 0);
}

pub(crate) proof fn lemma_no_char(s: Seq<char>, ch: char)
    requires
        forall|i: int| 0 <= i < s.len() ==> s[i] != ch,
    ensures
        !s.contains(ch),
{
}

/// The text after the account of a written posting: the padding, the
/// amount and the unit price, when there is an amount.
pub open spec fn written_rest(p: PostingInputSpec, styles: CommodityStyles) -> Seq<char> {
    let a = trim(p.account);
    let am = written_amount(p, styles);
    let u = trim(p.unit_price);
    if am.len() > 0 {
        let amount = if u.len() > 0 { am + seq![' ', '@', ' '] + u } else { am };
        Seq::new((40 - a.len()) as nat, |i: int| ' ') + seq![' '] + amount
    } else {
        seq![]
    }
}

/// The shape of a written posting line: indentation, account, the rest,
/// and the comment after `  ; ` when there is one.
#[verifier::spinoff_prover]
#[verifier::rlimit(40)]
proof fn lemma_posting_line_shape(p: PostingInputSpec, styles: CommodityStyles)
    requires
        trim(p.account).len() > 0,
        posting_reads_back(p, styles),
    ensures
        ({
            let a = trim(p.account);
            let body = a + written_rest(p, styles);
            let cm = written_comment(p.comment);
            let line = seq![' ', ' ', ' ', ' '] + body;
            spec_format_posting_preserving(p, styles) == (if trim(p.comment).len() > 0 {
                line + seq![' ', ' ', ';', ' '] + cm
            } else {
                line
            })
        }),
{
    let a = trim(p.account);
    let am = written_amount(p, styles);
    let u = trim(p.unit_price);
    lemma_written_amount_start(p, styles);
    lemma_trim_edges(p.account);
    lemma_trim_plain(a);
    if am.len() > 0 {
        lemma_trim_nonempty(am);
        let amount = if u.len() > 0 { am + seq![' ', '@', ' '] + u } else { am };
        assert(amount[0] == am[0]);
        lemma_trim_nonempty(amount);
        assert(pad_right(a, 40) =~= a + Seq::new((40 - a.len()) as nat, |i: int| ' '));
        assert(seq![' ', ' ', ' ', ' '] + pad_right(a, 40) + seq![' '] + amount =~= seq![' ', ' ', ' ', ' '] + (a
            + written_rest(p, styles)));
    } else {
        assert(trim(am) =~= am) by {
            lemma_trim_plain(am);
        }
        assert(written_rest(p, styles) =~= Seq::<char>::empty());
        assert(a + written_rest(p, styles) =~= a);
    }
}

/// What a written posting's account and the rest after it hold.
#[verifier::spinoff_prover]
#[verifier::rlimit(40)]
proof fn lemma_body_facts(p: PostingInputSpec, styles: CommodityStyles)
    requires
        trim(p.account).len() > 0,
        posting_reads_back(p, styles),
    ensures
        ({
            let a = trim(p.account);
            let rest = written_rest(p, styles);
            let body = a + rest;
            let am = written_amount(p, styles);
            &&& !is_ws(a[0]) && !is_ws(a.last())
            &&& !body.contains(';') && !body.contains('\n') && !body.contains('\r')
            &&& (am.len() == 0 ==> rest.len() == 0)
            &&& (am.len() > 0 ==> {
                &&& a.len() < 40
                &&& body.len() > 41
                &&& (forall|j: int| a.len() <= j < 41 ==> body[j] == ' ')
                &&& !is_ws(body[41])
            })
        }),
{
    let a = trim(p.account);
    let am = written_amount(p, styles);
    let u = trim(p.unit_price);
    let rest = written_rest(p, styles);
    lemma_trim_edges(p.account);
    lemma_trim_edges(p.unit_price);
    lemma_written_amount_start(p, styles);
    assert forall|ch: char| ch == ';' || ch == '\n' || ch == '\r' implies !a.contains(ch) by {
        if a.contains(ch) && ch != ';' {
            let i = choose|i: int| 0 <= i < a.len() && a[i] == ch;
            assert(is_ws(a[i]));
        }
    }
    if am.len() > 0 {
        let amount = if u.len() > 0 { am + seq![' ', '@', ' '] + u } else { am };
        let pad = Seq::new((40 - a.len()) as nat, |i: int| ' ');
        let at = seq![' ', '@', ' '];
        assert forall|ch: char| ch == ';' || ch == '\n' || ch == '\r' implies !rest.contains(ch) by {
            lemma_no_char(pad, ch);
            lemma_no_char(seq![' '], ch);
            lemma_no_char(at, ch);
            lemma_concat_no(pad, seq![' '], ch);
            if u.len() > 0 {
                lemma_concat_no(am, at, ch);
                lemma_concat_no(am + at, u, ch);
            }
            lemma_concat_no(pad + seq![' '], amount, ch);
        }
        assert forall|ch: char| ch == ';' || ch == '\n' || ch == '\r' implies !(a + rest).contains(ch) by {
            lemma_concat_no(a, rest, ch);
        }
        assert forall|j: int| a.len() <= j < 41 implies (a + rest)[j] == ' ' by {
            assert((a + rest)[j] == rest[j - a.len()]);
        }
        assert((a + rest)[41] == rest[41 - a.len()]);
        assert(rest[41 - a.len()] == amount[0]);
    } else {
        assert forall|ch: char| ch == ';' || ch == '\n' || ch == '\r' implies !(a + rest).contains(ch) by {
            assert(a + rest =~= a);
        }
    }
}

/// What the parse of a posting line needs of the text after its
/// indentation: it starts with the plain account, holds no `;`, and either
/// is the account alone or has spaces up to place 41 and a non-whitespace
/// character there.
pub open spec fn body_reads_back(body: Seq<char>, a: Seq<char>, has_amount: bool) -> bool {
    &&& plain_account(a)
    &&& a.len() > 0
    &&& !is_ws(a[0])
    &&& !is_ws(a.last())
    &&& a[0] != ';'
    &&& forall|j: int| 0 <= j < a.len() ==> body[j] == a[j]
    &&& forall|j: int| 0 <= j < body.len() ==> body[j] != ';'
    &&& has_amount ==> {
        &&& a.len() < 40
        &&& body.len() > 41
        &&& forall|j: int| a.len() <= j < 41 ==> body[j] == ' '
        &&& !is_ws(body[41])
        &&& !is_ws(body.last())
    }
    &&& !has_amount ==> body == a
}

/// The amount fields of a posting line: those of its amount text, or none.
pub open spec fn line_amount(body: Seq<char>, has_amount: bool, comma_mark: bool) -> (Seq<char>, Seq<char>, Seq<char>) {
    if has_amount {
        amount_fields(body.skip(41), comma_mark)
    } else {
        (Seq::<char>::empty(), Seq::<char>::empty(), Seq::<char>::empty())
    }
}

/// The amount fields depend on the trimmed amount text alone.
proof fn lemma_parse_amount_trim(x: Seq<char>, y: Seq<char>, comma_mark: bool)
    requires
        trim(x) == trim(y),
    ensures
        amount_fields(x, comma_mark) == amount_fields(y, comma_mark),
{
    reveal(amount_fields);
}

/// The account and comment a posting line reads back with, from its
/// trimmed text, the comment split and the account split.
proof fn lemma_parse_parts(
    l: Seq<char>,
    t: Seq<char>,
    content: Seq<char>,
    comment: Seq<char>,
    acc: Seq<char>,
    amt: Seq<char>,
    comma_mark: bool,
)
    requires
        l.len() > 0,
        is_ws(l[0]),
        trim(l) == t,
        t.len() > 0,
        t[0] != ';',
        spec_split_inline_comment(t) == (content, comment),
        spec_split_posting_account_amount(content) == (acc, amt),
    ensures
        spec_parse_posting(l, comma_mark) matches Some(r) && r.account == trim(acc) && r.comment == comment && (
        r.amount, r.commodity, r.unit_price) == amount_fields(amt, comma_mark),
{
    reveal(spec_parse_posting);
    reveal(amount_fields);
}

/// An empty amount text reads back as no amount.
proof fn lemma_no_amount(comma_mark: bool)
    ensures
        amount_fields(Seq::<char>::empty(), comma_mark) == (Seq::<char>::empty(), Seq::<char>::empty(), Seq::<char>::empty()),
{
    reveal(amount_fields);
    lemma_trim_plain(Seq::<char>::empty());
}

/// Two spaces after an amount text do not change its parse.
proof fn lemma_spaced_amount(body: Seq<char>, comma_mark: bool)
    requires
        body.len() > 41,
        !is_ws(body[41]),
        !is_ws(body.last()),
    ensures
        amount_fields((body + seq![' ', ' ']).skip(41), comma_mark) == amount_fields(body.skip(41), comma_mark),
{
    let amt = body.skip(41);
    assert((body + seq![' ', ' ']).skip(41) =~= Seq::<char>::empty() + amt + seq![' ', ' ']);
    assert(amt[0] == body[41]);
    assert(amt.last() == body.last());
    lemma_trim_padded(Seq::<char>::empty(), amt, seq![' ', ' ']);
    lemma_trim_padded(Seq::<char>::empty(), amt, Seq::<char>::empty());
    assert(Seq::<char>::empty() + amt + Seq::<char>::empty() =~= amt);
    lemma_parse_amount_trim((body + seq![' ', ' ']).skip(41), amt, comma_mark);
}

/// A posting line with a comment reads back with its account and comment.
#[verifier::spinoff_prover]
proof fn lemma_commented_line(body: Seq<char>, a: Seq<char>, has_amount: bool, cm: Seq<char>, comma_mark: bool)
    requires
        body_reads_back(body, a, has_amount),
        cm.len() > 0 ==> !is_ws(cm[0]) && !is_ws(cm.last()),
    ensures
        spec_parse_posting(seq![' ', ' ', ' ', ' '] + body + seq![' ', ' ', ';', ' '] + cm, comma_mark) matches Some(r)
            && r.account == a && r.comment == cm && (r.amount, r.commodity, r.unit_price) == line_amount(
            body,
            has_amount,
            comma_mark,
        ),
{
    let ind = seq![' ', ' ', ' ', ' '];
    let sep = seq![' ', ' ', ';', ' '];
    let l = ind + body + sep + cm;
    let v = if cm.len() > 0 { body + sep + cm } else { body + seq![' ', ' ', ';'] };
    let post = if cm.len() > 0 { Seq::<char>::empty() } else { seq![' '] };
    assert(l =~= ind + v + post);
    assert(v[0] == a[0]);
    assert(!is_ws(v.last())) by {
        if cm.len() > 0 {
            assert(v.last() == cm.last());
        } else {
            assert(v.last() == ';');
        }
    }
    lemma_trim_padded(ind, v, post);
    let k: int = body.len() as int + 2;
    assert forall|j: int| 0 <= j < k implies !(char_pred(';'))(v[j]) by {
        if j < body.len() {
            assert(v[j] == body[j]);
        }
    }
    assert(v[k] == ';');
    lemma_first_match(v, char_pred(';'), k);
    let content = v.take(k);
    assert(content =~= body + seq![' ', ' ']);
    if cm.len() > 0 {
        assert(v.skip(k + 1) =~= seq![' '] + cm);
        lemma_trim_padded(seq![' '], cm, Seq::<char>::empty());
        assert(seq![' '] + cm + Seq::<char>::empty() =~= seq![' '] + cm);
    } else {
        assert(v.skip(k + 1) =~= Seq::<char>::empty());
        lemma_trim_plain(Seq::<char>::empty());
    }
    assert(spec_split_inline_comment(v) == (content, cm));
    lemma_trim_plain(a);
    if has_amount {
        assert forall|j: int| 0 <= j < a.len() implies content[j] == a[j] by {
            assert(content[j] == body[j]);
        }
        assert forall|j: int| a.len() <= j < 41 implies content[j] == ' ' by {
            assert(content[j] == body[j]);
        }
        assert(content[41] == body[41]);
        lemma_split_after_account(content, a);
        lemma_spaced_amount(body, comma_mark);
        lemma_parse_parts(l, v, content, cm, a, content.skip(41), comma_mark);
    } else {
        assert(content =~= a + seq![' ', ' ']);
        assert forall|j: int| a.len() <= j < content.len() implies is_ws(#[trigger] content[j]) by {}
        lemma_account_alone(content, a);
        lemma_trim_padded(Seq::<char>::empty(), a, seq![' ', ' ']);
        assert(Seq::<char>::empty() + a + seq![' ', ' '] =~= content);
        lemma_parse_parts(l, v, content, cm, content, Seq::<char>::empty(), comma_mark);
        lemma_no_amount(comma_mark);
    }
}

/// A posting line without a comment reads back with its account and no
/// comment.
proof fn lemma_uncommented_line(body: Seq<char>, a: Seq<char>, has_amount: bool, comma_mark: bool)
    requires
        body_reads_back(body, a, has_amount),
    ensures
        spec_parse_posting(seq![' ', ' ', ' ', ' '] + body, comma_mark) matches Some(r) && r.account == a
            && r.comment == Seq::<char>::empty() && (r.amount, r.commodity, r.unit_price) == line_amount(
            body,
            has_amount,
            comma_mark,
        ),
{
    let ind = seq![' ', ' ', ' ', ' '];
    let l = ind + body;
    lemma_trim_plain(a);
    if has_amount {
        assert(l =~= ind + body + Seq::<char>::empty());
        lemma_trim_padded(ind, body, Seq::<char>::empty());
        assert forall|j: int| 0 <= j < body.len() implies !(char_pred(';'))(body[j]) by {}
        lemma_first_match(body, char_pred(';'), body.len() as int);
        assert(spec_split_inline_comment(body) == (body, Seq::<char>::empty()));
        lemma_split_after_account(body, a);
        lemma_parse_parts(l, body, body, Seq::<char>::empty(), a, body.skip(41), comma_mark);
    } else {
        assert(l =~= ind + a + Seq::<char>::empty());
        lemma_trim_padded(ind, a, Seq::<char>::empty());
        assert forall|j: int| 0 <= j < a.len() implies !(char_pred(';'))(a[j]) by {
            assert(a[j] == body[j]);
        }
        lemma_first_match(a, char_pred(';'), a.len() as int);
        assert(spec_split_inline_comment(a) == (a, Seq::<char>::empty()));
        lemma_account_alone(a, a);
        lemma_parse_parts(l, a, a, Seq::<char>::empty(), a, Seq::<char>::empty(), comma_mark);
        lemma_no_amount(comma_mark);
    }
}

/// The text after a written posting's indentation is as the parse needs it,
/// and its amount fields are the entered ones.
#[verifier::spinoff_prover]
#[verifier::rlimit(40)]
proof fn lemma_written_body(p: PostingInputSpec, styles: CommodityStyles, comma_mark: bool)
    requires
        trim(p.account).len() > 0,
        posting_reads_back(p, styles),
    ensures
        ({
            let a = trim(p.account);
            let body = a + written_rest(p, styles);
            let has_amount = written_amount(p, styles).len() > 0;
            &&& body_reads_back(body, a, has_amount)
            &&& line_amount(body, has_amount, comma_mark) == entered_amount(p)
            &&& !body.contains('\n') && !body.contains('\r')
        }),
{
    lemma_body_facts(p, styles);
    let a = trim(p.account);
    let am = written_amount(p, styles);
    let rest = written_rest(p, styles);
    let body = a + rest;
    let has_amount = am.len() > 0;
    assert(a[0] != ';') by {
        if a[0] == ';' {
            assert(a.contains(';'));
        }
    }
    assert forall|j: int| 0 <= j < body.len() implies body[j] != ';' by {
        if body[j] == ';' {
            assert(body.contains(';'));
        }
    }
    let u = trim(p.unit_price);
    let q = posting_quantity_and_commodity(p.amount, p.commodity).0;
    if !has_amount {
        assert(body =~= a);
        if q.len() > 0 {
            lemma_amount_shape(q, posting_quantity_and_commodity(p.amount, p.commodity).1, styles);
        }
        assert(entered_amount(p) == (Seq::<char>::empty(), Seq::<char>::empty(), Seq::<char>::empty()));
    } else {
        lemma_written_amount_reads_back(p, styles, comma_mark);
        let x = am + price_part(u);
        assert(rest =~= Seq::new((40 - a.len()) as nat, |i: int| ' ') + seq![' '] + x);
        assert(body.skip(41) =~= x);
        assert(body.last() == x.last());
    }
}

/// A written posting line reads back with its account, comment and amount,
/// and is a line that `str::lines` gives back unchanged.
pub(crate) proof fn lemma_posting_line_reads_back(p: PostingInputSpec, styles: CommodityStyles, comma_mark: bool)
    requires
        trim(p.account).len() > 0,
        posting_reads_back(p, styles),
    ensures
        ({
            let l = spec_format_posting_preserving(p, styles);
            &&& l.len() > 0
            &&& is_plain_line(l)
            &&& spec_parse_posting(l, comma_mark) matches Some(r) && r.account == trim(p.account) && r.comment
                == written_comment(p.comment) && (r.amount, r.commodity, r.unit_price) == entered_amount(p)
        }),
{
    lemma_posting_line_shape(p, styles);
    lemma_written_body(p, styles, comma_mark);
    let a = trim(p.account);
    let am = written_amount(p, styles);
    let body = a + written_rest(p, styles);
    let cm = written_comment(p.comment);
    let ind = seq![' ', ' ', ' ', ' '];
    let line = ind + body;
    let sep = seq![' ', ' ', ';', ' '];
    let l = spec_format_posting_preserving(p, styles);
    let has_amount = am.len() > 0;
    lemma_trim_edges(trim_start_char(trim(p.comment), ';'));
    if trim(p.comment).len() > 0 {
        lemma_commented_line(body, a, has_amount, cm, comma_mark);
    } else {
        assert(trim(p.comment) =~= Seq::<char>::empty());
        lemma_first_match_props(trim(p.comment), ne_pred(';'));
        assert(trim_start_char(trim(p.comment), ';') =~= Seq::<char>::empty());
        lemma_trim_plain(Seq::<char>::empty());
        assert(cm =~= Seq::<char>::empty());
        lemma_uncommented_line(body, a, has_amount, comma_mark);
    }
    assert forall|ch: char| ch == '\n' || ch == '\r' implies !l.contains(ch) by {
        lemma_no_char(ind, ch);
        lemma_no_char(sep, ch);
        lemma_concat_no(ind, body, ch);
        if trim(p.comment).len() > 0 {
            lemma_concat_no(line, sep, ch);
            lemma_concat_no(line + sep, cm, ch);
        }
    }
    assert(l.last() != '\r') by {
        if l.last() == '\r' {
            assert(l[l.len() - 1] == '\r');
            assert(l.contains('\r'));
        }
    }
}

/// A transaction written with its quantities as entered and no header
/// comment reads back, parsed as a block, with the date, status, code and
/// description as entered (each trimmed), and one posting for each posting
/// that names an account, in order, with that account (trimmed), its
/// comment as written (trimmed, without leading `;`), and its quantity,
/// commodity and unit price as entered. This holds for the headers of
/// `header_reads_back` and the postings of `posting_reads_back`.
#[verifier::spinoff_prover]
pub proof fn law_written_transaction_reads_back(
    t: TransactionInputSpec,
    styles: CommodityStyles,
    source_file: Seq<char>,
    start_line: nat,
    end_line: nat,
    comma_mark: bool,
)
    requires
        header_reads_back(t),
        forall|i: int| 0 <= i < t.postings.len() && trim(t.postings[i].account).len() > 0 ==> posting_reads_back(
            #[trigger] t.postings[i],
            styles,
        ),
    ensures
        spec_parse_transaction_block(
            source_file,
            start_line,
            end_line,
            spec_format_transaction_preserving(t, seq![], styles),
            comma_mark,
        ) matches Some(r) && r.date == trim(t.date) && r.status == trim(t.status) && r.code == trim(t.code)
            && r.description == trim(t.description) && r.postings.len() == named_postings(t.postings).len() && (forall|i: int|
            0 <= i < r.postings.len() ==> (#[trigger] r.postings[i]).account == trim(named_postings(t.postings)[i].account)
                && r.postings[i].comment == written_comment(named_postings(t.postings)[i].comment) && (
            r.postings[i].amount,
            r.postings[i].commodity,
            r.postings[i].unit_price,
        ) == entered_amount(named_postings(t.postings)[i])),
{
    let h = spec_transaction_header(t, seq![]);
    let named = named_postings(t.postings);
    let pls = preserved_posting_lines(t.postings, styles);
    let xs = seq![h] + pls;
    lemma_header_fields(t);
    lemma_written_posting_lines(t.postings, styles);
    assert forall|i: int| 0 <= i < named.len() implies {
        &&& (#[trigger] pls[i]).len() > 0
        &&& is_plain_line(pls[i])
        &&& spec_parse_posting(pls[i], comma_mark) matches Some(r) && r.account == trim(named[i].account) && r.comment
            == written_comment(named[i].comment) && (r.amount, r.commodity, r.unit_price) == entered_amount(named[i])
    } by {
        assert(t.postings.contains(named[i]));
        let k = choose|k: int| 0 <= k < t.postings.len() && t.postings[k] == named[i];
        assert(posting_reads_back(t.postings[k], styles));
        lemma_posting_line_reads_back(named[i], styles, comma_mark);
        assert(pls[i] == spec_format_posting_preserving(named[i], styles));
    }
    assert(is_plain_line(h)) by {
        if h.len() > 0 && h.last() == '\r' {
            assert(is_ws('\r'));
        }
    }
    assert forall|i: int| 0 <= i < xs.len() implies is_plain_line(#[trigger] xs[i]) by {
        if i > 0 {
            assert(xs[i] == pls[i - 1]);
        }
    }
    assert(xs.last().len() > 0) by {
        if pls.len() > 0 {
            assert(xs.last() == pls[pls.len() - 1]);
        }
    }
    lemma_lines_of_block(xs);
    let ls = lines(join_lines(xs));
    assert(ls[0] == h);
    assert(ls.skip(1) =~= pls);
    assert forall|i: int| 0 <= i < pls.len() implies spec_parse_posting(#[trigger] pls[i], comma_mark) is Some by {}
    lemma_postings_of_lines(pls, comma_mark);
    let raw = spec_format_transaction_preserving(t, seq![], styles);
    assert(raw == join_lines(xs));
    assert(trim(ls[0]) == h);
    let sp = spec_postings(pls, comma_mark);
    let blk = spec_parse_transaction_block(source_file, start_line, end_line, raw, comma_mark);
    assert(blk is Some);
    let r = blk->0;
    assert(r.date == trim(t.date));
    assert(r.postings == sp);
    assert forall|i: int| 0 <= i < sp.len() implies (#[trigger] sp[i]).account == trim(named[i].account) && sp[i].comment
        == written_comment(named[i].comment) && (sp[i].amount, sp[i].commodity, sp[i].unit_price) == entered_amount(
        named[i],
    ) by {
        assert(spec_parse_posting(pls[i], comma_mark) == Some(sp[i]));
    }
}

/// A number as a posting quantity is written: an optional `-`, then a digit
/// and more digits, `.` or `,`.
pub open spec fn is_number_text(q: Seq<char>) -> bool {
    &&& unsigned_part(q).len() > 0
    &&& is_digit(unsigned_part(q)[0])
    &&& forall|i: int| 0 <= i < unsigned_part(q).len() ==> is_amount_char(#[trigger] unsigned_part(q)[i])
}

/// A number text without its `-`.
pub open spec fn unsigned_part(q: Seq<char>) -> Seq<char> {
    if q.len() > 0 && q[0] == '-' { q.skip(1) } else { q }
}

/// A commodity that cannot be taken for part of a number, a sign or a rate
/// token.
pub open spec fn plain_commodity(c: Seq<char>) -> bool {
    forall|i: int| 0 <= i < c.len() ==> !is_amount_char(#[trigger] c[i]) && c[i] != '-' && c[i] != '@'
}

/// The number of a text that starts with `ns` non-digits and then the
/// digits and separators `abs`, followed by the end or a character that
/// belongs to no number, starts at `ns` and ends after `abs`.
proof fn lemma_number_scan(t: Seq<char>, ns: int, abs: Seq<char>)
    requires
        0 <= ns,
        ns + abs.len() <= t.len(),
        abs.len() > 0,
        is_digit(abs[0]),
        forall|i: int| 0 <= i < abs.len() ==> is_amount_char(#[trigger] abs[i]),
        forall|i: int| 0 <= i < abs.len() ==> t[ns + i] == abs[i],
        forall|i: int| 0 <= i < ns ==> !is_digit(#[trigger] t[i]),
        ns + abs.len() == t.len() || !is_amount_char(t[ns + abs.len()]),
    ensures
        first_match(t, digit_pred()) == ns,
        number_end(t, ns) == ns + abs.len(),
        t.subrange(ns, ns + abs.len()) == abs,
{
    assert forall|i: int| 0 <= i < ns implies !(digit_pred())(t[i]) by {}
    assert(t[ns] == abs[0]);
    lemma_first_match(t, digit_pred(), ns);
    let u = t.skip(ns);
    assert forall|i: int| 0 <= i < abs.len() implies !(non_amount_pred())(u[i]) by {
        assert(u[i] == t[ns + i]);
        assert(t[ns + i] == abs[i]);
        assert(is_amount_char(abs[i]));
    }
    if ns + abs.len() < t.len() {
        assert(u[abs.len() as int] == t[ns + abs.len()]);
    }
    lemma_first_match(u, non_amount_pred(), abs.len() as int);
    assert(t.subrange(ns, ns + abs.len()) =~= abs);
}

/// In a text with one `@`, `@@` does not occur and `@` is at its place.
proof fn lemma_rate_tokens(x: Seq<char>, k: int)
    requires
        0 <= k < x.len(),
        x[k] == '@',
        forall|i: int| 0 <= i < x.len() && i != k ==> x[i] != '@',
        k == 0 || x[k - 1] == ' ',
    ensures
        rate_token_index(x, seq!['@', '@']) == -1,
        rate_token_index(x, seq!['@']) == k,
{
    assert forall|j: int| !occurs_at(x, seq!['@', '@'], j) by {
        if occurs_at(x, seq!['@', '@'], j) {
            assert(x.subrange(j, j + 2)[0] == '@');
            assert(x.subrange(j, j + 2)[1] == '@');
            assert(x[j] == '@' && x[j + 1] == '@');
        }
    }
    lemma_find_sub_none(x, seq!['@', '@']);
    assert(x.subrange(k, k + 1) =~= seq!['@']);
    assert forall|j: int| 0 <= j < k implies !occurs_at(x, seq!['@'], j) by {
        if occurs_at(x, seq!['@'], j) {
            assert(x.subrange(j, j + 1)[0] == '@');
            assert(x[j] == '@');
        }
    }
    lemma_find_sub(x, seq!['@'], k);
}

/// A suffix that is a commodity alone is that commodity, with no price.
proof fn lemma_extract_commodity(c: Seq<char>, quantity: Seq<char>, comma_mark: bool)
    requires
        c.len() > 0,
        !is_ws(c[0]),
        !is_ws(c.last()),
        forall|i: int| 0 <= i < c.len() ==> c[i] != '@',
    ensures
        spec_extract_price(c, quantity, comma_mark) == (c, Seq::<char>::empty()),
{
    lemma_trim_plain(c);
    assert forall|j: int| !occurs_at(c, seq!['@', '@'], j) by {
        if occurs_at(c, seq!['@', '@'], j) {
            assert(c.subrange(j, j + 2)[0] == '@');
            assert(c[j] == '@');
        }
    }
    lemma_find_sub_none(c, seq!['@', '@']);
    assert forall|j: int| !occurs_at(c, seq!['@'], j) by {
        if occurs_at(c, seq!['@'], j) {
            assert(c.subrange(j, j + 1)[0] == '@');
            assert(c[j] == '@');
        }
    }
    lemma_find_sub_none(c, seq!['@']);
}

proof fn lemma_priced_suffix_tokens(c: Seq<char>, u: Seq<char>)
    requires
        c.len() > 0,
        !is_ws(c[0]),
        forall|i: int| 0 <= i < c.len() ==> c[i] != '@',
        u.len() > 0,
        !is_ws(u.last()),
        forall|i: int| 0 <= i < u.len() ==> u[i] != '@',
    ensures
        trim(c + seq![' ', '@', ' '] + u) == c + seq![' ', '@', ' '] + u,
        rate_token_index(c + seq![' ', '@', ' '] + u, seq!['@', '@']) == -1,
        rate_token_index(c + seq![' ', '@', ' '] + u, seq!['@']) == c.len() + 1,
{
    let x = c + seq![' ', '@', ' '] + u;
    let k: int = c.len() as int + 1;
    assert(x[0] == c[0]);
    assert(x.last() == u.last());
    lemma_trim_plain(x);
    assert(x[k] == '@');
    assert(x[k - 1] == ' ');
    assert forall|i: int| 0 <= i < x.len() && i != k implies x[i] != '@' by {
        if i < c.len() {
            assert(x[i] == c[i]);
        } else if i >= c.len() + 3 {
            assert(x[i] == u[i - c.len() - 3]);
        }
    }
    lemma_rate_tokens(x, k);
}

/// A suffix of a commodity, ` @ ` and a unit price gives both.
#[verifier::spinoff_prover]
#[verifier::rlimit(100)]
proof fn lemma_extract_unit_price(c: Seq<char>, u: Seq<char>, quantity: Seq<char>, comma_mark: bool)
    requires
        c.len() > 0,
        !is_ws(c[0]),
        !is_ws(c.last()),
        forall|i: int| 0 <= i < c.len() ==> c[i] != '@',
        u.len() > 0,
        !is_ws(u[0]),
        !is_ws(u.last()),
        forall|i: int| 0 <= i < u.len() ==> u[i] != '@',
    ensures
        spec_extract_price(c + seq![' ', '@', ' '] + u, quantity, comma_mark) == (c, u),
{
    let x = c + seq![' ', '@', ' '] + u;
    let k: int = c.len() as int + 1;
    lemma_priced_suffix_tokens(c, u);
    lemma_trim_padded(seq![' '], u, Seq::<char>::empty());
    assert(x.skip(k + 1) =~= seq![' '] + u + Seq::<char>::empty());
    assert(x.take(k) =~= Seq::<char>::empty() + c + seq![' ']);
    lemma_trim_padded(Seq::<char>::empty(), c, seq![' ']);
    assert(trim(x.take(k)) == c);
    assert(trim(x.skip(k + 1)) == u);
}

/// A suffix of `@ ` and a unit price gives the price, and the price's own
/// commodity.
#[verifier::spinoff_prover]
proof fn lemma_extract_bare_unit_price(u: Seq<char>, quantity: Seq<char>, comma_mark: bool)
    requires
        u.len() > 0,
        !is_ws(u[0]),
        !is_ws(u.last()),
        forall|i: int| 0 <= i < u.len() ==> u[i] != '@',
    ensures
        spec_extract_price(seq!['@', ' '] + u, quantity, comma_mark).1 == u,
{
    let x = seq!['@', ' '] + u;
    assert(x[0] == '@');
    assert(x.last() == u.last());
    lemma_trim_plain(x);
    assert forall|i: int| 0 <= i < x.len() && i != 0 implies x[i] != '@' by {
        if i >= 2 {
            assert(x[i] == u[i - 2]);
        }
    }
    lemma_rate_tokens(x, 0);
    lemma_trim_padded(seq![' '], u, Seq::<char>::empty());
    assert(x.skip(1) =~= seq![' '] + u + Seq::<char>::empty());
    let t = trim(x);
    assert(t == x);
    assert(trim(t.skip(1)) == u);
}

/// The places of the parts of a written amount: its sign, its digits, and
/// its commodity after (`right`) or before them, apart by `sep`.
proof fn lemma_amount_shape(q: Seq<char>, sel: Seq<char>, styles: CommodityStyles) -> (r: (bool, Seq<char>))
    requires
        q.len() > 0,
        is_number_text(q),
    ensures
        ({
            let sign = sign_text(q);
            let abs = trim_start_char(q, '-');
            let a = spec_amount_from_quantity(q, sel, styles);
            let (right, sep) = r;
            &&& q == sign + abs
            &&& sign == seq!['-'] || sign == Seq::<char>::empty()
            &&& abs.len() > 0
            &&& is_digit(abs[0])
            &&& forall|i: int| 0 <= i < abs.len() ==> is_amount_char(#[trigger] abs[i])
            &&& sep == seq![' '] || sep == Seq::<char>::empty()
            &&& sel.len() == 0 ==> a == q
            &&& sel.len() > 0 ==> a == (if right { sign + abs + sep + sel } else { sign + sel + sep + abs })
        }),
{
    let n = unsigned_part(q);
    if q[0] == '-' {
        assert(n[0] == q[1]);
        lemma_first_match(q, ne_pred('-'), 1);
        assert(trim_start_char(q, '-') =~= n);
        assert(sign_text(q) =~= seq!['-']);
        assert(q =~= seq!['-'] + n);
    } else {
        lemma_first_match(q, ne_pred('-'), 0);
        assert(trim_start_char(q, '-') =~= q);
        assert(sign_text(q) =~= Seq::<char>::empty());
        assert(q =~= Seq::<char>::empty() + q);
    }
    if sel.len() == 0 {
        (true, Seq::<char>::empty())
    } else if styles.has(sel) {
        let st = styles.style_of(sel);
        let sep = if st.commodity_spaced { seq![' '] } else { Seq::<char>::empty() };
        assert(spec_amount_from_quantity(q, sel, styles) == spec_format_with_style(q, sel, st));
        (is_right(st), sep)
    } else if all_alphabetic(sel) {
        assert(spec_amount_from_quantity(q, sel, styles) == sign_text(q) + trim_start_char(q, '-') + seq![' '] + sel);
        (true, seq![' '])
    } else {
        let sign = sign_text(q);
        let abs = trim_start_char(q, '-');
        assert(sign + sel + abs =~= sign + sel + Seq::<char>::empty() + abs);
        (false, Seq::<char>::empty())
    }
}

/// The unit price part of a written amount: ` @ ` and the price, when
/// there is one.
pub open spec fn price_part(u: Seq<char>) -> Seq<char> {
    if u.len() > 0 { seq![' ', '@', ' '] + u } else { Seq::<char>::empty() }
}

/// The amount fields an amount text reads back as, kept folded in the
/// proofs below.
#[verifier::opaque]
pub open spec fn amount_fields(x: Seq<char>, comma_mark: bool) -> (Seq<char>, Seq<char>, Seq<char>) {
    parse_amount(x, comma_mark)
}

/// What the amount lemmas need of the parts of an amount.
pub open spec fn amount_parts_ok(sign: Seq<char>, abs: Seq<char>, sep: Seq<char>, sel: Seq<char>, u: Seq<char>) -> bool {
    &&& sign == seq!['-'] || sign == Seq::<char>::empty()
    &&& abs.len() > 0
    &&& is_digit(abs[0])
    &&& forall|i: int| 0 <= i < abs.len() ==> is_amount_char(#[trigger] abs[i])
    &&& sep == seq![' '] || sep == Seq::<char>::empty()
    &&& plain_commodity(sel)
    &&& sel.len() > 0 ==> !is_ws(sel[0]) && !is_ws(sel.last())
    &&& u.len() > 0 ==> !is_ws(u[0]) && !is_ws(u.last()) && sel.len() > 0
    &&& forall|i: int| 0 <= i < u.len() ==> u[i] != '@'
}

/// An amount text's parse from its number's place, its prefix commodity and
/// the parse of what follows the number.
proof fn lemma_amount_from_parts(
    x: Seq<char>,
    ns: int,
    ne: int,
    q: Seq<char>,
    pre: Seq<char>,
    sc: Seq<char>,
    unit: Seq<char>,
    comma_mark: bool,
)
    requires
        x.len() > 0,
        trim(x) == x,
        ns >= 0,
        first_match(x, digit_pred()) == ns,
        number_end(x, ns) == ne,
        sign_of_prefix(x, ns) + x.subrange(ns, ne) == q,
        prefix_commodity(x, ns) == pre,
        spec_extract_price(trim(x.skip(ne)), q, comma_mark) == (sc, unit),
    ensures
        amount_fields(x, comma_mark) == (q, if pre.len() > 0 { pre } else { sc }, unit),
{
    reveal(amount_fields);
}

proof fn lemma_sign_prefix(sign: Seq<char>, mid: Seq<char>)
    requires
        sign == seq!['-'] || sign == Seq::<char>::empty(),
        forall|i: int| 0 <= i < mid.len() ==> mid[i] != '-',
    ensures
        (sign + mid).contains('-') <==> sign.len() > 0,
{
    if sign.len() > 0 {
        assert((sign + mid)[0] == '-');
    } else {
        assert(sign + mid =~= mid);
        if mid.contains('-') {
            let i = choose|i: int| 0 <= i < mid.len() && mid[i] == '-';
        }
    }
}

/// Where the number of an amount written with its commodity after it
/// stands, and what follows it.
#[verifier::spinoff_prover]
proof fn lemma_right_scan(sign: Seq<char>, abs: Seq<char>, sep: Seq<char>, sel: Seq<char>, u: Seq<char>)
    requires
        amount_parts_ok(sign, abs, sep, sel, u),
        sel.len() == 0 ==> sep.len() == 0,
    ensures
        ({
            let x = sign + abs + sep + sel + price_part(u);
            let ns = sign.len() as int;
            let ne = ns + abs.len();
            &&& x.len() > 0
            &&& trim(x) == x
            &&& first_match(x, digit_pred()) == ns
            &&& number_end(x, ns) == ne
            &&& sign_of_prefix(x, ns) + x.subrange(ns, ne) == sign + abs
            &&& prefix_commodity(x, ns) == Seq::<char>::empty()
            &&& x.skip(ne) == sep + (sel + price_part(u)) + Seq::<char>::empty()
        }),
{
    let p = price_part(u);
    let x = sign + abs + sep + sel + p;
    let ns = sign.len() as int;
    let ne = ns + abs.len();
    assert(x[0] == (if sign.len() > 0 { '-' } else { abs[0] }));
    assert(!is_ws(x.last())) by {
        if u.len() > 0 {
            assert(x.last() == u.last());
        } else if sel.len() > 0 {
            assert(x.last() == sel.last());
        } else {
            assert(x.last() == abs.last());
            assert(is_amount_char(abs[abs.len() - 1]));
        }
    }
    lemma_trim_plain(x);
    assert forall|i: int| 0 <= i < abs.len() implies x[ns + i] == abs[i] by {}
    assert forall|i: int| 0 <= i < ns implies !is_digit(#[trigger] x[i]) by {}
    if ne < x.len() {
        if sep.len() > 0 {
            assert(x[ne] == ' ');
        } else {
            assert(x[ne] == sel[0]);
        }
    }
    lemma_number_scan(x, ns, abs);
    assert(x.take(ns) =~= sign + Seq::<char>::empty());
    lemma_sign_prefix(sign, Seq::<char>::empty());
    lemma_trim_plain(sign);
    lemma_first_match_props(sign, ne_pred('-'));
    assert(trim_char(sign, '-') =~= Seq::<char>::empty());
    lemma_trim_plain(Seq::<char>::empty());
    assert(x.skip(ne) =~= sep + (sel + p) + Seq::<char>::empty());
}

/// An amount written with its commodity after the number reads back as its
/// quantity, commodity and unit price.
#[verifier::spinoff_prover]
proof fn lemma_right_amount(sign: Seq<char>, abs: Seq<char>, sep: Seq<char>, sel: Seq<char>, u: Seq<char>, comma_mark: bool)
    requires
        amount_parts_ok(sign, abs, sep, sel, u),
        sel.len() == 0 ==> sep.len() == 0,
    ensures
        amount_fields(sign + abs + sep + sel + price_part(u), comma_mark) == (sign + abs, sel, u),
{
    let p = price_part(u);
    let x = sign + abs + sep + sel + p;
    let ns = sign.len() as int;
    let ne = ns + abs.len();
    lemma_right_scan(sign, abs, sep, sel, u);
    let rest = x.skip(ne);
    if sel.len() == 0 {
        assert(rest =~= Seq::<char>::empty());
        lemma_trim_plain(Seq::<char>::empty());
        assert(spec_extract_price(trim(rest), sign + abs, comma_mark) == (Seq::<char>::empty(), Seq::<char>::empty()));
        lemma_amount_from_parts(x, ns, ne, sign + abs, Seq::<char>::empty(), Seq::<char>::empty(), Seq::<char>::empty(), comma_mark);
    } else {
        assert((sel + p).last() == (if u.len() > 0 { u.last() } else { sel.last() }));
        assert((sel + p)[0] == sel[0]);
        lemma_trim_padded(sep, sel + p, Seq::<char>::empty());
        assert forall|i: int| 0 <= i < sel.len() implies sel[i] != '@' by {}
        assert(trim(rest) == sel + p);
        if u.len() > 0 {
            assert(sel + p =~= sel + seq![' ', '@', ' '] + u);
            lemma_extract_unit_price(sel, u, sign + abs, comma_mark);
        } else {
            assert(sel + p =~= sel);
            lemma_extract_commodity(sel, sign + abs, comma_mark);
        }
        assert(spec_extract_price(trim(rest), sign + abs, comma_mark) == (sel, u));
        lemma_amount_from_parts(x, ns, ne, sign + abs, Seq::<char>::empty(), sel, u, comma_mark);
    }
}

/// An amount written with its commodity before the number reads back as
/// its quantity, commodity and unit price.
#[verifier::spinoff_prover]
#[verifier::rlimit(40)]
proof fn lemma_left_amount(sign: Seq<char>, abs: Seq<char>, sep: Seq<char>, sel: Seq<char>, u: Seq<char>, comma_mark: bool)
    requires
        amount_parts_ok(sign, abs, sep, sel, u),
        sel.len() > 0,
    ensures
        amount_fields(sign + sel + sep + abs + price_part(u), comma_mark) == (sign + abs, sel, u),
{
    let p = price_part(u);
    let x = sign + sel + sep + abs + p;
    let ns = (sign.len() + sel.len() + sep.len()) as int;
    let ne = ns + abs.len();
    assert(x[0] == (if sign.len() > 0 { '-' } else { sel[0] }));
    assert(!is_ws(x.last())) by {
        if u.len() > 0 {
            assert(x.last() == u.last());
        } else {
            assert(x.last() == abs.last());
            assert(is_amount_char(abs[abs.len() - 1]));
        }
    }
    lemma_trim_plain(x);
    assert forall|i: int| 0 <= i < abs.len() implies x[ns + i] == abs[i] by {}
    assert forall|i: int| 0 <= i < ns implies !is_digit(#[trigger] x[i]) by {
        if sign.len() <= i < sign.len() + sel.len() {
            assert(x[i] == sel[i - sign.len()]);
            assert(!is_amount_char(sel[i - sign.len()]));
        }
    }
    if ne < x.len() {
        assert(x[ne] == ' ');
    }
    lemma_number_scan(x, ns, abs);
    let head = sign + sel + sep;
    assert(x.take(ns) =~= head);
    assert forall|i: int| 0 <= i < (sel + sep).len() implies (sel + sep)[i] != '-' by {
        if i < sel.len() {
            assert((sel + sep)[i] == sel[i]);
        }
    }
    assert(head =~= sign + (sel + sep));
    lemma_sign_prefix(sign, sel + sep);
    let ss = sign + sel;
    assert(ss[0] == (if sign.len() > 0 { '-' } else { sel[0] }));
    assert(ss.last() == sel.last());
    assert(head =~= Seq::<char>::empty() + ss + sep);
    lemma_trim_padded(Seq::<char>::empty(), ss, sep);
    assert(sel[0] != '-');
    assert(ss[sign.len() as int] == sel[0]);
    assert forall|j: int| 0 <= j < sign.len() implies !(ne_pred('-'))(ss[j]) by {}
    lemma_first_match(ss, ne_pred('-'), sign.len() as int);
    assert(sel.last() != '-');
    lemma_last_match(ss, ne_pred('-'), ss.len() - 1);
    assert(ss.subrange(sign.len() as int, ss.len() as int) =~= sel);
    lemma_trim_plain(sel);
    assert(prefix_commodity(x, ns) == sel);
    assert(sign_of_prefix(x, ns) == sign);
    let rest = x.skip(ne);
    assert(rest =~= p);
    if u.len() > 0 {
        assert(p =~= seq![' '] + (seq!['@', ' '] + u) + Seq::<char>::empty());
        assert((seq!['@', ' '] + u)[0] == '@');
        assert((seq!['@', ' '] + u).last() == u.last());
        lemma_trim_padded(seq![' '], seq!['@', ' '] + u, Seq::<char>::empty());
        lemma_extract_bare_unit_price(u, sign + abs, comma_mark);
        let sc = spec_extract_price(seq!['@', ' '] + u, sign + abs, comma_mark).0;
        lemma_amount_from_parts(x, ns, ne, sign + abs, sel, sc, u, comma_mark);
    } else {
        assert(trim(rest) =~= Seq::<char>::empty()) by {
            lemma_trim_plain(Seq::<char>::empty());
        }
        assert(spec_extract_price(Seq::<char>::empty(), sign + abs, comma_mark) == (Seq::<char>::empty(), Seq::<char>::empty()));
        lemma_amount_from_parts(x, ns, ne, sign + abs, sel, Seq::<char>::empty(), Seq::<char>::empty(), comma_mark);
    }
}

/// An amount text written from a number, a commodity and a unit price reads
/// back as them, and ends with a character that is not whitespace.
#[verifier::spinoff_prover]
proof fn lemma_amount_text_reads_back(q: Seq<char>, sel: Seq<char>, u: Seq<char>, styles: CommodityStyles, comma_mark: bool)
    requires
        q.len() > 0,
        is_number_text(q),
        plain_commodity(sel),
        sel.len() > 0 ==> !is_ws(sel[0]) && !is_ws(sel.last()),
        u.len() > 0 ==> !is_ws(u[0]) && !is_ws(u.last()) && sel.len() > 0,
        forall|i: int| 0 <= i < u.len() ==> u[i] != '@',
    ensures
        ({
            let x = spec_amount_from_quantity(q, sel, styles) + price_part(u);
            &&& !is_ws(x.last())
            &&& amount_fields(x, comma_mark) == (q, sel, u)
        }),
{
    let am = spec_amount_from_quantity(q, sel, styles);
    let (right, sep) = lemma_amount_shape(q, sel, styles);
    let sign = sign_text(q);
    let abs = trim_start_char(q, '-');
    assert(amount_parts_ok(sign, abs, sep, sel, u));
    assert(is_amount_char(abs[abs.len() - 1]));
    if sel.len() == 0 {
        assert(amount_parts_ok(sign, abs, Seq::<char>::empty(), sel, u));
        lemma_right_amount(sign, abs, Seq::<char>::empty(), sel, u, comma_mark);
        assert(sign + abs + Seq::<char>::empty() + sel + price_part(u) =~= am + price_part(u));
        assert((am + price_part(u)).last() == abs.last());
    } else if right {
        lemma_right_amount(sign, abs, sep, sel, u, comma_mark);
        assert(am + price_part(u) == sign + abs + sep + sel + price_part(u));
        assert((am + price_part(u)).last() == (if u.len() > 0 { u.last() } else { sel.last() }));
    } else {
        lemma_left_amount(sign, abs, sep, sel, u, comma_mark);
        assert(am + price_part(u) == sign + sel + sep + abs + price_part(u));
        assert((am + price_part(u)).last() == (if u.len() > 0 { u.last() } else { abs.last() }));
    }
}

/// A posting's written amount with its unit price reads back as the entered
/// amount, and ends with a character that is not whitespace.
proof fn lemma_written_amount_reads_back(p: PostingInputSpec, styles: CommodityStyles, comma_mark: bool)
    requires
        amount_reads_back(p),
        written_amount(p, styles).len() > 0,
    ensures
        ({
            let x = written_amount(p, styles) + price_part(trim(p.unit_price));
            &&& !is_ws(x.last())
            &&& amount_fields(x, comma_mark) == entered_amount(p)
        }),
{
    let pq = posting_quantity_and_commodity(p.amount, p.commodity);
    let q = pq.0;
    let sel = pq.1;
    let c0 = parse_amount(p.amount, false).1;
    assert(sel == (if trim(c0).len() == 0 { trim(p.commodity) } else { trim(c0) }));
    lemma_trim_edges(c0);
    lemma_trim_edges(p.commodity);
    lemma_trim_edges(p.unit_price);
    assert(q.len() > 0);
    lemma_amount_text_reads_back(q, sel, trim(p.unit_price), styles, comma_mark);
}

/// The posting lines of a transaction written in either quantity mode.
pub open spec fn written_posting_lines(
    t: TransactionInputSpec,
    mode: QuantityFormat,
    ns: Seq<Seq<char>>,
    styles: CommodityStyles,
) -> Seq<Seq<char>> {
    match mode {
        QuantityFormat::Normalize => normalized_posting_lines(t.postings, ns, styles),
        QuantityFormat::Preserve => preserved_posting_lines(t.postings, styles),
    }
}

proof fn lemma_posting_lines_nonempty(ps: Seq<PostingInputSpec>, ns: Seq<Seq<char>>, styles: CommodityStyles)
    ensures
        forall|i: int| 0 <= i < preserved_posting_lines(ps, styles).len() ==> (#[trigger] preserved_posting_lines(
            ps,
            styles,
        )[i]).len() > 0,
        forall|i: int| 0 <= i < normalized_posting_lines(ps, ns, styles).len() ==> (#[trigger] normalized_posting_lines(
            ps,
            ns,
            styles,
        )[i]).len() > 0,
    decreases ps.len(),
{
    if ps.len() > 0 {
        lemma_posting_lines_nonempty(ps.drop_last(), ns, styles);
        let p = ps.last();
        assert(spec_format_posting_preserving(p, styles).len() >= 4);
        assert(spec_format_posting_normalized(p, ns[ps.len() - 1], styles).len() >= 4);
        let dp = preserved_posting_lines(ps.drop_last(), styles);
        let dn = normalized_posting_lines(ps.drop_last(), ns, styles);
        assert forall|i: int| 0 <= i < preserved_posting_lines(ps, styles).len() implies (#[trigger] preserved_posting_lines(
            ps,
            styles,
        )[i]).len() > 0 by {
            if i < dp.len() {
                assert(preserved_posting_lines(ps, styles)[i] == dp[i]);
            }
        }
        assert forall|i: int| 0 <= i < normalized_posting_lines(ps, ns, styles).len() implies (
        #[trigger] normalized_posting_lines(ps, ns, styles)[i]).len() > 0 by {
            if i < dn.len() {
                assert(normalized_posting_lines(ps, ns, styles)[i] == dn[i]);
            }
        }
    }
}

proof fn lemma_posting_lines_count(ps: Seq<PostingInputSpec>, ns: Seq<Seq<char>>, styles: CommodityStyles)
    ensures
        preserved_posting_lines(ps, styles).len() == named_postings(ps).len(),
        normalized_posting_lines(ps, ns, styles).len() == named_postings(ps).len(),
    decreases ps.len(),
{
    if ps.len() > 0 {
        lemma_posting_lines_count(ps.drop_last(), ns, styles);
    }
}

/// A written transaction is its header line (the trimmed date, then the
/// status, code and description that are not blank, trimmed and each after
/// a space, then `  ; ` and the comment where it is not blank) and one line
/// per posting that names an account, in order: read back as lines it gives
/// those lines, when
/// the header is not empty and no written line holds a line break (a `\n`,
/// or a `\r` at its end, which `str::lines` would drop).
pub proof fn law_written_transaction_lines(
    t: TransactionInputSpec,
    comment: Seq<char>,
    mode: QuantityFormat,
    ns: Seq<Seq<char>>,
    styles: CommodityStyles,
)
    requires
        spec_transaction_header(t, comment).len() > 0,
        is_plain_line(spec_transaction_header(t, comment)),
        forall|i: int| 0 <= i < written_posting_lines(t, mode, ns, styles).len() ==> is_plain_line(
            #[trigger] written_posting_lines(t, mode, ns, styles)[i],
        ),
    ensures
        lines(spec_format_transaction_with_mode(t, comment, mode, ns, styles)) == seq![spec_transaction_header(t, comment)]
            + written_posting_lines(t, mode, ns, styles),
        written_posting_lines(t, mode, ns, styles).len() == named_postings(t.postings).len(),
{
    lemma_posting_lines_count(t.postings, ns, styles);
    let h = spec_transaction_header(t, comment);
    let pls = written_posting_lines(t, mode, ns, styles);
    let xs = seq![h] + pls;
    lemma_posting_lines_nonempty(t.postings, ns, styles);
    assert forall|i: int| 0 <= i < xs.len() implies is_plain_line(#[trigger] xs[i]) by {
        if i > 0 {
            assert(xs[i] == pls[i - 1]);
        }
    }
    assert(xs.last().len() > 0) by {
        if pls.len() > 0 {
            assert(xs.last() == pls[pls.len() - 1]);
        }
    }
    lemma_lines_of_block(xs);
}

} // verus!
