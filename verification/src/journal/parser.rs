//! Reading transaction blocks, postings and amounts from journal text, and
//! writing them back.

use vstd::prelude::*;
use crate::amount_style::StyleContext;
use crate::journal::number::{normalize_number, normalized_number, quotient_text};
use crate::journal::long_division::quotient_text_of;
use crate::journal::types::{posting_views, JournalPosting, ParsedTransaction, PostingSpec, TransactionSpec};
use crate::journal::util::{spec_split_first_token, split_first_token_chars};
use crate::journal::number::{nat_digits, nat_digits_of};
use crate::journal::util::{spec_split_inline_comment, split_inline_comment_chars};
use crate::text::{
    byte_len, byte_len_of, char_is_digit, char_pred, find_char, lines, lines_of, views, char_is_ws, concat, contains_char, digit_pred,
    find_chars, find_digit, find_sub, first_match, is_digit, is_ws, last_match,
    lemma_first_match, lemma_first_match_props, lemma_last_match, non_ws_pred, push_all, slice_of,
    string_of, to_chars, trim, trim_char, trim_char_of, trim_of, trim_start, trim_start_of,
    utf8_len, utf8_len_of,
};

verus! {

pub open spec fn is_amount_char(c: char) -> bool {
    is_digit(c) || c == '.' || c == ','
}

pub open spec fn non_amount_pred() -> spec_fn(char) -> bool {
    |c: char| !is_amount_char(c)
}

/// End of the number that starts at `ns`: the first character after it that
/// is not a digit, `.` or `,`.
pub open spec fn number_end(t: Seq<char>, ns: int) -> int {
    let k = first_match(t.skip(ns), non_amount_pred());
    if k < 0 { t.len() as int } else { ns + k }
}

/// `-` when a minus sign stands anywhere before the number.
pub open spec fn sign_of_prefix(t: Seq<char>, ns: int) -> Seq<char> {
    if t.take(ns).contains('-') { seq!['-'] } else { seq![] }
}

/// The commodity written before the number.
pub open spec fn prefix_commodity(t: Seq<char>, ns: int) -> Seq<char> {
    trim(trim_char(trim(t.take(ns)), '-'))
}

/// A simple amount (quantity and commodity, no price): the signed number and
/// the commodity before it, or else the text after it.
pub open spec fn spec_parse_simple_amount(amount: Seq<char>) -> (Seq<char>, Seq<char>) {
    let t = trim(amount);
    if t.len() == 0 {
        (seq![], seq![])
    } else {
        let ns = first_match(t, digit_pred());
        if ns < 0 {
            (t, seq![])
        } else {
            let ne = number_end(t, ns);
            let pre = prefix_commodity(t, ns);
            (sign_of_prefix(t, ns) + t.subrange(ns, ne), if pre.len() > 0 { pre } else { trim(t.skip(ne)) })
        }
    }
}

/// Splits the number at `ns` out of `t`: the signed quantity, the commodity
/// before it, and the end of the number.
fn number_parts(t: &Vec<char>, ns: usize) -> (r: (Vec<char>, Vec<char>, usize))
    requires
        ns < t.len(),
        is_digit(t@[ns as int]),
    ensures
        r.0@ == sign_of_prefix(t@, ns as int) + t@.subrange(ns as int, r.2 as int),
        r.1@ == prefix_commodity(t@, ns as int),
        r.2 == number_end(t@, ns as int),
        ns < r.2 <= t.len(),
{
    let mut ne: usize = ns;
    while ne < t.len() && (char_is_digit(t[ne]) || t[ne] == '.' || t[ne] == ',')
        invariant
            ns <= ne <= t.len(),
            forall|j: int| ns <= j < ne ==> is_amount_char(t@[j]),
        decreases t.len() - ne,
    {
        ne += 1;
    }
    proof {
        let u = t@.skip(ns as int);
        assert forall|j: int| 0 <= j < ne - ns implies !non_amount_pred()(u[j]) by {
            assert(u[j] == t@[ns + j]);
        }
        lemma_first_match(u, non_amount_pred(), ne - ns);
    }
    let head = slice_of(t, 0, ns);
    let mut q: Vec<char> = Vec::new();
    if contains_char(&head, '-') {
        q.push('-');
    }
    let digits = slice_of(t, ns, ne);
    push_all(&mut q, &digits);
    assert(head@ =~= t@.take(ns as int));
    assert(q@ =~= sign_of_prefix(t@, ns as int) + t@.subrange(ns as int, ne as int));
    let a = trim_of(&head);
    let b = trim_char_of(&a, '-');
    let pre = trim_of(&b);
    (q, pre, ne)
}

pub fn parse_simple_amount_chars(amount: &Vec<char>) -> (r: (Vec<char>, Vec<char>))
    ensures
        (r.0@, r.1@) == spec_parse_simple_amount(amount@),
{
    let t = trim_of(amount);
    if t.len() == 0 {
        return (Vec::new(), Vec::new());
    }
    match find_digit(&t) {
        None => (t, Vec::new()),
        Some(ns) => {
            proof {
                lemma_first_match_props(t@, digit_pred());
            }
            let (q, pre, ne) = number_parts(&t, ns);
            if pre.len() > 0 {
                (q, pre)
            } else {
                let rest = slice_of(&t, ne, t.len());
                assert(rest@ =~= t@.skip(ne as int));
                (q, trim_of(&rest))
            }
        },
    }
}

/// Parses a simple amount (quantity + commodity) without price detection.
pub fn parse_simple_amount(amount: &str) -> (r: (String, String))
    ensures
        (r.0@, r.1@) == spec_parse_simple_amount(amount@),
{
    let a = to_chars(amount);
    let (q, c) = parse_simple_amount_chars(&a);
    (string_of(&q), string_of(&c))
}

/// Character index of a rate token (`@` or `@@`): its first occurrence,
/// accepted only at the start or after a space; otherwise -1.
pub open spec fn rate_token_index(s: Seq<char>, tok: Seq<char>) -> int {
    let k = find_sub(s, tok);
    if k < 0 {
        -1
    } else if k == 0 || s[k - 1] == ' ' {
        k
    } else {
        -1
    }
}

pub fn rate_token_index_of(s: &Vec<char>, tok: &Vec<char>) -> (r: Option<usize>)
    ensures
        match r {
            Some(k) => rate_token_index(s@, tok@) == k && k < s.len() + 1,
            None => rate_token_index(s@, tok@) == -1,
        },
{
    match find_chars(s, tok) {
        None => None,
        Some(k) => {
            proof {
                crate::text::lemma_find_sub_occurs(s@, tok@);
            }
            if k == 0 || s[k - 1] == ' ' {
                Some(k)
            } else {
                None
            }
        },
    }
}

/// Finds the position of a rate token (`@` or `@@`) that is preceded by a
/// space or stands at the start; the position is a byte offset.
pub fn rate_token_pos(suffix: &str, token: &str) -> (r: Option<usize>)
    requires
        byte_len(suffix@) <= usize::MAX,
    ensures
        match r {
            Some(p) => rate_token_index(suffix@, token@) >= 0 && p == byte_len(
                suffix@.take(rate_token_index(suffix@, token@)),
            ),
            None => rate_token_index(suffix@, token@) == -1,
        },
{
    let s = to_chars(suffix);
    let t = to_chars(token);
    match rate_token_index_of(&s, &t) {
        None => None,
        Some(k) => {
            proof {
                crate::text::lemma_find_sub_occurs(s@, t@);
                crate::text::lemma_byte_len_mono(s@, k as int);
            }
            Some(byte_len_of(&s, k))
        },
    }
}

} // verus!

verus! {

/// A total price (`@@`) turned into a unit price: the price divided by the
/// absolute quantity, eight decimals at most, followed by the price's
/// commodity; the price text as written when either number is zero.
pub open spec fn spec_unit_price_from_total(price_raw: Seq<char>, quantity: Seq<char>, comma_mark: bool) -> Seq<char> {
    let (pq, pc) = spec_parse_simple_amount(price_raw);
    match quotient_text(normalized_number(pq, comma_mark), normalized_number(quantity, comma_mark)) {
        Some(text) => if pc.len() == 0 { text } else { text + seq![' '] + pc },
        None => price_raw,
    }
}

/// The commodity and the unit price that follow a quantity: with `@@` the
/// total price is turned into a unit price, with `@` the unit price is kept
/// as written; a commodity before the token wins over the price's one.
/// Without a rate token, the whole suffix is the commodity.
pub open spec fn spec_extract_price(suffix: Seq<char>, quantity: Seq<char>, comma_mark: bool) -> (Seq<char>, Seq<char>) {
    let t = trim(suffix);
    if t.len() == 0 {
        (seq![], seq![])
    } else {
        let p2 = rate_token_index(t, seq!['@', '@']);
        if p2 >= 0 {
            let explicit = trim(t.take(p2));
            let price_raw = trim(t.skip(p2 + 2));
            let unit = spec_unit_price_from_total(price_raw, quantity, comma_mark);
            (if explicit.len() == 0 { spec_parse_simple_amount(price_raw).1 } else { explicit }, unit)
        } else {
            let p1 = rate_token_index(t, seq!['@']);
            if p1 >= 0 {
                let explicit = trim(t.take(p1));
                let unit = trim(t.skip(p1 + 1));
                (if explicit.len() == 0 { spec_parse_simple_amount(unit).1 } else { explicit }, unit)
            } else {
                (t, seq![])
            }
        }
    }
}

/// An hledger amount: its signed quantity, its commodity, and its unit price.
pub open spec fn spec_parse_posting_amount(amount: Seq<char>, comma_mark: bool) -> (Seq<char>, Seq<char>, Seq<char>) {
    let t = trim(amount);
    if t.len() == 0 {
        (seq![], seq![], seq![])
    } else {
        let ns = first_match(t, digit_pred());
        if ns < 0 {
            (t, seq![], seq![])
        } else {
            let ne = number_end(t, ns);
            let q = sign_of_prefix(t, ns) + t.subrange(ns, ne);
            let pre = prefix_commodity(t, ns);
            let (sc, unit) = spec_extract_price(trim(t.skip(ne)), q, comma_mark);
            (q, if pre.len() > 0 { pre } else { sc }, unit)
        }
    }
}

fn at_at() -> (r: Vec<char>)
    ensures
        r@ == seq!['@', '@'],
{
    let mut r: Vec<char> = Vec::new();
    r.push('@');
    r.push('@');
    r
}

fn at_one() -> (r: Vec<char>)
    ensures
        r@ == seq!['@'],
{
    let mut r: Vec<char> = Vec::new();
    r.push('@');
    r
}

pub fn compute_unit_price_from_total_chars(price_raw: &Vec<char>, quantity: &Vec<char>, comma_mark: bool) -> (r: Vec<char>)
    ensures
        r@ == spec_unit_price_from_total(price_raw@, quantity@, comma_mark),
{
    let (pq, pc) = parse_simple_amount_chars(price_raw);
    let pn = normalize_number(&pq, comma_mark);
    let qn = normalize_number(quantity, comma_mark);
    match quotient_text_of(&pn, &qn) {
        Some(text) => {
            if pc.len() == 0 {
                text
            } else {
                let mut out = text;
                out.push(' ');
                push_all(&mut out, &pc);
                out
            }
        },
        None => price_raw.clone(),
    }
}

/// Converts a total price (`@@`) to a unit price by dividing by the quantity.
pub fn compute_unit_price_from_total(price_raw: &str, quantity: &str, ctx: &StyleContext) -> (r: String)
    ensures
        r@ == spec_unit_price_from_total(price_raw@, quantity@, ctx.comma_mark()),
{
    let p = to_chars(price_raw);
    let q = to_chars(quantity);
    let comma = ctx.has_comma_mark();
    string_of(&compute_unit_price_from_total_chars(&p, &q, comma))
}

pub fn extract_price_chars(suffix: &Vec<char>, quantity: &Vec<char>, comma_mark: bool) -> (r: (Vec<char>, Vec<char>))
    ensures
        (r.0@, r.1@) == spec_extract_price(suffix@, quantity@, comma_mark),
{
    let t = trim_of(suffix);
    if t.len() == 0 {
        return (Vec::new(), Vec::new());
    }
    let aa = at_at();
    match rate_token_index_of(&t, &aa) {
        Some(pos) => {
            proof {
                crate::text::lemma_find_sub_occurs(t@, aa@);
            }
            let head = slice_of(&t, 0, pos);
            let explicit = trim_of(&head);
            let tail = slice_of(&t, pos + 2, t.len());
            let price_raw = trim_of(&tail);
            assert(head@ =~= t@.take(pos as int));
            assert(tail@ =~= t@.skip(pos + 2));
            let unit = compute_unit_price_from_total_chars(&price_raw, quantity, comma_mark);
            let commodity = if explicit.len() == 0 {
                parse_simple_amount_chars(&price_raw).1
            } else {
                explicit
            };
            (commodity, unit)
        },
        None => {
            let a = at_one();
            match rate_token_index_of(&t, &a) {
                Some(pos) => {
                    proof {
                        crate::text::lemma_find_sub_occurs(t@, a@);
                    }
                    let head = slice_of(&t, 0, pos);
                    let explicit = trim_of(&head);
                    let tail = slice_of(&t, pos + 1, t.len());
                    let unit = trim_of(&tail);
                    assert(head@ =~= t@.take(pos as int));
                    assert(tail@ =~= t@.skip(pos + 1));
                    let commodity = if explicit.len() == 0 {
                        parse_simple_amount_chars(&unit).1
                    } else {
                        explicit
                    };
                    (commodity, unit)
                },
                None => (t, Vec::new()),
            }
        },
    }
}

/// Extracts price information from the suffix of a parsed amount; returns
/// the commodity and the unit price.
pub fn extract_price(suffix: &str, quantity: &str, ctx: &StyleContext) -> (r: (String, String))
    ensures
        (r.0@, r.1@) == spec_extract_price(suffix@, quantity@, ctx.comma_mark()),
{
    let s = to_chars(suffix);
    let q = to_chars(quantity);
    let comma = ctx.has_comma_mark();
    let (c, u) = extract_price_chars(&s, &q, comma);
    (string_of(&c), string_of(&u))
}

/// Quantity, commodity and unit price of an hledger amount.
#[derive(Debug, Clone, PartialEq, Eq)]
pub struct ParsedAmount {
    pub quantity: String,
    pub commodity: String,
    pub unit_price: String,
}

pub fn parse_posting_amount_chars(amount: &Vec<char>, comma_mark: bool) -> (r: (Vec<char>, Vec<char>, Vec<char>))
    ensures
        (r.0@, r.1@, r.2@) == spec_parse_posting_amount(amount@, comma_mark),
{
    let t = trim_of(amount);
    if t.len() == 0 {
        return (Vec::new(), Vec::new(), Vec::new());
    }
    match find_digit(&t) {
        None => (t, Vec::new(), Vec::new()),
        Some(ns) => {
            proof {
                lemma_first_match_props(t@, digit_pred());
            }
            let (q, pre, ne) = number_parts(&t, ns);
            let rest = slice_of(&t, ne, t.len());
            assert(rest@ =~= t@.skip(ne as int));
            let suffix = trim_of(&rest);
            let (sc, unit) = extract_price_chars(&suffix, &q, comma_mark);
            if pre.len() > 0 {
                (q, pre, unit)
            } else {
                (q, sc, unit)
            }
        },
    }
}

/// Parses an hledger amount into quantity, commodity, and unit price;
/// handles both `@` (unit price) and `@@` (total price) syntax.
pub fn parse_posting_amount(amount: &str, ctx: &StyleContext) -> (r: ParsedAmount)
    ensures
        (r.quantity@, r.commodity@, r.unit_price@) == spec_parse_posting_amount(amount@, ctx.comma_mark()),
{
    let a = to_chars(amount);
    let comma = ctx.has_comma_mark();
    let (q, c, u) = parse_posting_amount_chars(&a, comma);
    ParsedAmount { quantity: string_of(&q), commodity: string_of(&c), unit_price: string_of(&u) }
}

} // verus!

verus! {

/// Start of the whitespace run that ends just before index `i`.
pub open spec fn ws_run_start(s: Seq<char>, i: int) -> int {
    last_match(s.take(i), non_ws_pred()) + 1
}

/// A non-whitespace character preceded by whitespace worth at least two
/// bytes: where an account ends and its amount begins.
pub open spec fn is_split_point(s: Seq<char>, i: int) -> bool {
    &&& 0 < i < s.len()
    &&& !is_ws(s[i])
    &&& is_ws(s[i - 1])
    &&& byte_len(s.subrange(ws_run_start(s, i), i)) >= 2
}

/// A posting split into account and amount at its first split point.
pub open spec fn spec_split_posting_account_amount(s: Seq<char>) -> (Seq<char>, Seq<char>) {
    if exists|i: int| is_split_point(s, i) {
        let i = choose|i: int| is_split_point(s, i) && forall|j: int| 0 <= j < i ==> !is_split_point(s, j);
        (s.take(ws_run_start(s, i)), s.skip(i))
    } else {
        (s, seq![])
    }
}

pub fn split_posting_account_amount_chars(s: &Vec<char>) -> (r: (Vec<char>, Vec<char>))
    ensures
        (r.0@, r.1@) == spec_split_posting_account_amount(s@),
{
    let mut start: Option<usize> = None;
    let mut wl: usize = 0;
    let mut i: usize = 0;
    while i < s.len()
        invariant
            0 <= i <= s.len(),
            forall|j: int| 0 <= j < i ==> !is_split_point(s@, j),
            match start {
                Some(st) => i > 0 && is_ws(s@[i - 1]) && st == ws_run_start(s@, i as int) && st < i
                    && wl == (if byte_len(s@.subrange(st as int, i as int)) >= 2 { 2 } else {
                    byte_len(s@.subrange(st as int, i as int)) }),
                None => (i == 0 || !is_ws(s@[i - 1])) && wl == 0,
            },
        decreases s.len() - i,
    {
        let c = s[i];
        assert(s@.take(i + 1).drop_last() =~= s@.take(i as int));
        if char_is_ws(c) {
            let st = match start {
                Some(st) => st,
                None => {
                    proof {
                        if i > 0 {
                            assert(s@.take(i as int).last() == s@[i - 1]);
                        }
                    }
                    i
                },
            };
            proof {
                let t1 = s@.take(i + 1);
                assert(t1.last() == c);
                assert(t1.drop_last() =~= s@.take(i as int));
                assert(last_match(t1, non_ws_pred()) == last_match(s@.take(i as int), non_ws_pred()));
                if start is None && i > 0 {
                    assert(s@.take(i as int).last() == s@[i - 1]);
                    assert(last_match(s@.take(i as int), non_ws_pred()) == i - 1);
                }
                if start is None && i == 0 {
                    assert(last_match(s@.take(i as int), non_ws_pred()) == -1);
                }
                assert(s@.subrange(st as int, i + 1).drop_last() =~= s@.subrange(st as int, i as int));
                assert(s@.subrange(st as int, i + 1).last() == c);
                assert(byte_len(s@.subrange(st as int, i + 1)) == byte_len(s@.subrange(st as int, i as int)) + utf8_len(c));
                if start is None {
                    assert(s@.subrange(st as int, i as int) =~= Seq::<char>::empty());
                }
            }
            start = Some(st);
            let add = utf8_len_of(c);
            wl = if wl + add >= 2 { 2 } else { wl + add };
            i += 1;
        } else {
            match start {
                Some(st) => {
                    if wl >= 2 {
                        proof {
                            assert(is_split_point(s@, i as int));
                            crate::text::lemma_exists_min(|k: int| is_split_point(s@, k), i as int);
                            let m = choose|m: int| is_split_point(s@, m) && forall|j: int| 0 <= j < m ==> !is_split_point(s@, j);
                            if m < i {
                                assert(!is_split_point(s@, m));
                            }
                            if m > i {
                                assert(!is_split_point(s@, i as int));
                            }
                        }
                        let a = slice_of(s, 0, st);
                        let b = slice_of(s, i, s.len());
                        assert(a@ =~= s@.take(st as int));
                        assert(b@ =~= s@.skip(i as int));
                        return (a, b);
                    }
                },
                None => {},
            }
            start = None;
            wl = 0;
            i += 1;
        }
    }
    (s.clone(), Vec::new())
}

/// Splits a posting into account and amount using hledger's spacing
/// convention (at least two spaces, or a tab, between them).
pub fn split_posting_account_amount(value: &str) -> (r: (String, String))
    ensures
        (r.0@, r.1@) == spec_split_posting_account_amount(value@),
{
    let v = to_chars(value);
    let (a, b) = split_posting_account_amount_chars(&v);
    (string_of(&a), string_of(&b))
}

/// A line that starts (after indentation) with an ASCII digit opens a
/// transaction.
pub open spec fn spec_is_transaction_header(line: Seq<char>) -> bool {
    let t = trim_start(line);
    t.len() > 0 && is_digit(t[0])
}

pub fn is_transaction_header_chars(line: &Vec<char>) -> (r: bool)
    ensures
        r == spec_is_transaction_header(line@),
{
    let t = trim_start_of(line);
    if t.len() == 0 || t[0] == ';' || t[0] == '#' {
        return false;
    }
    char_is_digit(t[0])
}

/// Returns true when a line appears to start a ledger transaction.
pub fn is_transaction_header(line: &str) -> (r: bool)
    ensures
        r == spec_is_transaction_header(line@),
{
    let l = to_chars(line);
    is_transaction_header_chars(&l)
}

} // verus!

verus! {

/// A posting line: indented, not blank, not a comment; its account, amount
/// fields and inline comment.
#[verifier::opaque]
pub open spec fn spec_parse_posting(line: Seq<char>, comma_mark: bool) -> Option<PostingSpec> {
    let t = trim(line);
    if t.len() == 0 || !is_ws(line[0]) || t[0] == ';' {
        None
    } else {
        let (content, comment) = spec_split_inline_comment(t);
        let (account, amount) = spec_split_posting_account_amount(content);
        let (q, c, u) = spec_parse_posting_amount(amount, comma_mark);
        Some(PostingSpec { account: trim(account), amount: q, commodity: c, unit_price: u, comment, raw: line })
    }
}

pub fn parse_posting_chars(line: &Vec<char>, comma_mark: bool) -> (r: Option<JournalPosting>)
    ensures
        match r {
            Some(p) => spec_parse_posting(line@, comma_mark) == Some(p@),
            None => spec_parse_posting(line@, comma_mark).is_none(),
        },
{
    reveal(spec_parse_posting);
    let t = trim_of(line);
    if t.len() == 0 || !char_is_ws(line[0]) || t[0] == ';' {
        return None;
    }
    let (content, comment) = split_inline_comment_chars(&t);
    let (account, amount) = split_posting_account_amount_chars(&content);
    let (q, c, u) = parse_posting_amount_chars(&amount, comma_mark);
    let account = trim_of(&account);
    Some(JournalPosting {
        account: string_of(&account),
        amount: string_of(&q),
        commodity: string_of(&c),
        unit_price: string_of(&u),
        comment: string_of(&comment),
        raw: string_of(line),
    })
}

/// Parses one posting line while preserving the raw text.
pub fn parse_posting(line: &str, ctx: &StyleContext) -> (r: Option<JournalPosting>)
    ensures
        match r {
            Some(p) => spec_parse_posting(line@, ctx.comma_mark()) == Some(p@),
            None => spec_parse_posting(line@, ctx.comma_mark()).is_none(),
        },
{
    let l = to_chars(line);
    let comma = ctx.has_comma_mark();
    parse_posting_chars(&l, comma)
}

/// The postings read from a list of lines, skipping the lines that are not
/// postings.
pub open spec fn spec_postings(ls: Seq<Seq<char>>, comma_mark: bool) -> Seq<PostingSpec>
    decreases ls.len(),
{
    if ls.len() == 0 {
        seq![]
    } else {
        let r = spec_postings(ls.drop_last(), comma_mark);
        match spec_parse_posting(ls.last(), comma_mark) {
            Some(p) => r.push(p),
            None => r,
        }
    }
}

/// The status mark (`*` or `!`) at the start of the header rest.
pub open spec fn split_status(rem: Seq<char>) -> (Seq<char>, Seq<char>) {
    if rem.len() > 0 && (rem[0] == '*' || rem[0] == '!') {
        (rem.take(1), trim_start(rem.skip(1)))
    } else {
        (seq![], rem)
    }
}

/// The code in parentheses at the start of the header rest.
pub open spec fn split_code(rem: Seq<char>) -> (Seq<char>, Seq<char>) {
    let e = first_match(rem, char_pred(')'));
    if rem.len() > 0 && rem[0] == '(' && e >= 0 {
        (rem.take(e + 1), trim_start(rem.skip(e + 1)))
    } else {
        (seq![], rem)
    }
}

/// Date, status, code and description of a transaction header.
pub open spec fn spec_header_fields(header: Seq<char>) -> (Seq<char>, Seq<char>, Seq<char>, Seq<char>) {
    let (date, rest) = spec_split_first_token(header);
    let (status, r1) = split_status(trim_start(rest));
    let (code, r2) = split_code(r1);
    (date, status, code, r2)
}

/// The id of a block: its file and first line number.
pub open spec fn block_id(source_file: Seq<char>, start_line: nat) -> Seq<char> {
    source_file + seq![':'] + nat_digits(start_line)
}

/// A transaction block: the header fields of its first line and the postings
/// of the following lines.
pub open spec fn spec_parse_transaction_block(
    source_file: Seq<char>,
    start_line: nat,
    end_line: nat,
    raw: Seq<char>,
    comma_mark: bool,
) -> Option<TransactionSpec> {
    let ls = lines(raw);
    if ls.len() == 0 {
        None
    } else {
        let (date, status, code, description) = spec_header_fields(trim(ls[0]));
        Some(TransactionSpec {
            id: block_id(source_file, start_line),
            source_file,
            date,
            status,
            code,
            description,
            postings: spec_postings(ls.skip(1), comma_mark),
            raw,
            start_line,
            end_line,
        })
    }
}

} // verus!

verus! {

fn split_status_chars(rem: Vec<char>) -> (r: (Vec<char>, Vec<char>))
    ensures
        (r.0@, r.1@) == split_status(rem@),
{
    if rem.len() > 0 && (rem[0] == '*' || rem[0] == '!') {
        let st = slice_of(&rem, 0, 1);
        let tail = slice_of(&rem, 1, rem.len());
        assert(st@ =~= rem@.take(1));
        assert(tail@ =~= rem@.skip(1));
        (st, trim_start_of(&tail))
    } else {
        (Vec::new(), rem)
    }
}

fn split_code_chars(rem: Vec<char>) -> (r: (Vec<char>, Vec<char>))
    ensures
        (r.0@, r.1@) == split_code(rem@),
{
    let e = find_char(&rem, ')');
    proof {
        lemma_first_match_props(rem@, char_pred(')'));
    }
    if rem.len() > 0 && rem[0] == '(' {
        match e {
            Some(e) => {
                let code = slice_of(&rem, 0, e + 1);
                let tail = slice_of(&rem, e + 1, rem.len());
                assert(code@ =~= rem@.take(e + 1));
                assert(tail@ =~= rem@.skip(e + 1));
                return (code, trim_start_of(&tail));
            },
            None => {},
        }
    }
    (Vec::new(), rem)
}

fn postings_of_lines(ls: &Vec<Vec<char>>, from: usize, comma_mark: bool) -> (r: Vec<JournalPosting>)
    requires
        from <= ls.len(),
    ensures
        posting_views(r@) == spec_postings(views(ls@).skip(from as int), comma_mark),
{
    let mut r: Vec<JournalPosting> = Vec::new();
    let mut i: usize = from;
    while i < ls.len()
        invariant
            from <= i <= ls.len(),
            posting_views(r@) == spec_postings(views(ls@).subrange(from as int, i as int), comma_mark),
        decreases ls.len() - i,
    {
        let ghost before = r@;
        proof {
            assert(views(ls@).subrange(from as int, i + 1).drop_last() =~= views(ls@).subrange(from as int, i as int));
            assert(views(ls@).subrange(from as int, i + 1).last() == ls@[i as int]@);
        }
        match parse_posting_chars(&ls[i], comma_mark) {
            Some(p) => {
                r.push(p);
                assert(posting_views(r@) =~= posting_views(before).push(p@));
            },
            None => {},
        }
        i += 1;
    }
    assert(views(ls@).subrange(from as int, ls.len() as int) =~= views(ls@).skip(from as int));
    r
}

/// `text:number`.
pub fn id_of(source_file: &Vec<char>, start_line: usize) -> (r: Vec<char>)
    ensures
        r@ == block_id(source_file@, start_line as nat),
{
    let mut id = source_file.clone();
    assert(id@ =~= source_file@);
    id.push(':');
    let digits = nat_digits_of(start_line as u128);
    push_all(&mut id, &digits);
    id
}

pub fn parse_transaction_block_chars(
    source_file: &Vec<char>,
    start_line: usize,
    end_line: usize,
    raw: &Vec<char>,
    comma_mark: bool,
) -> (r: Option<ParsedTransaction>)
    ensures
        match r {
            Some(t) => spec_parse_transaction_block(source_file@, start_line as nat, end_line as nat, raw@, comma_mark) == Some(t@),
            None => spec_parse_transaction_block(source_file@, start_line as nat, end_line as nat, raw@, comma_mark).is_none(),
        },
{
    let ls = lines_of(raw);
    if ls.len() == 0 {
        return None;
    }
    assert(views(ls@)[0] == ls@[0]@);
    let header = trim_of(&ls[0]);
    let (date, rest) = split_first_token_chars(&header);
    let rem = trim_start_of(&rest);
    let (status, rem) = split_status_chars(rem);
    let (code, description) = split_code_chars(rem);
    let postings = postings_of_lines(&ls, 1, comma_mark);
    let id = id_of(source_file, start_line);
    let t = ParsedTransaction {
        id: string_of(&id),
        source_file: string_of(source_file),
        date: string_of(&date),
        status: string_of(&status),
        code: string_of(&code),
        description: string_of(&description),
        postings,
        raw: string_of(raw),
        start_line,
        end_line,
    };
    assert(t@ == spec_parse_transaction_block(source_file@, start_line as nat, end_line as nat, raw@, comma_mark).unwrap());
    Some(t)
}

/// Parses one transaction block.
pub fn parse_transaction_block(
    source_path: &str,
    start_line: usize,
    end_line: usize,
    raw: &str,
    ctx: &StyleContext,
) -> (r: Option<ParsedTransaction>)
    ensures
        match r {
            Some(t) => spec_parse_transaction_block(source_path@, start_line as nat, end_line as nat, raw@, ctx.comma_mark()) == Some(t@),
            None => spec_parse_transaction_block(source_path@, start_line as nat, end_line as nat, raw@, ctx.comma_mark()).is_none(),
        },
{
    let s = to_chars(source_path);
    let r = to_chars(raw);
    let comma = ctx.has_comma_mark();
    parse_transaction_block_chars(&s, start_line, end_line, &r, comma)
}

} // verus!

verus! {

/// Index of the first transaction header at or after `from`, or the number
/// of lines.
pub open spec fn next_header(ls: Seq<Seq<char>>, from: int) -> int
    decreases ls.len() - from,
{
    if from < 0 || from >= ls.len() {
        ls.len() as int
    } else if spec_is_transaction_header(ls[from]) {
        from
    } else {
        next_header(ls, from + 1)
    }
}

pub proof fn lemma_next_header_bounds(ls: Seq<Seq<char>>, from: int)
    requires
        0 <= from,
    ensures
        from <= next_header(ls, from) || next_header(ls, from) == ls.len(),
        next_header(ls, from) <= ls.len(),
        next_header(ls, from) >= from || from > ls.len(),
    decreases ls.len() - from,
{
    if from < ls.len() && !spec_is_transaction_header(ls[from]) {
        lemma_next_header_bounds(ls, from + 1);
    }
}

/// The transaction blocks of the lines from `index` on: each block runs from
/// a header to the line before the next header.
pub open spec fn spec_transactions_from(
    ls: Seq<Seq<char>>,
    index: int,
    source_file: Seq<char>,
    comma_mark: bool,
) -> Seq<TransactionSpec>
    decreases ls.len() - index,
{
    let h = next_header(ls, index);
    if index < 0 || h >= ls.len() {
        seq![]
    } else {
        proof {
            lemma_next_header_bounds(ls, index);
            lemma_next_header_bounds(ls, h + 1);
        }
        let e = next_header(ls, h + 1);
        let raw = crate::text::join_lines(ls.subrange(h, e));
        let rest = spec_transactions_from(ls, e, source_file, comma_mark);
        match spec_parse_transaction_block(source_file, (h + 1) as nat, e as nat, raw, comma_mark) {
            Some(t) => seq![t] + rest,
            None => rest,
        }
    }
}

pub open spec fn transaction_views(v: Seq<ParsedTransaction>) -> Seq<TransactionSpec> {
    v.map_values(|t: ParsedTransaction| t@)
}

pub fn parse_transactions_chars(content: &Vec<char>, source_file: &Vec<char>, comma_mark: bool) -> (r: Vec<ParsedTransaction>)
    ensures
        transaction_views(r@) == spec_transactions_from(lines(content@), 0, source_file@, comma_mark),
{
    let ls = lines_of(content);
    let ghost lv = views(ls@);
    let mut r: Vec<ParsedTransaction> = Vec::new();
    let mut index: usize = 0;
    while index < ls.len()
        invariant
            lv == views(ls@),
            lv == lines(content@),
            0 <= index <= ls.len(),
            spec_transactions_from(lv, 0, source_file@, comma_mark)
                == transaction_views(r@) + spec_transactions_from(lv, index as int, source_file@, comma_mark),
        decreases ls.len() - index,
    {
        assert(lv[index as int] == ls@[index as int]@);
        if !is_transaction_header_chars(&ls[index]) {
            assert(next_header(lv, index as int) == next_header(lv, index + 1));
            assert(spec_transactions_from(lv, index as int, source_file@, comma_mark)
                == spec_transactions_from(lv, index + 1, source_file@, comma_mark));
            index += 1;
            continue;
        }
        let start_line = index + 1;
        let mut end_index: usize = index + 1;
        while end_index < ls.len() && !is_transaction_header_chars(&ls[end_index])
            invariant
                lv == views(ls@),
                index < end_index <= ls.len(),
                next_header(lv, index + 1) == next_header(lv, end_index as int),
            decreases ls.len() - end_index,
        {
            assert(lv[end_index as int] == ls@[end_index as int]@);
            end_index += 1;
        }
        proof {
            if end_index < ls.len() {
                assert(lv[end_index as int] == ls@[end_index as int]@);
            }
            assert(next_header(lv, end_index as int) == end_index);
            assert(next_header(lv, index as int) == index);
        }
        let raw = crate::text::join_lines_of(&ls, index, end_index);
        let ghost before = r@;
        match parse_transaction_block_chars(source_file, start_line, end_index, &raw, comma_mark) {
            Some(t) => {
                r.push(t);
                assert(transaction_views(r@) =~= transaction_views(before) + seq![t@]);
            },
            None => {},
        }
        proof {
            assert(spec_transactions_from(lv, index as int, source_file@, comma_mark)
                == transaction_views(r@).skip(before.len() as int) + spec_transactions_from(lv, end_index as int, source_file@, comma_mark)) by {
                assert(transaction_views(r@).skip(before.len() as int) =~= transaction_views(r@).subrange(before.len() as int, r@.len() as int));
            }
            assert(transaction_views(r@) =~= transaction_views(before) + transaction_views(r@).skip(before.len() as int));
        }
        index = end_index;
    }
    proof {
        assert(spec_transactions_from(lv, index as int, source_file@, comma_mark) =~= seq![]);
    }
    r
}

/// Parses the transaction blocks of a journal file, without reinterpreting
/// ledger semantics.
pub fn parse_transactions(content: &str, source_path: &str, ctx: &StyleContext) -> (r: Vec<ParsedTransaction>)
    ensures
        transaction_views(r@) == spec_transactions_from(lines(content@), 0, source_path@, ctx.comma_mark()),
{
    let c = to_chars(content);
    let s = to_chars(source_path);
    let comma = ctx.has_comma_mark();
    parse_transactions_chars(&c, &s, comma)
}

} // verus!

verus! {

/// A block as `spec_transactions_from` reads it: it starts at a header line,
/// runs to the line before the next header (or to the end), and its text is
/// those lines.
pub open spec fn is_header_block(ls: Seq<Seq<char>>, t: TransactionSpec) -> bool {
    &&& 1 <= t.start_line <= t.end_line <= ls.len()
    &&& spec_is_transaction_header(ls[t.start_line - 1])
    &&& forall|j: int| t.start_line <= j < t.end_line ==> !spec_is_transaction_header(#[trigger] ls[j])
    &&& (t.end_line == ls.len() || spec_is_transaction_header(ls[t.end_line as int]))
    &&& t.raw == crate::text::join_lines(ls.subrange(t.start_line - 1, t.end_line as int))
}

proof fn lemma_next_header_props(ls: Seq<Seq<char>>, from: int)
    requires
        0 <= from,
    ensures
        forall|j: int| from <= j < next_header(ls, from) && j < ls.len() ==> !spec_is_transaction_header(#[trigger] ls[j]),
        next_header(ls, from) < ls.len() ==> spec_is_transaction_header(ls[next_header(ls, from)]),
    decreases ls.len() - from,
{
    if from < ls.len() && !spec_is_transaction_header(ls[from]) {
        lemma_next_header_props(ls, from + 1);
    }
}

proof fn lemma_join_lines_starts(xs: Seq<Seq<char>>)
    requires
        xs.len() > 0,
    ensures
        crate::text::join_lines(xs).len() >= xs[0].len(),
    decreases xs.len(),
{
    if xs.len() > 1 {
        lemma_join_lines_starts(xs.drop_last());
    }
}

/// The transactions read from the lines from `index` on: one per header line
/// at or after `index`, in order, each the block of `is_header_block`.
pub proof fn lemma_blocks_from(ls: Seq<Seq<char>>, index: int, source_file: Seq<char>, comma_mark: bool)
    requires
        0 <= index <= ls.len(),
    ensures
        forall|k: int| 0 <= k < spec_transactions_from(ls, index, source_file, comma_mark).len() ==> is_header_block(
            ls,
            #[trigger] spec_transactions_from(ls, index, source_file, comma_mark)[k],
        ) && spec_transactions_from(ls, index, source_file, comma_mark)[k].start_line > index,
        forall|h: int| index <= h < ls.len() && spec_is_transaction_header(#[trigger] ls[h]) ==> exists|k: int|
            0 <= k < spec_transactions_from(ls, index, source_file, comma_mark).len()
                && #[trigger] spec_transactions_from(ls, index, source_file, comma_mark)[k].start_line == h + 1,
        forall|a: int, b: int| 0 <= a < b < spec_transactions_from(ls, index, source_file, comma_mark).len() ==> (
        #[trigger] spec_transactions_from(ls, index, source_file, comma_mark)[a]).end_line < (
        #[trigger] spec_transactions_from(ls, index, source_file, comma_mark)[b]).start_line,
    decreases ls.len() - index,
{
    let ts = spec_transactions_from(ls, index, source_file, comma_mark);
    let h = next_header(ls, index);
    lemma_next_header_bounds(ls, index);
    lemma_next_header_props(ls, index);
    if h < ls.len() {
        lemma_next_header_bounds(ls, h + 1);
        lemma_next_header_props(ls, h + 1);
        let e = next_header(ls, h + 1);
        let raw = crate::text::join_lines(ls.subrange(h, e));
        lemma_blocks_from(ls, e, source_file, comma_mark);
        let rest = spec_transactions_from(ls, e, source_file, comma_mark);
        assert(ls.subrange(h, e)[0] == ls[h]);
        assert(ls[h].len() > 0);
        lemma_join_lines_starts(ls.subrange(h, e));
        assert(lines(raw).len() > 0);
        let t = spec_parse_transaction_block(source_file, (h + 1) as nat, e as nat, raw, comma_mark)->0;
        assert(ts == seq![t] + rest);
        assert(is_header_block(ls, t));
        assert forall|k: int| 0 <= k < ts.len() implies is_header_block(ls, #[trigger] ts[k]) && ts[k].start_line > index by {
            if k > 0 {
                assert(ts[k] == rest[k - 1]);
            }
        }
        assert forall|hh: int| index <= hh < ls.len() && spec_is_transaction_header(#[trigger] ls[hh]) implies exists|k: int|
            0 <= k < ts.len() && #[trigger] ts[k].start_line == hh + 1 by {
            if hh == h {
                assert(ts[0].start_line == hh + 1);
            } else {
                assert(hh >= e);
                let k = choose|k: int| 0 <= k < rest.len() && #[trigger] rest[k].start_line == hh + 1;
                assert(ts[k + 1] == rest[k]);
            }
        }
        assert forall|a: int, b: int| 0 <= a < b < ts.len() implies (#[trigger] ts[a]).end_line < (#[trigger] ts[b]).start_line by {
            assert(ts[b] == rest[b - 1]);
            if a > 0 {
                assert(ts[a] == rest[a - 1]);
            }
        }
    }
}

proof fn lemma_blocks_linked(ls: Seq<Seq<char>>, index: int, source_file: Seq<char>, comma_mark: bool)
    requires
        0 <= index <= ls.len(),
    ensures
        forall|k: int| 0 <= k < spec_transactions_from(ls, index, source_file, comma_mark).len() ==> (
        #[trigger] spec_transactions_from(ls, index, source_file, comma_mark)[k]).id == block_id(
            source_file,
            spec_transactions_from(ls, index, source_file, comma_mark)[k].start_line,
        ) && spec_transactions_from(ls, index, source_file, comma_mark)[k].source_file == source_file,
        forall|k: int| 0 <= k < spec_transactions_from(ls, index, source_file, comma_mark).len() - 1 ==> (
        #[trigger] spec_transactions_from(ls, index, source_file, comma_mark)[k + 1]).start_line
            == spec_transactions_from(ls, index, source_file, comma_mark)[k].end_line + 1,
        spec_transactions_from(ls, index, source_file, comma_mark).len() > 0 ==> spec_transactions_from(
            ls,
            index,
            source_file,
            comma_mark,
        ).last().end_line == ls.len(),
    decreases ls.len() - index,
{
    let ts = spec_transactions_from(ls, index, source_file, comma_mark);
    let h = next_header(ls, index);
    lemma_next_header_bounds(ls, index);
    lemma_next_header_props(ls, index);
    if h < ls.len() {
        lemma_next_header_bounds(ls, h + 1);
        lemma_next_header_props(ls, h + 1);
        let e = next_header(ls, h + 1);
        let raw = crate::text::join_lines(ls.subrange(h, e));
        lemma_blocks_linked(ls, e, source_file, comma_mark);
        let rest = spec_transactions_from(ls, e, source_file, comma_mark);
        assert(ls.subrange(h, e)[0] == ls[h]);
        assert(ls[h].len() > 0);
        lemma_join_lines_starts(ls.subrange(h, e));
        assert(lines(raw).len() > 0);
        let t = spec_parse_transaction_block(source_file, (h + 1) as nat, e as nat, raw, comma_mark)->0;
        assert(ts == seq![t] + rest);
        if e < ls.len() {
            assert(next_header(ls, e) == e);
            lemma_next_header_bounds(ls, e + 1);
            assert(rest.len() > 0);
            assert(rest[0].start_line == e + 1);
        } else {
            assert(next_header(ls, e) == ls.len());
            assert(rest.len() == 0);
        }
        assert forall|k: int| 0 <= k < ts.len() implies (#[trigger] ts[k]).id == block_id(source_file, ts[k].start_line)
            && ts[k].source_file == source_file by {
            if k > 0 {
                assert(ts[k] == rest[k - 1]);
            }
        }
        assert(t.end_line == e && t.start_line == h + 1);
        assert(ts[0] == t);
        assert(rest.len() > 0 ==> rest[0].start_line == e + 1);
        assert forall|k: int| 0 <= k < ts.len() - 1 implies (#[trigger] ts[k + 1]).start_line == ts[k].end_line + 1 by {
            assert(ts[k + 1] == rest[k]);
            if k > 0 {
                assert(ts[k] == rest[k - 1]);
                let j = k - 1;
                assert(rest[j + 1].start_line == rest[j].end_line + 1);
            }
        }
        if rest.len() > 0 {
            assert(ts.last() == rest.last());
        }
    }
}

/// Consecutive transactions of a journal file follow each other: each one's
/// block ends on the line before the next one's header, the last one ends
/// with the file, and each has the id `<file>:<start line>`.
pub proof fn law_transaction_blocks_follow_each_other(ls: Seq<Seq<char>>, source_file: Seq<char>, comma_mark: bool)
    ensures
        forall|k: int| 0 <= k < spec_transactions_from(ls, 0, source_file, comma_mark).len() ==> (
        #[trigger] spec_transactions_from(ls, 0, source_file, comma_mark)[k]).id == block_id(
            source_file,
            spec_transactions_from(ls, 0, source_file, comma_mark)[k].start_line,
        ),
        forall|k: int| 0 <= k < spec_transactions_from(ls, 0, source_file, comma_mark).len() - 1 ==> (
        #[trigger] spec_transactions_from(ls, 0, source_file, comma_mark)[k + 1]).start_line
            == spec_transactions_from(ls, 0, source_file, comma_mark)[k].end_line + 1,
        spec_transactions_from(ls, 0, source_file, comma_mark).len() > 0 ==> spec_transactions_from(
            ls,
            0,
            source_file,
            comma_mark,
        ).last().end_line == ls.len(),
{
    lemma_blocks_linked(ls, 0, source_file, comma_mark);
}

/// A journal file reads as one transaction per header line, in order: each
/// starts at its header line and takes the lines up to the next header (or
/// the end of the file), and no two overlap.
pub proof fn law_transactions_are_header_blocks(ls: Seq<Seq<char>>, source_file: Seq<char>, comma_mark: bool)
    ensures
        forall|k: int| 0 <= k < spec_transactions_from(ls, 0, source_file, comma_mark).len() ==> is_header_block(
            ls,
            #[trigger] spec_transactions_from(ls, 0, source_file, comma_mark)[k],
        ),
        forall|h: int| 0 <= h < ls.len() && spec_is_transaction_header(#[trigger] ls[h]) ==> exists|k: int|
            0 <= k < spec_transactions_from(ls, 0, source_file, comma_mark).len()
                && #[trigger] spec_transactions_from(ls, 0, source_file, comma_mark)[k].start_line == h + 1,
        forall|a: int, b: int| 0 <= a < b < spec_transactions_from(ls, 0, source_file, comma_mark).len() ==> (
        #[trigger] spec_transactions_from(ls, 0, source_file, comma_mark)[a]).end_line < (
        #[trigger] spec_transactions_from(ls, 0, source_file, comma_mark)[b]).start_line,
{
    lemma_blocks_from(ls, 0, source_file, comma_mark);
}

} // verus!
