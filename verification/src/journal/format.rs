//! Writing postings, transactions and periodic rules as journal text.

use vstd::prelude::*;
use crate::amount_style::{AmountStyle, CommodityStyles};
use crate::journal::parser::{parse_posting_amount_chars, spec_parse_posting_amount};
use crate::journal::types::{input_views, PostingInput, PostingInputSpec, TransactionInput, TransactionInputSpec};
use crate::text::{
    all_alphabetic, all_alphabetic_of, join_lines, pad_right, pad_right_of, push_all, starts_with,
    string_of, to_chars, trim, trim_of, trim_start_char, trim_start_char_of,
};

verus! {

pub open spec fn sign_text(q: Seq<char>) -> Seq<char> {
    if q.len() > 0 && q[0] == '-' { seq!['-'] } else { seq![] }
}

pub open spec fn is_right(style: AmountStyle) -> bool {
    style.commodity_position@ == seq!['r', 'i', 'g', 'h', 't']
}

/// A quantity and a commodity placed as a declared style says.
pub open spec fn spec_format_with_style(q: Seq<char>, c: Seq<char>, style: AmountStyle) -> Seq<char> {
    let abs = trim_start_char(q, '-');
    let sep = if style.commodity_spaced { seq![' '] } else { seq![] };
    if is_right(style) {
        sign_text(q) + abs + sep + c
    } else {
        sign_text(q) + c + sep + abs
    }
}

/// A quantity and a commodity in hledger amount syntax: by the commodity's
/// declared style when there is one; else an alphabetic commodity follows
/// the quantity after a space and any other one precedes it.
pub open spec fn spec_format_quantity_and_commodity(q: Seq<char>, c: Seq<char>, styles: CommodityStyles) -> Seq<char> {
    if styles.has(c) {
        spec_format_with_style(q, c, styles.style_of(c))
    } else if all_alphabetic(c) {
        sign_text(q) + trim_start_char(q, '-') + seq![' '] + c
    } else {
        sign_text(q) + c + trim_start_char(q, '-')
    }
}

fn sign_text_of(q: &Vec<char>) -> (r: Vec<char>)
    ensures
        r@ == sign_text(q@),
{
    let mut r: Vec<char> = Vec::new();
    if q.len() > 0 && q[0] == '-' {
        r.push('-');
    }
    r
}

fn is_right_of(style: &AmountStyle) -> (r: bool)
    ensures
        r == is_right(*style),
{
    let p = to_chars(style.commodity_position.as_str());
    let mut right: Vec<char> = Vec::new();
    right.push('r');
    right.push('i');
    right.push('g');
    right.push('h');
    right.push('t');
    assert(right@ =~= seq!['r', 'i', 'g', 'h', 't']);
    crate::text::chars_eq(&p, &right)
}

pub fn format_with_style_chars(q: &Vec<char>, c: &Vec<char>, style: &AmountStyle) -> (r: Vec<char>)
    ensures
        r@ == spec_format_with_style(q@, c@, *style),
{
    let mut r = sign_text_of(q);
    let abs = trim_start_char_of(q, '-');
    if is_right_of(style) {
        push_all(&mut r, &abs);
        if style.commodity_spaced {
            r.push(' ');
        }
        push_all(&mut r, c);
    } else {
        push_all(&mut r, c);
        if style.commodity_spaced {
            r.push(' ');
        }
        push_all(&mut r, &abs);
    }
    assert(r@ =~= spec_format_with_style(q@, c@, *style));
    r
}

/// Formats a quantity and commodity with a given style.
pub fn format_quantity_and_commodity_with_style(quantity: &str, commodity: &str, style: &AmountStyle) -> (r: String)
    ensures
        r@ == spec_format_with_style(quantity@, commodity@, *style),
{
    let q = to_chars(quantity);
    let c = to_chars(commodity);
    string_of(&format_with_style_chars(&q, &c, style))
}

pub fn format_quantity_and_commodity_chars(q: &Vec<char>, c: &Vec<char>, styles: &CommodityStyles) -> (r: Vec<char>)
    ensures
        r@ == spec_format_quantity_and_commodity(q@, c@, *styles),
{
    let cs = string_of(c);
    match styles.get(cs.as_str()) {
        Some(style) => {
            let r = format_with_style_chars(q, c, &style);
            assert(crate::amount_style::same_style(style, styles.style_of(c@)));
            assert(spec_format_with_style(q@, c@, style) == spec_format_with_style(q@, c@, styles.style_of(c@)));
            r
        },
        None => {
            let mut r = sign_text_of(q);
            let abs = trim_start_char_of(q, '-');
            if all_alphabetic_of(c) {
                push_all(&mut r, &abs);
                r.push(' ');
                push_all(&mut r, c);
            } else {
                push_all(&mut r, c);
                push_all(&mut r, &abs);
            }
            assert(r@ =~= spec_format_quantity_and_commodity(q@, c@, *styles));
            r
        },
    }
}

/// Formats a quantity and commodity into hledger amount syntax, using the
/// declared style of the commodity when there is one.
pub fn format_quantity_and_commodity(quantity: &str, commodity: &str, styles: &CommodityStyles) -> (r: String)
    ensures
        r@ == spec_format_quantity_and_commodity(quantity@, commodity@, *styles),
{
    let q = to_chars(quantity);
    let c = to_chars(commodity);
    string_of(&format_quantity_and_commodity_chars(&q, &c, styles))
}

/// The quantity written in a posting amount, and the commodity to show with
/// it: the amount's own one, else the posting's commodity field.
pub open spec fn posting_quantity_and_commodity(amount: Seq<char>, commodity: Seq<char>) -> (Seq<char>, Seq<char>) {
    let (q, c, u) = spec_parse_posting_amount(amount, false);
    (trim(q), if trim(c).len() == 0 { trim(commodity) } else { trim(c) })
}

/// The amount text of a posting from its quantity and selected commodity.
pub open spec fn spec_amount_from_quantity(q: Seq<char>, selected: Seq<char>, styles: CommodityStyles) -> Seq<char> {
    if q.len() == 0 {
        seq![]
    } else if selected.len() == 0 {
        q
    } else {
        spec_format_quantity_and_commodity(q, selected, styles)
    }
}

pub fn posting_quantity_and_commodity_chars(amount: &Vec<char>, commodity: &Vec<char>) -> (r: (Vec<char>, Vec<char>))
    ensures
        (r.0@, r.1@) == posting_quantity_and_commodity(amount@, commodity@),
{
    let (q, c, _u) = parse_posting_amount_chars(amount, false);
    let q = trim_of(&q);
    let c = trim_of(&c);
    if c.len() == 0 {
        (q, trim_of(commodity))
    } else {
        (q, c)
    }
}

/// The quantity of a posting amount and the commodity to write with it.
pub fn posting_quantity_and_commodity_of(amount: &str, commodity: &str) -> (r: (String, String))
    ensures
        (r.0@, r.1@) == posting_quantity_and_commodity(amount@, commodity@),
{
    let a = to_chars(amount);
    let c = to_chars(commodity);
    let (q, s) = posting_quantity_and_commodity_chars(&a, &c);
    (string_of(&q), string_of(&s))
}

pub fn amount_from_quantity_chars(q: &Vec<char>, selected: &Vec<char>, styles: &CommodityStyles) -> (r: Vec<char>)
    ensures
        r@ == spec_amount_from_quantity(q@, selected@, *styles),
{
    if q.len() == 0 {
        Vec::new()
    } else if selected.len() == 0 {
        q.clone()
    } else {
        format_quantity_and_commodity_chars(q, selected, styles)
    }
}

/// A posting line from its account, amount text, unit price and comment:
/// four spaces of indentation, the account padded to 40 characters, the
/// amount with `@ price`, and `  ; comment`.
pub open spec fn spec_posting_line(account: Seq<char>, amount_text: Seq<char>, unit_price: Seq<char>, comment: Seq<char>) -> Seq<char> {
    let amount = if trim(unit_price).len() > 0 && trim(amount_text).len() > 0 {
        amount_text + seq![' ', '@', ' '] + trim(unit_price)
    } else {
        amount_text
    };
    let line = if trim(amount).len() == 0 {
        seq![' ', ' ', ' ', ' '] + trim(account)
    } else {
        seq![' ', ' ', ' ', ' '] + pad_right(trim(account), 40) + seq![' '] + amount
    };
    if trim(comment).len() > 0 {
        line + seq![' ', ' ', ';', ' '] + trim(trim_start_char(trim(comment), ';'))
    } else {
        line
    }
}

pub fn posting_line_chars(account: &Vec<char>, amount_text: &Vec<char>, unit_price: &Vec<char>, comment: &Vec<char>) -> (r: Vec<char>)
    ensures
        r@ == spec_posting_line(account@, amount_text@, unit_price@, comment@),
{
    let up = trim_of(unit_price);
    let mut amount = amount_text.clone();
    assert(amount@ =~= amount_text@);
    let at = trim_of(amount_text);
    if up.len() > 0 && at.len() > 0 {
        amount.push(' ');
        amount.push('@');
        amount.push(' ');
        push_all(&mut amount, &up);
    }
    let ghost spec_amount = if trim(unit_price@).len() > 0 && trim(amount_text@).len() > 0 {
        amount_text@ + seq![' ', '@', ' '] + trim(unit_price@)
    } else {
        amount_text@
    };
    assert(amount@ =~= spec_amount);
    let amount_trimmed = trim_of(&amount);
    let acct = trim_of(account);
    let mut line: Vec<char> = Vec::new();
    line.push(' ');
    line.push(' ');
    line.push(' ');
    line.push(' ');
    if amount_trimmed.len() == 0 {
        push_all(&mut line, &acct);
    } else {
        let padded = pad_right_of(&acct, 40);
        push_all(&mut line, &padded);
        line.push(' ');
        push_all(&mut line, &amount);
    }
    let ghost spec_line = if trim(spec_amount).len() == 0 {
        seq![' ', ' ', ' ', ' '] + trim(account@)
    } else {
        seq![' ', ' ', ' ', ' '] + pad_right(trim(account@), 40) + seq![' '] + spec_amount
    };
    assert(line@ =~= spec_line);
    let ct = trim_of(comment);
    if ct.len() > 0 {
        line.push(' ');
        line.push(' ');
        line.push(';');
        line.push(' ');
        let a = trim_start_char_of(&ct, ';');
        let b = trim_of(&a);
        push_all(&mut line, &b);
    }
    assert(line@ =~= spec_posting_line(account@, amount_text@, unit_price@, comment@));
    line
}

/// A posting written with its quantity as entered.
pub open spec fn spec_format_posting_preserving(p: PostingInputSpec, styles: CommodityStyles) -> Seq<char> {
    let (q, selected) = posting_quantity_and_commodity(p.amount, p.commodity);
    spec_posting_line(p.account, spec_amount_from_quantity(q, selected, styles), p.unit_price, p.comment)
}

/// A posting written with its quantity replaced by `normalized`.
pub open spec fn spec_format_posting_normalized(p: PostingInputSpec, normalized: Seq<char>, styles: CommodityStyles) -> Seq<char> {
    let (q, selected) = posting_quantity_and_commodity(p.amount, p.commodity);
    spec_posting_line(p.account, spec_amount_from_quantity(normalized, selected, styles), p.unit_price, p.comment)
}

pub fn format_posting_preserving_chars(p: &PostingInput, styles: &CommodityStyles) -> (r: Vec<char>)
    ensures
        r@ == spec_format_posting_preserving(p@, *styles),
{
    let amount = to_chars(p.amount.as_str());
    let commodity = to_chars(p.commodity.as_str());
    let (q, selected) = posting_quantity_and_commodity_chars(&amount, &commodity);
    let text = amount_from_quantity_chars(&q, &selected, styles);
    let account = to_chars(p.account.as_str());
    let up = to_chars(p.unit_price.as_str());
    let comment = to_chars(p.comment.as_str());
    posting_line_chars(&account, &text, &up, &comment)
}

/// Formats a posting without normalizing its quantity.
pub fn format_posting_preserving_quantity(posting: &PostingInput, styles: &CommodityStyles) -> (r: String)
    ensures
        r@ == spec_format_posting_preserving(posting@, *styles),
{
    string_of(&format_posting_preserving_chars(posting, styles))
}

pub fn format_posting_normalized_chars(p: &PostingInput, normalized: &Vec<char>, styles: &CommodityStyles) -> (r: Vec<char>)
    ensures
        r@ == spec_format_posting_normalized(p@, normalized@, *styles),
{
    let amount = to_chars(p.amount.as_str());
    let commodity = to_chars(p.commodity.as_str());
    let (_q, selected) = posting_quantity_and_commodity_chars(&amount, &commodity);
    let text = amount_from_quantity_chars(normalized, &selected, styles);
    let account = to_chars(p.account.as_str());
    let up = to_chars(p.unit_price.as_str());
    let comment = to_chars(p.comment.as_str());
    posting_line_chars(&account, &text, &up, &comment)
}

/// Formats a posting whose quantity the caller has normalized with the
/// commodity's display style.
pub fn format_posting_with_normalized_quantity(posting: &PostingInput, normalized: &str, styles: &CommodityStyles) -> (r: String)
    ensures
        r@ == spec_format_posting_normalized(posting@, normalized@, *styles),
{
    let n = to_chars(normalized);
    string_of(&format_posting_normalized_chars(posting, &n, styles))
}

} // verus!

verus! {

/// `prefix` and the trimmed value, or nothing when the value is blank.
pub open spec fn opt_part(prefix: Seq<char>, v: Seq<char>) -> Seq<char> {
    if trim(v).len() > 0 { prefix + trim(v) } else { seq![] }
}

/// The first line of a transaction: date, status, code, description and an
/// optional comment, each trimmed and skipped when blank.
pub open spec fn spec_transaction_header(t: TransactionInputSpec, comment: Seq<char>) -> Seq<char> {
    trim(t.date) + opt_part(seq![' '], t.status) + opt_part(seq![' '], t.code) + opt_part(seq![' '], t.description)
        + opt_part(seq![' ', ' ', ';', ' '], comment)
}

/// The posting lines of the postings that name an account, quantities kept.
pub open spec fn preserved_posting_lines(ps: Seq<PostingInputSpec>, styles: CommodityStyles) -> Seq<Seq<char>>
    decreases ps.len(),
{
    if ps.len() == 0 {
        seq![]
    } else {
        let r = preserved_posting_lines(ps.drop_last(), styles);
        if trim(ps.last().account).len() > 0 {
            r.push(spec_format_posting_preserving(ps.last(), styles))
        } else {
            r
        }
    }
}

/// The posting lines of the postings that name an account, each with the
/// normalized quantity at its position.
pub open spec fn normalized_posting_lines(ps: Seq<PostingInputSpec>, ns: Seq<Seq<char>>, styles: CommodityStyles) -> Seq<Seq<char>>
    decreases ps.len(),
{
    if ps.len() == 0 {
        seq![]
    } else {
        let r = normalized_posting_lines(ps.drop_last(), ns, styles);
        if trim(ps.last().account).len() > 0 {
            r.push(spec_format_posting_normalized(ps.last(), ns[ps.len() - 1], styles))
        } else {
            r
        }
    }
}

pub fn push_opt_part(r: &mut Vec<char>, prefix: &Vec<char>, v: &Vec<char>)
    ensures
        final(r)@ == old(r)@ + opt_part(prefix@, v@),
{
    let t = trim_of(v);
    if t.len() > 0 {
        push_all(r, prefix);
        push_all(r, &t);
    } else {
        assert(opt_part(prefix@, v@) =~= seq![]);
        assert(r@ =~= old(r)@ + seq![]);
    }
}

fn one_space() -> (r: Vec<char>)
    ensures
        r@ == seq![' '],
{
    let mut r: Vec<char> = Vec::new();
    r.push(' ');
    r
}

fn comment_mark() -> (r: Vec<char>)
    ensures
        r@ == seq![' ', ' ', ';', ' '],
{
    let mut r: Vec<char> = Vec::new();
    r.push(' ');
    r.push(' ');
    r.push(';');
    r.push(' ');
    r
}

pub fn transaction_header_chars(input: &TransactionInput, comment: &Vec<char>) -> (r: Vec<char>)
    ensures
        r@ == spec_transaction_header(input@, comment@),
{
    let date = to_chars(input.date.as_str());
    let mut r = trim_of(&date);
    let sp = one_space();
    let status = to_chars(input.status.as_str());
    push_opt_part(&mut r, &sp, &status);
    let code = to_chars(input.code.as_str());
    push_opt_part(&mut r, &sp, &code);
    let desc = to_chars(input.description.as_str());
    push_opt_part(&mut r, &sp, &desc);
    let cm = comment_mark();
    push_opt_part(&mut r, &cm, comment);
    r
}

#[verifier::spinoff_prover]
#[verifier::rlimit(40)]
pub fn preserved_lines_of(ps: &Vec<PostingInput>, styles: &CommodityStyles) -> (r: Vec<Vec<char>>)
    ensures
        crate::text::views(r@) == preserved_posting_lines(input_views(ps@), *styles),
{
    let mut r: Vec<Vec<char>> = Vec::new();
    let mut i: usize = 0;
    while i < ps.len()
        invariant
            0 <= i <= ps.len(),
            crate::text::views(r@) == preserved_posting_lines(input_views(ps@).take(i as int), *styles),
        decreases ps.len() - i,
    {
        let ghost before = r@;
        proof {
            assert(input_views(ps@).take(i + 1).drop_last() =~= input_views(ps@).take(i as int));
            assert(input_views(ps@).take(i + 1).last() == ps@[i as int]@);
        }
        let account = to_chars(ps[i].account.as_str());
        let at = trim_of(&account);
        if at.len() > 0 {
            let line = format_posting_preserving_chars(&ps[i], styles);
            r.push(line);
            assert(crate::text::views(r@) =~= crate::text::views(before).push(line@));
        }
        i += 1;
    }
    assert(input_views(ps@).take(ps.len() as int) =~= input_views(ps@));
    r
}

fn normalized_lines_of(ps: &Vec<PostingInput>, ns: &Vec<String>, styles: &CommodityStyles) -> (r: Vec<Vec<char>>)
    requires
        ns.len() == ps.len(),
    ensures
        crate::text::views(r@) == normalized_posting_lines(input_views(ps@), ns@.map_values(|s: String| s@), *styles),
{
    let ghost nv = ns@.map_values(|s: String| s@);
    let mut r: Vec<Vec<char>> = Vec::new();
    let mut i: usize = 0;
    while i < ps.len()
        invariant
            0 <= i <= ps.len(),
            ns.len() == ps.len(),
            nv == ns@.map_values(|s: String| s@),
            crate::text::views(r@) == normalized_posting_lines(input_views(ps@).take(i as int), nv, *styles),
        decreases ps.len() - i,
    {
        let ghost before = r@;
        proof {
            assert(input_views(ps@).take(i + 1).drop_last() =~= input_views(ps@).take(i as int));
            assert(input_views(ps@).take(i + 1).last() == ps@[i as int]@);
            assert(nv[i as int] == ns@[i as int]@);
        }
        let account = to_chars(ps[i].account.as_str());
        let at = trim_of(&account);
        if at.len() > 0 {
            let n = to_chars(ns[i].as_str());
            let line = format_posting_normalized_chars(&ps[i], &n, styles);
            r.push(line);
            assert(crate::text::views(r@) =~= crate::text::views(before).push(line@));
        }
        i += 1;
    }
    assert(input_views(ps@).take(ps.len() as int) =~= input_views(ps@));
    r
}

pub fn join_header_and_lines(header: Vec<char>, lines: Vec<Vec<char>>) -> (r: Vec<char>)
    ensures
        r@ == join_lines(seq![header@] + crate::text::views(lines@)),
{
    let mut all: Vec<Vec<char>> = Vec::new();
    all.push(header);
    let mut i: usize = 0;
    while i < lines.len()
        invariant
            0 <= i <= lines.len(),
            crate::text::views(all@) == seq![header@] + crate::text::views(lines@).take(i as int),
        decreases lines.len() - i,
    {
        let ghost before = all@;
        all.push(lines[i].clone());
        proof {
            assert(crate::text::views(all@) =~= crate::text::views(before).push(lines@[i as int]@));
            assert(crate::text::views(lines@).take(i + 1) =~= crate::text::views(lines@).take(i as int).push(lines@[i as int]@));
        }
        i += 1;
    }
    assert(crate::text::views(lines@).take(lines.len() as int) =~= crate::text::views(lines@));
    let r = crate::text::join_lines_of(&all, 0, all.len());
    assert(crate::text::views(all@).subrange(0, all.len() as int) =~= crate::text::views(all@));
    r
}

/// A transaction written with the quantities of its postings as entered.
pub open spec fn spec_format_transaction_preserving(t: TransactionInputSpec, comment: Seq<char>, styles: CommodityStyles) -> Seq<char> {
    join_lines(seq![spec_transaction_header(t, comment)] + preserved_posting_lines(t.postings, styles))
}

/// A transaction written with the normalized quantities of its postings.
pub open spec fn spec_format_transaction_normalized(
    t: TransactionInputSpec,
    comment: Seq<char>,
    ns: Seq<Seq<char>>,
    styles: CommodityStyles,
) -> Seq<char> {
    join_lines(seq![spec_transaction_header(t, comment)] + normalized_posting_lines(t.postings, ns, styles))
}

/// Formats a transaction without normalizing posting quantities.
pub fn format_transaction_preserving_quantities(input: &TransactionInput, styles: &CommodityStyles) -> (r: String)
    ensures
        r@ == spec_format_transaction_preserving(input@, seq![], *styles),
{
    let none: Vec<char> = Vec::new();
    let header = transaction_header_chars(input, &none);
    let lines = preserved_lines_of(&input.postings, styles);
    string_of(&join_header_and_lines(header, lines))
}

/// Formats a transaction with an optional header comment, with the posting
/// quantities the caller normalized (one per posting).
pub fn format_transaction_with_comment_and_normalized_quantities(
    input: &TransactionInput,
    comment: &str,
    normalized: &Vec<String>,
    styles: &CommodityStyles,
) -> (r: String)
    requires
        normalized.len() == input.postings.len(),
    ensures
        r@ == spec_format_transaction_normalized(input@, comment@, normalized@.map_values(|s: String| s@), *styles),
{
    let c = to_chars(comment);
    let header = transaction_header_chars(input, &c);
    let lines = normalized_lines_of(&input.postings, normalized, styles);
    string_of(&join_header_and_lines(header, lines))
}

} // verus!

verus! {

/// Whether posting quantities are rewritten in the commodity's display
/// style or kept as entered.
#[derive(Debug, Clone, Copy, PartialEq, Eq)]
pub enum QuantityFormat {
    Normalize,
    Preserve,
}

/// The amount text of a posting: its quantity (the normalized one, or the
/// one entered) with the selected commodity.
pub open spec fn spec_posting_amount_text(
    amount: Seq<char>,
    commodity: Seq<char>,
    quantity_format: QuantityFormat,
    normalized: Seq<char>,
    styles: CommodityStyles,
) -> Seq<char> {
    let (q, selected) = posting_quantity_and_commodity(amount, commodity);
    let quantity = match quantity_format {
        QuantityFormat::Normalize => normalized,
        QuantityFormat::Preserve => q,
    };
    spec_amount_from_quantity(quantity, selected, styles)
}

/// Writes a posting amount; in `Normalize` mode `normalized` stands for the
/// quantity, written in the commodity's display style by the caller.
pub fn format_posting_amount_with_quantity_mode(
    amount: &str,
    commodity: &str,
    quantity_format: QuantityFormat,
    normalized: &str,
    styles: &CommodityStyles,
) -> (r: String)
    ensures
        r@ == spec_posting_amount_text(amount@, commodity@, quantity_format, normalized@, *styles),
{
    let a = to_chars(amount);
    let c = to_chars(commodity);
    let (q, selected) = posting_quantity_and_commodity_chars(&a, &c);
    let quantity = match quantity_format {
        QuantityFormat::Normalize => to_chars(normalized),
        QuantityFormat::Preserve => q,
    };
    string_of(&amount_from_quantity_chars(&quantity, &selected, styles))
}

/// Writes a posting amount with its normalized quantity.
pub fn format_posting_amount(amount: &str, commodity: &str, normalized: &str, styles: &CommodityStyles) -> (r: String)
    ensures
        r@ == spec_posting_amount_text(amount@, commodity@, QuantityFormat::Normalize, normalized@, *styles),
{
    format_posting_amount_with_quantity_mode(amount, commodity, QuantityFormat::Normalize, normalized, styles)
}

/// Writes a posting amount with its quantity as entered.
pub fn format_posting_amount_preserving_quantity(amount: &str, commodity: &str, styles: &CommodityStyles) -> (r: String)
    ensures
        r@ == spec_posting_amount_text(amount@, commodity@, QuantityFormat::Preserve, seq![], *styles),
{
    format_posting_amount_with_quantity_mode(amount, commodity, QuantityFormat::Preserve, "", styles)
}

/// A posting line in either quantity mode.
pub open spec fn spec_format_posting_with_mode(
    p: PostingInputSpec,
    quantity_format: QuantityFormat,
    normalized: Seq<char>,
    styles: CommodityStyles,
) -> Seq<char> {
    match quantity_format {
        QuantityFormat::Normalize => spec_format_posting_normalized(p, normalized, styles),
        QuantityFormat::Preserve => spec_format_posting_preserving(p, styles),
    }
}

/// Formats a posting in either quantity mode.
pub fn format_posting_with_quantity_mode(
    posting: &PostingInput,
    quantity_format: QuantityFormat,
    normalized: &str,
    styles: &CommodityStyles,
) -> (r: String)
    ensures
        r@ == spec_format_posting_with_mode(posting@, quantity_format, normalized@, *styles),
{
    match quantity_format {
        QuantityFormat::Normalize => format_posting_with_normalized_quantity(posting, normalized, styles),
        QuantityFormat::Preserve => format_posting_preserving_quantity(posting, styles),
    }
}

/// Formats a posting with its normalized quantity.
pub fn format_posting(posting: &PostingInput, normalized: &str, styles: &CommodityStyles) -> (r: String)
    ensures
        r@ == spec_format_posting_normalized(posting@, normalized@, *styles),
{
    format_posting_with_normalized_quantity(posting, normalized, styles)
}

/// A transaction in either quantity mode.
pub open spec fn spec_format_transaction_with_mode(
    t: TransactionInputSpec,
    comment: Seq<char>,
    quantity_format: QuantityFormat,
    ns: Seq<Seq<char>>,
    styles: CommodityStyles,
) -> Seq<char> {
    match quantity_format {
        QuantityFormat::Normalize => spec_format_transaction_normalized(t, comment, ns, styles),
        QuantityFormat::Preserve => spec_format_transaction_preserving(t, comment, styles),
    }
}

/// Formats a transaction with a header comment in either quantity mode; in
/// `Normalize` mode `normalized` holds each posting's normalized quantity.
pub fn format_transaction_with_comment_and_quantity_mode(
    input: &TransactionInput,
    comment: &str,
    quantity_format: QuantityFormat,
    normalized: &Vec<String>,
    styles: &CommodityStyles,
) -> (r: String)
    requires
        quantity_format == QuantityFormat::Normalize ==> normalized.len() == input.postings.len(),
    ensures
        r@ == spec_format_transaction_with_mode(input@, comment@, quantity_format, normalized@.map_values(|s: String| s@), *styles),
{
    let c = to_chars(comment);
    let header = transaction_header_chars(input, &c);
    let lines = match quantity_format {
        QuantityFormat::Normalize => normalized_lines_of(&input.postings, normalized, styles),
        QuantityFormat::Preserve => preserved_lines_of(&input.postings, styles),
    };
    string_of(&join_header_and_lines(header, lines))
}

/// Formats a transaction with a header comment and normalized quantities.
pub fn format_transaction_with_comment(
    input: &TransactionInput,
    comment: &str,
    normalized: &Vec<String>,
    styles: &CommodityStyles,
) -> (r: String)
    requires
        normalized.len() == input.postings.len(),
    ensures
        r@ == spec_format_transaction_normalized(input@, comment@, normalized@.map_values(|s: String| s@), *styles),
{
    format_transaction_with_comment_and_quantity_mode(input, comment, QuantityFormat::Normalize, normalized, styles)
}

/// Formats a transaction with normalized quantities and no header comment.
pub fn format_transaction(input: &TransactionInput, normalized: &Vec<String>, styles: &CommodityStyles) -> (r: String)
    requires
        normalized.len() == input.postings.len(),
    ensures
        r@ == spec_format_transaction_normalized(input@, seq![], normalized@.map_values(|s: String| s@), *styles),
{
    let r = format_transaction_with_comment_and_quantity_mode(input, "", QuantityFormat::Normalize, normalized, styles);
    proof {
        reveal_strlit("");
        assert(""@ =~= Seq::<char>::empty());
    }
    r
}


/// The positions of the postings that name an account (trimmed, not
/// empty), in order.
pub open spec fn named_positions(ps: Seq<PostingInputSpec>) -> Seq<int>
    decreases ps.len(),
{
    if ps.len() == 0 {
        seq![]
    } else {
        let r = named_positions(ps.drop_last());
        if trim(ps.last().account).len() > 0 {
            r.push(ps.len() - 1)
        } else {
            r
        }
    }
}

proof fn lemma_named_positions(ps: Seq<PostingInputSpec>)
    ensures
        forall|i: int| 0 <= i < named_positions(ps).len() ==> 0 <= #[trigger] named_positions(ps)[i] < ps.len()
            && trim(ps[named_positions(ps)[i]].account).len() > 0,
    decreases ps.len(),
{
    if ps.len() > 0 {
        lemma_named_positions(ps.drop_last());
        let r = named_positions(ps.drop_last());
        assert forall|i: int| 0 <= i < named_positions(ps).len() implies 0 <= #[trigger] named_positions(ps)[i] < ps.len()
            && trim(ps[named_positions(ps)[i]].account).len() > 0 by {
            if i < r.len() {
                assert(named_positions(ps)[i] == r[i]);
                assert(ps[r[i]] == ps.drop_last()[r[i]]);
            }
        }
    }
}

/// Each posting line of a written transaction comes from its own posting:
/// the `i`-th line is the `i`-th posting that names an account, written with
/// the normalized quantity at that posting's own position (or with its
/// quantity as entered), so no line takes another posting's amount.
pub proof fn law_posting_lines_use_their_own_posting(ps: Seq<PostingInputSpec>, ns: Seq<Seq<char>>, styles: CommodityStyles)
    ensures
        normalized_posting_lines(ps, ns, styles).len() == named_positions(ps).len(),
        preserved_posting_lines(ps, styles).len() == named_positions(ps).len(),
        forall|i: int| 0 <= i < named_positions(ps).len() ==> #[trigger] normalized_posting_lines(ps, ns, styles)[i]
            == spec_format_posting_normalized(ps[named_positions(ps)[i]], ns[named_positions(ps)[i]], styles),
        forall|i: int| 0 <= i < named_positions(ps).len() ==> #[trigger] preserved_posting_lines(ps, styles)[i]
            == spec_format_posting_preserving(ps[named_positions(ps)[i]], styles),
    decreases ps.len(),
{
    if ps.len() > 0 {
        let d = ps.drop_last();
        law_posting_lines_use_their_own_posting(d, ns, styles);
        lemma_named_positions(d);
        let r = named_positions(d);
        assert forall|i: int| 0 <= i < named_positions(ps).len() implies #[trigger] normalized_posting_lines(ps, ns, styles)[i]
            == spec_format_posting_normalized(ps[named_positions(ps)[i]], ns[named_positions(ps)[i]], styles) by {
            if i < r.len() {
                assert(named_positions(ps)[i] == r[i]);
                assert(ps[r[i]] == d[r[i]]);
                assert(normalized_posting_lines(ps, ns, styles)[i] == normalized_posting_lines(d, ns, styles)[i]);
            }
        }
        assert forall|i: int| 0 <= i < named_positions(ps).len() implies #[trigger] preserved_posting_lines(ps, styles)[i]
            == spec_format_posting_preserving(ps[named_positions(ps)[i]], styles) by {
            if i < r.len() {
                assert(named_positions(ps)[i] == r[i]);
                assert(ps[r[i]] == d[r[i]]);
                assert(preserved_posting_lines(ps, styles)[i] == preserved_posting_lines(d, styles)[i]);
            }
        }
    }
}

} // verus!
