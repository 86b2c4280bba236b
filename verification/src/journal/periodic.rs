//! Periodic transaction rules (`~ monthly from 2026-01-05  ; rule-id:rent`):
//! reading them from the recurring-rules file and writing them back.

use vstd::prelude::*;
use crate::app_error::{app_error_json, to_error_string_with_details, AppErrorSpec};
use crate::journal::edit::{replace_line_range, spec_replace_line_range, split_lines};
use crate::journal::files::{parse_include_directive_chars, spec_parse_include_directive};
use crate::amount_style::{CommodityStyles, StyleContext};
use crate::journal::format::{join_header_and_lines, opt_part, preserved_lines_of, preserved_posting_lines, push_opt_part, spec_format_posting_preserving};
use crate::journal::parser::{parse_posting_chars, spec_is_transaction_header, spec_parse_posting, is_transaction_header_chars, block_id, id_of};
use crate::journal::types::{opt_text, posting_views, JournalPosting, PeriodicRule, PeriodicRuleInput, PeriodicRuleInputSpec, PeriodicRuleSpec, PostingInput, PostingInputSpec, PostingSpec, TransactionInput, TransactionInputSpec, input_views};
use crate::journal::util::{spec_split_inline_comment, split_inline_comment_chars};
use crate::journal::number::nat_digits_of;
use crate::text::{
    char_is_digit, char_is_ws, chars_eq, find_ws, first_match, is_digit, is_ws, join_lines, lemma_first_match_props,
    lines, lines_of, join_lines_of, push_all, rfind_chars, rfind_sub, slice_of, starts_with, string_of, to_chars,
    trim, trim_end, trim_end_of, trim_of, trim_start, trim_start_of, views, ws_pred, push_str,
};

verus! {

/// A line that starts (after indentation) with `~` and a space or tab.
pub open spec fn spec_is_periodic_rule_header(line: Seq<char>) -> bool {
    let t = trim_start(line);
    t.len() >= 2 && t[0] == '~' && (t[1] == ' ' || t[1] == '\t')
}

pub fn is_periodic_rule_header_chars(line: &Vec<char>) -> (r: bool)
    ensures
        r == spec_is_periodic_rule_header(line@),
{
    let t = trim_start_of(line);
    t.len() >= 2 && t[0] == '~' && (t[1] == ' ' || t[1] == '\t')
}

/// Returns true when a line starts a periodic transaction rule.
pub fn is_periodic_rule_header(line: &str) -> (r: bool)
    ensures
        r == spec_is_periodic_rule_header(line@),
{
    let l = to_chars(line);
    is_periodic_rule_header_chars(&l)
}

/// A date written as `YYYY-MM-DD` (ten characters, digits and two dashes).
pub open spec fn spec_is_date_literal(s: Seq<char>) -> bool {
    &&& s.len() == 10
    &&& s[4] == '-'
    &&& s[7] == '-'
    &&& forall|i: int| 0 <= i < 10 && i != 4 && i != 7 ==> is_digit(s[i])
}

pub fn is_date_literal_chars(s: &Vec<char>) -> (r: bool)
    ensures
        r == spec_is_date_literal(s@),
{
    if s.len() != 10 || s[4] != '-' || s[7] != '-' {
        return false;
    }
    let mut i: usize = 0;
    while i < 10
        invariant
            s.len() == 10,
            0 <= i <= 10,
            forall|j: int| 0 <= j < i && j != 4 && j != 7 ==> is_digit(s@[j]),
        decreases 10 - i,
    {
        if i != 4 && i != 7 && !char_is_digit(s[i]) {
            return false;
        }
        i += 1;
    }
    true
}

/// Whether a text is a `YYYY-MM-DD` date literal.
pub fn is_date_literal(s: &str) -> (r: bool)
    ensures
        r == spec_is_date_literal(s@),
{
    let c = to_chars(s);
    is_date_literal_chars(&c)
}

/// A trailing `<keyword><date>` clause of the body: the date and the body
/// before the clause, when the last occurrence of the keyword is followed by
/// a date literal.
pub open spec fn trailing_date(body: Seq<char>, keyword: Seq<char>) -> (Option<Seq<char>>, Seq<char>) {
    let idx = rfind_sub(body, keyword);
    if idx >= 0 && spec_is_date_literal(trim(body.skip(idx + keyword.len()))) {
        (Some(trim(body.skip(idx + keyword.len()))), trim(body.take(idx)))
    } else {
        (None, body)
    }
}

pub open spec fn to_kw() -> Seq<char> {
    seq![' ', 't', 'o', ' ']
}

pub open spec fn from_kw() -> Seq<char> {
    seq![' ', 'f', 'r', 'o', 'm', ' ']
}

/// The header of a periodic rule: period expression, start date, end date
/// and comment; none when the header has no `~` or no period expression.
pub open spec fn spec_parse_periodic_header(line: Seq<char>) -> Option<(Seq<char>, Option<Seq<char>>, Option<Seq<char>>, Seq<char>)> {
    let t = trim_start(line);
    if t.len() == 0 || t[0] != '~' {
        None
    } else {
        let rest = trim_start(t.skip(1));
        let (body, comment) = spec_split_inline_comment(rest);
        let (end_date, r1) = trailing_date(trim(body), to_kw());
        let (start_date, r2) = trailing_date(r1, from_kw());
        if r2.len() == 0 {
            None
        } else {
            Some((r2, start_date, end_date, comment))
        }
    }
}

fn trailing_date_chars(body: Vec<char>, keyword: &Vec<char>) -> (r: (Option<Vec<char>>, Vec<char>))
    ensures
        (match r.0 { Some(d) => Some(d@), None => None::<Seq<char>> }, r.1@) == trailing_date(body@, keyword@),
{
    match rfind_chars(&body, keyword) {
        Some(idx) => {
            proof {
                crate::text::lemma_rfind_sub_occurs(body@, keyword@);
            }
            assert(idx + keyword.len() <= body.len());
            let tail = slice_of(&body, idx + keyword.len(), body.len());
            assert(tail@ =~= body@.skip(idx + keyword.len()));
            let pot = trim_of(&tail);
            if is_date_literal_chars(&pot) {
                let head = slice_of(&body, 0, idx);
                assert(head@ =~= body@.take(idx as int));
                (Some(pot), trim_of(&head))
            } else {
                (None, body)
            }
        },
        None => (None, body),
    }
}

pub fn parse_periodic_header_chars(line: &Vec<char>) -> (r: Option<(Vec<char>, Option<Vec<char>>, Option<Vec<char>>, Vec<char>)>)
    ensures
        match r {
            Some((p, s, e, c)) => spec_parse_periodic_header(line@) == Some((p@,
                match s { Some(d) => Some(d@), None => None::<Seq<char>> },
                match e { Some(d) => Some(d@), None => None::<Seq<char>> }, c@)),
            None => spec_parse_periodic_header(line@).is_none(),
        },
{
    let t = trim_start_of(line);
    if t.len() == 0 || t[0] != '~' {
        return None;
    }
    let after = slice_of(&t, 1, t.len());
    assert(after@ =~= t@.skip(1));
    let rest = trim_start_of(&after);
    let (body, comment) = split_inline_comment_chars(&rest);
    let body = trim_of(&body);
    let mut to: Vec<char> = Vec::new();
    to.push(' ');
    to.push('t');
    to.push('o');
    to.push(' ');
    assert(to@ =~= to_kw());
    let (end_date, r1) = trailing_date_chars(body, &to);
    let mut from: Vec<char> = Vec::new();
    from.push(' ');
    from.push('f');
    from.push('r');
    from.push('o');
    from.push('m');
    from.push(' ');
    assert(from@ =~= from_kw());
    let (start_date, r2) = trailing_date_chars(r1, &from);
    if r2.len() == 0 {
        None
    } else {
        Some((r2, start_date, end_date, comment))
    }
}

/// Reads the header of a periodic rule: period expression, start date, end
/// date and comment.
pub fn parse_periodic_header(line: &str) -> (r: Option<(String, Option<String>, Option<String>, String)>)
    ensures
        match r {
            Some((p, s, e, c)) => spec_parse_periodic_header(line@) == Some((p@, opt_text(s), opt_text(e), c@)),
            None => spec_parse_periodic_header(line@).is_none(),
        },
{
    let l = to_chars(line);
    match parse_periodic_header_chars(&l) {
        Some((p, s, e, c)) => {
            let s2 = match s {
                Some(d) => Some(string_of(&d)),
                None => None,
            };
            let e2 = match e {
                Some(d) => Some(string_of(&d)),
                None => None,
            };
            Some((string_of(&p), s2, e2, string_of(&c)))
        },
        None => None,
    }
}

/// The `rule-id:` prefix.
pub open spec fn rule_id_prefix() -> Seq<char> {
    seq!['r', 'u', 'l', 'e', '-', 'i', 'd', ':']
}

fn rule_id_prefix_chars() -> (r: Vec<char>)
    ensures
        r@ == rule_id_prefix(),
{
    let r = to_chars("rule-id:");
    proof {
        reveal_strlit("rule-id:");
        assert("rule-id:"@ =~= rule_id_prefix());
    }
    r
}

/// A rule comment `rule-id:<id> <description>` split into id and
/// description (the text after the first whitespace character); any other
/// comment is all description.
pub open spec fn spec_extract_rule_id_from_comment(comment: Seq<char>) -> (Seq<char>, Seq<char>) {
    let t = trim(comment);
    if starts_with(t, rule_id_prefix()) {
        let rest = t.skip(8);
        let k = first_match(rest, ws_pred());
        if k < 0 { (rest, seq![]) } else { (rest.take(k), rest.skip(k + 1)) }
    } else {
        (seq![], t)
    }
}

pub fn extract_rule_id_chars(comment: &Vec<char>) -> (r: (Vec<char>, Vec<char>))
    ensures
        (r.0@, r.1@) == spec_extract_rule_id_from_comment(comment@),
{
    let t = trim_of(comment);
    let prefix = rule_id_prefix_chars();
    if crate::text::starts_with_chars(&t, &prefix) {
        let rest = slice_of(&t, 8, t.len());
        assert(rest@ =~= t@.skip(8));
        match find_ws(&rest) {
            Some(k) => {
                proof {
                    lemma_first_match_props(rest@, ws_pred());
                }
                let id = slice_of(&rest, 0, k);
                let desc = slice_of(&rest, k + 1, rest.len());
                assert(id@ =~= rest@.take(k as int));
                assert(desc@ =~= rest@.skip(k + 1));
                (id, desc)
            },
            None => (rest, Vec::new()),
        }
    } else {
        (Vec::new(), t)
    }
}

/// Splits a rule comment into rule id and description.
pub fn extract_rule_id_from_comment(comment: &str) -> (r: (String, String))
    ensures
        (r.0@, r.1@) == spec_extract_rule_id_from_comment(comment@),
{
    let c = to_chars(comment);
    let (a, b) = extract_rule_id_chars(&c);
    (string_of(&a), string_of(&b))
}

/// The rule id named by a posting comment `rule-id:<id>`: its first
/// whitespace-separated word (empty when there is none).
pub open spec fn spec_posting_comment_rule_id(comment: Seq<char>) -> Option<Seq<char>> {
    let t = trim(comment);
    if starts_with(t, rule_id_prefix()) {
        let u = trim_start(t.skip(8));
        let k = first_match(u, ws_pred());
        Some(if k < 0 { u } else { u.take(k) })
    } else {
        None
    }
}

pub fn posting_comment_rule_id_chars(comment: &Vec<char>) -> (r: Option<Vec<char>>)
    ensures
        match r {
            Some(v) => spec_posting_comment_rule_id(comment@) == Some(v@),
            None => spec_posting_comment_rule_id(comment@).is_none(),
        },
{
    let t = trim_of(comment);
    let prefix = rule_id_prefix_chars();
    if !crate::text::starts_with_chars(&t, &prefix) {
        return None;
    }
    let rest = slice_of(&t, 8, t.len());
    assert(rest@ =~= t@.skip(8));
    let u = trim_start_of(&rest);
    match find_ws(&u) {
        Some(k) => {
            proof {
                lemma_first_match_props(u@, ws_pred());
            }
            let w = slice_of(&u, 0, k);
            assert(w@ =~= u@.take(k as int));
            Some(w)
        },
        None => Some(u),
    }
}

/// The rule id that a posting comment names, if any.
pub fn posting_comment_rule_id(comment: &str) -> (r: Option<String>)
    ensures
        match r {
            Some(v) => spec_posting_comment_rule_id(comment@) == Some(v@),
            None => spec_posting_comment_rule_id(comment@).is_none(),
        },
{
    let c = to_chars(comment);
    match posting_comment_rule_id_chars(&c) {
        Some(v) => Some(string_of(&v)),
        None => None,
    }
}

} // verus!

verus! {

/// Whether a posting comment names a rule other than `rule_id`.
pub open spec fn names_other_rule(comment: Seq<char>, rule_id: Seq<char>) -> bool {
    match spec_posting_comment_rule_id(comment) {
        Some(x) => x != rule_id,
        None => false,
    }
}

/// The postings of a rule's body lines, up to the first posting whose comment
/// names another rule.
pub open spec fn rule_postings(ls: Seq<Seq<char>>, rule_id: Seq<char>, comma_mark: bool) -> Seq<PostingSpec>
    decreases ls.len(),
{
    if ls.len() == 0 {
        seq![]
    } else {
        match spec_parse_posting(ls[0], comma_mark) {
            None => rule_postings(ls.skip(1), rule_id, comma_mark),
            Some(p) => if names_other_rule(p.comment, rule_id) {
                seq![]
            } else {
                seq![p] + rule_postings(ls.skip(1), rule_id, comma_mark)
            },
        }
    }
}

/// A periodic rule block: the header of its first line, the rule id and
/// description of the header comment, and the postings that follow.
#[verifier::opaque]
pub open spec fn spec_parse_periodic_rule_block(
    source_file: Seq<char>,
    start_line: nat,
    end_line: nat,
    raw: Seq<char>,
    comma_mark: bool,
) -> Option<PeriodicRuleSpec> {
    let ls = lines(raw);
    if ls.len() == 0 {
        None
    } else {
        match spec_parse_periodic_header(trim(ls[0])) {
            None => None,
            Some((period_expr, start_date, end_date, comment)) => {
                let (rule_id, description) = spec_extract_rule_id_from_comment(comment);
                Some(PeriodicRuleSpec {
                    id: block_id(source_file, start_line),
                    rule_id,
                    source_file,
                    period_expr,
                    description,
                    postings: rule_postings(ls.skip(1), rule_id, comma_mark),
                    status: seq![],
                    code: seq![],
                    start_date,
                    end_date,
                    comment,
                    raw,
                    start_line,
                    end_line,
                })
            },
        }
    }
}

fn rule_postings_of(ls: &Vec<Vec<char>>, from: usize, rule_id: &Vec<char>, comma_mark: bool) -> (r: Vec<JournalPosting>)
    requires
        from <= ls.len(),
    ensures
        posting_views(r@) == rule_postings(views(ls@).skip(from as int), rule_id@, comma_mark),
{
    let ghost target = rule_postings(views(ls@).skip(from as int), rule_id@, comma_mark);
    let mut r: Vec<JournalPosting> = Vec::new();
    let mut i: usize = from;
    while i < ls.len()
        invariant
            from <= i <= ls.len(),
            target == rule_postings(views(ls@).skip(from as int), rule_id@, comma_mark),
            target == posting_views(r@) + rule_postings(views(ls@).skip(i as int), rule_id@, comma_mark),
        decreases ls.len() - i,
    {
        let ghost rest = views(ls@).skip(i as int);
        proof {
            assert(rest[0] == ls@[i as int]@);
            assert(rest.skip(1) =~= views(ls@).skip(i + 1));
        }
        match parse_posting_chars(&ls[i], comma_mark) {
            Some(p) => {
                let c = to_chars(p.comment.as_str());
                let other = match posting_comment_rule_id_chars(&c) {
                    Some(x) => !chars_eq(&x, rule_id),
                    None => false,
                };
                if other {
                    assert(rule_postings(rest, rule_id@, comma_mark) =~= seq![]);
                    assert(target =~= posting_views(r@));
                    return r;
                }
                let ghost before = r@;
                r.push(p);
                assert(posting_views(r@) =~= posting_views(before) + seq![p@]);
            },
            None => {},
        }
        i += 1;
    }
    assert(views(ls@).skip(i as int) =~= seq![]);
    assert(target =~= posting_views(r@));
    r
}

fn opt_string_of(o: Option<Vec<char>>) -> (r: Option<String>)
    ensures
        opt_text(r) == match o { Some(d) => Some(d@), None => None::<Seq<char>> },
{
    match o {
        Some(d) => Some(string_of(&d)),
        None => None,
    }
}

pub fn parse_periodic_rule_block_chars(
    source_file: &Vec<char>,
    start_line: usize,
    end_line: usize,
    raw: &Vec<char>,
    comma_mark: bool,
) -> (r: Option<PeriodicRule>)
    ensures
        match r {
            Some(rule) => spec_parse_periodic_rule_block(source_file@, start_line as nat, end_line as nat, raw@, comma_mark) == Some(rule@),
            None => spec_parse_periodic_rule_block(source_file@, start_line as nat, end_line as nat, raw@, comma_mark).is_none(),
        },
{
    reveal(spec_parse_periodic_rule_block);
    let ls = lines_of(raw);
    if ls.len() == 0 {
        return None;
    }
    assert(views(ls@)[0] == ls@[0]@);
    let header = trim_of(&ls[0]);
    match parse_periodic_header_chars(&header) {
        None => None,
        Some((period_expr, start_date, end_date, comment)) => {
            let (rule_id, description) = extract_rule_id_chars(&comment);
            let postings = rule_postings_of(&ls, 1, &rule_id, comma_mark);
            let id = id_of(source_file, start_line);
            let rule = PeriodicRule {
                id: string_of(&id),
                rule_id: string_of(&rule_id),
                source_file: string_of(source_file),
                period_expr: string_of(&period_expr),
                description: string_of(&description),
                postings,
                status: String::new(),
                code: String::new(),
                start_date: opt_string_of(start_date),
                end_date: opt_string_of(end_date),
                comment: string_of(&comment),
                raw: string_of(raw),
                start_line,
                end_line,
            };
            assert(rule@.status =~= seq![]);
            assert(rule@.code =~= seq![]);
            Some(rule)
        },
    }
}

/// Parses one periodic rule block.
pub fn parse_periodic_rule_block(
    source_path: &str,
    start_line: usize,
    end_line: usize,
    raw: &str,
    ctx: &StyleContext,
) -> (r: Option<PeriodicRule>)
    ensures
        match r {
            Some(rule) => spec_parse_periodic_rule_block(source_path@, start_line as nat, end_line as nat, raw@, ctx.comma_mark()) == Some(rule@),
            None => spec_parse_periodic_rule_block(source_path@, start_line as nat, end_line as nat, raw@, ctx.comma_mark()).is_none(),
        },
{
    let s = to_chars(source_path);
    let r = to_chars(raw);
    let comma = ctx.has_comma_mark();
    parse_periodic_rule_block_chars(&s, start_line, end_line, &r, comma)
}

} // verus!

verus! {

/// A line that stays inside a periodic rule block: neither a rule header nor
/// a transaction header, and indented, blank, or a `;` / `#` comment.
#[verifier::opaque]
pub open spec fn continues_rule(line: Seq<char>) -> bool {
    &&& !spec_is_periodic_rule_header(line)
    &&& !spec_is_transaction_header(line)
    &&& ((line.len() > 0 && is_ws(line[0])) || trim(line).len() == 0 || trim(line)[0] == ';' || trim(line)[0] == '#')
}

pub fn continues_rule_chars(line: &Vec<char>) -> (r: bool)
    ensures
        r == continues_rule(line@),
{
    reveal(continues_rule);
    if is_periodic_rule_header_chars(line) || is_transaction_header_chars(line) {
        return false;
    }
    let t = trim_of(line);
    (line.len() > 0 && char_is_ws(line[0])) || t.len() == 0 || t[0] == ';' || t[0] == '#'
}

/// Index of the first periodic rule header at or after `from`, or the number
/// of lines.
pub open spec fn next_rule_header(ls: Seq<Seq<char>>, from: int) -> int
    decreases ls.len() - from,
{
    if from < 0 || from >= ls.len() {
        ls.len() as int
    } else if spec_is_periodic_rule_header(ls[from]) {
        from
    } else {
        next_rule_header(ls, from + 1)
    }
}

/// Index of the first line at or after `from` that does not continue a rule
/// block, or the number of lines.
pub open spec fn rule_block_end(ls: Seq<Seq<char>>, from: int) -> int
    decreases ls.len() - from,
{
    if from < 0 || from >= ls.len() {
        ls.len() as int
    } else if continues_rule(ls[from]) {
        rule_block_end(ls, from + 1)
    } else {
        from
    }
}

pub proof fn lemma_rule_bounds(ls: Seq<Seq<char>>, from: int)
    requires
        0 <= from,
    ensures
        next_rule_header(ls, from) <= ls.len(),
        from <= ls.len() ==> from <= next_rule_header(ls, from),
        rule_block_end(ls, from) <= ls.len(),
        from <= ls.len() ==> from <= rule_block_end(ls, from),
    decreases ls.len() - from,
{
    if from < ls.len() {
        lemma_rule_bounds(ls, from + 1);
    }
}

/// The periodic rules of the lines from `index` on.
pub open spec fn spec_rules_from(
    ls: Seq<Seq<char>>,
    index: int,
    source_file: Seq<char>,
    comma_mark: bool,
) -> Seq<PeriodicRuleSpec>
    decreases ls.len() - index,
{
    let h = next_rule_header(ls, index);
    if index < 0 || h >= ls.len() {
        seq![]
    } else {
        proof {
            lemma_rule_bounds(ls, index);
            lemma_rule_bounds(ls, h + 1);
        }
        let e = rule_block_end(ls, h + 1);
        let raw = join_lines(ls.subrange(h, e));
        let rest = spec_rules_from(ls, e, source_file, comma_mark);
        match spec_parse_periodic_rule_block(source_file, (h + 1) as nat, e as nat, raw, comma_mark) {
            Some(rule) => seq![rule] + rest,
            None => rest,
        }
    }
}

pub open spec fn rule_views(v: Seq<PeriodicRule>) -> Seq<PeriodicRuleSpec> {
    v.map_values(|r: PeriodicRule| r@)
}

pub fn parse_periodic_rules_chars(content: &Vec<char>, source_file: &Vec<char>, comma_mark: bool) -> (r: Vec<PeriodicRule>)
    ensures
        rule_views(r@) == spec_rules_from(lines(content@), 0, source_file@, comma_mark),
{
    let ls = lines_of(content);
    let ghost lv = views(ls@);
    let mut r: Vec<PeriodicRule> = Vec::new();
    let mut index: usize = 0;
    while index < ls.len()
        invariant
            lv == views(ls@),
            lv == lines(content@),
            0 <= index <= ls.len(),
            spec_rules_from(lv, 0, source_file@, comma_mark)
                == rule_views(r@) + spec_rules_from(lv, index as int, source_file@, comma_mark),
        decreases ls.len() - index,
    {
        assert(lv[index as int] == ls@[index as int]@);
        if !is_periodic_rule_header_chars(&ls[index]) {
            assert(next_rule_header(lv, index as int) == next_rule_header(lv, index + 1));
            assert(spec_rules_from(lv, index as int, source_file@, comma_mark)
                == spec_rules_from(lv, index + 1, source_file@, comma_mark));
            index += 1;
            continue;
        }
        let start_line = index + 1;
        let mut end_index: usize = index + 1;
        while end_index < ls.len() && continues_rule_chars(&ls[end_index])
            invariant
                lv == views(ls@),
                index < end_index <= ls.len(),
                rule_block_end(lv, index + 1) == rule_block_end(lv, end_index as int),
            decreases ls.len() - end_index,
        {
            assert(lv[end_index as int] == ls@[end_index as int]@);
            end_index += 1;
        }
        proof {
            if end_index < ls.len() {
                assert(lv[end_index as int] == ls@[end_index as int]@);
            }
            assert(rule_block_end(lv, end_index as int) == end_index);
            assert(next_rule_header(lv, index as int) == index);
        }
        let raw = join_lines_of(&ls, index, end_index);
        let ghost before = r@;
        match parse_periodic_rule_block_chars(source_file, start_line, end_index, &raw, comma_mark) {
            Some(t) => {
                r.push(t);
                assert(rule_views(r@) =~= rule_views(before) + seq![t@]);
            },
            None => {},
        }
        proof {
            assert(spec_rules_from(lv, index as int, source_file@, comma_mark)
                == rule_views(r@).skip(before.len() as int) + spec_rules_from(lv, end_index as int, source_file@, comma_mark)) by {
                assert(rule_views(r@).skip(before.len() as int) =~= rule_views(r@).subrange(before.len() as int, r@.len() as int));
            }
            assert(rule_views(r@) =~= rule_views(before) + rule_views(r@).skip(before.len() as int));
        }
        index = end_index;
    }
    proof {
        assert(spec_rules_from(lv, index as int, source_file@, comma_mark) =~= seq![]);
    }
    r
}

/// Parses the periodic transaction rules of a journal file.
pub fn parse_periodic_rules(content: &str, source_path: &str, ctx: &StyleContext) -> (r: Vec<PeriodicRule>)
    ensures
        rule_views(r@) == spec_rules_from(lines(content@), 0, source_path@, ctx.comma_mark()),
{
    let c = to_chars(content);
    let s = to_chars(source_path);
    let comma = ctx.has_comma_mark();
    parse_periodic_rules_chars(&c, &s, comma)
}

} // verus!

verus! {

/// `prefix` and the trimmed date, when a non-blank date is given.
pub open spec fn opt_date_part(prefix: Seq<char>, d: Option<Seq<char>>) -> Seq<char> {
    match d {
        Some(v) => opt_part(prefix, v),
        None => seq![],
    }
}

/// The header comment of a written rule: `rule-id:<id> <description>` when
/// an id is given, then the free comment, separated by a space.
pub open spec fn rule_comment_text(input: PeriodicRuleInputSpec) -> Seq<char> {
    let rule_part = rule_id_prefix() + trim(input.rule_id) + opt_part(seq![' '], input.description);
    let has_rule = trim(input.rule_id).len() > 0;
    let has_comment = trim(input.comment).len() > 0;
    if has_rule && has_comment {
        rule_part + seq![' '] + trim(input.comment)
    } else if has_rule {
        rule_part
    } else if has_comment {
        trim(input.comment)
    } else {
        seq![]
    }
}

/// The header line of a written rule.
pub open spec fn spec_periodic_rule_header(input: PeriodicRuleInputSpec) -> Seq<char> {
    let c = rule_comment_text(input);
    seq!['~', ' '] + trim(input.period_expr) + opt_date_part(from_kw(), input.start_date)
        + opt_date_part(to_kw(), input.end_date)
        + (if c.len() > 0 { seq![' ', ' ', ';', ' '] + c } else { seq![] })
}

/// A rule written as journal text: its header, then the postings that name
/// an account, with their quantities as entered.
pub open spec fn spec_format_periodic_rule_text(input: PeriodicRuleInputSpec, styles: CommodityStyles) -> Seq<char> {
    join_lines(seq![spec_periodic_rule_header(input)] + preserved_posting_lines(input.postings, styles))
}

fn push_opt_date(r: &mut Vec<char>, prefix: &Vec<char>, d: &Option<String>)
    ensures
        final(r)@ == old(r)@ + opt_date_part(prefix@, opt_text(*d)),
{
    match d {
        Some(v) => {
            let c = to_chars(v.as_str());
            push_opt_part(r, prefix, &c);
        },
        None => {
            assert(r@ =~= old(r)@ + seq![]);
        },
    }
}

fn rule_comment_text_of(input: &PeriodicRuleInput) -> (r: Vec<char>)
    ensures
        r@ == rule_comment_text(input@),
{
    let id = to_chars(input.rule_id.as_str());
    let id = trim_of(&id);
    let comment = to_chars(input.comment.as_str());
    let comment = trim_of(&comment);
    let mut r: Vec<char> = Vec::new();
    if id.len() > 0 {
        r = rule_id_prefix_chars();
        push_all(&mut r, &id);
        let mut sp: Vec<char> = Vec::new();
        sp.push(' ');
        let desc = to_chars(input.description.as_str());
        push_opt_part(&mut r, &sp, &desc);
        if comment.len() > 0 {
            r.push(' ');
            push_all(&mut r, &comment);
        }
    } else if comment.len() > 0 {
        r = comment;
    }
    r
}

/// Writes a periodic rule as journal text.
pub fn format_periodic_rule_text(input: &PeriodicRuleInput, styles: &CommodityStyles) -> (r: String)
    ensures
        r@ == spec_format_periodic_rule_text(input@, *styles),
{
    let mut header: Vec<char> = Vec::new();
    header.push('~');
    header.push(' ');
    let pe = to_chars(input.period_expr.as_str());
    let pe = trim_of(&pe);
    push_all(&mut header, &pe);
    let mut from: Vec<char> = Vec::new();
    from.push(' ');
    from.push('f');
    from.push('r');
    from.push('o');
    from.push('m');
    from.push(' ');
    assert(from@ =~= from_kw());
    push_opt_date(&mut header, &from, &input.start_date);
    let mut to: Vec<char> = Vec::new();
    to.push(' ');
    to.push('t');
    to.push('o');
    to.push(' ');
    assert(to@ =~= to_kw());
    push_opt_date(&mut header, &to, &input.end_date);
    let c = rule_comment_text_of(input);
    if c.len() > 0 {
        header.push(' ');
        header.push(' ');
        header.push(';');
        header.push(' ');
        push_all(&mut header, &c);
    }
    proof {
        let ghost hs = spec_periodic_rule_header(input@);
        assert(header@ =~= hs);
    }
    let lines = preserved_lines_of(&input.postings, styles);
    string_of(&join_header_and_lines(header, lines))
}

} // verus!

verus! {

/// The posting of a generated transaction: the rule's posting with the rule
/// tag in front of its comment.
pub open spec fn generated_posting(p: PostingSpec, tag: Seq<char>) -> PostingInputSpec {
    PostingInputSpec {
        account: p.account,
        amount: p.amount,
        commodity: p.commodity,
        unit_price: p.unit_price,
        comment: if p.comment.len() > 0 { tag + seq![';', ' '] + p.comment } else { tag },
    }
}

/// The transaction that a rule generates on a date: no mode, the rule's
/// status, code and description, and its postings tagged `rule-id:<id>`.
pub open spec fn spec_rule_to_transaction_input(rule: PeriodicRuleSpec, date: Seq<char>) -> TransactionInputSpec {
    let tag = rule_id_prefix() + rule.rule_id;
    TransactionInputSpec {
        mode: seq![],
        date,
        status: rule.status,
        code: rule.code,
        description: rule.description,
        postings: rule.postings.map_values(|p: PostingSpec| generated_posting(p, tag)),
    }
}

/// The transaction a periodic rule generates on a date.
pub fn rule_to_transaction_input(rule: &PeriodicRule, date: &str) -> (r: TransactionInput)
    ensures
        r@ == spec_rule_to_transaction_input(rule@, date@),
{
    let mut tag = rule_id_prefix_chars();
    let id = to_chars(rule.rule_id.as_str());
    push_all(&mut tag, &id);
    let ghost target = rule@.postings.map_values(|p: PostingSpec| generated_posting(p, tag@));
    let mut postings: Vec<PostingInput> = Vec::new();
    let mut i: usize = 0;
    while i < rule.postings.len()
        invariant
            0 <= i <= rule.postings.len(),
            target == rule@.postings.map_values(|p: PostingSpec| generated_posting(p, tag@)),
            rule@.postings.len() == rule.postings.len(),
            input_views(postings@) == target.take(i as int),
        decreases rule.postings.len() - i,
    {
        let p = &rule.postings[i];
        assert(rule@.postings[i as int] == p@);
        let comment = to_chars(p.comment.as_str());
        let mut c = tag.clone();
        assert(c@ =~= tag@);
        if comment.len() > 0 {
            c.push(';');
            c.push(' ');
            push_all(&mut c, &comment);
        }
        assert(c@ =~= (if p@.comment.len() > 0 { tag@ + seq![';', ' '] + p@.comment } else { tag@ }));
        let q = PostingInput {
            account: p.account.clone(),
            amount: p.amount.clone(),
            commodity: p.commodity.clone(),
            unit_price: p.unit_price.clone(),
            comment: string_of(&c),
        };
        let ghost before = postings@;
        postings.push(q);
        proof {
            assert(q@ == generated_posting(p@, tag@));
            assert(input_views(postings@) =~= input_views(before).push(q@));
            assert(target.take(i + 1) =~= target.take(i as int).push(target[i as int]));
        }
        i += 1;
    }
    assert(target.take(rule.postings.len() as int) =~= target);
    let r = TransactionInput {
        mode: String::new(),
        date: date.to_owned(),
        status: rule.status.clone(),
        code: rule.code.clone(),
        description: rule.description.clone(),
        postings,
    };
    assert(r@.mode =~= seq![]);
    r
}

} // verus!

verus! {

/// Index of the first rule with the given rule id, or -1.
pub open spec fn find_rule(rules: Seq<PeriodicRuleSpec>, rule_id: Seq<char>) -> int
    decreases rules.len(),
{
    if rules.len() == 0 {
        -1
    } else if rules[0].rule_id == rule_id {
        0
    } else {
        let k = find_rule(rules.skip(1), rule_id);
        if k < 0 { -1 } else { k + 1 }
    }
}

proof fn lemma_find_rule(rules: Seq<PeriodicRuleSpec>, rule_id: Seq<char>, i: int)
    requires
        0 <= i <= rules.len(),
        forall|j: int| 0 <= j < i ==> rules[j].rule_id != rule_id,
        i < rules.len() ==> rules[i].rule_id == rule_id,
    ensures
        find_rule(rules, rule_id) == (if i < rules.len() { i } else { -1 }),
    decreases rules.len(),
{
    if rules.len() > 0 && i > 0 {
        let t = rules.skip(1);
        assert forall|j: int| 0 <= j < i - 1 implies t[j].rule_id != rule_id by {
            assert(t[j] == rules[j + 1]);
        }
        if i - 1 < t.len() {
            assert(t[i - 1] == rules[i]);
        }
        lemma_find_rule(t, rule_id, i - 1);
    }
}

/// Every rule read from the lines starts at a line number between 1 and the
/// number of lines.
pub proof fn lemma_rule_start_lines(ls: Seq<Seq<char>>, index: int, source_file: Seq<char>, comma_mark: bool)
    requires
        0 <= index,
    ensures
        forall|k: int| 0 <= k < spec_rules_from(ls, index, source_file, comma_mark).len()
            ==> 1 <= #[trigger] spec_rules_from(ls, index, source_file, comma_mark)[k].start_line <= ls.len(),
    decreases ls.len() - index,
{
    let h = next_rule_header(ls, index);
    lemma_rule_bounds(ls, index);
    if h < ls.len() {
        lemma_rule_bounds(ls, h + 1);
        let e = rule_block_end(ls, h + 1);
        lemma_rule_start_lines(ls, e, source_file, comma_mark);
        reveal(spec_parse_periodic_rule_block);
        let raw = join_lines(ls.subrange(h, e));
        let rest = spec_rules_from(ls, e, source_file, comma_mark);
        let all = spec_rules_from(ls, index, source_file, comma_mark);
        match spec_parse_periodic_rule_block(source_file, (h + 1) as nat, e as nat, raw, comma_mark) {
            Some(rule) => {
                assert(all == seq![rule] + rest);
                assert forall|k: int| 0 <= k < all.len() implies 1 <= #[trigger] all[k].start_line <= ls.len() by {
                    if k > 0 {
                        assert(all[k] == rest[k - 1]);
                    }
                }
            },
            None => {
                assert(all == rest);
            },
        }
    }
}

/// The error text for a rule id that no rule has.
pub open spec fn rule_not_found_json(rule_id: Seq<char>) -> Seq<char> {
    app_error_json(AppErrorSpec {
        code: "periodic_rule_not_found"@,
        message: "Periodic rule not found."@,
        details: Some("Rule id: "@ + rule_id),
        field_errors: seq![],
    })
}

/// The rules file with the lines of the first rule that has the given id
/// replaced by `replacement` (removed when it is blank); else the error text.
pub fn replace_rule_text(
    content: &str,
    source_path: &str,
    rule_id: &str,
    replacement: &str,
    ctx: &StyleContext,
) -> (r: Result<String, String>)
    ensures
        ({
            let rules = spec_rules_from(lines(content@), 0, source_path@, ctx.comma_mark());
            let k = find_rule(rules, rule_id@);
            match r {
                Ok(t) => k >= 0 && t@ == spec_replace_line_range(
                    lines(content@),
                    rules[k].start_line,
                    rules[k].end_line,
                    replacement@,
                ),
                Err(e) => k < 0 && e@ == rule_not_found_json(rule_id@),
            }
        }),
{
    let rules = parse_periodic_rules(content, source_path, ctx);
    let ghost rv = rule_views(rules@);
    let id = to_chars(rule_id);
    let mut i: usize = 0;
    while i < rules.len()
        invariant
            0 <= i <= rules.len(),
            rv == rule_views(rules@),
            rv == spec_rules_from(lines(content@), 0, source_path@, ctx.comma_mark()),
            id@ == rule_id@,
            forall|j: int| 0 <= j < i ==> rv[j].rule_id != rule_id@,
        decreases rules.len() - i,
    {
        let rid = to_chars(rules[i].rule_id.as_str());
        assert(rv[i as int] == rules@[i as int]@);
        if chars_eq(&rid, &id) {
            proof {
                lemma_find_rule(rv, rule_id@, i as int);
                lemma_rule_start_lines(lines(content@), 0, source_path@, ctx.comma_mark());
                assert(1 <= spec_rules_from(lines(content@), 0, source_path@, ctx.comma_mark())[i as int].start_line);
            }
            let file_lines = split_lines(content);
            return Ok(replace_line_range(&file_lines, rules[i].start_line, rules[i].end_line, replacement));
        }
        i += 1;
    }
    proof {
        lemma_find_rule(rv, rule_id@, rv.len() as int);
    }
    let mut details = to_chars("Rule id: ");
    push_all(&mut details, &id);
    let d = string_of(&details);
    Err(to_error_string_with_details("periodic_rule_not_found", "Periodic rule not found.", d.as_str()))
}

pub open spec fn recurring_filename() -> Seq<char> {
    "recurring.journal"@
}

/// Whether some line includes the given file.
pub open spec fn includes_file(ls: Seq<Seq<char>>, target: Seq<char>) -> bool {
    exists|i: int| 0 <= i < ls.len() && spec_parse_include_directive(#[trigger] ls[i]) == Some(target)
}

/// The main journal with an `include` of the rules file put first, when it
/// does not include that file yet.
pub fn recurring_include_update(main_content: &str) -> (r: Option<String>)
    ensures
        r is None <==> includes_file(lines(main_content@), recurring_filename()),
        r matches Some(u) ==> u@ == "include "@ + recurring_filename() + seq!['\n'] + main_content@,
{
    let c = to_chars(main_content);
    let ls = lines_of(&c);
    let ghost lv = views(ls@);
    let target = to_chars("recurring.journal");
    let mut i: usize = 0;
    while i < ls.len()
        invariant
            0 <= i <= ls.len(),
            lv == views(ls@),
            lv == lines(main_content@),
            target@ == recurring_filename(),
            forall|j: int| 0 <= j < i ==> spec_parse_include_directive(lv[j]) != Some(recurring_filename()),
        decreases ls.len() - i,
    {
        assert(lv[i as int] == ls@[i as int]@);
        match parse_include_directive_chars(&ls[i]) {
            Some(inc) => {
                if chars_eq(&inc, &target) {
                    return None;
                }
            },
            None => {},
        }
        i += 1;
    }
    let mut u = to_chars("include ");
    push_all(&mut u, &target);
    u.push('\n');
    push_all(&mut u, &c);
    Some(string_of(&u))
}

/// The rules file text with a new rule appended after its trimmed end.
pub fn recurring_text_with_rule(existing: &str, text: &str) -> (r: String)
    ensures
        r@ == trim_end(existing@) + text@ + seq!['\n'],
{
    let o = to_chars(existing);
    let mut u = trim_end_of(&o);
    push_str(&mut u, text);
    u.push('\n');
    string_of(&u)
}


/// A generated transaction has the date it is generated on, the rule's
/// status, code and description, and one posting per rule posting, in
/// order, with that posting's account, amount, commodity and unit price
/// unchanged; only the comment changes: it is `rule-id:<id>`, followed by
/// `; ` and the posting's own comment where it has one.
pub proof fn law_generated_postings_keep_their_amounts(rule: PeriodicRuleSpec, date: Seq<char>)
    ensures
        ({
            let t = spec_rule_to_transaction_input(rule, date);
            let tag = "rule-id:"@ + rule.rule_id;
            &&& t.date == date
            &&& t.status == rule.status && t.code == rule.code && t.description == rule.description
            &&& t.postings.len() == rule.postings.len()
            &&& forall|i: int| 0 <= i < rule.postings.len() ==> {
                &&& (#[trigger] t.postings[i]).account == rule.postings[i].account
                &&& t.postings[i].amount == rule.postings[i].amount
                &&& t.postings[i].commodity == rule.postings[i].commodity
                &&& t.postings[i].unit_price == rule.postings[i].unit_price
                &&& t.postings[i].comment == (if rule.postings[i].comment.len() > 0 {
                    tag + "; "@ + rule.postings[i].comment
                } else {
                    tag
                })
            }
        }),
{
    reveal_strlit("rule-id:");
    reveal_strlit("; ");
    let t = spec_rule_to_transaction_input(rule, date);
    assert(rule_id_prefix() =~= "rule-id:"@);
    assert(seq![';', ' '] =~= "; "@);
    assert forall|i: int| 0 <= i < rule.postings.len() implies (#[trigger] t.postings[i]) == generated_posting(
        rule.postings[i],
        rule_id_prefix() + rule.rule_id,
    ) by {}
}

} // verus!
