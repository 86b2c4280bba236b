//! The application log: which levels are kept, how an error is written into
//! a log message, and which lines survive the retention cut.

use vstd::prelude::*;
use crate::app_error::string_views;
use crate::text::{join_lines, lines, lines_of, push_all, push_str, string_of, to_chars, trim, trim_of, views};
use crate::updates::text_order;

verus! {

/// One line of the log file.
#[derive(Debug, Clone, PartialEq, Eq)]
pub struct LogEntry {
    pub ts: String,
    pub level: String,
    pub code: String,
    pub message: String,
}

pub open spec fn is_logged_level(level: Seq<char>) -> bool {
    level == "error"@ || level == "warn"@ || level == "info"@
}

/// Whether entries of a level are written and shown.
pub fn should_log(level: &str) -> (r: bool)
    ensures
        r == is_logged_level(level@),
{
    let l = to_chars(level);
    let e = to_chars("error");
    let w = to_chars("warn");
    let i = to_chars("info");
    crate::text::chars_eq(&l, &e) || crate::text::chars_eq(&l, &w) || crate::text::chars_eq(&l, &i)
}

/// The entries whose level is shown, in order.
pub open spec fn supported_entries(es: Seq<LogEntry>) -> Seq<LogEntry>
    decreases es.len(),
{
    if es.len() == 0 {
        seq![]
    } else {
        let r = supported_entries(es.drop_last());
        if is_logged_level(es.last().level@) { r.push(es.last()) } else { r }
    }
}

/// Keeps the entries of the levels that are shown, in order.
pub fn keep_supported_entries(entries: Vec<LogEntry>) -> (r: Vec<LogEntry>)
    ensures
        r@ == supported_entries(entries@),
{
    let mut r: Vec<LogEntry> = Vec::new();
    let mut entries = entries;
    let ghost all = entries@;
    let mut rest: Vec<LogEntry> = Vec::new();
    let n = entries.len();
    let mut i: usize = 0;
    while i < n
        invariant
            n == all.len(),
            0 <= i <= n,
            entries@ == all.take(n - i),
            rest@ == all.skip(n - i).reverse(),
        decreases n - i,
    {
        let e = entries.pop().unwrap();
        proof {
            assert(all.take(n - i).last() == e);
            assert(entries@ =~= all.take(n - i - 1));
        }
        let ghost before = rest@;
        rest.push(e);
        proof {
            assert(rest@ =~= all.skip(n - i - 1).reverse()) by {
                assert(all.skip(n - i - 1) =~= seq![e] + all.skip(n - i));
                assert forall|k: int| 0 <= k < rest@.len() implies rest@[k] == all.skip(n - i - 1).reverse()[k] by {
                    if k < before.len() {
                    }
                }
            }
        }
        i += 1;
    }
    assert(all.skip(0) =~= all);
    let mut j: usize = 0;
    while j < n
        invariant
            n == all.len(),
            0 <= j <= n,
            rest@ == all.skip(j as int).reverse(),
            r@ == supported_entries(all.take(j as int)),
        decreases n - j,
    {
        let e = rest.pop().unwrap();
        proof {
            assert(e == all[j as int]);
            assert(rest@ =~= all.skip(j + 1).reverse());
            assert(all.take(j + 1).drop_last() =~= all.take(j as int));
            assert(all.take(j + 1).last() == e);
        }
        if should_log(e.level.as_str()) {
            r.push(e);
        }
        j += 1;
    }
    assert(all.take(n as int) =~= all);
    r
}

/// The fields of a JSON object as an error holds them: its `code`,
/// `message` and `details` strings and its `fieldErrors` array, each element
/// written back as JSON text.
#[derive(Debug, Clone, PartialEq, Eq)]
pub struct ErrorJsonFields {
    pub code: Option<String>,
    pub message: Option<String>,
    pub details: Option<String>,
    pub field_errors: Option<Vec<String>>,
}

pub struct ErrorJsonFieldsSpec {
    pub code: Option<Seq<char>>,
    pub message: Option<Seq<char>>,
    pub details: Option<Seq<char>>,
    pub field_errors: Option<Seq<Seq<char>>>,
}

pub open spec fn opt_str(o: Option<String>) -> Option<Seq<char>> {
    match o {
        Some(s) => Some(s@),
        None => None,
    }
}

impl View for ErrorJsonFields {
    type V = ErrorJsonFieldsSpec;

    open spec fn view(&self) -> ErrorJsonFieldsSpec {
        ErrorJsonFieldsSpec {
            code: opt_str(self.code),
            message: opt_str(self.message),
            details: opt_str(self.details),
            field_errors: match self.field_errors {
                Some(v) => Some(string_views(v@)),
                None => None,
            },
        }
    }
}

/// The name for what `serde_json::from_str::<Value>` gives of a text read as
/// an error object: none when the text is no JSON object.
pub uninterp spec fn error_json_fields(text: Seq<char>) -> Option<ErrorJsonFieldsSpec>;

/// `serde_json::from_str::<serde_json::Value>` on a text, with the object's
/// `code`, `message` and `details` strings and `fieldErrors` array (each
/// element written back by `Value::to_string`) taken out; none when the text
/// does not parse or is not an object. What it gives depends on the text
/// alone.
#[verifier::external_body]
fn parse_error_json(text: &str) -> (r: Option<ErrorJsonFields>)
    ensures
        match r {
            Some(f) => error_json_fields(text@) == Some(f@),
            None => error_json_fields(text@).is_none(),
        },
{
    let value: serde_json::Value = serde_json::from_str(text).ok()?;
    let o = value.as_object()?;
    let text_of = |k: &str| o.get(k).and_then(|v| v.as_str()).map(|s| s.to_string());
    let field_errors = o.get("fieldErrors").and_then(|v| v.as_array()).map(|a| a.iter().map(|f| f.to_string()).collect());
    Some(ErrorJsonFields { code: text_of("code"), message: text_of("message"), details: text_of("details"), field_errors })
}

/// Lines joined with `\n`.
pub open spec fn error_parts(f: ErrorJsonFieldsSpec) -> Seq<Seq<char>> {
    (match f.code { Some(c) => seq!["Code: "@ + c], None => seq![] })
        + (match f.message { Some(m) => seq![m], None => seq![] })
        + (match f.details { Some(d) => if trim(d).len() > 0 { seq!["Details:\n"@ + trim(d)] } else { seq![] }, None => seq![] })
        + (match f.field_errors {
            Some(v) => if v.len() > 0 { seq!["Field errors:\n"@ + join_lines(v)] } else { seq![] },
            None => seq![],
        })
}

/// An error as the log shows it: the trimmed text, or, for a JSON error
/// object, its code, message, details and field errors on their own lines.
pub open spec fn spec_error_for_log(error: Seq<char>, fields: Option<ErrorJsonFieldsSpec>) -> Seq<char> {
    let t = trim(error);
    match fields {
        None => t,
        Some(f) => if error_parts(f).len() == 0 { t } else { join_lines(error_parts(f)) },
    }
}

fn push_line(parts: &mut Vec<Vec<char>>, line: Vec<char>)
    ensures
        views(final(parts)@) == views(old(parts)@).push(line@),
{
    parts.push(line);
    assert(views(parts@) =~= views(old(parts)@).push(line@));
}

/// Writes an error for the log given what reading it as JSON gave.
pub fn format_error_fields(error: &str, fields: Option<ErrorJsonFields>) -> (r: String)
    ensures
        r@ == spec_error_for_log(error@, match fields { Some(f) => Some(f@), None => None }),
{
    let e = to_chars(error);
    let t = trim_of(&e);
    let f = match fields {
        None => return string_of(&t),
        Some(f) => f,
    };
    let ghost fv = f@;
    let mut parts: Vec<Vec<char>> = Vec::new();
    match &f.code {
        Some(c) => {
            let mut l = to_chars("Code: ");
            push_str(&mut l, c.as_str());
            push_line(&mut parts, l);
        },
        None => {},
    }
    let ghost p1 = views(parts@);
    match &f.message {
        Some(m) => push_line(&mut parts, to_chars(m.as_str())),
        None => {},
    }
    let ghost p2 = views(parts@);
    match &f.details {
        Some(d) => {
            let dc = to_chars(d.as_str());
            let dt = trim_of(&dc);
            if dt.len() > 0 {
                let mut l = to_chars("Details:\n");
                push_all(&mut l, &dt);
                push_line(&mut parts, l);
            }
        },
        None => {},
    }
    let ghost p3 = views(parts@);
    match &f.field_errors {
        Some(v) => {
            if v.len() > 0 {
                let mut items: Vec<Vec<char>> = Vec::new();
                let mut i: usize = 0;
                while i < v.len()
                    invariant
                        0 <= i <= v.len(),
                        views(items@) == string_views(v@).take(i as int),
                    decreases v.len() - i,
                {
                    let ghost before = items@;
                    items.push(to_chars(v[i].as_str()));
                    proof {
                        assert(views(items@) =~= views(before).push(v@[i as int]@));
                        assert(string_views(v@).take(i + 1) =~= string_views(v@).take(i as int).push(v@[i as int]@));
                    }
                    i += 1;
                }
                assert(string_views(v@).take(v.len() as int) =~= string_views(v@));
                let joined = crate::text::join_lines_of(&items, 0, items.len());
                assert(views(items@).subrange(0, items.len() as int) =~= views(items@));
                let mut l = to_chars("Field errors:\n");
                push_all(&mut l, &joined);
                push_line(&mut parts, l);
            }
        },
        None => {},
    }
    proof {
        assert(views(parts@) =~= error_parts(fv));
    }
    if parts.len() == 0 {
        return string_of(&t);
    }
    let out = crate::text::join_lines_of(&parts, 0, parts.len());
    assert(views(parts@).subrange(0, parts.len() as int) =~= views(parts@));
    string_of(&out)
}

/// An error as the log shows it.
pub fn format_error_for_log(error: &str) -> (r: String)
    ensures
        r@ == spec_error_for_log(error@, error_json_fields(trim(error@))),
{
    let e = to_chars(error);
    let t = trim_of(&e);
    let ts = string_of(&t);
    let fields = parse_error_json(ts.as_str());
    format_error_fields(error, fields)
}

/// A log message: the context, then the error block when the error is not
/// blank.
pub open spec fn spec_log_message(context: Seq<char>, formatted_error: Seq<char>) -> Seq<char> {
    if formatted_error.len() == 0 { context } else { context + "\n\nError:\n"@ + formatted_error }
}

/// A log message made of a context and an error.
pub fn log_message_with_error(context: &str, error: &str) -> (r: String)
    ensures
        r@ == spec_log_message(context@, spec_error_for_log(error@, error_json_fields(trim(error@)))),
{
    let f = format_error_for_log(error);
    let fc = to_chars(f.as_str());
    if fc.len() == 0 {
        return context.to_owned();
    }
    let mut r = to_chars(context);
    push_str(&mut r, "\n\nError:\n");
    push_all(&mut r, &fc);
    string_of(&r)
}

/// The lines kept by the retention cut: those whose trimmed text sorts at
/// or after the cutoff text.
pub open spec fn kept_lines(ls: Seq<Seq<char>>, cutoff: Seq<char>) -> Seq<Seq<char>>
    decreases ls.len(),
{
    if ls.len() == 0 {
        seq![]
    } else {
        let r = kept_lines(ls.drop_last(), cutoff);
        if text_order(trim(ls.last()), cutoff, 0) >= 0 { r.push(ls.last()) } else { r }
    }
}

/// The log text after the retention cut, when the cut removes a line: the
/// kept lines joined with `\n` and ended by `\n`.
pub fn retained_log_text(content: &str, cutoff: &str) -> (r: Option<String>)
    ensures
        ({
            let kept = kept_lines(lines(content@), cutoff@);
            match r {
                Some(t) => kept.len() != lines(content@).len() && t@ == join_lines(kept) + seq!['\n'],
                None => kept.len() == lines(content@).len(),
            }
        }),
{
    let c = to_chars(content);
    let ls = lines_of(&c);
    let cut = to_chars(cutoff);
    let mut kept: Vec<Vec<char>> = Vec::new();
    let mut i: usize = 0;
    while i < ls.len()
        invariant
            0 <= i <= ls.len(),
            cut@ == cutoff@,
            views(kept@) == kept_lines(views(ls@).take(i as int), cutoff@),
        decreases ls.len() - i,
    {
        let ghost before = kept@;
        proof {
            assert(views(ls@).take(i + 1).drop_last() =~= views(ls@).take(i as int));
            assert(views(ls@).take(i + 1).last() == ls@[i as int]@);
        }
        let t = trim_of(&ls[i]);
        if crate::updates::text_order_of(&t, &cut) >= 0 {
            kept.push(ls[i].clone());
            assert(views(kept@) =~= views(before).push(ls@[i as int]@));
        }
        i += 1;
    }
    assert(views(ls@).take(ls.len() as int) =~= views(ls@));
    proof {
        lemma_kept_len(views(ls@), cutoff@);
    }
    if kept.len() == ls.len() {
        return None;
    }
    let mut out = crate::text::join_lines_of(&kept, 0, kept.len());
    assert(views(kept@).subrange(0, kept.len() as int) =~= views(kept@));
    out.push('\n');
    Some(string_of(&out))
}

proof fn lemma_kept_len(ls: Seq<Seq<char>>, cutoff: Seq<char>)
    ensures
        kept_lines(ls, cutoff).len() <= ls.len(),
    decreases ls.len(),
{
    if ls.len() > 0 {
        lemma_kept_len(ls.drop_last(), cutoff);
    }
}

} // verus!
