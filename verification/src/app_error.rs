//! Structured application errors and their JSON text, as handed to the
//! frontend.

use vstd::prelude::*;
use crate::text::{push_str, string_of, to_chars};

verus! {

/// One invalid field: its path in the submitted form and what is wrong.
#[derive(Debug, Clone, PartialEq, Eq)]
pub struct FieldError {
    pub path: Vec<String>,
    pub message: String,
}

/// An error with a machine-readable code, a message, optional details and
/// the field errors of a rejected form.
#[derive(Debug, Clone, PartialEq, Eq)]
pub struct AppError {
    pub code: String,
    pub message: String,
    pub details: Option<String>,
    pub field_errors: Vec<FieldError>,
}

pub struct FieldErrorSpec {
    pub path: Seq<Seq<char>>,
    pub message: Seq<char>,
}

pub open spec fn string_views(v: Seq<String>) -> Seq<Seq<char>> {
    v.map_values(|s: String| s@)
}

impl View for FieldError {
    type V = FieldErrorSpec;

    open spec fn view(&self) -> FieldErrorSpec {
        FieldErrorSpec { path: string_views(self.path@), message: self.message@ }
    }
}

pub open spec fn field_error_views(v: Seq<FieldError>) -> Seq<FieldErrorSpec> {
    v.map_values(|f: FieldError| f@)
}

pub struct AppErrorSpec {
    pub code: Seq<char>,
    pub message: Seq<char>,
    pub details: Option<Seq<char>>,
    pub field_errors: Seq<FieldErrorSpec>,
}

impl View for AppError {
    type V = AppErrorSpec;

    open spec fn view(&self) -> AppErrorSpec {
        AppErrorSpec {
            code: self.code@,
            message: self.message@,
            details: match self.details {
                Some(d) => Some(d@),
                None => None,
            },
            field_errors: field_error_views(self.field_errors@),
        }
    }
}

impl FieldError {
    pub fn new(path: Vec<String>, message: &str) -> (r: Self)
        ensures
            r@.path == string_views(path@),
            r@.message == message@,
    {
        FieldError { path, message: message.to_owned() }
    }
}

impl AppError {
    pub fn new(code: &str, message: &str) -> (r: Self)
        ensures
            r@ == (AppErrorSpec { code: code@, message: message@, details: None, field_errors: seq![] }),
    {
        let r = AppError { code: code.to_owned(), message: message.to_owned(), details: None, field_errors: Vec::new() };
        assert(r@.field_errors =~= seq![]);
        r
    }

    pub fn with_details(self, details: &str) -> (r: Self)
        ensures
            r@ == (AppErrorSpec { details: Some(details@), ..self@ }),
    {
        AppError { details: Some(details.to_owned()), ..self }
    }

    pub fn with_field_errors(self, field_errors: Vec<FieldError>) -> (r: Self)
        ensures
            r@ == (AppErrorSpec { field_errors: field_error_views(field_errors@), ..self@ }),
    {
        AppError { field_errors, ..self }
    }
}

/// The character as a JSON string escapes it: `"` and `\` behind a
/// backslash, the usual short escapes, other control characters as `\u00xx`.
pub open spec fn json_escape(c: char) -> Seq<char> {
    if c == '"' {
        seq!['\\', '"']
    } else if c == '\\' {
        seq!['\\', '\\']
    } else if c == '\u{8}' {
        seq!['\\', 'b']
    } else if c == '\u{c}' {
        seq!['\\', 'f']
    } else if c == '\n' {
        seq!['\\', 'n']
    } else if c == '\r' {
        seq!['\\', 'r']
    } else if c == '\t' {
        seq!['\\', 't']
    } else if (c as u32) < 0x20 {
        seq!['\\', 'u', '0', '0', hex_digit((c as u32) / 16), hex_digit((c as u32) % 16)]
    } else {
        seq![c]
    }
}

pub open spec fn hex_digit(v: u32) -> char {
    if v < 10 { (('0' as u32) + v) as char } else { (('a' as u32) + v - 10) as char }
}

pub open spec fn json_escaped(s: Seq<char>) -> Seq<char>
    decreases s.len(),
{
    if s.len() == 0 { seq![] } else { json_escaped(s.drop_last()) + json_escape(s.last()) }
}

/// A JSON string literal holding `s`.
pub open spec fn json_string(s: Seq<char>) -> Seq<char> {
    seq!['"'] + json_escaped(s) + seq!['"']
}

/// `serde_json::to_string` on a string slice: the string as a JSON string
/// literal, escaped as serde_json's escape table does. Serialising a string
/// into memory cannot fail, so the error arm is never taken.
#[verifier::external_body]
fn json_string_of(s: &str) -> (r: String)
    ensures
        r@ == json_string(s@),
{
    serde_json::to_string(s).unwrap_or_default()
}

/// Items joined with `sep`.
pub open spec fn join_with(items: Seq<Seq<char>>, sep: Seq<char>) -> Seq<char>
    decreases items.len(),
{
    if items.len() == 0 {
        seq![]
    } else if items.len() == 1 {
        items[0]
    } else {
        join_with(items.drop_last(), sep) + sep + items.last()
    }
}

pub open spec fn json_string_array(items: Seq<Seq<char>>) -> Seq<char> {
    seq!['['] + join_with(items.map_values(|s: Seq<char>| json_string(s)), seq![',']) + seq![']']
}

pub open spec fn field_error_json(f: FieldErrorSpec) -> Seq<char> {
    "{\"path\":"@ + json_string_array(f.path) + ",\"message\":"@ + json_string(f.message) + seq!['}']
}

/// The JSON object of an error: `code`, `message`, then `details` when
/// present and `fieldErrors` when there are any.
pub open spec fn app_error_json(e: AppErrorSpec) -> Seq<char> {
    "{\"code\":"@ + json_string(e.code) + ",\"message\":"@ + json_string(e.message)
        + match e.details {
            Some(d) => ",\"details\":"@ + json_string(d),
            None => seq![],
        }
        + if e.field_errors.len() > 0 {
            ",\"fieldErrors\":["@ + join_with(e.field_errors.map_values(|f: FieldErrorSpec| field_error_json(f)), seq![','])
                + seq![']']
        } else {
            seq![]
        }
        + seq!['}']
}

fn push_json_string(r: &mut Vec<char>, s: &str)
    ensures
        final(r)@ == old(r)@ + json_string(s@),
{
    let q = json_string_of(s);
    push_str(r, q.as_str());
}

fn push_json_string_array(r: &mut Vec<char>, items: &Vec<String>)
    ensures
        final(r)@ == old(r)@ + json_string_array(string_views(items@)),
{
    let ghost start = r@;
    let ghost qs = string_views(items@).map_values(|s: Seq<char>| json_string(s));
    r.push('[');
    let mut i: usize = 0;
    while i < items.len()
        invariant
            0 <= i <= items.len(),
            qs == string_views(items@).map_values(|s: Seq<char>| json_string(s)),
            r@ == start + seq!['['] + join_with(qs.take(i as int), seq![',']),
        decreases items.len() - i,
    {
        proof {
            assert(qs.take(i + 1).drop_last() =~= qs.take(i as int));
            assert(qs.take(i + 1).last() == json_string(items@[i as int]@));
        }
        if i > 0 {
            r.push(',');
        } else {
            assert(qs.take(1) =~= seq![qs[0]]);
        }
        push_json_string(r, items[i].as_str());
        i += 1;
    }
    r.push(']');
    assert(qs.take(items.len() as int) =~= qs);
}

fn push_field_error_json(r: &mut Vec<char>, f: &FieldError)
    ensures
        final(r)@ == old(r)@ + field_error_json(f@),
{
    let ghost start = r@;
    push_str(r, "{\"path\":");
    push_json_string_array(r, &f.path);
    push_str(r, ",\"message\":");
    push_json_string(r, f.message.as_str());
    r.push('}');
    assert(r@ =~= start + field_error_json(f@));
}

impl AppError {
    /// The error as the JSON text the frontend reads.
    pub fn to_json(&self) -> (r: String)
        ensures
            r@ == app_error_json(self@),
    {
        let mut r: Vec<char> = Vec::new();
        push_str(&mut r, "{\"code\":");
        push_json_string(&mut r, self.code.as_str());
        push_str(&mut r, ",\"message\":");
        push_json_string(&mut r, self.message.as_str());
        let ghost head = r@;
        match &self.details {
            Some(d) => {
                push_str(&mut r, ",\"details\":");
                push_json_string(&mut r, d.as_str());
            },
            None => {},
        }
        let ghost with_details = r@;
        let ghost fs = field_error_views(self.field_errors@).map_values(|f: FieldErrorSpec| field_error_json(f));
        if self.field_errors.len() > 0 {
            push_str(&mut r, ",\"fieldErrors\":[");
            let ghost open = r@;
            let mut i: usize = 0;
            while i < self.field_errors.len()
                invariant
                    0 <= i <= self.field_errors.len(),
                    fs == field_error_views(self.field_errors@).map_values(|f: FieldErrorSpec| field_error_json(f)),
                    r@ == open + join_with(fs.take(i as int), seq![',']),
                decreases self.field_errors.len() - i,
            {
                proof {
                    assert(fs.take(i + 1).drop_last() =~= fs.take(i as int));
                    assert(fs.take(i + 1).last() == field_error_json(self.field_errors@[i as int]@));
                }
                if i > 0 {
                    r.push(',');
                } else {
                    assert(fs.take(1) =~= seq![fs[0]]);
                }
                push_field_error_json(&mut r, &self.field_errors[i]);
                i += 1;
            }
            assert(fs.take(self.field_errors.len() as int) =~= fs);
            r.push(']');
        }
        r.push('}');
        proof {
            assert(r@ =~= app_error_json(self@));
        }
        string_of(&r)
    }
}

/// The JSON text of an error with a code and a message.
pub fn to_error_string(code: &str, message: &str) -> (r: String)
    ensures
        r@ == app_error_json(AppErrorSpec { code: code@, message: message@, details: None, field_errors: seq![] }),
{
    AppError::new(code, message).to_json()
}

/// The JSON text of an error with a code, a message and details.
pub fn to_error_string_with_details(code: &str, message: &str, details: &str) -> (r: String)
    ensures
        r@ == app_error_json(AppErrorSpec { code: code@, message: message@, details: Some(details@), field_errors: seq![] }),
{
    AppError::new(code, message).with_details(details).to_json()
}

/// The JSON text of a validation error with its field errors.
pub fn to_validation_error_string(code: &str, message: &str, field_errors: Vec<FieldError>) -> (r: String)
    ensures
        r@ == app_error_json(AppErrorSpec {
            code: code@,
            message: message@,
            details: None,
            field_errors: field_error_views(field_errors@),
        }),
{
    AppError::new(code, message).with_field_errors(field_errors).to_json()
}

} // verus!
