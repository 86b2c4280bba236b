//! Checking a submitted transaction before it is written, and choosing where
//! in a split journal a new transaction goes.

use vstd::prelude::*;
use crate::app_error::{
    app_error_json, field_error_views, string_views, to_validation_error_string, AppErrorSpec, FieldError,
    FieldErrorSpec,
};
use crate::calendar::{iso_date_format, parse_date, parsed_date};
use crate::journal::number::{nat_digits, nat_digits_of};
use crate::journal::types::{PostingInput, PostingInputSpec, TransactionInput, TransactionInputSpec};
use crate::text::{
    chars_eq, contains_char, is_digit, is_ws, char_is_digit, char_is_ws, string_of, to_chars, trim, trim_of,
};

verus! {

pub open spec fn field_error(path: Seq<Seq<char>>, message: Seq<char>) -> FieldErrorSpec {
    FieldErrorSpec { path, message }
}

/// An error for a value that holds a line break.
pub open spec fn single_line_errors(path: Seq<Seq<char>>, value: Seq<char>, message: Seq<char>) -> Seq<FieldErrorSpec> {
    if value.contains('\n') || value.contains('\r') {
        seq![field_error(path, message)]
    } else {
        seq![]
    }
}

pub open spec fn amount_has_number(value: Seq<char>) -> bool {
    exists|i: int| 0 <= i < value.len() && is_digit(value[i])
}

pub open spec fn amount_char_is_commodity(c: char) -> bool {
    !(is_digit(c) || is_ws(c) || c == '.' || c == ',' || c == '-' || c == '+')
}

pub open spec fn amount_has_commodity(value: Seq<char>) -> bool {
    exists|i: int| 0 <= i < value.len() && amount_char_is_commodity(value[i])
}

pub open spec fn is_known_mode(m: Seq<char>) -> bool {
    m == "movement"@ || m == "investment"@ || m == "advanced"@
}

/// A transaction code in hledger's parentheses, with something inside.
pub open spec fn is_hledger_code(c: Seq<char>) -> bool {
    c.len() > 2 && c[0] == '(' && c[c.len() - 1] == ')'
}

/// The errors of the header fields, in the order they are checked.
pub open spec fn header_errors(t: TransactionInputSpec, date_ok: bool) -> Seq<FieldErrorSpec> {
    let mode = trim(t.mode);
    let date = trim(t.date);
    let status = trim(t.status);
    let code = trim(t.code);
    single_line_errors(seq!["mode"@], t.mode, "Mode cannot contain line breaks."@)
        + (if mode.len() > 0 && !is_known_mode(mode) {
            seq![field_error(seq!["mode"@], "Mode must be movement, investment, or advanced."@)]
        } else {
            seq![]
        })
        + single_line_errors(seq!["date"@], t.date, "Date cannot contain line breaks."@)
        + (if date.len() == 0 {
            seq![field_error(seq!["date"@], "Date is required."@)]
        } else if !date_ok {
            seq![field_error(seq!["date"@], "Use a valid date in YYYY-MM-DD format."@)]
        } else {
            seq![]
        })
        + single_line_errors(seq!["status"@], t.status, "Status cannot contain line breaks."@)
        + (if status.len() > 0 && status != seq!['*'] && status != seq!['!'] {
            seq![field_error(seq!["status"@], "Status must be empty, * or !."@)]
        } else {
            seq![]
        })
        + single_line_errors(seq!["code"@], t.code, "Code cannot contain line breaks."@)
        + (if !(code.len() == 0 || is_hledger_code(code)) {
            seq![field_error(seq!["code"@], "Code must use hledger parentheses, for example (INV-001)."@)]
        } else {
            seq![]
        })
        + single_line_errors(seq!["description"@], t.description, "Description cannot contain line breaks."@)
}

pub open spec fn posting_path(index: nat, field: Seq<char>) -> Seq<Seq<char>> {
    seq!["postings"@, nat_digits(index), field]
}

/// Whether a posting row was filled in at all (the commodity alone does not
/// count).
pub open spec fn has_meaningful_input(p: PostingInputSpec) -> bool {
    trim(p.account).len() > 0 || trim(p.amount).len() > 0 || trim(p.unit_price).len() > 0 || trim(p.comment).len() > 0
}

/// The line-break errors of the fields of the posting at `index`.
pub open spec fn posting_line_errors(p: PostingInputSpec, index: nat) -> Seq<FieldErrorSpec> {
    single_line_errors(posting_path(index, "account"@), p.account, "Account cannot contain line breaks."@)
        + single_line_errors(posting_path(index, "amount"@), p.amount, "Amount cannot contain line breaks."@)
        + single_line_errors(posting_path(index, "commodity"@), p.commodity, "Commodity cannot contain line breaks."@)
        + single_line_errors(posting_path(index, "unitPrice"@), p.unit_price, "Unit price cannot contain line breaks."@)
        + single_line_errors(posting_path(index, "comment"@), p.comment, "Comment cannot contain line breaks."@)
}

/// The errors of a posting's (trimmed) amount.
pub open spec fn amount_errors(amount: Seq<char>, commodity: Seq<char>, index: nat) -> Seq<FieldErrorSpec> {
    if amount.len() > 0 {
        (if !amount_has_number(amount) {
            seq![field_error(posting_path(index, "amount"@), "Amount must contain a number."@)]
        } else {
            seq![]
        }) + (if commodity.len() == 0 && !amount_has_commodity(amount) {
            seq![field_error(posting_path(index, "commodity"@), "Commodity is required when the amount does not include one."@)]
        } else {
            seq![]
        })
    } else {
        seq![]
    }
}

/// The errors of a posting's (trimmed) unit price.
pub open spec fn unit_price_errors(amount: Seq<char>, unit_price: Seq<char>, index: nat) -> Seq<FieldErrorSpec> {
    if unit_price.len() > 0 {
        (if amount.len() == 0 {
            seq![field_error(posting_path(index, "unitPrice"@), "Unit price requires a quantity."@)]
        } else {
            seq![]
        }) + (if !amount_has_number(unit_price) {
            seq![field_error(posting_path(index, "unitPrice"@), "Unit price must contain a number."@)]
        } else {
            seq![]
        })
    } else {
        seq![]
    }
}

/// The errors of the posting at `index`.
pub open spec fn posting_errors(p: PostingInputSpec, index: nat) -> Seq<FieldErrorSpec> {
    if !has_meaningful_input(p) {
        seq![]
    } else if trim(p.account).len() == 0 {
        posting_line_errors(p, index) + seq![field_error(posting_path(index, "account"@), "Account is required."@)]
    } else {
        posting_line_errors(p, index) + amount_errors(trim(p.amount), trim(p.commodity), index)
            + unit_price_errors(trim(p.amount), trim(p.unit_price), index)
    }
}

/// The errors of the first `n` postings.
pub open spec fn postings_errors(ps: Seq<PostingInputSpec>, n: nat) -> Seq<FieldErrorSpec>
    decreases n,
{
    if n == 0 {
        seq![]
    } else {
        postings_errors(ps, (n - 1) as nat) + posting_errors(ps[n - 1], (n - 1) as nat)
    }
}

/// How many of the first `n` postings name an account.
pub open spec fn account_count(ps: Seq<PostingInputSpec>, n: nat) -> nat
    decreases n,
{
    if n == 0 {
        0
    } else {
        account_count(ps, (n - 1) as nat) + if trim(ps[n - 1].account).len() > 0 { 1nat } else { 0nat }
    }
}

/// How many of the first `n` postings name an account and an amount.
pub open spec fn amount_count(ps: Seq<PostingInputSpec>, n: nat) -> nat
    decreases n,
{
    if n == 0 {
        0
    } else {
        amount_count(ps, (n - 1) as nat) + if trim(ps[n - 1].account).len() > 0 && trim(ps[n - 1].amount).len() > 0 {
            1nat
        } else {
            0nat
        }
    }
}

/// All field errors of a submitted transaction, in the order they are found;
/// `date_ok` tells whether the trimmed date is a valid `YYYY-MM-DD` date.
pub open spec fn spec_transaction_field_errors(t: TransactionInputSpec, date_ok: bool) -> Seq<FieldErrorSpec> {
    let n = t.postings.len();
    header_errors(t, date_ok) + postings_errors(t.postings, n)
        + (if account_count(t.postings, n) < 2 {
            seq![field_error(seq!["postings"@], "Add at least two posting accounts."@)]
        } else {
            seq![]
        })
        + (if amount_count(t.postings, n) == 0 {
            seq![field_error(seq!["postings"@], "Enter an amount on at least one posting."@)]
        } else {
            seq![]
        })
}

fn one_path(a: &str) -> (r: Vec<String>)
    ensures
        string_views(r@) == seq![a@],
{
    let mut r: Vec<String> = Vec::new();
    r.push(a.to_owned());
    assert(string_views(r@) =~= seq![a@]);
    r
}

fn posting_path_of(index: usize, field: &str) -> (r: Vec<String>)
    ensures
        string_views(r@) == posting_path(index as nat, field@),
{
    let mut r: Vec<String> = Vec::new();
    r.push("postings".to_owned());
    let digits = nat_digits_of(index as u128);
    r.push(string_of(&digits));
    r.push(field.to_owned());
    assert(string_views(r@) =~= posting_path(index as nat, field@));
    r
}

fn push_error(errors: &mut Vec<FieldError>, path: Vec<String>, message: &str)
    ensures
        field_error_views(final(errors)@) == field_error_views(old(errors)@) + seq![field_error(string_views(path@), message@)],
{
    let e = FieldError::new(path, message);
    errors.push(e);
    assert(field_error_views(errors@) =~= field_error_views(old(errors)@) + seq![field_error(string_views(path@), message@)]);
}

fn validate_single_line_field(errors: &mut Vec<FieldError>, path: Vec<String>, value: &str, message: &str)
    ensures
        field_error_views(final(errors)@) == field_error_views(old(errors)@) + single_line_errors(string_views(path@), value@, message@),
{
    let v = to_chars(value);
    if contains_char(&v, '\n') || contains_char(&v, '\r') {
        push_error(errors, path, message);
    } else {
        assert(field_error_views(errors@) =~= field_error_views(old(errors)@) + seq![]);
    }
}

fn amount_contains_number_chars(value: &Vec<char>) -> (r: bool)
    ensures
        r == amount_has_number(value@),
{
    let mut i: usize = 0;
    while i < value.len()
        invariant
            0 <= i <= value.len(),
            forall|j: int| 0 <= j < i ==> !is_digit(value@[j]),
        decreases value.len() - i,
    {
        if char_is_digit(value[i]) {
            return true;
        }
        i += 1;
    }
    false
}

/// Whether an amount holds a digit.
pub fn amount_contains_number(value: &str) -> (r: bool)
    ensures
        r == amount_has_number(value@),
{
    let v = to_chars(value);
    amount_contains_number_chars(&v)
}

fn amount_contains_commodity_chars(value: &Vec<char>) -> (r: bool)
    ensures
        r == amount_has_commodity(value@),
{
    let mut i: usize = 0;
    while i < value.len()
        invariant
            0 <= i <= value.len(),
            forall|j: int| 0 <= j < i ==> !amount_char_is_commodity(value@[j]),
        decreases value.len() - i,
    {
        let c = value[i];
        if !(char_is_digit(c) || char_is_ws(c) || c == '.' || c == ',' || c == '-' || c == '+') {
            return true;
        }
        i += 1;
    }
    false
}

/// Whether an amount holds a character other than digits, whitespace and
/// `.,-+`, that is, a commodity.
pub fn amount_contains_commodity(value: &str) -> (r: bool)
    ensures
        r == amount_has_commodity(value@),
{
    let v = to_chars(value);
    amount_contains_commodity_chars(&v)
}

fn str_is(v: &Vec<char>, s: &str) -> (r: bool)
    ensures
        r == (v@ == s@),
{
    let c = to_chars(s);
    chars_eq(v, &c)
}

fn header_errors_of(input: &TransactionInput, date_ok: bool) -> (r: Vec<FieldError>)
    ensures
        field_error_views(r@) == header_errors(input@, date_ok),
{
    let mut errors: Vec<FieldError> = Vec::new();
    let ghost t = input@;
    let mode = to_chars(input.mode.as_str());
    let mode = trim_of(&mode);
    validate_single_line_field(&mut errors, one_path("mode"), input.mode.as_str(), "Mode cannot contain line breaks.");
    if mode.len() > 0 && !(str_is(&mode, "movement") || str_is(&mode, "investment") || str_is(&mode, "advanced")) {
        push_error(&mut errors, one_path("mode"), "Mode must be movement, investment, or advanced.");
    }
    let ghost e1 = field_error_views(errors@);
    validate_single_line_field(&mut errors, one_path("date"), input.date.as_str(), "Date cannot contain line breaks.");
    let date = to_chars(input.date.as_str());
    let date = trim_of(&date);
    if date.len() == 0 {
        push_error(&mut errors, one_path("date"), "Date is required.");
    } else if !date_ok {
        push_error(&mut errors, one_path("date"), "Use a valid date in YYYY-MM-DD format.");
    }
    let ghost e2 = field_error_views(errors@);
    validate_single_line_field(&mut errors, one_path("status"), input.status.as_str(), "Status cannot contain line breaks.");
    let status = to_chars(input.status.as_str());
    let status = trim_of(&status);
    let is_star = status.len() == 1 && status[0] == '*';
    let is_bang = status.len() == 1 && status[0] == '!';
    proof {
        if is_star {
            assert(status@ =~= seq!['*']);
        }
        if is_bang {
            assert(status@ =~= seq!['!']);
        }
    }
    if status.len() > 0 && !is_star && !is_bang {
        push_error(&mut errors, one_path("status"), "Status must be empty, * or !.");
    }
    let ghost e3 = field_error_views(errors@);
    validate_single_line_field(&mut errors, one_path("code"), input.code.as_str(), "Code cannot contain line breaks.");
    let code = to_chars(input.code.as_str());
    let code = trim_of(&code);
    let valid_code = code.len() > 2 && code[0] == '(' && code[code.len() - 1] == ')';
    if !(code.len() == 0 || valid_code) {
        push_error(&mut errors, one_path("code"), "Code must use hledger parentheses, for example (INV-001).");
    }
    validate_single_line_field(
        &mut errors,
        one_path("description"),
        input.description.as_str(),
        "Description cannot contain line breaks.",
    );
    proof {
        assert(field_error_views(errors@) =~= header_errors(t, date_ok));
    }
    errors
}

fn posting_line_errors_of(errors: &mut Vec<FieldError>, p: &PostingInput, index: usize)
    ensures
        field_error_views(final(errors)@) == field_error_views(old(errors)@) + posting_line_errors(p@, index as nat),
{
    let ghost start = field_error_views(errors@);
    validate_single_line_field(errors, posting_path_of(index, "account"), p.account.as_str(), "Account cannot contain line breaks.");
    validate_single_line_field(errors, posting_path_of(index, "amount"), p.amount.as_str(), "Amount cannot contain line breaks.");
    validate_single_line_field(
        errors,
        posting_path_of(index, "commodity"),
        p.commodity.as_str(),
        "Commodity cannot contain line breaks.",
    );
    validate_single_line_field(
        errors,
        posting_path_of(index, "unitPrice"),
        p.unit_price.as_str(),
        "Unit price cannot contain line breaks.",
    );
    validate_single_line_field(errors, posting_path_of(index, "comment"), p.comment.as_str(), "Comment cannot contain line breaks.");
    assert(field_error_views(errors@) =~= start + posting_line_errors(p@, index as nat));
}

fn amount_errors_of(errors: &mut Vec<FieldError>, amount: &Vec<char>, commodity: &Vec<char>, index: usize)
    ensures
        field_error_views(final(errors)@) == field_error_views(old(errors)@) + amount_errors(amount@, commodity@, index as nat),
{
    let ghost start = field_error_views(errors@);
    if amount.len() > 0 {
        if !amount_contains_number_chars(amount) {
            push_error(errors, posting_path_of(index, "amount"), "Amount must contain a number.");
        }
        if commodity.len() == 0 && !amount_contains_commodity_chars(amount) {
            push_error(
                errors,
                posting_path_of(index, "commodity"),
                "Commodity is required when the amount does not include one.",
            );
        }
    }
    assert(field_error_views(errors@) =~= start + amount_errors(amount@, commodity@, index as nat));
}

fn unit_price_errors_of(errors: &mut Vec<FieldError>, amount: &Vec<char>, unit_price: &Vec<char>, index: usize)
    ensures
        field_error_views(final(errors)@) == field_error_views(old(errors)@) + unit_price_errors(amount@, unit_price@, index as nat),
{
    let ghost start = field_error_views(errors@);
    if unit_price.len() > 0 {
        if amount.len() == 0 {
            push_error(errors, posting_path_of(index, "unitPrice"), "Unit price requires a quantity.");
        }
        if !amount_contains_number_chars(unit_price) {
            push_error(errors, posting_path_of(index, "unitPrice"), "Unit price must contain a number.");
        }
    }
    assert(field_error_views(errors@) =~= start + unit_price_errors(amount@, unit_price@, index as nat));
}

fn posting_errors_of(errors: &mut Vec<FieldError>, p: &PostingInput, index: usize)
    ensures
        field_error_views(final(errors)@) == field_error_views(old(errors)@) + posting_errors(p@, index as nat),
{
    let ghost start = field_error_views(errors@);
    let account = to_chars(p.account.as_str());
    let account = trim_of(&account);
    let amount = to_chars(p.amount.as_str());
    let amount = trim_of(&amount);
    let commodity = to_chars(p.commodity.as_str());
    let commodity = trim_of(&commodity);
    let unit_price = to_chars(p.unit_price.as_str());
    let unit_price = trim_of(&unit_price);
    let comment = to_chars(p.comment.as_str());
    let comment = trim_of(&comment);
    if !(account.len() > 0 || amount.len() > 0 || unit_price.len() > 0 || comment.len() > 0) {
        assert(field_error_views(errors@) =~= start + seq![]);
        return;
    }
    posting_line_errors_of(errors, p, index);
    let ghost lines_part = field_error_views(errors@);
    if account.len() == 0 {
        push_error(errors, posting_path_of(index, "account"), "Account is required.");
        assert(field_error_views(errors@) =~= start + posting_errors(p@, index as nat));
        return;
    }
    amount_errors_of(errors, &amount, &commodity, index);
    unit_price_errors_of(errors, &amount, &unit_price, index);
    assert(field_error_views(errors@) =~= start + posting_errors(p@, index as nat));
}

/// The field errors of a submitted transaction, given whether its trimmed
/// date parses as `YYYY-MM-DD`.
pub fn transaction_field_errors(input: &TransactionInput, date_ok: bool) -> (r: Vec<FieldError>)
    ensures
        field_error_views(r@) == spec_transaction_field_errors(input@, date_ok),
{
    let mut errors = header_errors_of(input, date_ok);
    let ghost ps = input@.postings;
    let mut accounts: usize = 0;
    let mut with_amounts: usize = 0;
    let mut i: usize = 0;
    while i < input.postings.len()
        invariant
            0 <= i <= input.postings.len(),
            ps == input@.postings,
            ps.len() == input.postings.len(),
            field_error_views(errors@) == header_errors(input@, date_ok) + postings_errors(ps, i as nat),
            accounts == account_count(ps, i as nat),
            with_amounts == amount_count(ps, i as nat),
            accounts <= i,
            with_amounts <= i,
        decreases input.postings.len() - i,
    {
        let p = &input.postings[i];
        assert(ps[i as int] == p@);
        posting_errors_of(&mut errors, p, i);
        let account = to_chars(p.account.as_str());
        let account = trim_of(&account);
        let amount = to_chars(p.amount.as_str());
        let amount = trim_of(&amount);
        if account.len() > 0 {
            accounts += 1;
            if amount.len() > 0 {
                with_amounts += 1;
            }
        }
        i += 1;
        proof {
            assert(postings_errors(ps, i as nat) == postings_errors(ps, (i - 1) as nat) + posting_errors(ps[i - 1], (i - 1) as nat));
            assert(field_error_views(errors@) =~= header_errors(input@, date_ok) + postings_errors(ps, i as nat));
        }
    }
    if accounts < 2 {
        push_error(&mut errors, one_path("postings"), "Add at least two posting accounts.");
    }
    if with_amounts == 0 {
        push_error(&mut errors, one_path("postings"), "Enter an amount on at least one posting.");
    }
    proof {
        assert(field_error_views(errors@) =~= spec_transaction_field_errors(input@, date_ok));
    }
    errors
}

/// Whether the trimmed date of a submitted transaction parses as a
/// `YYYY-MM-DD` date.
pub open spec fn input_date_ok(t: TransactionInputSpec) -> bool {
    parsed_date(trim(t.date), iso_date_format()) is Ok
}

/// The JSON error text of a rejected transaction.
pub open spec fn validation_error_json(errors: Seq<FieldErrorSpec>) -> Seq<char> {
    app_error_json(AppErrorSpec {
        code: "transaction_validation_failed"@,
        message: "Transaction validation failed. Check the highlighted fields."@,
        details: None,
        field_errors: errors,
    })
}

/// Checks a submitted transaction: `Ok` when it has no field error, else the
/// JSON text of a validation error that lists them.
pub fn validate_transaction_input(input: &TransactionInput) -> (r: Result<(), String>)
    ensures
        match r {
            Ok(()) => spec_transaction_field_errors(input@, input_date_ok(input@)).len() == 0,
            Err(e) => spec_transaction_field_errors(input@, input_date_ok(input@)).len() > 0
                && e@ == validation_error_json(spec_transaction_field_errors(input@, input_date_ok(input@))),
        },
{
    let date = to_chars(input.date.as_str());
    let date = trim_of(&date);
    let date_ok = if date.len() == 0 {
        true
    } else {
        let d = string_of(&date);
        parse_date(d.as_str(), "%Y-%m-%d").is_ok()
    };
    assert(header_errors(input@, date_ok) == header_errors(input@, input_date_ok(input@)));
    let errors = transaction_field_errors(input, date_ok);
    if errors.len() == 0 {
        Ok(())
    } else {
        Err(to_validation_error_string(
            "transaction_validation_failed",
            "Transaction validation failed. Check the highlighted fields.",
            errors,
        ))
    }
}

} // verus!
