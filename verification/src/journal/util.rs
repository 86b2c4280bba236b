//! Small splitting helpers shared by the journal readers.

use vstd::prelude::*;
use crate::text::{
    char_pred, find_char, find_ws, first_match, lemma_first_match_props, slice_of, string_of,
    to_chars, trim, trim_of, ws_pred,
};

verus! {

/// `value` split at the first `;`: the part before it and the trimmed comment
/// after it; without a `;`, the whole value and an empty comment.
pub open spec fn spec_split_inline_comment(v: Seq<char>) -> (Seq<char>, Seq<char>) {
    let k = first_match(v, char_pred(';'));
    if k < 0 {
        (v, seq![])
    } else {
        (v.take(k), trim(v.skip(k + 1)))
    }
}

/// `value` split before its first whitespace character; without one, the
/// whole value and an empty rest.
pub open spec fn spec_split_first_token(v: Seq<char>) -> (Seq<char>, Seq<char>) {
    let k = first_match(v, ws_pred());
    if k < 0 {
        (v, seq![])
    } else {
        (v.take(k), v.skip(k))
    }
}

pub fn split_inline_comment_chars(v: &Vec<char>) -> (r: (Vec<char>, Vec<char>))
    ensures
        (r.0@, r.1@) == spec_split_inline_comment(v@),
{
    match find_char(v, ';') {
        Some(k) => {
            proof {
                lemma_first_match_props(v@, char_pred(';'));
            }
            let before = slice_of(v, 0, k);
            let after = slice_of(v, k + 1, v.len());
            let after = trim_of(&after);
            assert(before@ =~= v@.take(k as int));
            assert(v@.subrange(k + 1, v.len() as int) =~= v@.skip(k + 1));
            (before, after)
        },
        None => (v.clone(), Vec::new()),
    }
}

pub fn split_first_token_chars(v: &Vec<char>) -> (r: (Vec<char>, Vec<char>))
    ensures
        (r.0@, r.1@) == spec_split_first_token(v@),
{
    match find_ws(v) {
        Some(k) => {
            proof {
                lemma_first_match_props(v@, ws_pred());
            }
            let before = slice_of(v, 0, k);
            let after = slice_of(v, k, v.len());
            assert(before@ =~= v@.take(k as int));
            assert(after@ =~= v@.skip(k as int));
            (before, after)
        },
        None => (v.clone(), Vec::new()),
    }
}

/// Splits an inline hledger comment from a posting line.
pub fn split_inline_comment(value: &str) -> (r: (String, String))
    ensures
        (r.0@, r.1@) == spec_split_inline_comment(value@),
{
    let v = to_chars(value);
    let (a, b) = split_inline_comment_chars(&v);
    (string_of(&a), string_of(&b))
}

/// Splits the first token from a string.
pub fn split_first_token(value: &str) -> (r: (String, String))
    ensures
        (r.0@, r.1@) == spec_split_first_token(value@),
{
    let v = to_chars(value);
    let (a, b) = split_first_token_chars(&v);
    (string_of(&a), string_of(&b))
}

} // verus!
