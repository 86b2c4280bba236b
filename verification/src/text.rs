//! Character-level helpers. Text is handled as `Vec<char>`, whose view is the
//! same `Seq<char>` as the view of a `String`.

use vstd::prelude::*;

verus! {

/// Rust's `char::is_whitespace`: the Unicode `White_Space` property.
pub open spec fn is_ws(c: char) -> bool {
    ||| c == ' '
    ||| ('\t' <= c && c <= '\r')
    ||| c == '\u{85}'
    ||| c == '\u{a0}'
    ||| c == '\u{1680}'
    ||| ('\u{2000}' <= c && c <= '\u{200a}')
    ||| c == '\u{2028}'
    ||| c == '\u{2029}'
    ||| c == '\u{202f}'
    ||| c == '\u{205f}'
    ||| c == '\u{3000}'
}

pub open spec fn is_digit(c: char) -> bool {
    '0' <= c && c <= '9'
}

pub fn char_is_ws(c: char) -> (r: bool)
    ensures
        r == is_ws(c),
{
    c == ' ' || ('\t' <= c && c <= '\r') || c == '\u{85}' || c == '\u{a0}' || c == '\u{1680}'
        || ('\u{2000}' <= c && c <= '\u{200a}') || c == '\u{2028}' || c == '\u{2029}'
        || c == '\u{202f}' || c == '\u{205f}' || c == '\u{3000}'
}

pub fn char_is_digit(c: char) -> (r: bool)
    ensures
        r == is_digit(c),
{
    '0' <= c && c <= '9'
}

/// Copies the characters of a string slice.
pub fn to_chars(s: &str) -> (r: Vec<char>)
    ensures
        r@ == s@,
{
    let mut r: Vec<char> = Vec::new();
    for c in it: s.chars()
        invariant
            r@ == it.seq().take(it.index() as int),
            it.seq() == s@,
    {
        r.push(c);
    }
    r
}

} // verus!

verus! {

pub open spec fn ws_pred() -> spec_fn(char) -> bool {
    |c: char| is_ws(c)
}

pub open spec fn digit_pred() -> spec_fn(char) -> bool {
    |c: char| is_digit(c)
}

pub open spec fn char_pred(x: char) -> spec_fn(char) -> bool {
    |c: char| c == x
}

pub open spec fn ne_pred(x: char) -> spec_fn(char) -> bool {
    |c: char| c != x
}

pub open spec fn non_ws_pred() -> spec_fn(char) -> bool {
    |c: char| !is_ws(c)
}

/// Index of the first character satisfying `p`, or -1.
pub open spec fn first_match(s: Seq<char>, p: spec_fn(char) -> bool) -> int
    decreases s.len(),
{
    if s.len() == 0 {
        -1
    } else if p(s[0]) {
        0
    } else {
        let r = first_match(s.drop_first(), p);
        if r < 0 {
            -1
        } else {
            r + 1
        }
    }
}

/// Index of the last character satisfying `p`, or -1.
pub open spec fn last_match(s: Seq<char>, p: spec_fn(char) -> bool) -> int
    decreases s.len(),
{
    if s.len() == 0 {
        -1
    } else if p(s.last()) {
        s.len() - 1
    } else {
        last_match(s.drop_last(), p)
    }
}

pub proof fn lemma_first_match(s: Seq<char>, p: spec_fn(char) -> bool, i: int)
    requires
        0 <= i <= s.len(),
        forall|j: int| 0 <= j < i ==> !p(s[j]),
        i < s.len() ==> p(s[i]),
    ensures
        first_match(s, p) == (if i < s.len() { i } else { -1 }),
    decreases s.len(),
{
    if s.len() > 0 && i > 0 {
        let t = s.drop_first();
        assert forall|j: int| 0 <= j < i - 1 implies !p(t[j]) by {
            assert(t[j] == s[j + 1]);
        }
        lemma_first_match(t, p, i - 1);
    }
}

pub proof fn lemma_first_match_props(s: Seq<char>, p: spec_fn(char) -> bool)
    ensures
        -1 <= first_match(s, p) < s.len(),
        first_match(s, p) >= 0 ==> p(s[first_match(s, p)]),
        forall|j: int| 0 <= j < s.len() && (first_match(s, p) < 0 || j < first_match(s, p)) ==> !p(s[j]),
    decreases s.len(),
{
    if s.len() > 0 && !p(s[0]) {
        let t = s.drop_first();
        lemma_first_match_props(t, p);
        assert forall|j: int| 0 <= j < s.len() && (first_match(s, p) < 0 || j < first_match(s, p)) implies !p(s[j]) by {
            if j > 0 {
                assert(s[j] == t[j - 1]);
            }
        }
    }
}

pub proof fn lemma_last_match(s: Seq<char>, p: spec_fn(char) -> bool, i: int)
    requires
        -1 <= i < s.len(),
        forall|j: int| i < j < s.len() ==> !p(s[j]),
        i >= 0 ==> p(s[i]),
    ensures
        last_match(s, p) == i,
    decreases s.len(),
{
    if s.len() > 0 && i < s.len() - 1 {
        let t = s.drop_last();
        assert forall|j: int| i < j < t.len() implies !p(t[j]) by {
            assert(t[j] == s[j]);
        }
        lemma_last_match(t, p, i);
    }
}

pub proof fn lemma_last_match_props(s: Seq<char>, p: spec_fn(char) -> bool)
    ensures
        -1 <= last_match(s, p) < s.len(),
        last_match(s, p) >= 0 ==> p(s[last_match(s, p)]),
        forall|j: int| last_match(s, p) < j < s.len() ==> !p(s[j]),
    decreases s.len(),
{
    if s.len() > 0 && !p(s.last()) {
        let t = s.drop_last();
        lemma_last_match_props(t, p);
        assert forall|j: int| last_match(s, p) < j < s.len() implies !p(s[j]) by {
            if j < s.len() - 1 {
                assert(s[j] == t[j]);
            }
        }
    }
}

pub open spec fn trim_start(s: Seq<char>) -> Seq<char> {
    let k = first_match(s, non_ws_pred());
    if k < 0 { seq![] } else { s.skip(k) }
}

pub open spec fn trim_end(s: Seq<char>) -> Seq<char> {
    s.take(last_match(s, non_ws_pred()) + 1)
}

/// Rust's `str::trim`.
pub open spec fn trim(s: Seq<char>) -> Seq<char> {
    trim_end(trim_start(s))
}

pub open spec fn starts_with(s: Seq<char>, p: Seq<char>) -> bool {
    p.len() <= s.len() && s.take(p.len() as int) == p
}

pub open spec fn ends_with(s: Seq<char>, p: Seq<char>) -> bool {
    p.len() <= s.len() && s.skip(s.len() - p.len()) == p
}

pub open spec fn occurs_at(s: Seq<char>, p: Seq<char>, i: int) -> bool {
    0 <= i && i + p.len() <= s.len() && s.subrange(i, i + p.len()) == p
}

/// Rust's `str::find` with a string pattern: first index of `p` in `s`, or -1.
pub open spec fn find_sub(s: Seq<char>, p: Seq<char>) -> int {
    if exists|i: int| occurs_at(s, p, i) {
        choose|i: int| occurs_at(s, p, i) && forall|j: int| 0 <= j < i ==> !occurs_at(s, p, j)
    } else {
        -1
    }
}

/// Rust's `str::rfind` with a string pattern: last index of `p` in `s`, or -1.
pub open spec fn rfind_sub(s: Seq<char>, p: Seq<char>) -> int {
    if exists|i: int| occurs_at(s, p, i) {
        choose|i: int| occurs_at(s, p, i) && forall|j: int| i < j ==> !occurs_at(s, p, j)
    } else {
        -1
    }
}

pub open spec fn contains(s: Seq<char>, p: Seq<char>) -> bool {
    exists|i: int| occurs_at(s, p, i)
}

pub proof fn lemma_find_sub(s: Seq<char>, p: Seq<char>, i: int)
    requires
        occurs_at(s, p, i),
        forall|j: int| 0 <= j < i ==> !occurs_at(s, p, j),
    ensures
        find_sub(s, p) == i,
{
    let k = choose|k: int| occurs_at(s, p, k) && forall|j: int| 0 <= j < k ==> !occurs_at(s, p, j);
    assert(occurs_at(s, p, k) && forall|j: int| 0 <= j < k ==> !occurs_at(s, p, j));
    if k < i {
        assert(!occurs_at(s, p, k));
    }
    if k > i {
        assert(!occurs_at(s, p, i));
    }
}

pub proof fn lemma_find_sub_none(s: Seq<char>, p: Seq<char>)
    requires
        forall|j: int| !occurs_at(s, p, j),
    ensures
        find_sub(s, p) == -1,
{
}

pub proof fn lemma_rfind_sub(s: Seq<char>, p: Seq<char>, i: int)
    requires
        occurs_at(s, p, i),
        forall|j: int| i < j ==> !occurs_at(s, p, j),
    ensures
        rfind_sub(s, p) == i,
{
    let k = choose|k: int| occurs_at(s, p, k) && forall|j: int| k < j ==> !occurs_at(s, p, j);
    assert(occurs_at(s, p, k) && forall|j: int| k < j ==> !occurs_at(s, p, j));
    if k < i {
        assert(!occurs_at(s, p, i));
    }
    if k > i {
        assert(!occurs_at(s, p, k));
    }
}

/// Copies `s[a..b]`.
pub fn slice_of(s: &Vec<char>, a: usize, b: usize) -> (r: Vec<char>)
    requires
        a <= b <= s.len(),
    ensures
        r@ == s@.subrange(a as int, b as int),
{
    let mut r: Vec<char> = Vec::new();
    let mut i: usize = a;
    while i < b
        invariant
            a <= i <= b <= s.len(),
            r@ == s@.subrange(a as int, i as int),
        decreases b - i,
    {
        r.push(s[i]);
        i += 1;
        assert(r@ =~= s@.subrange(a as int, i as int));
    }
    r
}

/// Appends `p` to `r`.
pub fn push_all(r: &mut Vec<char>, p: &Vec<char>)
    ensures
        final(r)@ == old(r)@ + p@,
{
    let mut i: usize = 0;
    while i < p.len()
        invariant
            0 <= i <= p.len(),
            r@ == old(r)@ + p@.take(i as int),
        decreases p.len() - i,
    {
        r.push(p[i]);
        i += 1;
        assert(r@ =~= old(r)@ + p@.take(i as int));
    }
    assert(p@.take(p.len() as int) =~= p@);
}

/// Appends the characters of a string slice to `r`.
pub fn push_str(r: &mut Vec<char>, s: &str)
    ensures
        final(r)@ == old(r)@ + s@,
{
    let p = to_chars(s);
    push_all(r, &p);
}

pub fn concat(a: &Vec<char>, b: &Vec<char>) -> (r: Vec<char>)
    ensures
        r@ == a@ + b@,
{
    let mut r = a.clone();
    assert(r@ =~= a@);
    push_all(&mut r, b);
    r
}

pub fn chars_eq(a: &Vec<char>, b: &Vec<char>) -> (r: bool)
    ensures
        r == (a@ == b@),
{
    if a.len() != b.len() {
        return false;
    }
    let mut i: usize = 0;
    while i < a.len()
        invariant
            a.len() == b.len(),
            0 <= i <= a.len(),
            forall|j: int| 0 <= j < i ==> a@[j] == b@[j],
        decreases a.len() - i,
    {
        if a[i] != b[i] {
            return false;
        }
        i += 1;
    }
    assert(a@ =~= b@);
    true
}

pub fn trim_start_of(s: &Vec<char>) -> (r: Vec<char>)
    ensures
        r@ == trim_start(s@),
{
    let mut i: usize = 0;
    while i < s.len() && char_is_ws(s[i])
        invariant
            0 <= i <= s.len(),
            forall|j: int| 0 <= j < i ==> is_ws(s@[j]),
        decreases s.len() - i,
    {
        i += 1;
    }
    proof {
        lemma_first_match(s@, non_ws_pred(), i as int);
    }
    let r = slice_of(s, i, s.len());
    assert(i == s.len() ==> r@ =~= seq![]);
    r
}

pub fn trim_end_of(s: &Vec<char>) -> (r: Vec<char>)
    ensures
        r@ == trim_end(s@),
{
    let mut k: usize = s.len();
    while k > 0 && char_is_ws(s[k - 1])
        invariant
            0 <= k <= s.len(),
            forall|j: int| k <= j < s.len() ==> is_ws(s@[j]),
        decreases k,
    {
        k -= 1;
    }
    proof {
        lemma_last_match(s@, non_ws_pred(), k - 1);
    }
    let r = slice_of(s, 0, k);
    assert(r@ =~= s@.take(k as int));
    r
}

pub fn trim_of(s: &Vec<char>) -> (r: Vec<char>)
    ensures
        r@ == trim(s@),
{
    let a = trim_start_of(s);
    trim_end_of(&a)
}

pub fn starts_with_chars(s: &Vec<char>, p: &Vec<char>) -> (r: bool)
    ensures
        r == starts_with(s@, p@),
{
    if p.len() > s.len() {
        return false;
    }
    let mut i: usize = 0;
    while i < p.len()
        invariant
            p.len() <= s.len(),
            0 <= i <= p.len(),
            forall|j: int| 0 <= j < i ==> s@[j] == p@[j],
        decreases p.len() - i,
    {
        if s[i] != p[i] {
            assert(s@.take(p.len() as int)[i as int] != p@[i as int]);
            return false;
        }
        i += 1;
    }
    assert(s@.take(p.len() as int) =~= p@);
    true
}

pub fn starts_with_str(s: &Vec<char>, p: &str) -> (r: bool)
    ensures
        r == starts_with(s@, p@),
{
    let pc = to_chars(p);
    starts_with_chars(s, &pc)
}

pub fn ends_with_chars(s: &Vec<char>, p: &Vec<char>) -> (r: bool)
    ensures
        r == ends_with(s@, p@),
{
    if p.len() > s.len() {
        return false;
    }
    let off: usize = s.len() - p.len();
    let mut i: usize = 0;
    while i < p.len()
        invariant
            p.len() <= s.len(),
            off == s.len() - p.len(),
            0 <= i <= p.len(),
            forall|j: int| 0 <= j < i ==> s@[off + j] == p@[j],
        decreases p.len() - i,
    {
        if s[off + i] != p[i] {
            assert(s@.skip(off as int)[i as int] != p@[i as int]);
            return false;
        }
        i += 1;
    }
    assert(s@.skip(off as int) =~= p@);
    true
}

pub fn ends_with_str(s: &Vec<char>, p: &str) -> (r: bool)
    ensures
        r == ends_with(s@, p@),
{
    let pc = to_chars(p);
    ends_with_chars(s, &pc)
}

/// Whether `p` occurs in `s` at index `i`.
pub fn occurs_at_exec(s: &Vec<char>, p: &Vec<char>, i: usize) -> (r: bool)
    ensures
        r == occurs_at(s@, p@, i as int),
{
    if i > s.len() || p.len() > s.len() - i {
        return false;
    }
    let mut k: usize = 0;
    while k < p.len()
        invariant
            i + p.len() <= s.len(),
            0 <= k <= p.len(),
            forall|j: int| 0 <= j < k ==> s@[i + j] == p@[j],
        decreases p.len() - k,
    {
        if s[i + k] != p[k] {
            assert(s@.subrange(i as int, i + p.len())[k as int] != p@[k as int]);
            return false;
        }
        k += 1;
    }
    assert(s@.subrange(i as int, i + p.len()) =~= p@);
    true
}

/// First occurrence of `p` in `s`.
pub fn find_chars(s: &Vec<char>, p: &Vec<char>) -> (r: Option<usize>)
    ensures
        match r {
            Some(i) => find_sub(s@, p@) == i,
            None => find_sub(s@, p@) == -1,
        },
        r is Some <==> contains(s@, p@),
{
    if p.len() > s.len() {
        assert forall|j: int| !occurs_at(s@, p@, j) by {}
        return None;
    }
    let last: usize = s.len() - p.len();
    let mut i: usize = 0;
    while i < last
        invariant
            last == s.len() - p.len(),
            0 <= i <= last,
            forall|j: int| 0 <= j < i ==> !occurs_at(s@, p@, j),
        decreases last - i,
    {
        if occurs_at_exec(s, p, i) {
            proof {
                lemma_find_sub(s@, p@, i as int);
            }
            return Some(i);
        }
        i += 1;
    }
    if occurs_at_exec(s, p, last) {
        proof {
            lemma_find_sub(s@, p@, last as int);
        }
        return Some(last);
    }
    assert forall|j: int| !occurs_at(s@, p@, j) by {
        if 0 <= j <= last {
        }
    }
    None
}

pub fn find_str(s: &Vec<char>, p: &str) -> (r: Option<usize>)
    ensures
        match r {
            Some(i) => find_sub(s@, p@) == i,
            None => find_sub(s@, p@) == -1,
        },
        r is Some <==> contains(s@, p@),
{
    let pc = to_chars(p);
    find_chars(s, &pc)
}

/// Last occurrence of `p` in `s`.
pub fn rfind_chars(s: &Vec<char>, p: &Vec<char>) -> (r: Option<usize>)
    ensures
        match r {
            Some(i) => rfind_sub(s@, p@) == i,
            None => rfind_sub(s@, p@) == -1,
        },
{
    if p.len() > s.len() {
        assert forall|j: int| !occurs_at(s@, p@, j) by {}
        return None;
    }
    let mut k: usize = s.len() - p.len();
    while k > 0
        invariant
            0 <= k <= s.len() - p.len(),
            forall|j: int| k < j ==> !occurs_at(s@, p@, j),
        decreases k,
    {
        if occurs_at_exec(s, p, k) {
            proof {
                lemma_rfind_sub(s@, p@, k as int);
            }
            return Some(k);
        }
        k -= 1;
    }
    if occurs_at_exec(s, p, 0) {
        proof {
            lemma_rfind_sub(s@, p@, 0);
        }
        return Some(0);
    }
    assert forall|j: int| !occurs_at(s@, p@, j) by {
        if j >= 0 {
        }
    }
    None
}

pub fn rfind_str(s: &Vec<char>, p: &str) -> (r: Option<usize>)
    ensures
        match r {
            Some(i) => rfind_sub(s@, p@) == i,
            None => rfind_sub(s@, p@) == -1,
        },
{
    let pc = to_chars(p);
    rfind_chars(s, &pc)
}

/// First index of the character `c`.
pub fn find_char(s: &Vec<char>, c: char) -> (r: Option<usize>)
    ensures
        match r {
            Some(i) => first_match(s@, char_pred(c)) == i,
            None => first_match(s@, char_pred(c)) == -1,
        },
{
    let mut i: usize = 0;
    while i < s.len()
        invariant
            0 <= i <= s.len(),
            forall|j: int| 0 <= j < i ==> s@[j] != c,
        decreases s.len() - i,
    {
        if s[i] == c {
            proof {
                lemma_first_match(s@, char_pred(c), i as int);
            }
            return Some(i);
        }
        i += 1;
    }
    proof {
        lemma_first_match(s@, char_pred(c), i as int);
    }
    None
}

/// First index of a whitespace character.
pub fn find_ws(s: &Vec<char>) -> (r: Option<usize>)
    ensures
        match r {
            Some(i) => first_match(s@, ws_pred()) == i,
            None => first_match(s@, ws_pred()) == -1,
        },
{
    let mut i: usize = 0;
    while i < s.len()
        invariant
            0 <= i <= s.len(),
            forall|j: int| 0 <= j < i ==> !is_ws(s@[j]),
        decreases s.len() - i,
    {
        if char_is_ws(s[i]) {
            proof {
                lemma_first_match(s@, ws_pred(), i as int);
            }
            return Some(i);
        }
        i += 1;
    }
    proof {
        lemma_first_match(s@, ws_pred(), i as int);
    }
    None
}

/// First index of an ASCII digit.
pub fn find_digit(s: &Vec<char>) -> (r: Option<usize>)
    ensures
        match r {
            Some(i) => first_match(s@, digit_pred()) == i,
            None => first_match(s@, digit_pred()) == -1,
        },
{
    let mut i: usize = 0;
    while i < s.len()
        invariant
            0 <= i <= s.len(),
            forall|j: int| 0 <= j < i ==> !is_digit(s@[j]),
        decreases s.len() - i,
    {
        if char_is_digit(s[i]) {
            proof {
                lemma_first_match(s@, digit_pred(), i as int);
            }
            return Some(i);
        }
        i += 1;
    }
    proof {
        lemma_first_match(s@, digit_pred(), i as int);
    }
    None
}

/// Last index of an ASCII digit.
pub fn rfind_digit(s: &Vec<char>) -> (r: Option<usize>)
    ensures
        match r {
            Some(i) => last_match(s@, digit_pred()) == i,
            None => last_match(s@, digit_pred()) == -1,
        },
{
    let mut k: usize = s.len();
    while k > 0
        invariant
            0 <= k <= s.len(),
            forall|j: int| k <= j < s.len() ==> !is_digit(s@[j]),
        decreases k,
    {
        if char_is_digit(s[k - 1]) {
            proof {
                lemma_last_match(s@, digit_pred(), k - 1);
            }
            return Some(k - 1);
        }
        k -= 1;
    }
    proof {
        lemma_last_match(s@, digit_pred(), -1);
    }
    None
}

pub fn contains_char(s: &Vec<char>, c: char) -> (r: bool)
    ensures
        r == s@.contains(c),
{
    let mut i: usize = 0;
    while i < s.len()
        invariant
            0 <= i <= s.len(),
            forall|j: int| 0 <= j < i ==> s@[j] != c,
        decreases s.len() - i,
    {
        if s[i] == c {
            assert(s@[i as int] == c);
            return true;
        }
        i += 1;
    }
    false
}

} // verus!

verus! {

/// Builds a `String` from characters (`FromIterator<char>` of std).
#[verifier::external_body]
pub(crate) fn string_of(v: &Vec<char>) -> (r: String)
    ensures
        r@ == v@,
{
    v.iter().collect()
}

pub open spec fn strip_cr(l: Seq<char>) -> Seq<char> {
    if l.len() > 0 && l.last() == '\r' {
        l.drop_last()
    } else {
        l
    }
}

/// Rust's `str::lines`: pieces split at `\n`, a `\r` before a `\n` removed,
/// no final empty piece after a trailing `\n`.
pub open spec fn lines(s: Seq<char>) -> Seq<Seq<char>>
    decreases s.len(),
{
    if s.len() == 0 {
        seq![]
    } else {
        let k = first_match(s, char_pred('\n'));
        if k < 0 {
            seq![s]
        } else {
            proof {
                lemma_first_match_props(s, char_pred('\n'));
            }
            seq![strip_cr(s.take(k))] + lines(s.skip(k + 1))
        }
    }
}

pub open spec fn views(v: Seq<Vec<char>>) -> Seq<Seq<char>> {
    v.map_values(|x: Vec<char>| x@)
}

pub fn strip_cr_of(l: Vec<char>) -> (r: Vec<char>)
    ensures
        r@ == strip_cr(l@),
{
    let mut l = l;
    if l.len() > 0 && l[l.len() - 1] == '\r' {
        l.pop();
    }
    l
}

/// Splits text into lines as `str::lines` does.
pub fn lines_of(s: &Vec<char>) -> (r: Vec<Vec<char>>)
    ensures
        views(r@) == lines(s@),
{
    let mut r: Vec<Vec<char>> = Vec::new();
    let mut start: usize = 0;
    let mut j: usize = 0;
    assert(s@.skip(0) =~= s@);
    while j < s.len()
        invariant
            0 <= start <= j <= s.len(),
            forall|k: int| start <= k < j ==> s@[k] != '\n',
            lines(s@) == views(r@) + lines(s@.skip(start as int)),
        decreases s.len() - j,
    {
        if s[j] == '\n' {
            let piece = slice_of(s, start, j);
            let piece = strip_cr_of(piece);
            proof {
                let t = s@.skip(start as int);
                lemma_first_match(t, char_pred('\n'), j - start);
                assert(t.take(j - start) =~= s@.subrange(start as int, j as int));
                assert(t.skip(j - start + 1) =~= s@.skip(j + 1));
                assert(views(r@.push(piece)) =~= views(r@).push(piece@));
            }
            r.push(piece);
            start = j + 1;
            proof {
                assert(views(r@) + lines(s@.skip(start as int)) =~= views(r@.drop_last()) + (seq![r@.last()@] + lines(s@.skip(start as int))));
            }
        }
        j += 1;
    }
    if start < s.len() {
        let piece = slice_of(s, start, s.len());
        proof {
            let t = s@.skip(start as int);
            lemma_first_match(t, char_pred('\n'), t.len() as int);
            assert(t =~= piece@);
            assert(views(r@.push(piece)) =~= views(r@).push(piece@));
        }
        r.push(piece);
    } else {
        assert(views(r@) + lines(s@.skip(start as int)) =~= views(r@));
    }
    r
}

/// ASCII lowercase of one character (`char::to_ascii_lowercase`).
pub open spec fn ascii_lower(c: char) -> char {
    if 'A' <= c && c <= 'Z' {
        ((c as u32) + 32) as char
    } else {
        c
    }
}

/// Rust's `str::eq_ignore_ascii_case`.
pub open spec fn eq_ignore_ascii_case(a: Seq<char>, b: Seq<char>) -> bool {
    a.len() == b.len() && forall|i: int| 0 <= i < a.len() ==> ascii_lower(a[i]) == ascii_lower(b[i])
}

pub fn ascii_lower_of(c: char) -> (r: char)
    ensures
        r == ascii_lower(c),
{
    if 'A' <= c && c <= 'Z' {
        ((c as u8) + 32) as char
    } else {
        c
    }
}

pub fn eq_ignore_ascii_case_of(a: &Vec<char>, b: &Vec<char>) -> (r: bool)
    ensures
        r == eq_ignore_ascii_case(a@, b@),
{
    if a.len() != b.len() {
        return false;
    }
    let mut i: usize = 0;
    while i < a.len()
        invariant
            a.len() == b.len(),
            0 <= i <= a.len(),
            forall|j: int| 0 <= j < i ==> ascii_lower(a@[j]) == ascii_lower(b@[j]),
        decreases a.len() - i,
    {
        if ascii_lower_of(a[i]) != ascii_lower_of(b[i]) {
            return false;
        }
        i += 1;
    }
    true
}

} // verus!

verus! {

/// Rust's `str::trim_matches(c)` for a single character.
pub open spec fn trim_char(s: Seq<char>, c: char) -> Seq<char> {
    let a = first_match(s, ne_pred(c));
    if a < 0 {
        seq![]
    } else {
        s.subrange(a, last_match(s, ne_pred(c)) + 1)
    }
}

pub fn trim_char_of(s: &Vec<char>, c: char) -> (r: Vec<char>)
    ensures
        r@ == trim_char(s@, c),
{
    let mut a: usize = 0;
    while a < s.len() && s[a] == c
        invariant
            0 <= a <= s.len(),
            forall|j: int| 0 <= j < a ==> s@[j] == c,
        decreases s.len() - a,
    {
        a += 1;
    }
    proof {
        lemma_first_match(s@, ne_pred(c), a as int);
    }
    if a == s.len() {
        return Vec::new();
    }
    let mut b: usize = s.len();
    while b > a && s[b - 1] == c
        invariant
            a < s.len(),
            s@[a as int] != c,
            a <= b <= s.len(),
            forall|j: int| b <= j < s.len() ==> s@[j] == c,
        decreases b,
    {
        b -= 1;
    }
    proof {
        lemma_last_match(s@, ne_pred(c), b - 1);
    }
    slice_of(s, a, b)
}

/// Number of UTF-8 bytes of one character.
pub open spec fn utf8_len(c: char) -> nat {
    if (c as u32) < 0x80 {
        1
    } else if (c as u32) < 0x800 {
        2
    } else if (c as u32) < 0x10000 {
        3
    } else {
        4
    }
}

/// Number of UTF-8 bytes of a text (`str::len`).
pub open spec fn byte_len(s: Seq<char>) -> nat
    decreases s.len(),
{
    if s.len() == 0 {
        0
    } else {
        byte_len(s.drop_last()) + utf8_len(s.last())
    }
}

pub fn utf8_len_of(c: char) -> (r: usize)
    ensures
        r == utf8_len(c),
{
    if (c as u32) < 0x80 {
        1
    } else if (c as u32) < 0x800 {
        2
    } else if (c as u32) < 0x10000 {
        3
    } else {
        4
    }
}

/// Byte length of the first `n` characters.
pub fn byte_len_of(s: &Vec<char>, n: usize) -> (r: usize)
    requires
        n <= s.len(),
        byte_len(s@.take(n as int)) <= usize::MAX,
    ensures
        r == byte_len(s@.take(n as int)),
{
    let mut total: usize = 0;
    let mut i: usize = 0;
    while i < n
        invariant
            0 <= i <= n <= s.len(),
            total == byte_len(s@.take(i as int)),
            byte_len(s@.take(n as int)) <= usize::MAX,
        decreases n - i,
    {
        proof {
            assert(s@.take(i + 1).drop_last() =~= s@.take(i as int));
            lemma_byte_len_mono(s@.take(n as int), i + 1);
            assert(s@.take(n as int).take(i + 1) =~= s@.take(i + 1));
        }
        total = total + utf8_len_of(s[i]);
        i += 1;
    }
    total
}

pub proof fn lemma_byte_len_mono(s: Seq<char>, k: int)
    requires
        0 <= k <= s.len(),
    ensures
        byte_len(s.take(k)) <= byte_len(s),
    decreases s.len(),
{
    if k < s.len() {
        assert(s.drop_last().take(k) =~= s.take(k));
        lemma_byte_len_mono(s.drop_last(), k);
    } else {
        assert(s.take(k) =~= s);
    }
}

} // verus!

verus! {

/// Rust's `str::trim_end_matches(c)` for a single character.
pub open spec fn trim_end_char(s: Seq<char>, c: char) -> Seq<char> {
    s.take(last_match(s, ne_pred(c)) + 1)
}

pub fn trim_end_char_of(s: &Vec<char>, c: char) -> (r: Vec<char>)
    ensures
        r@ == trim_end_char(s@, c),
{
    let mut b: usize = s.len();
    while b > 0 && s[b - 1] == c
        invariant
            0 <= b <= s.len(),
            forall|j: int| b <= j < s.len() ==> s@[j] == c,
        decreases b,
    {
        b -= 1;
    }
    proof {
        lemma_last_match(s@, ne_pred(c), b - 1);
    }
    let r = slice_of(s, 0, b);
    assert(r@ =~= s@.take(b as int));
    r
}

/// Rust's `str::trim_start_matches(c)` for a single character.
pub open spec fn trim_start_char(s: Seq<char>, c: char) -> Seq<char> {
    let k = first_match(s, ne_pred(c));
    if k < 0 { seq![] } else { s.skip(k) }
}

pub fn trim_start_char_of(s: &Vec<char>, c: char) -> (r: Vec<char>)
    ensures
        r@ == trim_start_char(s@, c),
{
    let mut a: usize = 0;
    while a < s.len() && s[a] == c
        invariant
            0 <= a <= s.len(),
            forall|j: int| 0 <= j < a ==> s@[j] == c,
        decreases s.len() - a,
    {
        a += 1;
    }
    proof {
        lemma_first_match(s@, ne_pred(c), a as int);
    }
    let r = slice_of(s, a, s.len());
    assert(a == s.len() ==> r@ =~= seq![]);
    assert(a < s.len() ==> r@ =~= s@.skip(a as int));
    r
}

} // verus!

verus! {

pub fn str_eq(a: &str, b: &str) -> (r: bool)
    ensures
        r == (a@ == b@),
{
    let x = to_chars(a);
    let y = to_chars(b);
    chars_eq(&x, &y)
}

} // verus!

verus! {

proof fn lemma_min_occurrence(s: Seq<char>, p: Seq<char>, i: int)
    requires
        occurs_at(s, p, i),
    ensures
        exists|m: int| occurs_at(s, p, m) && forall|j: int| 0 <= j < m ==> !occurs_at(s, p, j),
    decreases i,
{
    if exists|j: int| 0 <= j < i && occurs_at(s, p, j) {
        let j = choose|j: int| 0 <= j < i && occurs_at(s, p, j);
        lemma_min_occurrence(s, p, j);
    } else {
        assert(occurs_at(s, p, i) && forall|j: int| 0 <= j < i ==> !occurs_at(s, p, j));
    }
}

proof fn lemma_max_occurrence(s: Seq<char>, p: Seq<char>, i: int)
    requires
        occurs_at(s, p, i),
    ensures
        exists|m: int| occurs_at(s, p, m) && forall|j: int| m < j ==> !occurs_at(s, p, j),
    decreases s.len() - i,
{
    if exists|j: int| i < j && occurs_at(s, p, j) {
        let j = choose|j: int| i < j && occurs_at(s, p, j);
        lemma_max_occurrence(s, p, j);
    } else {
        assert(occurs_at(s, p, i) && forall|j: int| i < j ==> !occurs_at(s, p, j));
    }
}

pub proof fn lemma_find_sub_occurs(s: Seq<char>, p: Seq<char>)
    ensures
        find_sub(s, p) >= 0 ==> occurs_at(s, p, find_sub(s, p)) && find_sub(s, p) + p.len() <= s.len(),
        find_sub(s, p) >= 0 ==> forall|j: int| 0 <= j < find_sub(s, p) ==> !occurs_at(s, p, j),
        find_sub(s, p) < 0 ==> forall|j: int| !occurs_at(s, p, j),
{
    if exists|i: int| occurs_at(s, p, i) {
        let i = choose|i: int| occurs_at(s, p, i);
        lemma_min_occurrence(s, p, i);
    }
}

pub proof fn lemma_rfind_sub_occurs(s: Seq<char>, p: Seq<char>)
    ensures
        rfind_sub(s, p) >= 0 ==> occurs_at(s, p, rfind_sub(s, p)) && rfind_sub(s, p) + p.len() <= s.len(),
        rfind_sub(s, p) >= 0 ==> forall|j: int| rfind_sub(s, p) < j ==> !occurs_at(s, p, j),
        rfind_sub(s, p) < 0 ==> forall|j: int| !occurs_at(s, p, j),
{
    if exists|i: int| occurs_at(s, p, i) {
        let i = choose|i: int| occurs_at(s, p, i);
        lemma_max_occurrence(s, p, i);
    }
}

} // verus!

verus! {

/// A predicate over naturals that holds somewhere holds at a least place.
pub proof fn lemma_exists_min(p: spec_fn(int) -> bool, i: int)
    requires
        0 <= i,
        p(i),
    ensures
        exists|m: int| 0 <= m && #[trigger] p(m) && forall|j: int| 0 <= j < m ==> !#[trigger] p(j),
    decreases i,
{
    if exists|j: int| 0 <= j < i && #[trigger] p(j) {
        let j = choose|j: int| 0 <= j < i && #[trigger] p(j);
        lemma_exists_min(p, j);
    } else {
        assert(0 <= i && p(i) && forall|j: int| 0 <= j < i ==> !#[trigger] p(j));
    }
}

} // verus!

verus! {

/// Lines joined with `\n` (`[&str]::join("\n")`).
pub open spec fn join_lines(ls: Seq<Seq<char>>) -> Seq<char>
    decreases ls.len(),
{
    if ls.len() == 0 {
        seq![]
    } else if ls.len() == 1 {
        ls[0]
    } else {
        join_lines(ls.drop_last()) + seq!['\n'] + ls.last()
    }
}

/// Joins `ls[a..b]` with `\n`.
pub fn join_lines_of(ls: &Vec<Vec<char>>, a: usize, b: usize) -> (r: Vec<char>)
    requires
        a <= b <= ls.len(),
    ensures
        r@ == join_lines(views(ls@).subrange(a as int, b as int)),
{
    let mut r: Vec<char> = Vec::new();
    let mut i: usize = a;
    while i < b
        invariant
            a <= i <= b <= ls.len(),
            r@ == join_lines(views(ls@).subrange(a as int, i as int)),
        decreases b - i,
    {
        proof {
            assert(views(ls@).subrange(a as int, i + 1).drop_last() =~= views(ls@).subrange(a as int, i as int));
            assert(views(ls@).subrange(a as int, i + 1).last() == ls@[i as int]@);
        }
        if i > a {
            r.push('\n');
        } else {
            assert(views(ls@).subrange(a as int, i + 1) =~= seq![ls@[i as int]@]);
        }
        push_all(&mut r, &ls[i]);
        i += 1;
    }
    r
}

} // verus!

verus! {

/// Whether a character has the Unicode `Alphabetic` property (the value of
/// `char::is_alphabetic`).
pub uninterp spec fn char_alphabetic(c: char) -> bool;

/// `char::is_alphabetic` of std.
#[verifier::external_body]
pub(crate) fn is_alphabetic(c: char) -> (r: bool)
    ensures
        r == char_alphabetic(c),
{
    c.is_alphabetic()
}

pub open spec fn all_alphabetic(s: Seq<char>) -> bool {
    forall|i: int| 0 <= i < s.len() ==> char_alphabetic(s[i])
}

pub fn all_alphabetic_of(s: &Vec<char>) -> (r: bool)
    ensures
        r == all_alphabetic(s@),
{
    let mut i: usize = 0;
    while i < s.len()
        invariant
            0 <= i <= s.len(),
            forall|j: int| 0 <= j < i ==> char_alphabetic(s@[j]),
        decreases s.len() - i,
    {
        if !is_alphabetic(s[i]) {
            return false;
        }
        i += 1;
    }
    true
}

/// `s` followed by spaces up to `w` characters (`format!("{:<w}", s)`).
pub open spec fn pad_right(s: Seq<char>, w: nat) -> Seq<char> {
    if s.len() >= w {
        s
    } else {
        s + Seq::new((w - s.len()) as nat, |i: int| ' ')
    }
}

pub fn pad_right_of(s: &Vec<char>, w: usize) -> (r: Vec<char>)
    ensures
        r@ == pad_right(s@, w as nat),
{
    let mut r = s.clone();
    assert(r@ =~= s@);
    while r.len() < w
        invariant
            s.len() >= w ==> r.len() == s.len(),
            s.len() < w ==> r.len() <= w,
            r@.take(s.len() as int) == s@,
            s.len() <= r.len(),
            forall|j: int| s.len() <= j < r.len() ==> r@[j] == ' ',
        decreases w - r.len(),
    {
        r.push(' ');
    }
    proof {
        if s.len() < w {
            assert(r.len() == w);
            assert(r@ =~= s@ + Seq::new((w - s.len()) as nat, |i: int| ' '));
        } else {
            assert(r@ =~= r@.take(s.len() as int));
        }
    }
    r
}

} // verus!

verus! {

/// The name for `str::to_lowercase` of a text.
pub uninterp spec fn lowercase(s: Seq<char>) -> Seq<char>;

/// `str::to_lowercase`: the text with every character mapped to its Unicode
/// lowercase. The mapping is std's Unicode tables; the result depends on the
/// text alone.
#[verifier::external_body]
pub(crate) fn to_lower(s: &str) -> (r: String)
    ensures
        r@ == lowercase(s@),
{
    s.to_lowercase()
}

} // verus!

verus! {

pub proof fn lemma_trim_start_len(s: Seq<char>)
    ensures
        trim_start(s).len() <= s.len(),
        trim_start(s).len() > 0 ==> !is_ws(trim_start(s)[0]),
{
    lemma_first_match_props(s, non_ws_pred());
}

} // verus!

verus! {

/// Whether `p` occurs in `s`.
pub fn contains_chars(s: &Vec<char>, p: &Vec<char>) -> (r: bool)
    ensures
        r == contains(s@, p@),
{
    find_chars(s, p).is_some()
}

} // verus!
