//! Exact decimal arithmetic for amounts written in journal text: reading a
//! quantity as hledger users write it, and turning a total price (`@@`) into
//! a unit price.

use vstd::prelude::*;
use crate::text::{
    char_is_digit, char_is_ws, char_pred, is_digit, is_ws, last_match, lemma_last_match_props,
    ne_pred, trim, trim_end_char, trim_end_char_of, trim_of,
};

verus! {

/// The text with every whitespace character removed.
pub open spec fn remove_ws(s: Seq<char>) -> Seq<char>
    decreases s.len(),
{
    if s.len() == 0 {
        seq![]
    } else {
        let r = remove_ws(s.drop_last());
        if is_ws(s.last()) {
            r
        } else {
            r.push(s.last())
        }
    }
}

/// Number of ASCII digits in a text.
pub open spec fn count_digits(s: Seq<char>) -> nat
    decreases s.len(),
{
    if s.len() == 0 {
        0
    } else {
        count_digits(s.drop_last()) + if is_digit(s.last()) { 1nat } else { 0nat }
    }
}

/// Index of the character taken as decimal mark: the last `,` or `.`; a lone
/// `.` followed by exactly three digits is a thousands separator when the
/// active style writes decimals with a comma.
pub open spec fn decimal_index(c: Seq<char>, comma_mark: bool) -> int {
    let lc = last_match(c, char_pred(','));
    let ld = last_match(c, char_pred('.'));
    if lc >= 0 && ld >= 0 {
        if lc > ld { lc } else { ld }
    } else if lc >= 0 {
        lc
    } else if ld >= 0 {
        if comma_mark && count_digits(c.skip(ld + 1)) == 3 { -1 } else { ld }
    } else {
        -1
    }
}

/// The first `n` characters of `c` reduced to digits, a leading `-` and a `.`
/// at the decimal mark.
pub open spec fn normalize_prefix(c: Seq<char>, dec: int, n: nat) -> Seq<char>
    decreases n,
{
    if n == 0 || n > c.len() {
        seq![]
    } else {
        let acc = normalize_prefix(c, dec, (n - 1) as nat);
        let ch = c[n - 1];
        if is_digit(ch) || (ch == '-' && acc.len() == 0) {
            acc.push(ch)
        } else if n - 1 == dec {
            acc.push('.')
        } else {
            acc
        }
    }
}

/// The numeric text that an amount quantity stands for.
pub open spec fn normalized_number(amount: Seq<char>, comma_mark: bool) -> Seq<char> {
    let c = remove_ws(trim(amount));
    normalize_prefix(c, decimal_index(c, comma_mark), c.len())
}

pub open spec fn digit_value(c: char) -> nat {
    ((c as u32) - ('0' as u32)) as nat
}

/// Value of the digits of a text, read as one decimal integer.
pub open spec fn digits_value(s: Seq<char>) -> nat
    decreases s.len(),
{
    if s.len() == 0 {
        0
    } else if is_digit(s.last()) {
        digits_value(s.drop_last()) * 10 + digit_value(s.last())
    } else {
        digits_value(s.drop_last())
    }
}

/// Number of digits after the `.` of a normalized number.
pub open spec fn scale_of(s: Seq<char>) -> nat {
    let k = last_match(s, char_pred('.'));
    if k < 0 { 0 } else { count_digits(s.skip(k + 1)) }
}

pub open spec fn is_negative(s: Seq<char>) -> bool {
    s.len() > 0 && s[0] == '-'
}

pub open spec fn pow10(k: nat) -> nat
    decreases k,
{
    if k == 0 { 1 } else { 10 * pow10((k - 1) as nat) }
}

/// `num / den` rounded to the nearest integer, ties to the even one.
pub open spec fn round_half_even(num: nat, den: nat) -> nat {
    let q = num / den;
    let r = num % den;
    if r > den - r {
        q + 1
    } else if r == den - r && q % 2 == 1 {
        q + 1
    } else {
        q
    }
}

pub open spec fn digit_char(d: nat) -> char {
    ((d + ('0' as u32)) as u32) as char
}

/// Decimal digits of a natural number, without leading zeros.
pub open spec fn nat_digits(n: nat) -> Seq<char>
    decreases n,
{
    if n < 10 {
        seq![digit_char(n)]
    } else {
        nat_digits(n / 10).push(digit_char(n % 10))
    }
}

/// The last `w` decimal digits of `n`, with leading zeros.
pub open spec fn pad_digits(n: nat, w: nat) -> Seq<char>
    decreases w,
{
    if w == 0 {
        seq![]
    } else {
        pad_digits(n / 10, (w - 1) as nat).push(digit_char(n % 10))
    }
}

/// A value given in hundred-millionths, written with eight decimals and
/// without trailing zeros (and without a trailing decimal point).
pub open spec fn eight_decimals_text(negative: bool, units: nat) -> Seq<char> {
    let full = (if negative { seq!['-'] } else { seq![] }) + nat_digits(units / 100000000) + seq!['.']
        + pad_digits(units % 100000000, 8);
    trim_end_char(trim_end_char(full, '0'), '.')
}

pub fn remove_ws_of(s: &Vec<char>) -> (r: Vec<char>)
    ensures
        r@ == remove_ws(s@),
{
    let mut r: Vec<char> = Vec::new();
    let mut i: usize = 0;
    while i < s.len()
        invariant
            0 <= i <= s.len(),
            r@ == remove_ws(s@.take(i as int)),
        decreases s.len() - i,
    {
        assert(s@.take(i + 1).drop_last() =~= s@.take(i as int));
        if !char_is_ws(s[i]) {
            r.push(s[i]);
        }
        i += 1;
    }
    assert(s@.take(s.len() as int) =~= s@);
    r
}

pub fn count_digits_of(s: &Vec<char>, from: usize) -> (r: usize)
    requires
        from <= s.len(),
    ensures
        r == count_digits(s@.skip(from as int)),
{
    let mut n: usize = 0;
    let mut i: usize = from;
    while i < s.len()
        invariant
            from <= i <= s.len(),
            n == count_digits(s@.subrange(from as int, i as int)),
            n <= i - from,
        decreases s.len() - i,
    {
        assert(s@.subrange(from as int, i + 1).drop_last() =~= s@.subrange(from as int, i as int));
        if char_is_digit(s[i]) {
            n += 1;
        }
        i += 1;
    }
    assert(s@.subrange(from as int, s.len() as int) =~= s@.skip(from as int));
    n
}

fn last_index_of(s: &Vec<char>, c: char) -> (r: Option<usize>)
    ensures
        match r {
            Some(i) => last_match(s@, char_pred(c)) == i && i < s.len(),
            None => last_match(s@, char_pred(c)) == -1,
        },
{
    let mut k: usize = s.len();
    while k > 0
        invariant
            0 <= k <= s.len(),
            forall|j: int| k <= j < s.len() ==> s@[j] != c,
        decreases k,
    {
        if s[k - 1] == c {
            proof {
                crate::text::lemma_last_match(s@, char_pred(c), k - 1);
            }
            return Some(k - 1);
        }
        k -= 1;
    }
    proof {
        crate::text::lemma_last_match(s@, char_pred(c), -1);
    }
    None
}

/// The numeric text that an amount quantity stands for (the digits, a
/// leading `-`, and a `.` at the decimal mark).
pub fn normalize_number(amount: &Vec<char>, comma_mark: bool) -> (r: Vec<char>)
    ensures
        r@ == normalized_number(amount@, comma_mark),
{
    let t = trim_of(amount);
    let c = remove_ws_of(&t);
    let lc = last_index_of(&c, ',');
    let ld = last_index_of(&c, '.');
    let dec: Option<usize> = match (lc, ld) {
        (Some(a), Some(b)) => if a > b { Some(a) } else { Some(b) },
        (Some(a), None) => Some(a),
        (None, Some(b)) => {
            if comma_mark && count_digits_of(&c, b + 1) == 3 {
                None
            } else {
                Some(b)
            }
        },
        (None, None) => None,
    };
    let ghost dec_int: int = match dec { Some(d) => d as int, None => -1 };
    assert(dec_int == decimal_index(c@, comma_mark));
    let mut r: Vec<char> = Vec::new();
    let mut i: usize = 0;
    while i < c.len()
        invariant
            0 <= i <= c.len(),
            dec_int == match dec { Some(d) => d as int, None => -1 },
            r@ == normalize_prefix(c@, dec_int, i as nat),
        decreases c.len() - i,
    {
        let ch = c[i];
        if char_is_digit(ch) || (ch == '-' && r.len() == 0) {
            r.push(ch);
        } else if dec == Some(i) {
            r.push('.');
        }
        i += 1;
    }
    r
}

} // verus!

verus! {

pub proof fn lemma_digits_value_prefix(s: Seq<char>, k: int)
    requires
        0 <= k <= s.len(),
    ensures
        digits_value(s.take(k)) <= digits_value(s),
    decreases s.len(),
{
    if k < s.len() {
        assert(s.drop_last().take(k) =~= s.take(k));
        lemma_digits_value_prefix(s.drop_last(), k);
    } else {
        assert(s.take(k) =~= s);
    }
}

/// The value of the digits of `s`, when it fits in a `u128`.
pub fn digits_value_of(s: &Vec<char>) -> (r: Option<u128>)
    ensures
        match r {
            Some(v) => v == digits_value(s@),
            None => digits_value(s@) > u128::MAX,
        },
{
    let mut acc: u128 = 0;
    let mut i: usize = 0;
    while i < s.len()
        invariant
            0 <= i <= s.len(),
            acc == digits_value(s@.take(i as int)),
        decreases s.len() - i,
    {
        assert(s@.take(i + 1).drop_last() =~= s@.take(i as int));
        assert(s@.take(i + 1).last() == s@[i as int]);
        let c = s[i];
        if char_is_digit(c) {
            let d: u128 = ((c as u32) - ('0' as u32)) as u128;
            match acc.checked_mul(10) {
                Some(m) => match m.checked_add(d) {
                    Some(v) => {
                        acc = v;
                    },
                    None => {
                        proof {
                            lemma_digits_value_prefix(s@, i + 1);
                        }
                        return None;
                    },
                },
                None => {
                    proof {
                        lemma_digits_value_prefix(s@, i + 1);
                    }
                    return None;
                },
            }
        }
        i += 1;
    }
    assert(s@.take(s.len() as int) =~= s@);
    Some(acc)
}

pub fn scale_of_exec(s: &Vec<char>) -> (r: usize)
    ensures
        r == scale_of(s@),
{
    match last_index_of(s, '.') {
        Some(k) => count_digits_of(s, k + 1),
        None => 0,
    }
}

pub proof fn lemma_pow10_mono(a: nat, b: nat)
    requires
        a <= b,
    ensures
        pow10(a) <= pow10(b),
        pow10(a) >= 1,
    decreases b,
{
    if a < b {
        lemma_pow10_mono(a, (b - 1) as nat);
    } else if a > 0 {
        lemma_pow10_mono((a - 1) as nat, (a - 1) as nat);
    }
}

pub fn digit_char_of(d: u128) -> (r: char)
    requires
        d < 10,
    ensures
        r == digit_char(d as nat),
{
    let b: u8 = (d as u8) + 48;
    b as char
}

pub fn nat_digits_of(n: u128) -> (r: Vec<char>)
    ensures
        r@ == nat_digits(n as nat),
    decreases n,
{
    if n < 10 {
        let mut v: Vec<char> = Vec::new();
        v.push(digit_char_of(n));
        assert(v@ =~= seq![digit_char(n as nat)]);
        v
    } else {
        let mut v = nat_digits_of(n / 10);
        v.push(digit_char_of(n % 10));
        v
    }
}

/// `pn / |qn|` rounded to eight decimals, for two normalized numbers; `None`
/// when either is zero.
pub open spec fn quotient_text(pn: Seq<char>, qn: Seq<char>) -> Option<Seq<char>> {
    let p = digits_value(pn);
    let q = digits_value(qn);
    if p == 0 || q == 0 {
        None
    } else {
        Some(
            eight_decimals_text(
                is_negative(pn),
                round_half_even(p * pow10(scale_of(qn)) * 100000000, q * pow10(scale_of(pn))),
            ),
        )
    }
}

} // verus!
