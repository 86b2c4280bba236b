//! Exact arithmetic on decimal numbers of any size, held as digit lists:
//! subtraction, division with remainder, and the rounded quotient written
//! with eight decimals.

use vstd::prelude::*;
use crate::journal::number::{
    digit_char, digits_value, eight_decimals_text, lemma_pow10_mono, quotient_text, scale_of, scale_of_exec, nat_digits, pad_digits, pow10, round_half_even,
};
use crate::text::{char_is_digit, trim_end_char_of};

verus! {

/// Whether every entry is a decimal digit.
pub open spec fn all_digits(s: Seq<u8>) -> bool {
    forall|i: int| 0 <= i < s.len() ==> #[trigger] s[i] < 10
}

/// The value of digits written most significant first.
pub open spec fn msd_value(s: Seq<u8>) -> nat
    decreases s.len(),
{
    if s.len() == 0 {
        0
    } else {
        msd_value(s.drop_last()) * 10 + s.last() as nat
    }
}

/// The value of digits written least significant first.
pub open spec fn lsd_value(s: Seq<u8>) -> nat
    decreases s.len(),
{
    if s.len() == 0 {
        0
    } else {
        s[0] as nat + 10 * lsd_value(s.skip(1))
    }
}

proof fn lemma_pow10_step(k: nat)
    ensures
        pow10(k + 1) == 10 * pow10(k),
        pow10(k) >= 1,
{
    lemma_pow10_mono(0, k);
}

proof fn lemma_lsd_push(s: Seq<u8>, x: u8)
    ensures
        lsd_value(s.push(x)) == lsd_value(s) + x * pow10(s.len()),
    decreases s.len(),
{
    if s.len() == 0 {
        assert(s.push(x).skip(1) =~= Seq::<u8>::empty());
        assert(lsd_value(Seq::<u8>::empty()) == 0);
        assert(s.push(x)[0] == x);
        assert(lsd_value(s.push(x)) == x as nat + 10 * lsd_value(s.push(x).skip(1)));
        assert(pow10(0) == 1);
    } else {
        let n = (s.len() - 1) as nat;
        assert(s.push(x).skip(1) =~= s.skip(1).push(x));
        assert(s.push(x)[0] == s[0]);
        assert(lsd_value(s.push(x)) == s[0] as nat + 10 * lsd_value(s.push(x).skip(1)));
        lemma_lsd_push(s.skip(1), x);
        lemma_pow10_step(n);
        assert(10 * (x * pow10(n)) == x * pow10(n + 1)) by (nonlinear_arith)
            requires
                pow10(n + 1) == 10 * pow10(n),
        ;
    }
}

proof fn lemma_lsd_bound(s: Seq<u8>)
    requires
        all_digits(s),
    ensures
        lsd_value(s) < pow10(s.len()),
    decreases s.len(),
{
    if s.len() > 0 {
        let t = s.skip(1);
        assert forall|i: int| 0 <= i < t.len() implies #[trigger] t[i] < 10 by {
            assert(t[i] == s[i + 1]);
        }
        lemma_lsd_bound(t);
        lemma_pow10_step(t.len());
        assert(s[0] < 10);
    }
}

proof fn lemma_lsd_top(s: Seq<u8>)
    requires
        all_digits(s),
        s.len() >= 1,
        lsd_value(s) < pow10((s.len() - 1) as nat),
    ensures
        lsd_value(s.take(s.len() - 1)) == lsd_value(s),
{
    let n = (s.len() - 1) as nat;
    let t = s.take(n as int);
    assert(s =~= t.push(s.last()));
    lemma_lsd_push(t, s.last());
    if s.last() >= 1 {
        assert(s.last() * pow10(n) >= pow10(n)) by (nonlinear_arith)
            requires
                s.last() >= 1,
        ;
    }
}

proof fn lemma_lsd_zero(s: Seq<u8>)
    ensures
        lsd_value(s) == 0 <==> forall|i: int| 0 <= i < s.len() ==> #[trigger] s[i] == 0,
    decreases s.len(),
{
    if s.len() > 0 {
        let t = s.skip(1);
        lemma_lsd_zero(t);
        if lsd_value(s) == 0 {
            assert forall|i: int| 0 <= i < s.len() implies #[trigger] s[i] == 0 by {
                if i > 0 {
                    assert(t[i - 1] == s[i]);
                }
            }
        }
        if forall|i: int| 0 <= i < s.len() ==> #[trigger] s[i] == 0 {
            assert forall|i: int| 0 <= i < t.len() implies #[trigger] t[i] == 0 by {
                assert(t[i] == s[i + 1]);
            }
            assert(s[0] == 0);
        }
    }
}

/// `len` zero digits.
fn zero_digits(len: usize) -> (r: Vec<u8>)
    ensures
        r.len() == len,
        all_digits(r@),
        forall|k: int| 0 <= k < len ==> #[trigger] r@[k] == 0,
        lsd_value(r@) == 0,
        msd_value(r@) == 0,
{
    let mut r: Vec<u8> = Vec::new();
    let mut i: usize = 0;
    while i < len
        invariant
            i <= len,
            r.len() == i,
            forall|k: int| 0 <= k < i ==> #[trigger] r@[k] == 0,
            msd_value(r@) == 0,
        decreases len - i,
    {
        let ghost before = r@;
        r.push(0);
        assert(r@.drop_last() =~= before);
        i += 1;
    }
    proof {
        lemma_lsd_zero(r@);
    }
    r
}

/// Whether the digits are all zero, that is, the number is zero.
fn is_zero_digits(v: &Vec<u8>) -> (r: bool)
    ensures
        r == (lsd_value(v@) == 0),
{
    proof {
        lemma_lsd_zero(v@);
    }
    let mut i: usize = 0;
    while i < v.len()
        invariant
            i <= v.len(),
            forall|k: int| 0 <= k < i ==> #[trigger] v@[k] == 0,
        decreases v.len() - i,
    {
        if v[i] != 0 {
            proof {
                lemma_lsd_zero(v@);
                assert(v@[i as int] != 0);
            }
            return false;
        }
        i += 1;
    }
    true
}

/// `a - b` for two numbers of as many digits (least significant first), and
/// whether `a < b` (then the digits are those of `a - b` plus `10^len`).
pub fn sub_digits(a: &Vec<u8>, b: &Vec<u8>) -> (r: (Vec<u8>, bool))
    requires
        a.len() == b.len(),
        all_digits(a@),
        all_digits(b@),
    ensures
        r.0.len() == a.len(),
        all_digits(r.0@),
        r.1 == (lsd_value(a@) < lsd_value(b@)),
        !r.1 ==> lsd_value(r.0@) + lsd_value(b@) == lsd_value(a@),
{
    let mut res: Vec<u8> = Vec::new();
    let mut borrow = false;
    let mut i: usize = 0;
    proof {
        assert(a@.take(0) =~= Seq::<u8>::empty());
        assert(b@.take(0) =~= Seq::<u8>::empty());
        assert(lsd_value(Seq::<u8>::empty()) == 0);
    }
    while i < a.len()
        invariant
            i <= a.len(),
            a.len() == b.len(),
            res.len() == i,
            all_digits(res@),
            all_digits(a@),
            all_digits(b@),
            lsd_value(res@) + lsd_value(b@.take(i as int)) == lsd_value(a@.take(i as int)) + (if borrow {
                pow10(i as nat)
            } else {
                0
            }),
        decreases a.len() - i,
    {
        let ai = a[i];
        let bi = b[i];
        assert(ai < 10 && bi < 10);
        let bw: u8 = if borrow { 1 } else { 0 };
        let (digit, nb) = if ai >= bi + bw {
            (ai - bi - bw, false)
        } else {
            (ai + 10 - bi - bw, true)
        };
        proof {
            let p = pow10(i as nat);
            lemma_pow10_step(i as nat);
            lemma_lsd_push(res@, digit);
            lemma_lsd_push(a@.take(i as int), ai);
            lemma_lsd_push(b@.take(i as int), bi);
            assert(a@.take(i + 1) =~= a@.take(i as int).push(ai));
            assert(b@.take(i + 1) =~= b@.take(i as int).push(bi));
            assert(digit * p + bi * p + (if borrow { p } else { 0 }) == ai * p + (if nb { 10 * p } else { 0 })) by (nonlinear_arith)
                requires
                    digit + bi + bw == ai + (if nb { 10int } else { 0 }),
                    bw == (if borrow { 1int } else { 0 }),
            ;
        }
        res.push(digit);
        borrow = nb;
        i += 1;
    }
    proof {
        assert(a@.take(a.len() as int) =~= a@);
        assert(b@.take(b.len() as int) =~= b@);
        lemma_lsd_bound(res@);
        lemma_lsd_bound(a@);
        lemma_lsd_bound(b@);
    }
    (res, borrow)
}

/// `10 * r + d` for a number `r` whose top digit is zero, in as many digits.
fn shift_in(r: &Vec<u8>, d: u8) -> (t: Vec<u8>)
    requires
        r.len() >= 1,
        d < 10,
        all_digits(r@),
        lsd_value(r@) < pow10((r.len() - 1) as nat),
    ensures
        t.len() == r.len(),
        all_digits(t@),
        lsd_value(t@) == d + 10 * lsd_value(r@),
{
    let mut t: Vec<u8> = Vec::new();
    t.push(d);
    let mut i: usize = 0;
    while i + 1 < r.len()
        invariant
            i + 1 <= r.len(),
            t@ == seq![d] + r@.take(i as int),
        decreases r.len() - i,
    {
        t.push(r[i]);
        assert(t@ =~= seq![d] + r@.take(i + 1));
        i += 1;
    }
    proof {
        lemma_lsd_top(r@);
        assert(t@.skip(1) =~= r@.take(r.len() - 1));
        assert(t@[0] == d);
        assert forall|k: int| 0 <= k < t.len() implies #[trigger] t@[k] < 10 by {
            if k > 0 {
                assert(t@[k] == r@[k - 1]);
            }
        }
    }
    t
}

/// The quotient (most significant digit first) and the remainder (least
/// significant first, as many digits as the divisor) of `n` (most
/// significant first) divided by `d` (least significant first, top digit
/// zero, not zero).
pub fn divide_digits(n: &Vec<u8>, d: &Vec<u8>) -> (r: (Vec<u8>, Vec<u8>))
    requires
        all_digits(n@),
        all_digits(d@),
        d.len() >= 2,
        lsd_value(d@) > 0,
        lsd_value(d@) < pow10((d.len() - 1) as nat),
    ensures
        all_digits(r.0@),
        all_digits(r.1@),
        r.1.len() == d.len(),
        msd_value(n@) == msd_value(r.0@) * lsd_value(d@) + lsd_value(r.1@),
        lsd_value(r.1@) < lsd_value(d@),
{
    let ghost dv = lsd_value(d@);
    let mut rem = zero_digits(d.len());
    let mut q: Vec<u8> = Vec::new();
    let mut i: usize = 0;
    proof {
        assert(n@.take(0) =~= Seq::<u8>::empty());
        assert(msd_value(Seq::<u8>::empty()) == 0);
    }
    while i < n.len()
        invariant
            i <= n.len(),
            all_digits(n@),
            all_digits(d@),
            d.len() >= 2,
            dv == lsd_value(d@),
            dv > 0,
            dv < pow10((d.len() - 1) as nat),
            rem.len() == d.len(),
            all_digits(rem@),
            all_digits(q@),
            lsd_value(rem@) < dv,
            msd_value(n@.take(i as int)) == msd_value(q@) * dv + lsd_value(rem@),
        decreases n.len() - i,
    {
        let ni = n[i];
        assert(ni < 10);
        let mut cur = shift_in(&rem, ni);
        let ghost orig = lsd_value(cur@);
        assert(orig < 10 * dv);
        let mut qd: u8 = 0;
        loop
            invariant
                cur.len() == d.len(),
                all_digits(cur@),
                all_digits(d@),
                dv == lsd_value(d@),
                dv > 0,
                orig < 10 * dv,
                orig == qd * dv + lsd_value(cur@),
                qd <= 9,
            ensures
                cur.len() == d.len(),
                all_digits(cur@),
                orig == qd * dv + lsd_value(cur@),
                qd <= 9,
                lsd_value(cur@) < dv,
            decreases lsd_value(cur@),
        {
            let (diff, below) = sub_digits(&cur, d);
            if below {
                break;
            }
            proof {
                assert(orig == (qd + 1) * dv + lsd_value(diff@)) by (nonlinear_arith)
                    requires
                        orig == qd * dv + lsd_value(cur@),
                        lsd_value(diff@) + dv == lsd_value(cur@),
                ;
                assert(qd + 1 <= 9) by (nonlinear_arith)
                    requires
                        orig == (qd + 1) * dv + lsd_value(diff@),
                        orig < 10 * dv,
                        dv > 0,
                ;
            }
            cur = diff;
            qd = qd + 1;
        }
        proof {
            let nt = n@.take(i + 1);
            assert(nt.drop_last() =~= n@.take(i as int));
            assert(nt.last() == ni);
            assert(q@.push(qd).drop_last() =~= q@);
            assert(msd_value(nt) == (msd_value(q@) * 10 + qd) * dv + lsd_value(cur@)) by (nonlinear_arith)
                requires
                    msd_value(nt) == msd_value(n@.take(i as int)) * 10 + ni,
                    msd_value(n@.take(i as int)) == msd_value(q@) * dv + lsd_value(rem@),
                    orig == ni + 10 * lsd_value(rem@),
                    orig == qd * dv + lsd_value(cur@),
            ;
            assert forall|k: int| 0 <= k < q@.push(qd).len() implies #[trigger] q@.push(qd)[k] < 10 by {
                if k < q.len() {
                    assert(q@.push(qd)[k] == q@[k]);
                }
            }
        }
        q.push(qd);
        rem = cur;
        i += 1;
    }
    assert(n@.take(n.len() as int) =~= n@);
    (q, rem)
}

proof fn lemma_msd_concat(a: Seq<u8>, b: Seq<u8>)
    ensures
        msd_value(a + b) == msd_value(a) * pow10(b.len()) + msd_value(b),
    decreases b.len(),
{
    if b.len() == 0 {
        assert(a + b =~= a);
        assert(pow10(0) == 1);
    } else {
        let n = (b.len() - 1) as nat;
        assert((a + b).drop_last() =~= a + b.drop_last());
        assert((a + b).last() == b.last());
        lemma_msd_concat(a, b.drop_last());
        lemma_pow10_step(n);
        assert((msd_value(a) * pow10(n) + msd_value(b.drop_last())) * 10 + b.last() == msd_value(a) * pow10(n + 1)
            + (msd_value(b.drop_last()) * 10 + b.last())) by (nonlinear_arith)
            requires
                pow10(n + 1) == 10 * pow10(n),
        ;
    }
}

proof fn lemma_msd_bound(s: Seq<u8>)
    requires
        all_digits(s),
    ensures
        msd_value(s) < pow10(s.len()),
    decreases s.len(),
{
    if s.len() > 0 {
        let t = s.drop_last();
        assert forall|i: int| 0 <= i < t.len() implies #[trigger] t[i] < 10 by {
            assert(t[i] == s[i]);
        }
        lemma_msd_bound(t);
        lemma_pow10_step(t.len());
        assert(s.last() < 10);
    }
}

proof fn lemma_msd_lower(s: Seq<u8>)
    requires
        s.len() >= 1,
        s[0] >= 1,
    ensures
        msd_value(s) >= pow10((s.len() - 1) as nat),
    decreases s.len(),
{
    if s.len() == 1 {
        assert(s.drop_last() =~= Seq::<u8>::empty());
        assert(msd_value(Seq::<u8>::empty()) == 0);
        assert(pow10(0) == 1);
    } else {
        let t = s.drop_last();
        assert(t[0] == s[0]);
        lemma_msd_lower(t);
        lemma_pow10_step((t.len() - 1) as nat);
    }
}

proof fn lemma_msd_zero(s: Seq<u8>)
    requires
        forall|i: int| 0 <= i < s.len() ==> #[trigger] s[i] == 0,
    ensures
        msd_value(s) == 0,
    decreases s.len(),
{
    if s.len() > 0 {
        let t = s.drop_last();
        assert forall|i: int| 0 <= i < t.len() implies #[trigger] t[i] == 0 by {
            assert(t[i] == s[i]);
        }
        lemma_msd_zero(t);
        assert(s.last() == s[s.len() - 1]);
    }
}

/// The characters of digits.
pub open spec fn digit_text(s: Seq<u8>) -> Seq<char> {
    s.map_values(|x: u8| digit_char(x as nat))
}

proof fn lemma_digit_text_push(s: Seq<u8>)
    requires
        s.len() >= 1,
    ensures
        digit_text(s) == digit_text(s.drop_last()).push(digit_char(s.last() as nat)),
{
    assert(digit_text(s) =~= digit_text(s.drop_last()).push(digit_char(s.last() as nat)));
}

proof fn lemma_pad_digits_msd(s: Seq<u8>)
    requires
        all_digits(s),
    ensures
        pad_digits(msd_value(s), s.len()) == digit_text(s),
    decreases s.len(),
{
    if s.len() == 0 {
        assert(digit_text(s) =~= Seq::<char>::empty());
    } else {
        let t = s.drop_last();
        assert forall|i: int| 0 <= i < t.len() implies #[trigger] t[i] < 10 by {
            assert(t[i] == s[i]);
        }
        lemma_pad_digits_msd(t);
        assert(s.last() < 10);
        vstd::arithmetic::div_mod::lemma_fundamental_div_mod_converse(
            msd_value(s) as int,
            10,
            msd_value(t) as int,
            s.last() as int,
        );
        lemma_digit_text_push(s);
    }
}

proof fn lemma_nat_digits_msd(s: Seq<u8>)
    requires
        all_digits(s),
        s.len() >= 1,
        s.len() == 1 || s[0] != 0,
    ensures
        nat_digits(msd_value(s)) == digit_text(s),
    decreases s.len(),
{
    let t = s.drop_last();
    assert forall|i: int| 0 <= i < t.len() implies #[trigger] t[i] < 10 by {
        assert(t[i] == s[i]);
    }
    assert(s.last() < 10);
    if s.len() == 1 {
        assert(t =~= Seq::<u8>::empty());
        assert(msd_value(t) == 0);
        assert(digit_text(s) =~= seq![digit_char(s[0] as nat)]);
    } else {
        assert(t[0] == s[0]);
        lemma_nat_digits_msd(t);
        lemma_msd_lower(s);
        lemma_pow10_mono(1, (s.len() - 1) as nat);
        assert(pow10(1) == 10) by {
            assert(pow10(0) == 1);
        }
        vstd::arithmetic::div_mod::lemma_fundamental_div_mod_converse(
            msd_value(s) as int,
            10,
            msd_value(t) as int,
            s.last() as int,
        );
        lemma_digit_text_push(s);
    }
}

/// `n + 1`, digits most significant first.
fn increment_digits(n: &Vec<u8>) -> (r: Vec<u8>)
    requires
        all_digits(n@),
    ensures
        all_digits(r@),
        msd_value(r@) == msd_value(n@) + 1,
    decreases n.len(),
{
    if n.len() == 0 {
        let mut r: Vec<u8> = Vec::new();
        r.push(1);
        assert(r@.drop_last() =~= Seq::<u8>::empty());
        assert(msd_value(Seq::<u8>::empty()) == 0);
        return r;
    }
    let last = n[n.len() - 1];
    let mut init: Vec<u8> = Vec::new();
    let mut i: usize = 0;
    while i + 1 < n.len()
        invariant
            i + 1 <= n.len(),
            init@ == n@.take(i as int),
        decreases n.len() - i,
    {
        init.push(n[i]);
        assert(init@ =~= n@.take(i + 1));
        i += 1;
    }
    assert(init@ =~= n@.drop_last());
    assert forall|k: int| 0 <= k < init.len() implies #[trigger] init@[k] < 10 by {
        assert(init@[k] == n@[k]);
    }
    assert(last < 10);
    if last < 9 {
        let ghost before = init@;
        init.push(last + 1);
        assert(init@.drop_last() =~= before);
        assert forall|k: int| 0 <= k < init.len() implies #[trigger] init@[k] < 10 by {
            if k < before.len() {
                assert(init@[k] == before[k]);
            }
        }
        init
    } else {
        let mut r = increment_digits(&init);
        let ghost before = r@;
        r.push(0);
        assert(r@.drop_last() =~= before);
        assert forall|k: int| 0 <= k < r.len() implies #[trigger] r@[k] < 10 by {
            if k < before.len() {
                assert(r@[k] == before[k]);
            }
        }
        r
    }
}

proof fn lemma_msd_zero_iff(s: Seq<u8>)
    ensures
        msd_value(s) == 0 <==> forall|i: int| 0 <= i < s.len() ==> #[trigger] s[i] == 0,
{
    if forall|i: int| 0 <= i < s.len() ==> #[trigger] s[i] == 0 {
        lemma_msd_zero(s);
    } else {
        let k = choose|k: int| 0 <= k < s.len() && s[k] != 0;
        assert(s =~= s.take(k) + s.skip(k));
        lemma_msd_concat(s.take(k), s.skip(k));
        assert(s.skip(k)[0] == s[k]);
        lemma_msd_lower(s.skip(k));
        lemma_pow10_mono(0, (s.skip(k).len() - 1) as nat);
    }
}

/// Whether all the digits are zero.
fn all_zero(v: &Vec<u8>) -> (r: bool)
    ensures
        r == (forall|i: int| 0 <= i < v.len() ==> #[trigger] v@[i] == 0),
{
    let mut i: usize = 0;
    while i < v.len()
        invariant
            i <= v.len(),
            forall|k: int| 0 <= k < i ==> #[trigger] v@[k] == 0,
        decreases v.len() - i,
    {
        if v[i] != 0 {
            return false;
        }
        i += 1;
    }
    true
}

/// `num / den` rounded to the nearest integer, ties to the even one, from
/// the quotient `q` (most significant digit first) and the remainder `rem`
/// (least significant first) of `den` (least significant first).
fn round_quotient(q: &Vec<u8>, rem: &Vec<u8>, d: &Vec<u8>) -> (r: Vec<u8>)
    requires
        all_digits(q@),
        all_digits(rem@),
        all_digits(d@),
        rem.len() == d.len(),
        lsd_value(rem@) < lsd_value(d@),
    ensures
        all_digits(r@),
        msd_value(r@) == round_half_even(msd_value(q@) * lsd_value(d@) + lsd_value(rem@), lsd_value(d@)),
{
    let ghost dv = lsd_value(d@);
    let ghost rv = lsd_value(rem@);
    let ghost qv = msd_value(q@);
    proof {
        vstd::arithmetic::div_mod::lemma_fundamental_div_mod_converse((qv * dv + rv) as int, dv as int, qv as int, rv as int);
    }
    let (e, _) = sub_digits(d, rem);
    let (f, below) = sub_digits(rem, &e);
    let up = if below {
        false
    } else if !is_zero_digits(&f) {
        true
    } else if q.len() == 0 {
        assert(msd_value(q@) == 0);
        false
    } else {
        let last = q[q.len() - 1];
        proof {
            let m = msd_value(q@.drop_last());
            assert(qv == m * 10 + last);
            assert((m * 10 + last) % 2 == last % 2) by (nonlinear_arith);
        }
        last % 2 == 1
    };
    if up {
        increment_digits(q)
    } else {
        let mut c: Vec<u8> = Vec::new();
        let mut i: usize = 0;
        while i < q.len()
            invariant
                i <= q.len(),
                c@ == q@.take(i as int),
            decreases q.len() - i,
        {
            c.push(q[i]);
            assert(c@ =~= q@.take(i + 1));
            i += 1;
        }
        assert(c@ =~= q@);
        c
    }
}

/// Appends the characters of the digits `s[from..to]`.
fn push_digit_text(out: &mut Vec<char>, s: &Vec<u8>, from: usize, to: usize)
    requires
        from <= to <= s.len(),
        all_digits(s@),
    ensures
        final(out)@ == old(out)@ + digit_text(s@.subrange(from as int, to as int)),
{
    let mut i: usize = from;
    while i < to
        invariant
            from <= i <= to,
            to <= s.len(),
            all_digits(s@),
            out@ == old(out)@ + digit_text(s@.subrange(from as int, i as int)),
        decreases to - i,
    {
        let x = s[i];
        assert(x < 10);
        let ch = crate::journal::number::digit_char_of(x as u128);
        out.push(ch);
        assert(digit_text(s@.subrange(from as int, i + 1)) =~= digit_text(s@.subrange(from as int, i as int)).push(
            digit_char(x as nat),
        ));
        assert(out@ =~= old(out)@ + digit_text(s@.subrange(from as int, i + 1)));
        i += 1;
    }
}

proof fn lemma_eight_split(v: Seq<u8>, zs: Seq<u8>, u: Seq<u8>, j: int)
    requires
        v == zs + u,
        forall|k: int| 0 <= k < zs.len() ==> #[trigger] zs[k] == 0,
        all_digits(u),
        v.len() >= 9,
        0 <= j < v.len() - 8,
        forall|k: int| 0 <= k < j ==> #[trigger] v[k] == 0,
        j + 1 == v.len() - 8 || v[j] != 0,
    ensures
        nat_digits(msd_value(u) / 100000000) == digit_text(v.subrange(j, v.len() - 8)),
        pad_digits(msd_value(u) % 100000000, 8) == digit_text(v.subrange(v.len() - 8, v.len() as int)),
{
    let m = v.len() - 8;
    let h = v.subrange(0, m);
    let t = v.subrange(m, v.len() as int);
    assert forall|k: int| 0 <= k < v.len() implies #[trigger] v[k] < 10 by {
        if k >= zs.len() {
            assert(v[k] == u[k - zs.len()]);
        } else {
            assert(v[k] == zs[k]);
        }
    }
    lemma_msd_zero(zs);
    lemma_msd_concat(zs, u);
    assert(v =~= h + t);
    lemma_msd_concat(h, t);
    let h2 = v.subrange(j, m);
    assert(h =~= h.take(j) + h2);
    assert forall|k: int| 0 <= k < h.take(j).len() implies #[trigger] h.take(j)[k] == 0 by {
        assert(h.take(j)[k] == v[k]);
    }
    lemma_msd_zero(h.take(j));
    lemma_msd_concat(h.take(j), h2);
    assert forall|k: int| 0 <= k < h2.len() implies #[trigger] h2[k] < 10 by {
        assert(h2[k] == v[j + k]);
    }
    assert forall|k: int| 0 <= k < t.len() implies #[trigger] t[k] < 10 by {
        assert(t[k] == v[m + k]);
    }
    assert(h2[0] == v[j]);
    lemma_nat_digits_msd(h2);
    lemma_pad_digits_msd(t);
    lemma_msd_bound(t);
    assert(pow10(8) == 100000000) by {
        reveal_with_fuel(pow10, 9);
    }
    vstd::arithmetic::div_mod::lemma_fundamental_div_mod_converse(
        msd_value(v) as int,
        100000000,
        msd_value(h) as int,
        msd_value(t) as int,
    );
}

/// A value in hundred-millionths given by its digits (most significant
/// first), written with eight decimals and without trailing zeros (and
/// without a trailing decimal point).
pub fn eight_decimals_of_digits(negative: bool, u: &Vec<u8>) -> (r: Vec<char>)
    requires
        all_digits(u@),
    ensures
        r@ == eight_decimals_text(negative, msd_value(u@)),
{
    let pad: usize = if u.len() < 9 { 9 - u.len() } else { 0 };
    let mut v = zero_digits(pad);
    let ghost zs = v@;
    let mut i: usize = 0;
    while i < u.len()
        invariant
            i <= u.len(),
            v@ == zs + u@.take(i as int),
        decreases u.len() - i,
    {
        v.push(u[i]);
        assert(v@ =~= zs + u@.take(i + 1));
        i += 1;
    }
    assert(u@.take(u.len() as int) =~= u@);
    let m = v.len() - 8;
    let mut j: usize = 0;
    while j + 1 < m && v[j] == 0
        invariant
            j + 1 <= m,
            m < v.len(),
            forall|k: int| 0 <= k < j ==> #[trigger] v@[k] == 0,
        decreases m - j,
    {
        j += 1;
    }
    proof {
        lemma_eight_split(v@, zs, u@, j as int);
        assert forall|k: int| 0 <= k < v.len() implies #[trigger] v@[k] < 10 by {
            if k >= zs.len() {
                assert(v@[k] == u@[k - zs.len()]);
            } else {
                assert(v@[k] == zs[k]);
            }
        }
    }
    let mut full: Vec<char> = Vec::new();
    if negative {
        full.push('-');
    }
    let ghost sign = full@;
    push_digit_text(&mut full, &v, j, m);
    full.push('.');
    push_digit_text(&mut full, &v, m, v.len());
    assert(full@ =~= sign + nat_digits(msd_value(u@) / 100000000) + seq!['.'] + pad_digits(msd_value(u@) % 100000000, 8));
    let a = trim_end_char_of(&full, '0');
    trim_end_char_of(&a, '.')
}

/// The digits of a text, most significant first (other characters skipped).
pub fn digits_of_text(s: &Vec<char>) -> (r: Vec<u8>)
    ensures
        all_digits(r@),
        msd_value(r@) == digits_value(s@),
{
    let mut r: Vec<u8> = Vec::new();
    let mut i: usize = 0;
    proof {
        assert(s@.take(0) =~= Seq::<char>::empty());
        assert(msd_value(Seq::<u8>::empty()) == 0);
    }
    while i < s.len()
        invariant
            i <= s.len(),
            all_digits(r@),
            msd_value(r@) == digits_value(s@.take(i as int)),
        decreases s.len() - i,
    {
        assert(s@.take(i + 1).drop_last() =~= s@.take(i as int));
        assert(s@.take(i + 1).last() == s@[i as int]);
        let c = s[i];
        if char_is_digit(c) {
            let d: u8 = ((c as u32) - ('0' as u32)) as u8;
            let ghost before = r@;
            r.push(d);
            assert(r@.drop_last() =~= before);
            assert forall|k: int| 0 <= k < r.len() implies #[trigger] r@[k] < 10 by {
                if k < before.len() {
                    assert(r@[k] == before[k]);
                }
            }
        }
        i += 1;
    }
    assert(s@.take(s.len() as int) =~= s@);
    r
}

/// Appends `k` zero digits: the number times `10^k`.
fn append_zeros(v: &mut Vec<u8>, k: usize)
    requires
        all_digits(old(v)@),
    ensures
        all_digits(final(v)@),
        final(v).len() == old(v).len() + k,
        msd_value(final(v)@) == msd_value(old(v)@) * pow10(k as nat),
{
    let z = zero_digits(k);
    let ghost before = v@;
    let mut i: usize = 0;
    while i < k
        invariant
            i <= k,
            z.len() == k,
            all_digits(z@),
            v@ == before + z@.take(i as int),
        decreases k - i,
    {
        v.push(z[i]);
        assert(v@ =~= before + z@.take(i + 1));
        i += 1;
    }
    proof {
        assert(z@.take(k as int) =~= z@);
        lemma_msd_concat(before, z@);
        assert forall|j: int| 0 <= j < v.len() implies #[trigger] v@[j] < 10 by {
            if j < before.len() {
                assert(v@[j] == before[j]);
            } else {
                assert(v@[j] == z@[j - before.len()]);
            }
        }
    }
}

/// The digits least significant first, with one more zero digit on top.
fn to_lsd_with_top_zero(m: &Vec<u8>) -> (r: Vec<u8>)
    requires
        all_digits(m@),
    ensures
        r.len() == m.len() + 1,
        all_digits(r@),
        lsd_value(r@) == msd_value(m@),
        lsd_value(r@) < pow10(m.len() as nat),
{
    let n = m.len();
    let mut r: Vec<u8> = Vec::new();
    let mut i: usize = 0;
    proof {
        assert(m@.skip(n as int) =~= Seq::<u8>::empty());
        assert(msd_value(Seq::<u8>::empty()) == 0);
        assert(lsd_value(Seq::<u8>::empty()) == 0);
    }
    while i < n
        invariant
            i <= n,
            n == m.len(),
            all_digits(m@),
            r.len() == i,
            all_digits(r@),
            lsd_value(r@) == msd_value(m@.skip(n - i)),
        decreases n - i,
    {
        let x = m[n - 1 - i];
        proof {
            lemma_lsd_push(r@, x);
            let tail = m@.skip(n - i);
            assert(m@.skip(n - i - 1) =~= seq![x] + tail);
            lemma_msd_concat(seq![x], tail);
            assert(seq![x].drop_last() =~= Seq::<u8>::empty());
            assert(seq![x].last() == x);
            assert(msd_value(seq![x]) == msd_value(seq![x].drop_last()) * 10 + x as nat);
            assert(msd_value(seq![x]) == x);
            assert(x < 10);
        }
        let ghost before = r@;
        r.push(x);
        assert forall|k: int| 0 <= k < r.len() implies #[trigger] r@[k] < 10 by {
            if k < before.len() {
                assert(r@[k] == before[k]);
            }
        }
        i += 1;
    }
    proof {
        assert(m@.skip(0) =~= m@);
        lemma_msd_bound(m@);
        lemma_lsd_push(r@, 0);
    }
    let ghost before = r@;
    r.push(0);
    assert forall|k: int| 0 <= k < r.len() implies #[trigger] r@[k] < 10 by {
        if k < before.len() {
            assert(r@[k] == before[k]);
        }
    }
    r
}

/// `pn / |qn|` rounded to eight decimals, for two normalized numbers, in
/// exact arithmetic; `None` when either is zero.
pub fn quotient_text_of(pn: &Vec<char>, qn: &Vec<char>) -> (r: Option<Vec<char>>)
    ensures
        match r {
            Some(v) => quotient_text(pn@, qn@) == Some(v@),
            None => quotient_text(pn@, qn@).is_none(),
        },
{
    let mut num = digits_of_text(pn);
    let mut den = digits_of_text(qn);
    proof {
        lemma_msd_zero_iff(num@);
        lemma_msd_zero_iff(den@);
    }
    if all_zero(&num) || all_zero(&den) {
        return None;
    }
    let ghost p = digits_value(pn@);
    let ghost q = digits_value(qn@);
    let sq = scale_of_exec(qn);
    let sp = scale_of_exec(pn);
    append_zeros(&mut num, sq);
    append_zeros(&mut num, 8);
    append_zeros(&mut den, sp);
    let d = to_lsd_with_top_zero(&den);
    proof {
        assert(pow10(8) == 100000000) by {
            reveal_with_fuel(pow10, 9);
        }
        lemma_pow10_mono(0, sp as nat);
        assert(q * pow10(sp as nat) > 0) by (nonlinear_arith)
            requires
                q > 0,
                pow10(sp as nat) >= 1,
        ;
    }
    let (quot, rem) = divide_digits(&num, &d);
    let units = round_quotient(&quot, &rem, &d);
    let negative = pn.len() > 0 && pn[0] == '-';
    Some(eight_decimals_of_digits(negative, &units))
}

} // verus!
