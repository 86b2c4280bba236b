//! Formatting of quantities: digit grouping, decimal mark and commodity
//! placement.

use vstd::prelude::*;
use crate::text::{char_pred, find_char, first_match, lemma_first_match_props, push_all, slice_of, string_of, to_chars, trim, trim_of, trim_start_char, trim_start_char_of};

verus! {

#[derive(Debug, Clone, Copy, PartialEq, Eq)]
pub enum CommodityPosition {
    Left,
    Right,
}

#[derive(Debug, Clone, PartialEq, Eq)]
pub struct AmountFormatConfig {
    pub decimal_mark: String,
    pub digit_separator: String,
    pub digit_groups: Vec<usize>,
    pub precision: usize,
    pub commodity_position: CommodityPosition,
    pub commodity_spaced: bool,
}

} // verus!

verus! {

/// The digits with a separator between groups taken from the right, the
/// group sizes cycling through `groups` from index `k`.
pub open spec fn grouped(d: Seq<char>, groups: Seq<usize>, k: nat, sep: Seq<char>) -> Seq<char>
    recommends
        k < groups.len(),
        forall|i: int| 0 <= i < groups.len() ==> groups[i] > 0,
    decreases d.len(),
{
    if d.len() == 0 || groups.len() == 0 {
        d
    } else {
        let g = groups[k as int];
        if g == 0 || g >= d.len() {
            d
        } else {
            grouped(d.take(d.len() - g), groups, ((k + 1) % groups.len()) as nat, sep) + sep + d.skip(d.len() - g)
        }
    }
}

/// The integer and fraction parts of a fixed-point text.
pub open spec fn fixed_parts(fixed: Seq<char>) -> (Seq<char>, Seq<char>) {
    let k = first_match(fixed, char_pred('.'));
    if k < 0 {
        (fixed, seq![])
    } else {
        let rest = fixed.skip(k + 1);
        let k2 = first_match(rest, char_pred('.'));
        (fixed.take(k), if k2 < 0 { rest } else { rest.take(k2) })
    }
}

/// A quantity written in the configuration's style from its sign and its
/// absolute value as fixed-point text: the integer digits grouped, and the
/// fraction after the decimal mark when there is one.
pub open spec fn spec_format_fixed_quantity(c: AmountFormatConfig, negative: bool, fixed: Seq<char>) -> Seq<char> {
    let (int_part, frac_part) = fixed_parts(fixed);
    let g = if c.digit_groups@.len() == 0 || c.digit_separator@.len() == 0 {
        int_part
    } else {
        grouped(int_part, c.digit_groups@, 0, c.digit_separator@)
    };
    (if negative { seq!['-'] } else { seq![] }) + g
        + (if frac_part.len() == 0 { seq![] } else { c.decimal_mark@ + frac_part })
}

/// A quantity text with the commodity placed as the configuration says:
/// the sign first, then the commodity and the digits in order, with a space
/// between them when the style is spaced.
pub open spec fn spec_format_amount_text(c: AmountFormatConfig, quantity: Seq<char>, commodity: Seq<char>) -> Seq<char> {
    let com = trim(commodity);
    if com.len() == 0 {
        quantity
    } else {
        let sign = if quantity.len() > 0 && quantity[0] == '-' { seq!['-'] } else { seq![] };
        let abs = trim_start_char(quantity, '-');
        let sep = if c.commodity_spaced { seq![' '] } else { seq![] };
        match c.commodity_position {
            CommodityPosition::Left => sign + com + sep + abs,
            CommodityPosition::Right => sign + abs + sep + com,
        }
    }
}

fn grouped_of(d: &Vec<char>, groups: &Vec<usize>, k: usize, sep: &Vec<char>) -> (r: Vec<char>)
    requires
        groups.len() > 0,
        k < groups.len(),
    ensures
        r@ == grouped(d@, groups@, k as nat, sep@),
    decreases d.len(),
{
    if d.len() == 0 {
        return Vec::new();
    }
    let g = groups[k];
    if g == 0 || g >= d.len() {
        let c = slice_of(d, 0, d.len());
        assert(c@ =~= d@);
        return c;
    }
    let head = slice_of(d, 0, d.len() - g);
    let tail = slice_of(d, d.len() - g, d.len());
    assert(head@ =~= d@.take(d.len() - g));
    assert(tail@ =~= d@.skip(d.len() - g));
    let next = if k + 1 < groups.len() { k + 1 } else { 0 };
    let ghost n = groups.len() as int;
    assert(next as int == (k + 1) % n) by (nonlinear_arith)
        requires
            0 <= k < n,
            next as int == (if k + 1 < n { k + 1 } else { 0 }),
    {
        if k + 1 == n {
            assert(n % n == 0);
        }
    }
    let mut r = grouped_of(&head, groups, next, sep);
    push_all(&mut r, sep);
    push_all(&mut r, &tail);
    r
}


fn fixed_parts_of(fixed: &Vec<char>) -> (r: (Vec<char>, Vec<char>))
    ensures
        (r.0@, r.1@) == fixed_parts(fixed@),
{
    proof {
        lemma_first_match_props(fixed@, char_pred('.'));
    }
    match find_char(fixed, '.') {
        None => (fixed.clone(), Vec::new()),
        Some(k) => {
            assert(k < fixed.len());
            let int_part = slice_of(fixed, 0, k);
            let rest = slice_of(fixed, k + 1, fixed.len());
            assert(int_part@ =~= fixed@.take(k as int));
            assert(rest@ =~= fixed@.skip(k + 1));
            proof {
                lemma_first_match_props(rest@, char_pred('.'));
            }
            match find_char(&rest, '.') {
                None => (int_part, rest),
                Some(k2) => {
                    let frac = slice_of(&rest, 0, k2);
                    assert(frac@ =~= rest@.take(k2 as int));
                    (int_part, frac)
                },
            }
        },
    }
}

impl AmountFormatConfig {
    /// Writes a quantity given its sign and its absolute value as
    /// fixed-point text with the configured precision.
    pub fn format_fixed_quantity(&self, negative: bool, fixed: &str) -> (r: String)
        requires
            forall|i: int| 0 <= i < self.digit_groups@.len() ==> self.digit_groups@[i] > 0,
        ensures
            r@ == spec_format_fixed_quantity(*self, negative, fixed@),
    {
        let f = to_chars(fixed);
        let (int_part, frac_part) = fixed_parts_of(&f);
        let sep = to_chars(self.digit_separator.as_str());
        let g = if self.digit_groups.len() == 0 || sep.len() == 0 {
            int_part
        } else {
            grouped_of(&int_part, &self.digit_groups, 0, &sep)
        };
        let mut r: Vec<char> = Vec::new();
        if negative {
            r.push('-');
        }
        push_all(&mut r, &g);
        if frac_part.len() > 0 {
            let mark = to_chars(self.decimal_mark.as_str());
            push_all(&mut r, &mark);
            push_all(&mut r, &frac_part);
        }
        assert(r@ =~= spec_format_fixed_quantity(*self, negative, fixed@));
        string_of(&r)
    }

    /// Places the commodity around a written quantity.
    pub fn format_amount_text(&self, quantity: &str, commodity: &str) -> (r: String)
        ensures
            r@ == spec_format_amount_text(*self, quantity@, commodity@),
    {
        let c = to_chars(commodity);
        let com = trim_of(&c);
        if com.len() == 0 {
            return quantity.to_owned();
        }
        let q = to_chars(quantity);
        let negative = q.len() > 0 && q[0] == '-';
        let abs = trim_start_char_of(&q, '-');
        let mut r: Vec<char> = Vec::new();
        if negative {
            r.push('-');
        }
        match self.commodity_position {
            CommodityPosition::Left => {
                push_all(&mut r, &com);
                if self.commodity_spaced {
                    r.push(' ');
                }
                push_all(&mut r, &abs);
            },
            CommodityPosition::Right => {
                push_all(&mut r, &abs);
                if self.commodity_spaced {
                    r.push(' ');
                }
                push_all(&mut r, &com);
            },
        }
        assert(r@ =~= spec_format_amount_text(*self, quantity@, commodity@));
        string_of(&r)
    }
}

/// The built-in configuration: `1,234.56`, commodity on the left, unspaced.
pub open spec fn is_default_config(c: AmountFormatConfig) -> bool {
    &&& c.decimal_mark@ == seq!['.']
    &&& c.digit_separator@ == seq![',']
    &&& c.digit_groups@ == seq![3usize]
    &&& c.precision == 2
    &&& c.commodity_position == CommodityPosition::Left
    &&& !c.commodity_spaced
}

impl Default for AmountFormatConfig {
    fn default() -> (r: Self)
        ensures
            is_default_config(r),
    {
        let mut digit_groups: Vec<usize> = Vec::new();
        digit_groups.push(3);
        let decimal_mark = String::from_str(".");
        let digit_separator = String::from_str(",");
        proof {
            reveal_strlit(".");
            reveal_strlit(",");
            assert("."@ =~= seq!['.']);
            assert(","@ =~= seq![',']);
            assert(digit_groups@ =~= seq![3usize]);
        }
        let r = AmountFormatConfig {
            decimal_mark,
            digit_separator,
            digit_groups,
            precision: 2,
            commodity_position: CommodityPosition::Left,
            commodity_spaced: false,
        };
        r
    }
}

} // verus!
