//! Amount display styles: the default style, styles read from `commodity` /
//! `format` directives, and the per-commodity style table.

use vstd::prelude::*;
use crate::amount_format::{AmountFormatConfig, CommodityPosition};
use crate::journal::files::JournalFile;
use crate::text::{
    digit_pred, eq_ignore_ascii_case, lowercase, to_lower, eq_ignore_ascii_case_of, find_digit, first_match, is_digit, is_ws,
    char_is_digit, char_is_ws, last_match, lemma_first_match_props, lemma_last_match_props, lines, lines_of, push_all,
    rfind_digit, slice_of, starts_with, starts_with_str, string_of, to_chars, trim, trim_of, views,
};

verus! {

/// Display style for amounts (decimal mark, digit grouping, precision,
/// commodity placement).
#[derive(Debug, Clone, PartialEq, Eq)]
pub struct AmountStyle {
    pub decimal_mark: String,
    pub digit_separator: String,
    pub digit_groups: Vec<usize>,
    pub precision: usize,
    pub commodity_position: String,
    pub commodity_spaced: bool,
}

pub struct AmountStyleSpec {
    pub decimal_mark: Seq<char>,
    pub digit_separator: Seq<char>,
    pub digit_groups: Seq<usize>,
    pub precision: nat,
    pub commodity_position: Seq<char>,
    pub commodity_spaced: bool,
}

impl View for AmountStyle {
    type V = AmountStyleSpec;

    open spec fn view(&self) -> AmountStyleSpec {
        AmountStyleSpec {
            decimal_mark: self.decimal_mark@,
            digit_separator: self.digit_separator@,
            digit_groups: self.digit_groups@,
            precision: self.precision as nat,
            commodity_position: self.commodity_position@,
            commodity_spaced: self.commodity_spaced,
        }
    }
}

/// Two styles with the same field values.
pub open spec fn same_style(a: AmountStyle, b: AmountStyle) -> bool {
    &&& a.decimal_mark@ == b.decimal_mark@
    &&& a.digit_separator@ == b.digit_separator@
    &&& a.digit_groups@ == b.digit_groups@
    &&& a.precision == b.precision
    &&& a.commodity_position@ == b.commodity_position@
    &&& a.commodity_spaced == b.commodity_spaced
}

impl AmountStyle {
    /// A field-by-field copy.
    pub fn duplicate(&self) -> (r: AmountStyle)
        ensures
            same_style(r, *self),
    {
        let groups = self.digit_groups.clone();
        assert(groups@ =~= self.digit_groups@);
        AmountStyle {
            decimal_mark: self.decimal_mark.clone(),
            digit_separator: self.digit_separator.clone(),
            digit_groups: groups,
            precision: self.precision,
            commodity_position: self.commodity_position.clone(),
            commodity_spaced: self.commodity_spaced,
        }
    }
}

/// Per-commodity styles, each commodity named once.
#[derive(Debug)]
pub struct CommodityStyles {
    entries: Vec<(String, AmountStyle)>,
}

impl CommodityStyles {
    #[verifier::type_invariant]
    closed spec fn wf(&self) -> bool {
        forall|i: int, j: int|
            0 <= i < j < self.entries@.len() ==> self.entries@[i].0@ != self.entries@[j].0@
    }

    pub closed spec fn spec_len(&self) -> nat {
        self.entries@.len()
    }

    pub closed spec fn spec_name(&self, i: int) -> Seq<char> {
        self.entries@[i].0@
    }

    pub closed spec fn spec_style(&self, i: int) -> AmountStyle {
        self.entries@[i].1
    }

    /// Whether the table holds a style for the commodity.
    pub open spec fn has(&self, commodity: Seq<char>) -> bool {
        exists|i: int| 0 <= i < self.spec_len() && self.spec_name(i) == commodity
    }

    /// The table as a map from commodity to style.
    pub open spec fn as_map(&self) -> Map<Seq<char>, AmountStyleSpec> {
        Map::new(|c: Seq<char>| self.has(c), |c: Seq<char>| self.style_of(c)@)
    }

    /// Position of the commodity in the table, or -1.
    pub open spec fn index_of(&self, commodity: Seq<char>) -> int {
        if self.has(commodity) {
            choose|i: int| 0 <= i < self.spec_len() && self.spec_name(i) == commodity
        } else {
            -1
        }
    }

    /// The style the table holds for the commodity.
    pub open spec fn style_of(&self, commodity: Seq<char>) -> AmountStyle {
        self.spec_style(self.index_of(commodity))
    }

    proof fn lemma_index_unique(&self, i: int)
        requires
            self.wf(),
            0 <= i < self.spec_len(),
        ensures
            self.has(self.spec_name(i)),
            self.index_of(self.spec_name(i)) == i,
    {
        let c = self.spec_name(i);
        assert(0 <= i < self.spec_len() && self.spec_name(i) == c);
        let k = self.index_of(c);
        assert(0 <= k < self.spec_len() && self.spec_name(k) == c);
        if k < i {
            assert(self.entries@[k].0@ != self.entries@[i].0@);
        } else if k > i {
            assert(self.entries@[i].0@ != self.entries@[k].0@);
        }
    }

    pub fn new() -> (r: CommodityStyles)
        ensures
            r.spec_len() == 0,
            forall|c: Seq<char>| !r.has(c),
    {
        CommodityStyles { entries: Vec::new() }
    }

    pub fn len(&self) -> (r: usize)
        ensures
            r == self.spec_len(),
    {
        self.entries.len()
    }

    fn find(&self, commodity: &str) -> (r: Option<usize>)
        ensures
            match r {
                Some(i) => i < self.spec_len() && self.spec_name(i as int) == commodity@
                    && self.index_of(commodity@) == i && self.has(commodity@),
                None => !self.has(commodity@),
            },
    {
        proof {
            use_type_invariant(self);
        }
        let mut i: usize = 0;
        while i < self.entries.len()
            invariant
                self.wf(),
                0 <= i <= self.entries.len(),
                forall|j: int| 0 <= j < i ==> self.entries@[j].0@ != commodity@,
            decreases self.entries.len() - i,
        {
            if crate::text::str_eq(self.entries[i].0.as_str(), commodity) {
                proof {
                    self.lemma_index_unique(i as int);
                }
                return Some(i);
            }
            i += 1;
        }
        None
    }

    /// Whether the table holds a style for the commodity.
    pub fn contains_key(&self, commodity: &str) -> (r: bool)
        ensures
            r == self.has(commodity@),
    {
        self.find(commodity).is_some()
    }

    /// The style of the commodity, when the table holds one.
    pub fn get(&self, commodity: &str) -> (r: Option<AmountStyle>)
        ensures
            match r {
                Some(s) => self.has(commodity@) && same_style(s, self.style_of(commodity@)),
                None => !self.has(commodity@),
            },
    {
        match self.find(commodity) {
            Some(i) => Some(self.entries[i].1.duplicate()),
            None => None,
        }
    }

    /// Sets the style of a commodity, replacing an earlier one.
    pub fn insert(&mut self, name: String, style: AmountStyle)
        ensures
            forall|c: Seq<char>| final(self).has(c) <==> (old(self).has(c) || c == name@),
            final(self).style_of(name@) == style,
            forall|c: Seq<char>|
                old(self).has(c) && c != name@ ==> final(self).style_of(c) == old(self).style_of(c),
    {
        proof {
            use_type_invariant(&*self);
        }
        match self.find(name.as_str()) {
            Some(i) => {
                let ghost old_entries = self.entries@;
                let mut e: Vec<(String, AmountStyle)> = Vec::new();
                std::mem::swap(&mut e, &mut self.entries);
                e.set(i, (name, style));
                proof {
                    assert forall|a: int, b: int| 0 <= a < b < e@.len() implies e@[a].0@ != e@[b].0@ by {
                            if a != i && b != i {
                                assert(old_entries[a].0@ != old_entries[b].0@);
                            } else if a == i {
                                assert(old_entries[a].0@ != old_entries[b].0@);
                            } else {
                                assert(old_entries[a].0@ != old_entries[b].0@);
                            }
                    }
                }
                self.entries = e;
                proof {
                    assert forall|c: Seq<char>| self.has(c) <==> (old(self).has(c) || c == name@) by {
                        if old(self).has(c) {
                            let k = old(self).index_of(c);
                            assert(0 <= k < self.spec_len() && self.spec_name(k) == c);
                        }
                        if self.has(c) {
                            let k = choose|k: int| 0 <= k < self.spec_len() && self.spec_name(k) == c;
                            if k != i {
                                assert(old(self).spec_name(k) == c);
                            }
                        }
                    }
                    self.lemma_index_unique(i as int);
                    assert forall|c: Seq<char>|
                        old(self).has(c) && c != name@ implies self.style_of(c) == old(self).style_of(c) by {
                        let k = old(self).index_of(c);
                        old(self).lemma_index_unique(k);
                        assert(self.spec_name(k) == c);
                        self.lemma_index_unique(k);
                    }
                }
            },
            None => {
                let mut e: Vec<(String, AmountStyle)> = Vec::new();
                std::mem::swap(&mut e, &mut self.entries);
                e.push((name, style));
                proof {
                    assert forall|a: int, b: int| 0 <= a < b < e@.len() implies e@[a].0@ != e@[b].0@ by {
                        if b == e@.len() - 1 {
                            assert(old(self).spec_name(a) == e@[a].0@);
                        }
                    }
                }
                self.entries = e;
                proof {
                    let n = self.entries@.len() - 1;
                    assert forall|c: Seq<char>| self.has(c) <==> (old(self).has(c) || c == name@) by {
                        if old(self).has(c) {
                            let k = old(self).index_of(c);
                            assert(0 <= k < self.spec_len() && self.spec_name(k) == c);
                        }
                        if c == name@ {
                            assert(self.spec_name(n) == c);
                        }
                        if self.has(c) {
                            let k = choose|k: int| 0 <= k < self.spec_len() && self.spec_name(k) == c;
                            if k != n {
                                assert(old(self).spec_name(k) == c);
                            }
                        }
                    }
                    self.lemma_index_unique(n);
                    assert forall|c: Seq<char>|
                        old(self).has(c) && c != name@ implies self.style_of(c) == old(self).style_of(c) by {
                        let k = old(self).index_of(c);
                        old(self).lemma_index_unique(k);
                        assert(self.spec_name(k) == c);
                        self.lemma_index_unique(k);
                    }
                }
            },
        }
    }
}

} // verus!

verus! {

/// The built-in style: `1,234.56` with the commodity on the left, unspaced.
pub open spec fn is_default_style(s: AmountStyle) -> bool {
    &&& s.decimal_mark@ == seq!['.']
    &&& s.digit_separator@ == seq![',']
    &&& s.digit_groups@ == seq![3usize]
    &&& s.precision == 2
    &&& s.commodity_position@ == seq!['l', 'e', 'f', 't']
    &&& !s.commodity_spaced
}

impl Default for AmountStyle {
    fn default() -> (r: Self)
        ensures
            is_default_style(r),
    {
        let decimal_mark = String::from_str(".");
        let digit_separator = String::from_str(",");
        let commodity_position = String::from_str("left");
        let mut digit_groups: Vec<usize> = Vec::new();
        digit_groups.push(3);
        proof {
            reveal_strlit(".");
            reveal_strlit(",");
            reveal_strlit("left");
            assert("."@ =~= seq!['.']);
            assert(","@ =~= seq![',']);
            assert("left"@ =~= seq!['l', 'e', 'f', 't']);
            assert(digit_groups@ =~= seq![3usize]);
        }
        AmountStyle {
            decimal_mark,
            digit_separator,
            digit_groups,
            precision: 2,
            commodity_position,
            commodity_spaced: false,
        }
    }
}

/// The styles that amount parsing and formatting consult: the active
/// amount style, the styles of the journal being parsed, and the styles
/// declared by the loaded journal.
#[derive(Debug)]
pub struct StyleContext {
    pub amount_style: AmountStyle,
    pub local_styles: CommodityStyles,
    pub global_styles: CommodityStyles,
}

impl StyleContext {
    /// The default amount style and no commodity styles.
    pub fn new() -> (r: StyleContext)
        ensures
            is_default_style(r.amount_style),
            forall|c: Seq<char>| !r.local_styles.has(c) && !r.global_styles.has(c),
    {
        StyleContext {
            amount_style: AmountStyle::default(),
            local_styles: CommodityStyles::new(),
            global_styles: CommodityStyles::new(),
        }
    }

    /// Whether the active style writes decimals with a comma.
    pub open spec fn comma_mark(&self) -> bool {
        self.amount_style.decimal_mark@ == seq![',']
    }

    /// The amount style in effect.
    pub fn active_amount_style(&self) -> (r: AmountStyle)
        ensures
            r@ == self.amount_style@,
    {
        self.amount_style.duplicate()
    }

    /// The style for a commodity: the parsed journal's own, else the loaded
    /// journal's.
    pub fn active_style_for_commodity(&self, commodity: &str) -> (r: Option<AmountStyle>)
        ensures
            match r {
                Some(s) => if self.local_styles.has(commodity@) {
                    s@ == self.local_styles.style_of(commodity@)@
                } else {
                    self.global_styles.has(commodity@) && s@ == self.global_styles.style_of(commodity@)@
                },
                None => !self.local_styles.has(commodity@) && !self.global_styles.has(commodity@),
            },
    {
        match self.local_styles.get(commodity) {
            Some(s) => Some(s),
            None => explicit_style_for_commodity(&self.global_styles, commodity),
        }
    }

    pub fn has_comma_mark(&self) -> (r: bool)
        ensures
            r == self.comma_mark(),
    {
        let m = crate::text::to_chars(self.amount_style.decimal_mark.as_str());
        if m.len() == 1 && m[0] == ',' {
            assert(m@ =~= seq![',']);
            true
        } else {
            false
        }
    }
}

} // verus!

verus! {

impl AmountStyle {
    /// The formatting configuration of the style: `right` places the
    /// commodity on the right, anything else on the left.
    pub fn to_format_config(&self) -> (r: AmountFormatConfig)
        ensures
            r.decimal_mark@ == self.decimal_mark@,
            r.digit_separator@ == self.digit_separator@,
            r.digit_groups@ == self.digit_groups@,
            r.precision == self.precision,
            r.commodity_position == (if self.commodity_position@ == "right"@ {
                CommodityPosition::Right
            } else {
                CommodityPosition::Left
            }),
            r.commodity_spaced == self.commodity_spaced,
    {
        let groups = self.digit_groups.clone();
        assert(groups@ =~= self.digit_groups@);
        let pos = to_chars(self.commodity_position.as_str());
        let right = to_chars("right");
        let is_right = crate::text::chars_eq(&pos, &right);
        AmountFormatConfig {
            decimal_mark: self.decimal_mark.clone(),
            digit_separator: self.digit_separator.clone(),
            digit_groups: groups,
            precision: self.precision,
            commodity_position: if is_right { CommodityPosition::Right } else { CommodityPosition::Left },
            commodity_spaced: self.commodity_spaced,
        }
    }
}

pub open spec fn non_digit_pred() -> spec_fn(char) -> bool {
    |c: char| !is_digit(c)
}

/// How many digits end the text.
pub open spec fn trailing_digit_count(num: Seq<char>) -> nat {
    let k = last_match(num, non_digit_pred());
    if k < 0 { num.len() } else { (num.len() - 1 - k) as nat }
}

/// The last character of the text that is not a digit, as text; empty when
/// there is none.
pub open spec fn last_non_digit(s: Seq<char>) -> Seq<char> {
    let k = last_match(s, non_digit_pred());
    if k < 0 { seq![] } else { seq![s[k]] }
}

/// The style written by a `format` directive such as `1.000,00 EUR`: the
/// commodity side and spacing around the number, the mark before the
/// trailing digits as decimal mark (none when the number has no other
/// character), the last other mark before it as digit separator, and the
/// count of trailing digits as precision; none without a digit.
pub open spec fn spec_parse_format_directive(fmt: Seq<char>) -> Option<AmountStyleSpec> {
    let t = trim(fmt);
    let fd = first_match(t, digit_pred());
    let ld = last_match(t, digit_pred());
    if fd < 0 || ld < 0 {
        None
    } else {
        let prefix = t.take(fd);
        let suffix = t.skip(ld + 1);
        let num = t.subrange(fd, ld + 1);
        let right = trim(suffix).len() > 0;
        let spaced = if right {
            suffix.len() > 0 && is_ws(suffix[0])
        } else {
            prefix.len() > 0 && is_ws(prefix.last())
        };
        let position = if right { "right"@ } else { "left"@ };
        let trailing = trailing_digit_count(num);
        if trailing == 0 || trailing == num.len() {
            let separator = last_non_digit(num.take(num.len() - trailing));
            Some(AmountStyleSpec {
                decimal_mark: "."@,
                digit_separator: separator,
                digit_groups: if separator.len() == 0 { seq![] } else { seq![3usize] },
                precision: 0,
                commodity_position: position,
                commodity_spaced: spaced,
            })
        } else {
            let mark_index = num.len() - trailing - 1;
            let separator = last_non_digit(num.take(mark_index));
            Some(AmountStyleSpec {
                decimal_mark: seq![num[mark_index]],
                digit_separator: separator,
                digit_groups: if separator.len() == 0 { seq![] } else { seq![3usize] },
                precision: trailing,
                commodity_position: position,
                commodity_spaced: spaced,
            })
        }
    }
}

fn last_non_digit_of(s: &Vec<char>) -> (r: Vec<char>)
    ensures
        r@ == last_non_digit(s@),
{
    let mut i: usize = s.len();
    while i > 0
        invariant
            0 <= i <= s.len(),
            forall|j: int| i <= j < s.len() ==> is_digit(s@[j]),
        decreases i,
    {
        if !char_is_digit(s[i - 1]) {
            proof {
                crate::text::lemma_last_match(s@, non_digit_pred(), i - 1);
            }
            let mut r: Vec<char> = Vec::new();
            r.push(s[i - 1]);
            return r;
        }
        i -= 1;
    }
    proof {
        crate::text::lemma_last_match(s@, non_digit_pred(), -1);
    }
    Vec::new()
}

fn trailing_digit_count_of(num: &Vec<char>) -> (r: usize)
    ensures
        r == trailing_digit_count(num@),
        r <= num.len(),
{
    let mut i: usize = num.len();
    while i > 0
        invariant
            0 <= i <= num.len(),
            forall|j: int| i <= j < num.len() ==> is_digit(num@[j]),
        decreases i,
    {
        if !char_is_digit(num[i - 1]) {
            proof {
                crate::text::lemma_last_match(num@, non_digit_pred(), i - 1);
            }
            return num.len() - i;
        }
        i -= 1;
    }
    proof {
        crate::text::lemma_last_match(num@, non_digit_pred(), -1);
    }
    num.len()
}

fn groups_for(separator: &Vec<char>) -> (r: Vec<usize>)
    ensures
        r@ == (if separator@.len() == 0 { seq![] } else { seq![3usize] }),
{
    let mut g: Vec<usize> = Vec::new();
    if separator.len() > 0 {
        g.push(3);
    }
    assert(g@ =~= (if separator@.len() == 0 { seq![] } else { seq![3usize] }));
    g
}

/// Reads the style of a `format` directive's sample amount.
pub fn parse_format_directive(fmt: &str) -> (r: Option<AmountStyle>)
    ensures
        match r {
            Some(s) => spec_parse_format_directive(fmt@) == Some(s@),
            None => spec_parse_format_directive(fmt@).is_none(),
        },
{
    let f = to_chars(fmt);
    let t = trim_of(&f);
    let fd = match find_digit(&t) {
        Some(i) => i,
        None => return None,
    };
    let ld = match rfind_digit(&t) {
        Some(i) => i,
        None => return None,
    };
    proof {
        lemma_first_match_props(t@, digit_pred());
        lemma_last_match_props(t@, digit_pred());
        assert(fd <= ld) by {
            if ld < fd {
                assert((digit_pred())(t@[ld as int]));
            }
        }
    }
    let prefix = slice_of(&t, 0, fd);
    let suffix = slice_of(&t, ld + 1, t.len());
    let num = slice_of(&t, fd, ld + 1);
    assert(prefix@ =~= t@.take(fd as int));
    assert(suffix@ =~= t@.skip(ld + 1));
    let st = trim_of(&suffix);
    let right = st.len() > 0;
    let spaced = if right {
        suffix.len() > 0 && char_is_ws(suffix[0])
    } else {
        prefix.len() > 0 && char_is_ws(prefix[prefix.len() - 1])
    };
    let position = if right { "right".to_owned() } else { "left".to_owned() };
    let trailing = trailing_digit_count_of(&num);
    if trailing == 0 || trailing == num.len() {
        let head = slice_of(&num, 0, num.len() - trailing);
        assert(head@ =~= num@.take(num.len() - trailing));
        let separator = last_non_digit_of(&head);
        let groups = groups_for(&separator);
        return Some(AmountStyle {
            decimal_mark: ".".to_owned(),
            digit_separator: string_of(&separator),
            digit_groups: groups,
            precision: 0,
            commodity_position: position,
            commodity_spaced: spaced,
        });
    }
    let mark_index = num.len() - trailing - 1;
    let mut mark: Vec<char> = Vec::new();
    mark.push(num[mark_index]);
    let head = slice_of(&num, 0, mark_index);
    assert(head@ =~= num@.take(mark_index as int));
    let separator = last_non_digit_of(&head);
    let groups = groups_for(&separator);
    Some(AmountStyle {
        decimal_mark: string_of(&mark),
        digit_separator: string_of(&separator),
        digit_groups: groups,
        precision: trailing,
        commodity_position: position,
        commodity_spaced: spaced,
    })
}

} // verus!

verus! {

/// The commodity of a sample amount such as `€1.000,00` or `1,000.00 USD`:
/// the text before the first digit, else the text after the last digit,
/// else the whole sample, trimmed.
pub open spec fn spec_extract_commodity_symbol(sample: Seq<char>) -> Seq<char> {
    let fd = first_match(sample, digit_pred());
    let ld = last_match(sample, digit_pred());
    let prefix = trim(if fd >= 0 { sample.take(fd) } else { seq![] });
    let suffix = trim(if ld >= 0 { sample.skip(ld + 1) } else { seq![] });
    if prefix.len() > 0 {
        prefix
    } else if suffix.len() > 0 {
        suffix
    } else {
        trim(sample)
    }
}

pub fn extract_commodity_symbol_chars(sample: &Vec<char>) -> (r: Vec<char>)
    ensures
        r@ == spec_extract_commodity_symbol(sample@),
{
    proof {
        lemma_first_match_props(sample@, digit_pred());
        lemma_last_match_props(sample@, digit_pred());
    }
    let prefix = match find_digit(sample) {
        Some(i) => {
            let p = slice_of(sample, 0, i);
            assert(p@ =~= sample@.take(i as int));
            trim_of(&p)
        },
        None => {
            let e: Vec<char> = Vec::new();
            assert(trim(seq![]) =~= seq![]);
            e
        },
    };
    let suffix = match rfind_digit(sample) {
        Some(i) => {
            assert(i < sample.len());
            let p = slice_of(sample, i + 1, sample.len());
            assert(p@ =~= sample@.skip(i + 1));
            trim_of(&p)
        },
        None => {
            let e: Vec<char> = Vec::new();
            e
        },
    };
    if prefix.len() > 0 {
        prefix
    } else if suffix.len() > 0 {
        suffix
    } else {
        trim_of(sample)
    }
}

/// The commodity symbol of a sample amount.
pub fn extract_commodity_symbol(sample: &str) -> (r: String)
    ensures
        r@ == spec_extract_commodity_symbol(sample@),
{
    let c = to_chars(sample);
    string_of(&extract_commodity_symbol_chars(&c))
}

pub open spec fn commodity_kw() -> Seq<char> {
    "commodity "@
}

pub open spec fn format_kw() -> Seq<char> {
    "format "@
}

pub open spec fn format_word() -> Seq<char> {
    "format"@
}

/// The style of the `format` line, when the line is one.
pub open spec fn format_line_style(t: Seq<char>) -> Option<AmountStyleSpec> {
    spec_parse_format_directive(trim(t.skip(format_kw().len() as int)))
}

/// Scanning a file's lines from `i` for the first `format` directive inside
/// a `commodity` block that yields a style.
pub open spec fn style_scan(ls: Seq<Seq<char>>, i: int, in_commodity: bool) -> Option<AmountStyleSpec>
    decreases ls.len() - i,
{
    if i < 0 || i >= ls.len() {
        None
    } else {
        let line = ls[i];
        let t = trim(line);
        if starts_with(t, commodity_kw()) {
            style_scan(ls, i + 1, true)
        } else if in_commodity && starts_with(t, format_kw()) && format_line_style(t) is Some {
            format_line_style(t)
        } else {
            let in1 = if in_commodity && starts_with(t, format_kw()) { false } else { in_commodity };
            let in2 = if in1 && !(line.len() > 0 && line[0] == ' ') && t.len() > 0 { false } else { in1 };
            style_scan(ls, i + 1, in2)
        }
    }
}

/// The style of the first file with one, else none.
pub open spec fn files_style(contents: Seq<Seq<char>>) -> Option<AmountStyleSpec>
    decreases contents.len(),
{
    if contents.len() == 0 {
        None
    } else {
        match style_scan(lines(contents[0]), 0, false) {
            Some(s) => Some(s),
            None => files_style(contents.skip(1)),
        }
    }
}

pub open spec fn file_contents(files: Seq<JournalFile>) -> Seq<Seq<char>> {
    files.map_values(|f: JournalFile| f.content@)
}

fn keyword(s: &str) -> (r: Vec<char>)
    ensures
        r@ == s@,
{
    to_chars(s)
}

fn scan_file_style(content: &str) -> (r: Option<AmountStyle>)
    ensures
        match r {
            Some(s) => style_scan(lines(content@), 0, false) == Some(s@),
            None => style_scan(lines(content@), 0, false).is_none(),
        },
{
    let c = to_chars(content);
    let ls = lines_of(&c);
    let ghost lv = views(ls@);
    let ckw = keyword("commodity ");
    let fkw = keyword("format ");
    let mut in_commodity = false;
    let mut i: usize = 0;
    while i < ls.len()
        invariant
            0 <= i <= ls.len(),
            lv == views(ls@),
            lv == lines(content@),
            ckw@ == commodity_kw(),
            fkw@ == format_kw(),
            style_scan(lv, 0, false) == style_scan(lv, i as int, in_commodity),
        decreases ls.len() - i,
    {
        let line = &ls[i];
        assert(lv[i as int] == line@);
        let t = trim_of(line);
        if crate::text::starts_with_chars(&t, &ckw) {
            in_commodity = true;
            i += 1;
            continue;
        }
        let is_format = crate::text::starts_with_chars(&t, &fkw);
        if in_commodity && is_format {
            let rest = slice_of(&t, fkw.len(), t.len());
            assert(rest@ =~= t@.skip(format_kw().len() as int));
            let fmt = trim_of(&rest);
            let fs = string_of(&fmt);
            match parse_format_directive(fs.as_str()) {
                Some(style) => {
                    return Some(style);
                },
                None => {},
            }
            in_commodity = false;
        }
        if in_commodity && !(line.len() > 0 && line[0] == ' ') && t.len() > 0 {
            in_commodity = false;
        }
        i += 1;
    }
    None
}

/// The display style of the first `format` directive inside a `commodity`
/// block of the journal files, else the built-in style.
pub fn parse_amount_style(files: &Vec<JournalFile>) -> (r: AmountStyle)
    ensures
        match files_style(file_contents(files@)) {
            Some(s) => r@ == s,
            None => is_default_style(r),
        },
{
    let ghost fc = file_contents(files@);
    assert(fc.skip(0) =~= fc);
    let mut i: usize = 0;
    while i < files.len()
        invariant
            0 <= i <= files.len(),
            fc == file_contents(files@),
            files_style(fc) == files_style(fc.skip(i as int)),
        decreases files.len() - i,
    {
        proof {
            assert(fc.skip(i as int)[0] == files@[i as int].content@);
            assert(fc.skip(i as int).skip(1) =~= fc.skip(i + 1));
        }
        match scan_file_style(files[i].content.as_str()) {
            Some(s) => {
                return s;
            },
            None => {},
        }
        i += 1;
    }
    assert(fc.skip(i as int) =~= seq![]);
    AmountStyle::default()
}

} // verus!

verus! {

/// One line of the commodity style scan: a `commodity` line opens a block
/// for its symbol, a `format` line sets the open block's style (when it
/// yields one) and closes it, and an unindented line other than `format…`
/// closes it.
pub open spec fn styles_step(
    state: (Map<Seq<char>, AmountStyleSpec>, Option<Seq<char>>),
    line: Seq<char>,
) -> (Map<Seq<char>, AmountStyleSpec>, Option<Seq<char>>) {
    let (m, cur) = state;
    let t = trim(line);
    if starts_with(t, commodity_kw()) {
        (m, Some(spec_extract_commodity_symbol(trim(t.skip(commodity_kw().len() as int)))))
    } else if starts_with(t, format_kw()) {
        (
            match cur {
                Some(c) => match format_line_style(t) {
                    Some(st) => m.insert(c, st),
                    None => m,
                },
                None => m,
            },
            None,
        )
    } else if cur is Some && !(line.len() > 0 && line[0] == ' ') && t.len() > 0 && !starts_with(t, format_word()) {
        (m, None)
    } else {
        (m, cur)
    }
}

pub open spec fn styles_scan_lines(
    state: (Map<Seq<char>, AmountStyleSpec>, Option<Seq<char>>),
    ls: Seq<Seq<char>>,
) -> (Map<Seq<char>, AmountStyleSpec>, Option<Seq<char>>)
    decreases ls.len(),
{
    if ls.len() == 0 {
        state
    } else {
        styles_scan_lines(styles_step(state, ls[0]), ls.skip(1))
    }
}

/// The scan over the lines of the files in order; an open block carries on
/// into the next file.
pub open spec fn styles_scan_files(
    state: (Map<Seq<char>, AmountStyleSpec>, Option<Seq<char>>),
    contents: Seq<Seq<char>>,
) -> (Map<Seq<char>, AmountStyleSpec>, Option<Seq<char>>)
    decreases contents.len(),
{
    if contents.len() == 0 {
        state
    } else {
        styles_scan_files(styles_scan_lines(state, lines(contents[0])), contents.skip(1))
    }
}

/// The per-commodity styles declared by `commodity` blocks with a `format`
/// line in the journal files.
pub open spec fn spec_parse_commodity_styles(contents: Seq<Seq<char>>) -> Map<Seq<char>, AmountStyleSpec> {
    styles_scan_files((Map::empty(), None), contents).0
}

pub open spec fn opt_view(o: Option<Vec<char>>) -> Option<Seq<char>> {
    match o {
        Some(v) => Some(v@),
        None => None,
    }
}

fn styles_step_exec(
    table: &mut CommodityStyles,
    cur: Option<Vec<char>>,
    line: &Vec<char>,
    ckw: &Vec<char>,
    fkw: &Vec<char>,
    fword: &Vec<char>,
) -> (r: Option<Vec<char>>)
    requires
        ckw@ == commodity_kw(),
        fkw@ == format_kw(),
        fword@ == format_word(),
    ensures
        (final(table).as_map(), opt_view(r)) == styles_step((old(table).as_map(), opt_view(cur)), line@),
{
    let t = trim_of(line);
    if crate::text::starts_with_chars(&t, ckw) {
        let rest = slice_of(&t, ckw.len(), t.len());
        assert(rest@ =~= t@.skip(commodity_kw().len() as int));
        let sample = trim_of(&rest);
        return Some(extract_commodity_symbol_chars(&sample));
    }
    if crate::text::starts_with_chars(&t, fkw) {
        let rest = slice_of(&t, fkw.len(), t.len());
        assert(rest@ =~= t@.skip(format_kw().len() as int));
        let fmt = trim_of(&rest);
        let fs = string_of(&fmt);
        match cur {
            Some(c) => {
                match parse_format_directive(fs.as_str()) {
                    Some(style) => {
                        let ghost before = table.as_map();
                        let ghost sv = style@;
                        table.insert(string_of(&c), style);
                        proof {
                            assert(table.as_map() =~= before.insert(c@, sv));
                        }
                    },
                    None => {},
                }
            },
            None => {},
        }
        return None;
    }
    if cur.is_some() && !(line.len() > 0 && line[0] == ' ') && t.len() > 0
        && !crate::text::starts_with_chars(&t, fword) {
        return None;
    }
    cur
}

/// The per-commodity display styles of all `commodity`/`format` directives.
pub fn parse_commodity_styles(files: &Vec<JournalFile>) -> (r: CommodityStyles)
    ensures
        r.as_map() == spec_parse_commodity_styles(file_contents(files@)),
{
    let ghost fc = file_contents(files@);
    let ckw = keyword("commodity ");
    let fkw = keyword("format ");
    let fword = keyword("format");
    let mut table = CommodityStyles::new();
    let mut cur: Option<Vec<char>> = None;
    assert(table.as_map() =~= Map::empty());
    assert(fc.skip(0) =~= fc);
    let mut i: usize = 0;
    while i < files.len()
        invariant
            0 <= i <= files.len(),
            fc == file_contents(files@),
            ckw@ == commodity_kw(),
            fkw@ == format_kw(),
            fword@ == format_word(),
            styles_scan_files((Map::empty(), None), fc)
                == styles_scan_files((table.as_map(), opt_view(cur)), fc.skip(i as int)),
        decreases files.len() - i,
    {
        let c = to_chars(files[i].content.as_str());
        let ls = lines_of(&c);
        let ghost lv = views(ls@);
        proof {
            assert(fc.skip(i as int)[0] == files@[i as int].content@);
            assert(fc.skip(i as int).skip(1) =~= fc.skip(i + 1));
            assert(lv.skip(0) =~= lv);
        }
        let ghost rest_files = fc.skip(i + 1);
        let mut j: usize = 0;
        while j < ls.len()
            invariant
                0 <= j <= ls.len(),
                lv == views(ls@),
                ckw@ == commodity_kw(),
                fkw@ == format_kw(),
                fword@ == format_word(),
                styles_scan_files((Map::empty(), None), fc)
                    == styles_scan_files(styles_scan_lines((table.as_map(), opt_view(cur)), lv.skip(j as int)), rest_files),
            decreases ls.len() - j,
        {
            proof {
                assert(lv.skip(j as int)[0] == ls@[j as int]@);
                assert(lv.skip(j as int).skip(1) =~= lv.skip(j + 1));
            }
            cur = styles_step_exec(&mut table, cur, &ls[j], &ckw, &fkw, &fword);
            j += 1;
        }
        assert(lv.skip(j as int) =~= seq![]);
        i += 1;
    }
    assert(fc.skip(i as int) =~= seq![]);
    table
}

/// The style the table declares for a commodity, if any.
pub fn explicit_style_for_commodity(styles: &CommodityStyles, commodity: &str) -> (r: Option<AmountStyle>)
    ensures
        match r {
            Some(s) => styles.has(commodity@) && s@ == styles.style_of(commodity@)@,
            None => !styles.has(commodity@),
        },
{
    styles.get(commodity)
}

/// The style for a commodity: its declared style, else the journal's
/// amount style.
pub fn style_for_commodity(styles: &CommodityStyles, amount_style: &AmountStyle, commodity: &str) -> (r: AmountStyle)
    ensures
        r@ == (if styles.has(commodity@) { styles.style_of(commodity@)@ } else { amount_style@ }),
{
    match styles.get(commodity) {
        Some(s) => s,
        None => amount_style.duplicate(),
    }
}

} // verus!

verus! {

/// Common display symbols of ISO 4217 currency codes, matched without
/// regard to ASCII case.
pub open spec fn iso_symbol(code: Seq<char>) -> Option<Seq<char>> {
    if eq_ignore_ascii_case("EUR"@, code) {
        Some("\u{20AC}"@)
    } else if eq_ignore_ascii_case("USD"@, code) {
        Some("$"@)
    } else if eq_ignore_ascii_case("GBP"@, code) {
        Some("\u{00A3}"@)
    } else if eq_ignore_ascii_case("JPY"@, code) {
        Some("\u{00A5}"@)
    } else if eq_ignore_ascii_case("CHF"@, code) {
        Some("CHF"@)
    } else if eq_ignore_ascii_case("CAD"@, code) {
        Some("CA$"@)
    } else if eq_ignore_ascii_case("AUD"@, code) {
        Some("A$"@)
    } else if eq_ignore_ascii_case("NZD"@, code) {
        Some("NZ$"@)
    } else if eq_ignore_ascii_case("CNY"@, code) {
        Some("\u{00A5}"@)
    } else if eq_ignore_ascii_case("HKD"@, code) {
        Some("HK$"@)
    } else if eq_ignore_ascii_case("SGD"@, code) {
        Some("S$"@)
    } else if eq_ignore_ascii_case("SEK"@, code) {
        Some("kr"@)
    } else if eq_ignore_ascii_case("NOK"@, code) {
        Some("kr"@)
    } else if eq_ignore_ascii_case("DKK"@, code) {
        Some("kr"@)
    } else if eq_ignore_ascii_case("INR"@, code) {
        Some("\u{20B9}"@)
    } else if eq_ignore_ascii_case("RUB"@, code) {
        Some("\u{20BD}"@)
    } else if eq_ignore_ascii_case("BRL"@, code) {
        Some("R$"@)
    } else if eq_ignore_ascii_case("ZAR"@, code) {
        Some("R"@)
    } else if eq_ignore_ascii_case("TRY"@, code) {
        Some("\u{20BA}"@)
    } else if eq_ignore_ascii_case("KRW"@, code) {
        Some("\u{20A9}"@)
    } else if eq_ignore_ascii_case("PLN"@, code) {
        Some("z\u{0142}"@)
    } else if eq_ignore_ascii_case("THB"@, code) {
        Some("\u{0E3F}"@)
    } else if eq_ignore_ascii_case("MXN"@, code) {
        Some("MX$"@)
    } else if eq_ignore_ascii_case("ILS"@, code) {
        Some("\u{20AA}"@)
    } else if eq_ignore_ascii_case("PHP"@, code) {
        Some("\u{20B1}"@)
    } else if eq_ignore_ascii_case("CZK"@, code) {
        Some("K\u{010D}"@)
    } else if eq_ignore_ascii_case("HUF"@, code) {
        Some("Ft"@)
    } else if eq_ignore_ascii_case("RON"@, code) {
        Some("lei"@)
    } else if eq_ignore_ascii_case("IDR"@, code) {
        Some("Rp"@)
    } else if eq_ignore_ascii_case("MYR"@, code) {
        Some("RM"@)
    } else if eq_ignore_ascii_case("NGN"@, code) {
        Some("\u{20A6}"@)
    } else {
        None
    }
}

pub open spec fn opt_string_view(o: Option<String>) -> Option<Seq<char>> {
    match o {
        Some(v) => Some(v@),
        None => None,
    }
}

fn code_is(code: &Vec<char>, lit: &str) -> (r: bool)
    ensures
        r == eq_ignore_ascii_case(lit@, code@),
{
    let l = to_chars(lit);
    eq_ignore_ascii_case_of(&l, code)
}

fn iso_symbol_of(code: &Vec<char>) -> (r: Option<String>)
    ensures
        opt_string_view(r) == iso_symbol(code@),
{
    if code_is(code, "EUR") {
        Some("\u{20AC}".to_owned())
    } else if code_is(code, "USD") {
        Some("$".to_owned())
    } else if code_is(code, "GBP") {
        Some("\u{00A3}".to_owned())
    } else if code_is(code, "JPY") {
        Some("\u{00A5}".to_owned())
    } else if code_is(code, "CHF") {
        Some("CHF".to_owned())
    } else if code_is(code, "CAD") {
        Some("CA$".to_owned())
    } else if code_is(code, "AUD") {
        Some("A$".to_owned())
    } else if code_is(code, "NZD") {
        Some("NZ$".to_owned())
    } else if code_is(code, "CNY") {
        Some("\u{00A5}".to_owned())
    } else if code_is(code, "HKD") {
        Some("HK$".to_owned())
    } else if code_is(code, "SGD") {
        Some("S$".to_owned())
    } else if code_is(code, "SEK") {
        Some("kr".to_owned())
    } else if code_is(code, "NOK") {
        Some("kr".to_owned())
    } else if code_is(code, "DKK") {
        Some("kr".to_owned())
    } else if code_is(code, "INR") {
        Some("\u{20B9}".to_owned())
    } else if code_is(code, "RUB") {
        Some("\u{20BD}".to_owned())
    } else if code_is(code, "BRL") {
        Some("R$".to_owned())
    } else if code_is(code, "ZAR") {
        Some("R".to_owned())
    } else if code_is(code, "TRY") {
        Some("\u{20BA}".to_owned())
    } else if code_is(code, "KRW") {
        Some("\u{20A9}".to_owned())
    } else if code_is(code, "PLN") {
        Some("z\u{0142}".to_owned())
    } else if code_is(code, "THB") {
        Some("\u{0E3F}".to_owned())
    } else if code_is(code, "MXN") {
        Some("MX$".to_owned())
    } else if code_is(code, "ILS") {
        Some("\u{20AA}".to_owned())
    } else if code_is(code, "PHP") {
        Some("\u{20B1}".to_owned())
    } else if code_is(code, "CZK") {
        Some("K\u{010D}".to_owned())
    } else if code_is(code, "HUF") {
        Some("Ft".to_owned())
    } else if code_is(code, "RON") {
        Some("lei".to_owned())
    } else if code_is(code, "IDR") {
        Some("Rp".to_owned())
    } else if code_is(code, "MYR") {
        Some("RM".to_owned())
    } else if code_is(code, "NGN") {
        Some("\u{20A6}".to_owned())
    } else {
        None
    }
}

/// How a currency code is shown: as is when the journal declares a
/// commodity of that name, else by its common symbol, else as is.
pub open spec fn spec_resolve_currency_display(styles: CommodityStyles, iso_code: Seq<char>) -> Seq<char> {
    if styles.has(iso_code) {
        iso_code
    } else {
        match iso_symbol(iso_code) {
            Some(s) => s,
            None => iso_code,
        }
    }
}

/// Resolves a currency code to the journal's preferred display symbol.
pub fn resolve_currency_display(styles: &CommodityStyles, iso_code: &str) -> (r: String)
    ensures
        r@ == spec_resolve_currency_display(*styles, iso_code@),
{
    if styles.contains_key(iso_code) {
        return iso_code.to_owned();
    }
    let c = to_chars(iso_code);
    match iso_symbol_of(&c) {
        Some(s) => s,
        None => iso_code.to_owned(),
    }
}

/// The style fields of an amount of hledger's JSON output, as plain values;
/// each is `None` where the output does not hold it as a value of its kind.
/// `digit_groups` holds each entry of the group-size list, `None` for one
/// that is not an unsigned integer.
pub struct HledgerStyleFields {
    pub decimal_mark: Option<String>,
    pub digit_separator: Option<String>,
    pub digit_groups: Option<Vec<Option<u64>>>,
    pub precision: Option<u64>,
    pub commodity_side: Option<String>,
    pub commodity_spaced: Option<bool>,
}

/// The commodity side that an hledger side name stands for: its lowercase
/// form starting with `r` is the right, with `l` the left.
pub open spec fn side_position(side: Seq<char>) -> Option<CommodityPosition> {
    let l = lowercase(side);
    if l.len() > 0 && l[0] == 'r' {
        Some(CommodityPosition::Right)
    } else if l.len() > 0 && l[0] == 'l' {
        Some(CommodityPosition::Left)
    } else {
        None
    }
}

/// The group sizes of the entries that are sizes, in order.
pub open spec fn present_groups(gs: Seq<Option<u64>>) -> Seq<usize>
    decreases gs.len(),
{
    if gs.len() == 0 {
        seq![]
    } else {
        let rest = present_groups(gs.drop_last());
        match gs.last() {
            Some(n) => rest.push(n as usize),
            None => rest,
        }
    }
}

/// The side of the commodity that an hledger side name gives, if any.
pub fn parse_hledger_commodity_position(side: &str) -> (r: Option<CommodityPosition>)
    ensures
        r == side_position(side@),
{
    let lower = to_chars(to_lower(side).as_str());
    if lower.len() > 0 && lower[0] == 'r' {
        Some(CommodityPosition::Right)
    } else if lower.len() > 0 && lower[0] == 'l' {
        Some(CommodityPosition::Left)
    } else {
        None
    }
}

fn present_group_sizes(gs: &Vec<Option<u64>>) -> (r: Vec<usize>)
    ensures
        r@ == present_groups(gs@),
{
    let mut r: Vec<usize> = Vec::new();
    let mut i: usize = 0;
    while i < gs.len()
        invariant
            i <= gs.len(),
            r@ == present_groups(gs@.take(i as int)),
        decreases gs.len() - i,
    {
        assert(gs@.take(i as int + 1).drop_last() =~= gs@.take(i as int));
        match gs[i] {
            Some(n) => r.push(n as usize),
            None => {},
        }
        i += 1;
    }
    assert(gs@.take(gs.len() as int) =~= gs@);
    r
}

impl AmountStyle {
    /// The display style of an amount of hledger's JSON output: `.` as the
    /// decimal mark, no separator or groups, precision 2, commodity on the
    /// left and unspaced, where the output says nothing else.
    pub fn from_hledger_json(fields: &HledgerStyleFields) -> (r: AmountStyle)
        ensures
            r.decimal_mark@ == (match fields.decimal_mark {
                Some(m) => m@,
                None => "."@,
            }),
            r.digit_separator@ == (match fields.digit_separator {
                Some(s) => s@,
                None => Seq::<char>::empty(),
            }),
            r.digit_groups@ == (match fields.digit_groups {
                Some(gs) => present_groups(gs@),
                None => Seq::<usize>::empty(),
            }),
            r.precision == (match fields.precision {
                Some(p) => p as usize,
                None => 2usize,
            }),
            r.commodity_position@ == (if fields.commodity_side matches Some(s) && side_position(s@) == Some(
                CommodityPosition::Right,
            ) {
                "right"@
            } else {
                "left"@
            }),
            r.commodity_spaced == (fields.commodity_spaced == Some(true)),
    {
        let decimal_mark = match &fields.decimal_mark {
            Some(m) => m.clone(),
            None => ".".to_string(),
        };
        let digit_separator = match &fields.digit_separator {
            Some(s) => s.clone(),
            None => String::new(),
        };
        let digit_groups = match &fields.digit_groups {
            Some(gs) => present_group_sizes(gs),
            None => Vec::new(),
        };
        let precision: usize = match fields.precision {
            Some(p) => p as usize,
            None => 2,
        };
        let right = match &fields.commodity_side {
            Some(s) => match parse_hledger_commodity_position(s.as_str()) {
                Some(CommodityPosition::Right) => true,
                _ => false,
            },
            None => false,
        };
        AmountStyle {
            decimal_mark,
            digit_separator,
            digit_groups,
            precision,
            commodity_position: if right { "right".to_string() } else { "left".to_string() },
            commodity_spaced: fields.commodity_spaced == Some(true),
        }
    }
}

} // verus!
