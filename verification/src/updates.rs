//! Release versions: reading version tags, ordering versions with their
//! pre-release parts, and picking the newest published release.

use vstd::prelude::*;
use std::cmp::Ordering;
use crate::journal::files::{split_on, split_on_chars};
use crate::journal::number::{digits_value, digits_value_of};
use crate::text::{char_pred, is_digit, string_of, to_chars, trim, trim_of, trim_start_char, trim_start_char_of, views};

verus! {

/// A version tag without surrounding whitespace and leading `v`s.
pub open spec fn spec_normalize_version_tag(value: Seq<char>) -> Seq<char> {
    trim_start_char(trim(value), 'v')
}

fn normalize_version_tag_chars(value: &Vec<char>) -> (r: Vec<char>)
    ensures
        r@ == spec_normalize_version_tag(value@),
{
    let t = trim_of(value);
    trim_start_char_of(&t, 'v')
}

/// Strips whitespace and a leading `v` from a release tag.
pub fn normalize_version_tag(value: &str) -> (r: String)
    ensures
        r@ == spec_normalize_version_tag(value@),
{
    let v = to_chars(value);
    string_of(&normalize_version_tag_chars(&v))
}

/// `str::parse::<u64>`: an optional `+`, then one or more digits whose value
/// fits in 64 bits.
pub open spec fn parse_u64(s: Seq<char>) -> Option<nat> {
    let d = unsigned_digits(s);
    if d.len() > 0 && all_digits(d) && digits_value(d) <= u64::MAX {
        Some(digits_value(d))
    } else {
        None
    }
}

/// The text after an optional leading `+`.
pub open spec fn unsigned_digits(s: Seq<char>) -> Seq<char> {
    if s.len() > 0 && s[0] == '+' { s.skip(1) } else { s }
}

pub open spec fn all_digits(d: Seq<char>) -> bool {
    forall|i: int| 0 <= i < d.len() ==> is_digit(#[trigger] d[i])
}

pub fn parse_u64_chars(s: &Vec<char>) -> (r: Option<u64>)
    ensures
        match r {
            Some(v) => parse_u64(s@) == Some(v as nat),
            None => parse_u64(s@).is_none(),
        },
{
    let d = if s.len() > 0 && s[0] == '+' {
        let d = crate::text::slice_of(s, 1, s.len());
        assert(d@ =~= s@.skip(1));
        d
    } else {
        let d = crate::text::slice_of(s, 0, s.len());
        assert(d@ =~= s@);
        d
    };
    assert(d@ == unsigned_digits(s@));
    if d.len() == 0 {
        return None;
    }
    let mut i: usize = 0;
    while i < d.len()
        invariant
            0 <= i <= d.len(),
            d@ == unsigned_digits(s@),
            forall|j: int| 0 <= j < i ==> is_digit(d@[j]),
        decreases d.len() - i,
    {
        if !crate::text::char_is_digit(d[i]) {
            assert(!is_digit(d@[i as int]));
            assert(!all_digits(d@));
            return None;
        }
        i += 1;
    }
    match digits_value_of(&d) {
        Some(v) => {
            if v <= 0xffff_ffff_ffff_ffffu128 {
                Some(v as u64)
            } else {
                None
            }
        },
        None => None,
    }
}

/// The numbers among the pieces, in order.
pub open spec fn parsed_numbers(parts: Seq<Seq<char>>) -> Seq<u64>
    decreases parts.len(),
{
    if parts.len() == 0 {
        seq![]
    } else {
        let r = parsed_numbers(parts.drop_last());
        match parse_u64(parts.last()) {
            Some(v) => r.push(v as u64),
            None => r,
        }
    }
}

/// The non-empty pieces, in order.
pub open spec fn non_empty_parts(parts: Seq<Seq<char>>) -> Seq<Seq<char>>
    decreases parts.len(),
{
    if parts.len() == 0 {
        seq![]
    } else {
        let r = non_empty_parts(parts.drop_last());
        if parts.last().len() > 0 { r.push(parts.last()) } else { r }
    }
}

/// A version: the numbers of its dotted core and the dotted identifiers of
/// its pre-release part (after the first `-`).
#[derive(Debug, Clone, PartialEq, Eq)]
pub struct ParsedVersion {
    pub core: Vec<u64>,
    pub prerelease: Vec<String>,
}

pub struct VersionSpec {
    pub core: Seq<u64>,
    pub prerelease: Seq<Seq<char>>,
}

impl View for ParsedVersion {
    type V = VersionSpec;

    open spec fn view(&self) -> VersionSpec {
        VersionSpec { core: self.core@, prerelease: crate::app_error::string_views(self.prerelease@) }
    }
}

/// The version written by a tag.
pub open spec fn parse_version(value: Seq<char>) -> VersionSpec {
    let n = spec_normalize_version_tag(value);
    let k = crate::text::first_match(n, char_pred('-'));
    let core = if k < 0 { n } else { n.take(k) };
    let pre = if k < 0 { seq![] } else { n.skip(k + 1) };
    VersionSpec { core: parsed_numbers(split_on(core, '.')), prerelease: non_empty_parts(split_on(pre, '.')) }
}

impl ParsedVersion {
    /// Reads a version tag.
    pub fn parse(value: &str) -> (r: ParsedVersion)
        ensures
            r@ == parse_version(value@),
    {
        let v = to_chars(value);
        let n = normalize_version_tag_chars(&v);
        proof {
            crate::text::lemma_first_match_props(n@, char_pred('-'));
        }
        let (core, pre) = match crate::text::find_char(&n, '-') {
            Some(k) => {
                let c = crate::text::slice_of(&n, 0, k);
                let p = crate::text::slice_of(&n, k + 1, n.len());
                assert(c@ =~= n@.take(k as int));
                assert(p@ =~= n@.skip(k + 1));
                (c, p)
            },
            None => (n, Vec::new()),
        };
        let core_parts = split_on_chars(&core, '.');
        let mut numbers: Vec<u64> = Vec::new();
        let mut i: usize = 0;
        while i < core_parts.len()
            invariant
                0 <= i <= core_parts.len(),
                numbers@ == parsed_numbers(views(core_parts@).take(i as int)),
            decreases core_parts.len() - i,
        {
            proof {
                assert(views(core_parts@).take(i + 1).drop_last() =~= views(core_parts@).take(i as int));
                assert(views(core_parts@).take(i + 1).last() == core_parts@[i as int]@);
            }
            match parse_u64_chars(&core_parts[i]) {
                Some(x) => numbers.push(x),
                None => {},
            }
            i += 1;
        }
        assert(views(core_parts@).take(core_parts.len() as int) =~= views(core_parts@));
        let pre_parts = split_on_chars(&pre, '.');
        let mut ids: Vec<String> = Vec::new();
        let mut j: usize = 0;
        while j < pre_parts.len()
            invariant
                0 <= j <= pre_parts.len(),
                crate::app_error::string_views(ids@) == non_empty_parts(views(pre_parts@).take(j as int)),
            decreases pre_parts.len() - j,
        {
            let ghost before = ids@;
            proof {
                assert(views(pre_parts@).take(j + 1).drop_last() =~= views(pre_parts@).take(j as int));
                assert(views(pre_parts@).take(j + 1).last() == pre_parts@[j as int]@);
            }
            if pre_parts[j].len() > 0 {
                ids.push(string_of(&pre_parts[j]));
                assert(crate::app_error::string_views(ids@) =~= crate::app_error::string_views(before).push(pre_parts@[j as int]@));
            }
            j += 1;
        }
        assert(views(pre_parts@).take(pre_parts.len() as int) =~= views(pre_parts@));
        ParsedVersion { core: numbers, prerelease: ids }
    }
}

/// The order of two core number lists from position `i`: missing numbers
/// count as 0. Negative, zero or positive as the left is older, equal or
/// newer.
pub open spec fn core_order(l: Seq<u64>, r: Seq<u64>, i: nat) -> int
    decreases (if l.len() > r.len() { l.len() } else { r.len() }) - i,
{
    if i >= l.len() && i >= r.len() {
        0
    } else {
        let a = if i < l.len() { l[i as int] } else { 0 };
        let b = if i < r.len() { r[i as int] } else { 0 };
        if a < b {
            -1
        } else if a > b {
            1
        } else {
            core_order(l, r, i + 1)
        }
    }
}

/// The order of two texts by their characters (as `str` orders them).
pub open spec fn text_order(a: Seq<char>, b: Seq<char>, i: nat) -> int
    decreases (if a.len() > b.len() { a.len() } else { b.len() }) - i,
{
    if i >= a.len() && i >= b.len() {
        0
    } else if i >= a.len() {
        -1
    } else if i >= b.len() {
        1
    } else if a[i as int] < b[i as int] {
        -1
    } else if a[i as int] > b[i as int] {
        1
    } else {
        text_order(a, b, i + 1)
    }
}

/// The order of two pre-release identifiers: numbers by value and before
/// words, words by their text.
pub open spec fn identifier_order(a: Seq<char>, b: Seq<char>) -> int {
    match (parse_u64(a), parse_u64(b)) {
        (Some(x), Some(y)) => if x < y { -1 } else if x > y { 1 } else { 0 },
        (Some(_), None) => -1,
        (None, Some(_)) => 1,
        (None, None) => text_order(a, b, 0),
    }
}

/// The order of two pre-release identifier lists from position `i`; a list
/// that ends first is the older.
pub open spec fn prerelease_order(l: Seq<Seq<char>>, r: Seq<Seq<char>>, i: nat) -> int
    decreases (if l.len() > r.len() { l.len() } else { r.len() }) - i,
{
    if i >= l.len() && i >= r.len() {
        0
    } else if i >= l.len() {
        -1
    } else if i >= r.len() {
        1
    } else {
        let o = identifier_order(l[i as int], r[i as int]);
        if o != 0 { o } else { prerelease_order(l, r, i + 1) }
    }
}

/// The order of two versions: by core numbers, then a version without a
/// pre-release part is newer than one with, then by pre-release parts.
pub open spec fn version_order(a: VersionSpec, b: VersionSpec) -> int {
    let c = core_order(a.core, b.core, 0);
    if c != 0 {
        c
    } else if a.prerelease.len() == 0 && b.prerelease.len() == 0 {
        0
    } else if a.prerelease.len() == 0 {
        1
    } else if b.prerelease.len() == 0 {
        -1
    } else {
        prerelease_order(a.prerelease, b.prerelease, 0)
    }
}

/// The order of two version tags.
pub open spec fn tag_order(a: Seq<char>, b: Seq<char>) -> int {
    version_order(parse_version(a), parse_version(b))
}

pub open spec fn ordering_of(o: int) -> Ordering {
    if o < 0 { Ordering::Less } else if o > 0 { Ordering::Greater } else { Ordering::Equal }
}

fn core_order_of(l: &Vec<u64>, r: &Vec<u64>) -> (o: i8)
    ensures
        o as int == core_order(l@, r@, 0),
{
    let n = if l.len() > r.len() { l.len() } else { r.len() };
    let mut i: usize = 0;
    while i < n
        invariant
            n == (if l.len() > r.len() { l.len() } else { r.len() }),
            0 <= i <= n,
            core_order(l@, r@, 0) == core_order(l@, r@, i as nat),
        decreases n - i,
    {
        let a = if i < l.len() { l[i] } else { 0 };
        let b = if i < r.len() { r[i] } else { 0 };
        if a < b {
            return -1;
        }
        if a > b {
            return 1;
        }
        i += 1;
    }
    0
}

pub fn text_order_of(a: &Vec<char>, b: &Vec<char>) -> (o: i8)
    ensures
        o as int == text_order(a@, b@, 0),
{
    let n = if a.len() > b.len() { a.len() } else { b.len() };
    let mut i: usize = 0;
    while i < n
        invariant
            n == (if a.len() > b.len() { a.len() } else { b.len() }),
            0 <= i <= n,
            text_order(a@, b@, 0) == text_order(a@, b@, i as nat),
        decreases n - i,
    {
        if i >= a.len() {
            return -1;
        }
        if i >= b.len() {
            return 1;
        }
        let x = a[i];
        let y = b[i];
        if x < y {
            return -1;
        }
        if x > y {
            return 1;
        }
        i += 1;
    }
    0
}

fn identifier_order_of(a: &String, b: &String) -> (o: i8)
    ensures
        o as int == identifier_order(a@, b@),
{
    let ac = to_chars(a.as_str());
    let bc = to_chars(b.as_str());
    match (parse_u64_chars(&ac), parse_u64_chars(&bc)) {
        (Some(x), Some(y)) => if x < y { -1 } else if x > y { 1 } else { 0 },
        (Some(_), None) => -1,
        (None, Some(_)) => 1,
        (None, None) => text_order_of(&ac, &bc),
    }
}

fn prerelease_order_of(l: &Vec<String>, r: &Vec<String>) -> (o: i8)
    ensures
        o as int == prerelease_order(crate::app_error::string_views(l@), crate::app_error::string_views(r@), 0),
{
    let ghost lv = crate::app_error::string_views(l@);
    let ghost rv = crate::app_error::string_views(r@);
    let n = if l.len() > r.len() { l.len() } else { r.len() };
    let mut i: usize = 0;
    while i < n
        invariant
            lv == crate::app_error::string_views(l@),
            rv == crate::app_error::string_views(r@),
            n == (if l.len() > r.len() { l.len() } else { r.len() }),
            0 <= i <= n,
            prerelease_order(lv, rv, 0) == prerelease_order(lv, rv, i as nat),
        decreases n - i,
    {
        if i >= l.len() {
            return -1;
        }
        if i >= r.len() {
            return 1;
        }
        assert(lv[i as int] == l@[i as int]@);
        assert(rv[i as int] == r@[i as int]@);
        let o = identifier_order_of(&l[i], &r[i]);
        if o != 0 {
            return o;
        }
        i += 1;
    }
    0
}

fn version_order_of(a: &ParsedVersion, b: &ParsedVersion) -> (o: i8)
    ensures
        o as int == version_order(a@, b@),
{
    let c = core_order_of(&a.core, &b.core);
    if c != 0 {
        c
    } else if a.prerelease.len() == 0 && b.prerelease.len() == 0 {
        0
    } else if a.prerelease.len() == 0 {
        1
    } else if b.prerelease.len() == 0 {
        -1
    } else {
        prerelease_order_of(&a.prerelease, &b.prerelease)
    }
}

pub open spec fn ordering_of_i8(o: i8) -> Ordering {
    if o < 0 { Ordering::Less } else if o > 0 { Ordering::Greater } else { Ordering::Equal }
}

fn to_ordering(o: i8) -> (r: Ordering)
    ensures
        r == ordering_of_i8(o),
{
    if o < 0 {
        Ordering::Less
    } else if o > 0 {
        Ordering::Greater
    } else {
        Ordering::Equal
    }
}

impl ParsedVersion {
    /// Orders two versions.
    pub fn compare(&self, other: &Self) -> (r: Ordering)
        ensures
            r == ordering_of(version_order(self@, other@)),
    {
        to_ordering(version_order_of(self, other))
    }
}

/// Orders two version tags.
pub fn compare_versions(left: &str, right: &str) -> (r: Ordering)
    ensures
        r == ordering_of(tag_order(left@, right@)),
{
    let l = ParsedVersion::parse(left);
    let r = ParsedVersion::parse(right);
    l.compare(&r)
}

/// Orders two lists of pre-release identifiers.
pub fn compare_prerelease(left: &Vec<String>, right: &Vec<String>) -> (r: Ordering)
    ensures
        r == ordering_of(prerelease_order(crate::app_error::string_views(left@), crate::app_error::string_views(right@), 0)),
{
    to_ordering(prerelease_order_of(left, right))
}

/// Whether the first version tag is newer than the second.
pub fn version_is_newer(latest: &str, current: &str) -> (r: bool)
    ensures
        r == (tag_order(latest@, current@) > 0),
{
    let l = ParsedVersion::parse(latest);
    let c = ParsedVersion::parse(current);
    version_order_of(&l, &c) > 0
}


proof fn lemma_core_order_antisymmetric(l: Seq<u64>, r: Seq<u64>, i: nat)
    ensures
        core_order(l, r, i) == -core_order(r, l, i),
    decreases (if l.len() > r.len() { l.len() } else { r.len() }) - i,
{
    if !(i >= l.len() && i >= r.len()) {
        lemma_core_order_antisymmetric(l, r, i + 1);
    }
}

proof fn lemma_text_order_antisymmetric(a: Seq<char>, b: Seq<char>, i: nat)
    ensures
        text_order(a, b, i) == -text_order(b, a, i),
    decreases (if a.len() > b.len() { a.len() } else { b.len() }) - i,
{
    if i < a.len() && i < b.len() {
        lemma_text_order_antisymmetric(a, b, i + 1);
    }
}

proof fn lemma_prerelease_order_antisymmetric(l: Seq<Seq<char>>, r: Seq<Seq<char>>, i: nat)
    ensures
        prerelease_order(l, r, i) == -prerelease_order(r, l, i),
    decreases (if l.len() > r.len() { l.len() } else { r.len() }) - i,
{
    if i < l.len() && i < r.len() {
        lemma_text_order_antisymmetric(l[i as int], r[i as int], 0);
        lemma_prerelease_order_antisymmetric(l, r, i + 1);
    }
}

proof fn lemma_core_order_reflexive(l: Seq<u64>, i: nat)
    ensures
        core_order(l, l, i) == 0,
    decreases l.len() - i,
{
    if i < l.len() {
        lemma_core_order_reflexive(l, i + 1);
    }
}

proof fn lemma_text_order_reflexive(a: Seq<char>, i: nat)
    ensures
        text_order(a, a, i) == 0,
    decreases a.len() - i,
{
    if i < a.len() {
        lemma_text_order_reflexive(a, i + 1);
    }
}

proof fn lemma_prerelease_order_reflexive(l: Seq<Seq<char>>, i: nat)
    ensures
        prerelease_order(l, l, i) == 0,
    decreases l.len() - i,
{
    if i < l.len() {
        lemma_text_order_reflexive(l[i as int], 0);
        lemma_prerelease_order_reflexive(l, i + 1);
    }
}

/// The order of parsed versions is antisymmetric: comparing two versions
/// the other way round gives the opposite order.
pub proof fn law_version_order_antisymmetric(a: VersionSpec, b: VersionSpec)
    ensures
        version_order(a, b) == -version_order(b, a),
{
    lemma_core_order_antisymmetric(a.core, b.core, 0);
    lemma_prerelease_order_antisymmetric(a.prerelease, b.prerelease, 0);
}

/// Every parsed version is in the same place of the order as itself.
pub proof fn law_version_order_reflexive(a: VersionSpec)
    ensures
        version_order(a, a) == 0,
{
    lemma_core_order_reflexive(a.core, 0);
    lemma_prerelease_order_reflexive(a.prerelease, 0);
}

/// Comparing two versions the other way round gives the opposite order:
/// one is newer than the other exactly when the other is older.
pub proof fn law_compare_versions_antisymmetric(left: Seq<char>, right: Seq<char>)
    ensures
        tag_order(left, right) == -tag_order(right, left),
{
    let a = parse_version(left);
    let b = parse_version(right);
    lemma_core_order_antisymmetric(a.core, b.core, 0);
    lemma_prerelease_order_antisymmetric(a.prerelease, b.prerelease, 0);
}

/// A version is equal to itself, so it is never newer than itself.
pub proof fn law_version_equals_itself(tag: Seq<char>)
    ensures
        tag_order(tag, tag) == 0,
{
    let a = parse_version(tag);
    lemma_core_order_reflexive(a.core, 0);
    lemma_prerelease_order_reflexive(a.prerelease, 0);
}


/// A release as the release list reports it.
#[derive(Debug, Clone, PartialEq, Eq)]
pub struct GitHubRelease {
    pub tag_name: String,
    pub name: Option<String>,
    pub html_url: String,
    pub published_at: Option<String>,
    pub draft: bool,
}

/// A published release newer than the running version.
pub open spec fn is_update_candidate(r: GitHubRelease, current_version: Seq<char>) -> bool {
    !r.draft && tag_order(spec_normalize_version_tag(r.tag_name@), current_version) > 0
}

/// Index of the newest candidate among the first `n` releases, or -1: each
/// candidate replaces the one kept so far unless the kept one is newer, so
/// the last of equal newest versions wins.
pub open spec fn newest_candidate(rs: Seq<GitHubRelease>, current_version: Seq<char>, n: nat) -> int
    decreases n,
{
    if n == 0 {
        -1
    } else {
        let k = newest_candidate(rs, current_version, (n - 1) as nat);
        let x = rs[n - 1];
        if !is_update_candidate(x, current_version) {
            k
        } else if k < 0 {
            n - 1
        } else if tag_order(spec_normalize_version_tag(rs[k].tag_name@), spec_normalize_version_tag(x.tag_name@)) > 0 {
            k
        } else {
            n - 1
        }
    }
}

/// The position of the newest published release that is newer than the
/// running version, if any.
pub fn newest_release_index(releases: &Vec<GitHubRelease>, current_version: &str) -> (r: Option<usize>)
    ensures
        match r {
            Some(i) => newest_candidate(releases@, current_version@, releases.len() as nat) == i,
            None => newest_candidate(releases@, current_version@, releases.len() as nat) == -1,
        },
{
    let mut best: Option<usize> = None;
    let mut i: usize = 0;
    while i < releases.len()
        invariant
            0 <= i <= releases.len(),
            match best {
                Some(k) => newest_candidate(releases@, current_version@, i as nat) == k && k < i,
                None => newest_candidate(releases@, current_version@, i as nat) == -1,
            },
        decreases releases.len() - i,
    {
        let x = &releases[i];
        let tag = normalize_version_tag(x.tag_name.as_str());
        let candidate = !x.draft && version_is_newer(tag.as_str(), current_version);
        if candidate {
            match best {
                None => {
                    best = Some(i);
                },
                Some(k) => {
                    let kept = normalize_version_tag(releases[k].tag_name.as_str());
                    let kv = ParsedVersion::parse(kept.as_str());
                    let tv = ParsedVersion::parse(tag.as_str());
                    if !(version_order_of(&kv, &tv) > 0) {
                        best = Some(i);
                    }
                },
            }
        }
        i += 1;
    }
    best
}


/// Two texts in the same place of the character order are equal.
pub proof fn lemma_text_order_zero(a: Seq<char>, b: Seq<char>, i: nat)
    requires
        i <= a.len(),
        i <= b.len(),
        a.take(i as int) == b.take(i as int),
        text_order(a, b, i) == 0,
    ensures
        a == b,
    decreases (if a.len() > b.len() { a.len() } else { b.len() }) - i,
{
    if i >= a.len() && i >= b.len() {
        assert(a =~= a.take(i as int));
        assert(b =~= b.take(i as int));
    } else {
        assert(i < a.len() && i < b.len());
        assert(a[i as int] == b[i as int]);
        assert(a.take(i as int + 1) =~= a.take(i as int).push(a[i as int]));
        assert(b.take(i as int + 1) =~= b.take(i as int).push(b[i as int]));
        lemma_text_order_zero(a, b, i + 1);
    }
}

/// The character order is transitive.
pub proof fn lemma_text_order_transitive(a: Seq<char>, b: Seq<char>, c: Seq<char>, i: nat)
    requires
        text_order(a, b, i) <= 0,
        text_order(b, c, i) <= 0,
    ensures
        text_order(a, c, i) <= 0,
        text_order(a, b, i) < 0 || text_order(b, c, i) < 0 ==> text_order(a, c, i) < 0,
    decreases (if a.len() > b.len() { a.len() } else { b.len() }) + (if b.len() > c.len() { b.len() } else { c.len() })
        + (if a.len() > c.len() { a.len() } else { c.len() }) - 3 * i,
{
    if i < a.len() && i < b.len() && i < c.len() {
        let x = a[i as int];
        let y = b[i as int];
        let z = c[i as int];
        if x == y && y == z {
            lemma_text_order_transitive(a, b, c, i + 1);
            assert(text_order(a, b, i) == text_order(a, b, i + 1));
            assert(text_order(b, c, i) == text_order(b, c, i + 1));
            assert(text_order(a, c, i) == text_order(a, c, i + 1));
        } else {
            assert(x <= y);
            assert(y <= z);
            assert(x < z);
            assert(text_order(a, c, i) == -1);
        }
    } else if i >= a.len() && i >= b.len() && i >= c.len() {
    } else if i >= a.len() {
        if i >= c.len() {
            assert(i < b.len());
            assert(text_order(b, c, i) == 1);
        }
    } else if i >= b.len() {
        assert(text_order(a, b, i) == 1);
    } else {
        assert(i >= c.len());
        assert(text_order(b, c, i) == 1);
    }
}

/// The character order on texts is antisymmetric.
pub proof fn lemma_text_order_flip(a: Seq<char>, b: Seq<char>)
    ensures
        text_order(a, b, 0) == -text_order(b, a, 0),
{
    lemma_text_order_antisymmetric(a, b, 0);
}


/// Every text is in the same place of the character order as itself.
pub proof fn lemma_text_order_reflexive_pub(a: Seq<char>)
    ensures
        text_order(a, a, 0) == 0,
{
    lemma_text_order_reflexive(a, 0);
}


/// Texts in the same place of the character order are equal.
pub proof fn lemma_text_order_eq(a: Seq<char>, b: Seq<char>)
    requires
        text_order(a, b, 0) == 0,
    ensures
        a == b,
{
    assert(a.take(0) =~= b.take(0));
    lemma_text_order_zero(a, b, 0);
}


proof fn lemma_core_order_zero_pad(l: Seq<u64>, z: Seq<u64>, i: nat)
    requires
        forall|j: int| 0 <= j < z.len() ==> #[trigger] z[j] == 0,
    ensures
        core_order(l, l + z, i) == 0,
    decreases (l + z).len() - i,
{
    let r = l + z;
    if i < r.len() {
        if i < l.len() {
            assert(r[i as int] == l[i as int]);
        } else {
            assert(r[i as int] == z[i - l.len()]);
        }
        lemma_core_order_zero_pad(l, z, i + 1);
    }
}

/// Missing parts of a version's core count as zero: a version and the same
/// version with zero parts added at the end (`1.2` and `1.2.0`) are in the
/// same place of the order.
pub proof fn law_missing_core_parts_are_zero(a: VersionSpec, z: Seq<u64>)
    requires
        forall|j: int| 0 <= j < z.len() ==> #[trigger] z[j] == 0,
    ensures
        version_order(a, VersionSpec { core: a.core + z, prerelease: a.prerelease }) == 0,
{
    lemma_core_order_zero_pad(a.core, z, 0);
    lemma_prerelease_order_reflexive(a.prerelease, 0);
}
} // verus!
