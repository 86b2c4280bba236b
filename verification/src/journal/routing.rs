//! Where a new transaction goes in a journal split into files: by year
//! directories included with a glob (`inclusion 2024/*.journal`), by month files
//! included one by one (`inclusion 2024-05.journal`), or the main file.

use vstd::prelude::*;
use crate::app_error::string_views;
use crate::journal::files::{parse_include_directive, spec_parse_include_directive, split_on, split_on_chars};
use crate::journal::types::{RoutingStrategy, TransactionInput};
use crate::updates::{lemma_text_order_flip, lemma_text_order_transitive, text_order, text_order_of};
use crate::journal::edit::{is_plain_line, lemma_lines_of_joined};
use crate::text::{
    byte_len, byte_len_of, char_is_digit, ends_with, join_lines, ends_with_str, is_digit, lines, lines_of, push_all, push_str,
    slice_of, string_of, to_chars, trim_end_char, views, char_pred, last_match,
};

verus! {

/// A path piece that names a year: four ASCII digits.
pub open spec fn is_year_part(p: Seq<char>) -> bool {
    p.len() == 4 && forall|i: int| 0 <= i < 4 ==> is_digit(#[trigger] p[i])
}

fn is_year_part_of(p: &Vec<char>) -> (r: bool)
    ensures
        r == is_year_part(p@),
{
    if p.len() != 4 {
        return false;
    }
    let mut i: usize = 0;
    while i < 4
        invariant
            p.len() == 4,
            0 <= i <= 4,
            forall|k: int| 0 <= k < i ==> is_digit(#[trigger] p@[k]),
        decreases 4 - i,
    {
        if !char_is_digit(p[i]) {
            return false;
        }
        i += 1;
    }
    true
}

/// The last piece of `parts` that names a year.
pub open spec fn last_year_part(parts: Seq<Seq<char>>) -> Option<Seq<char>>
    decreases parts.len(),
{
    if parts.len() == 0 {
        None
    } else if is_year_part(parts.last()) {
        Some(parts.last())
    } else {
        last_year_part(parts.drop_last())
    }
}

/// The year of a glob inclusion such as `journals/2024/*.journal`: the last
/// year directory before a final `*.journal`.
pub open spec fn spec_glob_include_year(inc: Seq<char>) -> Option<Seq<char>> {
    let parts = split_on(inc, '/');
    if parts.last() != "*.journal"@ {
        None
    } else {
        last_year_part(parts.drop_last())
    }
}

/// The year directory that a glob inclusion names.
pub fn glob_include_year(inc: &str) -> (r: Option<String>)
    ensures
        match spec_glob_include_year(inc@) {
            Some(y) => r matches Some(x) && x@ == y,
            None => r is None,
        },
{
    let parts = split_on_chars(&to_chars(inc), '/');
    proof {
        crate::journal::files::lemma_split_on_len(inc@, '/');
    }
    let last = parts.len() - 1;
    let star = to_chars("*.journal");
    if !crate::text::chars_eq(&parts[last], &star) {
        return None;
    }
    assert(views(parts@).last() == parts@[last as int]@);
    let mut i: usize = last;
    while i > 0
        invariant
            0 <= i <= last,
            last == parts.len() - 1,
            views(parts@) == split_on(inc@, '/'),
            views(parts@).last() == "*.journal"@,
            last_year_part(views(parts@).drop_last()) == last_year_part(views(parts@).take(i as int)),
        decreases i,
    {
        let ghost pre = views(parts@).take(i as int);
        assert(pre.last() == parts@[i - 1]@);
        assert(pre.drop_last() =~= views(parts@).take(i - 1));
        if is_year_part_of(&parts[i - 1]) {
            assert(last_year_part(pre) == Some(pre.last()));
            return Some(string_of(&parts[i - 1]));
        }
        i -= 1;
    }
    assert(views(parts@).take(0) =~= Seq::<Seq<char>>::empty());
    None
}

/// A line that includes a year directory with a glob: its inclusion path.
pub open spec fn spec_parse_glob_include(line: Seq<char>) -> Option<Seq<char>> {
    match spec_parse_include_directive(line) {
        Some(inc) => if ends_with(inc, "/*.journal"@) && spec_glob_include_year(inc) is Some {
            Some(inc)
        } else {
            None
        },
        None => None,
    }
}

/// The inclusion path of a line such as `inclusion 2024/*.journal`.
pub fn parse_glob_include(line: &str) -> (r: Option<String>)
    ensures
        match spec_parse_glob_include(line@) {
            Some(inc) => r matches Some(x) && x@ == inc,
            None => r is None,
        },
{
    let inc = match parse_include_directive(line) {
        Some(i) => i,
        None => return None,
    };
    let ic = to_chars(inc.as_str());
    if ends_with_str(&ic, "/*.journal") && glob_include_year(inc.as_str()).is_some() {
        Some(inc)
    } else {
        None
    }
}

/// A file name of the form `YYYY-MM.journal`, read byte by byte: fifteen
/// bytes, four digits, a hyphen, two digits, `.journal`.
pub open spec fn is_month_file_name(n: Seq<char>) -> bool {
    &&& byte_len(n) == 15
    &&& ends_with(n, ".journal"@)
    &&& forall|i: int| 0 <= i < 4 && i < n.len() ==> is_digit(#[trigger] n[i])
    &&& n.len() > 4 && n[4] == '-'
    &&& forall|i: int| 5 <= i < 7 && i < n.len() ==> is_digit(#[trigger] n[i])
}

/// Whether a text is `want` bytes long in UTF-8.
fn byte_len_equals(s: &Vec<char>, want: usize) -> (r: bool)
    ensures
        r == (byte_len(s@) == want),
{
    let mut total: usize = 0;
    let mut i: usize = 0;
    while i < s.len()
        invariant
            0 <= i <= s.len(),
            total == byte_len(s@.take(i as int)),
            total <= want,
        decreases s.len() - i,
    {
        proof {
            assert(s@.take(i + 1).drop_last() =~= s@.take(i as int));
        }
        let b = crate::text::utf8_len_of(s[i]);
        if b > want - total {
            proof {
                crate::text::lemma_byte_len_mono(s@, i + 1);
            }
            return false;
        }
        total = total + b;
        i += 1;
    }
    assert(s@.take(s.len() as int) =~= s@);
    total == want
}

/// Whether a file name names a month file of a flat split journal.
pub fn is_month_file_name_of(name: &str) -> (r: bool)
    ensures
        r == is_month_file_name(name@),
{
    let n = to_chars(name);
    if !byte_len_equals(&n, 15) {
        return false;
    }
    if !ends_with_str(&n, ".journal") {
        return false;
    }
    let mut i: usize = 0;
    while i < 4 && i < n.len()
        invariant
            0 <= i <= 4,
            n@ == name@,
            forall|k: int| 0 <= k < i && k < n.len() ==> is_digit(#[trigger] n@[k]),
        decreases 4 - i,
    {
        if !char_is_digit(n[i]) {
            assert(!is_digit(name@[i as int]));
            return false;
        }
        i += 1;
    }
    if !(n.len() > 4 && n[4] == '-') {
        return false;
    }
    let mut j: usize = 5;
    while j < 7 && j < n.len()
        invariant
            5 <= j <= 7,
            n@ == name@,
            byte_len(name@) == 15,
            ends_with(name@, ".journal"@),
            forall|k: int| 0 <= k < 4 && k < n.len() ==> is_digit(#[trigger] n@[k]),
            n.len() > 4 && n@[4] == '-',
            forall|k: int| 5 <= k < j && k < n.len() ==> is_digit(#[trigger] n@[k]),
        decreases 7 - j,
    {
        if !char_is_digit(n[j]) {
            assert(!is_digit(name@[j as int]));
            return false;
        }
        j += 1;
    }
    true
}

/// `YYYY-MM.journal` for a transaction's date: its first seven characters.
pub open spec fn spec_target_subjournal_name(date: Seq<char>) -> Seq<char> {
    (if date.len() < 7 { date } else { date.take(7) }) + ".journal"@
}

/// The month file a transaction belongs in.
pub fn target_subjournal_name(input: &TransactionInput) -> (r: String)
    ensures
        r@ == spec_target_subjournal_name(input.date@),
{
    let d = to_chars(input.date.as_str());
    let n = if d.len() < 7 { d.len() } else { 7 };
    let mut out = slice_of(&d, 0, n);
    push_str(&mut out, ".journal");
    proof {
        if d.len() < 7 {
            assert(d@.subrange(0, n as int) =~= d@);
        }
    }
    string_of(&out)
}

/// A text without its trailing `\r` and `\n` characters.
pub open spec fn trim_line_breaks(s: Seq<char>) -> Seq<char>
    decreases s.len(),
{
    if s.len() > 0 && (s.last() == '\r' || s.last() == '\n') {
        trim_line_breaks(s.drop_last())
    } else {
        s
    }
}

/// The text of a file with a formatted transaction appended: trailing line
/// breaks removed, a blank line before the transaction unless nothing is
/// left, and a final line break.
pub open spec fn spec_append_transaction_text(content: Seq<char>, formatted: Seq<char>) -> Seq<char> {
    let base = trim_line_breaks(content);
    if base.len() == 0 {
        formatted + seq!['\n']
    } else {
        base + "\n\n"@ + formatted + seq!['\n']
    }
}

/// Appends a formatted transaction to the text of a journal file.
pub fn append_transaction_text(content: &str, formatted: &str) -> (r: String)
    ensures
        r@ == spec_append_transaction_text(content@, formatted@),
{
    let mut c = to_chars(content);
    while c.len() > 0 && (c[c.len() - 1] == '\r' || c[c.len() - 1] == '\n')
        invariant
            trim_line_breaks(c@) == trim_line_breaks(content@),
        decreases c.len(),
    {
        c.pop();
    }
    let mut out = c;
    if out.len() > 0 {
        push_str(&mut out, "\n\n");
    }
    push_str(&mut out, formatted);
    out.push('\n');
    string_of(&out)
}

/// The text after the last `/` of a path (all of it without one).
pub open spec fn last_segment(path: Seq<char>) -> Seq<char> {
    path.skip(last_match(path, char_pred('/')) + 1)
}

/// A path whose file name reads the same on every platform: no `\` or `:`
/// in it, and a last `/`-separated segment that is a name (not empty, `.`
/// or `..`).
pub open spec fn plain_file_path(path: Seq<char>) -> bool {
    &&& !path.contains('\\')
    &&& !path.contains(':')
    &&& last_segment(path).len() > 0
    &&& last_segment(path) != seq!['.']
    &&& last_segment(path) != seq!['.', '.']
}

/// `std::path::Path::file_name`, as text: the final component of the path.
/// Of a path of `plain_file_path` that component is its last segment after
/// `/`, as the documentation's examples show (`tmp/foo.txt` gives
/// `foo.txt`); of other paths (with `\` or `:`, whose reading depends on the
/// platform, or ending in `/`, `.` or `..`) nothing is stated.
#[verifier::external_body]
fn file_name_of(path: &str) -> (r: Option<String>)
    ensures
        plain_file_path(path@) ==> r is Some && r->0@ == last_segment(path@),
{
    std::path::Path::new(path).file_name().and_then(|n| n.to_str()).map(|n| n.to_string())
}

/// A relative path written in its plain form: a `plain_file_path` that does
/// not start with `/`, has no empty `/`-separated segment (no `//`, no `/`
/// at the end) and no `.` segment. Its components are exactly its segments.
pub open spec fn simple_path(path: Seq<char>) -> bool {
    &&& plain_file_path(path)
    &&& path[0] != '/'
    &&& path.last() != '/'
    &&& forall|i: int| 0 <= i < path.len() - 1 && #[trigger] path[i] == '/' ==> path[i + 1] != '/'
    &&& forall|i: int|
        0 <= i < path.len() && #[trigger] path[i] == '.' && (i == 0 || path[i - 1] == '/') ==> (i + 1 < path.len()
            && path[i + 1] != '/')
}

/// The text before the last `/` of a path (empty without one).
pub open spec fn parent_text(path: Seq<char>) -> Seq<char> {
    let j = last_match(path, char_pred('/'));
    if j >= 0 {
        path.take(j)
    } else {
        seq![]
    }
}

/// `std::path::Path::parent`, as text: the path without its final
/// component. For a `simple_path` the components are its `/`-separated
/// segments, so that is the text before its last `/`, and the empty path
/// where it has none (the documentation's example: `foo/bar` gives `foo`,
/// and `foo` gives the empty path). Of other paths nothing is stated.
#[verifier::external_body]
fn parent_of(path: &str) -> (r: Option<String>)
    ensures
        simple_path(path@) ==> r is Some && r->0@ == parent_text(path@),
{
    std::path::Path::new(path).parent().map(|p| p.to_string_lossy().to_string())
}

/// Whether `r` is `base`, one path separator (`/`, or `\\` where that is the
/// platform's), then `name`.
pub open spec fn joined_path(r: Seq<char>, base: Seq<char>, name: Seq<char>) -> bool {
    &&& r.len() == base.len() + 1 + name.len()
    &&& r.take(base.len() as int) == base
    &&& (r[base.len() as int] == '/' || r[base.len() as int] == '\\')
    &&& r.skip(base.len() as int + 1) == name
}

/// A file name that is one plain path component: a `plain_file_path`
/// without `/`.
pub open spec fn plain_file_name(n: Seq<char>) -> bool {
    plain_file_path(n) && !n.contains('/')
}

/// `std::path::Path::join`, as text: `name` adjoined to `base`. For a name of
/// one plain component (no separator, root or prefix) the documentation has
/// it adjoined after `base`, so the result ends with it; after a base that is
/// not empty, has no prefix (no `:` or `\\`) and does not end with a
/// separator, one separator goes between them (the documentation's example:
/// `/etc` and `passwd` give `/etc/passwd`), which one depending on the
/// platform.
#[verifier::external_body]
fn join_path(base: &str, name: &str) -> (r: String)
    ensures
        plain_file_name(name@) ==> ends_with(r@, name@),
        plain_file_name(name@) && base@.len() > 0 && !base@.contains('\\') && !base@.contains(':') && base@.last()
            != '/' ==> joined_path(r@, base@, name@),
{
    std::path::Path::new(base).join(name).to_string_lossy().to_string()
}

/// The path of a line that includes a month file (`include 2024-05.journal`):
/// an inclusion whose file name (by the platform's paths) passes
/// `is_month_file_name`. For an inclusion of `plain_file_path` that file
/// name is its last segment.
pub fn parse_flat_include_filename(line: &str) -> (r: Option<String>)
    ensures
        r matches Some(x) ==> spec_parse_include_directive(line@) == Some(x@),
        spec_parse_include_directive(line@) is None ==> r is None,
        spec_parse_include_directive(line@) is Some && plain_file_path(spec_parse_include_directive(line@)->0) ==> (r
            is Some <==> is_month_file_name(last_segment(spec_parse_include_directive(line@)->0))),
{
    let inc = match parse_include_directive(line) {
        Some(i) => i,
        None => return None,
    };
    let name = match file_name_of(inc.as_str()) {
        Some(n) => n,
        None => return None,
    };
    if is_month_file_name_of(name.as_str()) {
        Some(inc)
    } else {
        None
    }
}

/// The glob inclusions of the lines, in order.
pub open spec fn glob_includes_of(ls: Seq<Seq<char>>) -> Seq<Seq<char>>
    decreases ls.len(),
{
    if ls.len() == 0 {
        seq![]
    } else {
        let rest = glob_includes_of(ls.drop_last());
        match spec_parse_glob_include(ls.last()) {
            Some(i) => rest.push(i),
            None => rest,
        }
    }
}

/// All the inclusions of the lines, in order.
pub open spec fn includes_of(ls: Seq<Seq<char>>) -> Seq<Seq<char>>
    decreases ls.len(),
{
    if ls.len() == 0 {
        seq![]
    } else {
        let rest = includes_of(ls.drop_last());
        match spec_parse_include_directive(ls.last()) {
            Some(i) => rest.push(i),
            None => rest,
        }
    }
}

proof fn lemma_includes_of_grows(ls: Seq<Seq<char>>, x: Seq<char>)
    requires
        includes_of(ls.drop_last()).contains(x),
        ls.len() > 0,
    ensures
        includes_of(ls).contains(x),
{
    let rest = includes_of(ls.drop_last());
    let k = choose|k: int| 0 <= k < rest.len() && rest[k] == x;
    match spec_parse_include_directive(ls.last()) {
        Some(i) => {
            assert(rest.push(i)[k] == x);
        },
        None => {},
    }
}

/// Whether every inclusion of the lines is a `plain_file_path`.
pub open spec fn plain_includes(ls: Seq<Seq<char>>) -> bool {
    forall|i: int| 0 <= i < ls.len() && (#[trigger] spec_parse_include_directive(ls[i])) is Some ==> plain_file_path(
        spec_parse_include_directive(ls[i])->0,
    )
}

/// The inclusions of the lines whose last segment is a month file name, in
/// order.
pub open spec fn month_includes_of(ls: Seq<Seq<char>>) -> Seq<Seq<char>>
    decreases ls.len(),
{
    if ls.len() == 0 {
        seq![]
    } else {
        let rest = month_includes_of(ls.drop_last());
        match spec_parse_include_directive(ls.last()) {
            Some(i) => if is_month_file_name(last_segment(i)) { rest.push(i) } else { rest },
            None => rest,
        }
    }
}

/// How a journal's main file routes new transactions: by its glob inclusions
/// if it has any, else by its month-file inclusions if it has any, else into
/// the main file.
pub fn detect_routing_strategy(content: &str) -> (r: RoutingStrategy)
    ensures
        glob_includes_of(lines(content@)).len() > 0 ==> (r matches RoutingStrategy::Glob(g) && string_views(g@)
            == glob_includes_of(lines(content@))),
        glob_includes_of(lines(content@)).len() == 0 ==> !(r is Glob),
        r matches RoutingStrategy::Flat(fs) ==> fs.len() > 0 && forall|i: int|
            0 <= i < fs.len() ==> includes_of(lines(content@)).contains(#[trigger] fs[i]@),
        glob_includes_of(lines(content@)).len() == 0 && plain_includes(lines(content@)) ==> (if month_includes_of(
            lines(content@),
        ).len() > 0 {
            r matches RoutingStrategy::Flat(fs) && string_views(fs@) == month_includes_of(lines(content@))
        } else {
            r is Fallback
        }),
{
    let ls = lines_of(&to_chars(content));
    let mut globs: Vec<String> = Vec::new();
    let mut i: usize = 0;
    while i < ls.len()
        invariant
            0 <= i <= ls.len(),
            views(ls@) == lines(content@),
            string_views(globs@) == glob_includes_of(views(ls@).take(i as int)),
        decreases ls.len() - i,
    {
        let ghost pre = views(ls@).take(i as int + 1);
        assert(pre.drop_last() =~= views(ls@).take(i as int));
        assert(pre.last() == ls@[i as int]@);
        let line = string_of(&ls[i]);
        match parse_glob_include(line.as_str()) {
            Some(g) => {
                globs.push(g);
                assert(string_views(globs@) =~= glob_includes_of(pre));
            },
            None => {},
        }
        i += 1;
    }
    assert(views(ls@).take(ls.len() as int) =~= views(ls@));
    if globs.len() > 0 {
        return RoutingStrategy::Glob(globs);
    }
    let mut flats: Vec<String> = Vec::new();
    let mut j: usize = 0;
    while j < ls.len()
        invariant
            0 <= j <= ls.len(),
            views(ls@) == lines(content@),
            forall|k: int| 0 <= k < flats.len() ==> includes_of(views(ls@).take(j as int)).contains(#[trigger] flats[k]@),
            plain_includes(views(ls@)) ==> string_views(flats@) == month_includes_of(views(ls@).take(j as int)),
        decreases ls.len() - j,
    {
        let ghost pre = views(ls@).take(j as int + 1);
        assert(pre.drop_last() =~= views(ls@).take(j as int));
        assert(pre.last() == ls@[j as int]@);
        let line = string_of(&ls[j]);
        let ghost old_flats = flats@;
        proof {
            if plain_includes(views(ls@)) {
                assert(views(ls@)[j as int] == ls@[j as int]@);
                assert(spec_parse_include_directive(views(ls@)[j as int]) is Some ==> plain_file_path(
                    spec_parse_include_directive(views(ls@)[j as int])->0,
                ));
            }
        }
        match parse_flat_include_filename(line.as_str()) {
            Some(f) => {
                flats.push(f);
                assert(includes_of(pre) == includes_of(pre.drop_last()).push(f@));
                assert(includes_of(pre)[includes_of(pre).len() - 1] == f@);
                assert(string_views(flats@) =~= string_views(old_flats).push(f@));
            },
            None => {},
        }
        assert forall|k: int| 0 <= k < flats.len() implies includes_of(pre).contains(#[trigger] flats[k]@) by {
            if k < old_flats.len() {
                assert(flats[k] == old_flats[k]);
                lemma_includes_of_grows(pre, flats[k]@);
            } else {
                assert(includes_of(pre)[includes_of(pre).len() - 1] == flats[k]@);
            }
        }
        j += 1;
    }
    assert(views(ls@).take(ls.len() as int) =~= views(ls@));
    if flats.len() > 0 {
        RoutingStrategy::Flat(flats)
    } else {
        RoutingStrategy::Fallback
    }
}

/// The first of the inclusions whose year is `year`, or -1.
pub open spec fn first_with_year(incs: Seq<Seq<char>>, year: Seq<char>) -> int
    decreases incs.len(),
{
    if incs.len() == 0 {
        -1
    } else if first_with_year(incs.drop_last(), year) >= 0 {
        first_with_year(incs.drop_last(), year)
    } else if spec_glob_include_year(incs.last()) == Some(year) {
        incs.len() - 1
    } else {
        -1
    }
}

/// The last piece that names a year, or -1.
pub open spec fn last_year_index(parts: Seq<Seq<char>>) -> int
    decreases parts.len(),
{
    if parts.len() == 0 {
        -1
    } else if is_year_part(parts.last()) {
        parts.len() - 1
    } else {
        last_year_index(parts.drop_last())
    }
}

/// Path pieces joined with `/`.
pub open spec fn join_slash(parts: Seq<Seq<char>>) -> Seq<char>
    decreases parts.len(),
{
    if parts.len() == 0 {
        seq![]
    } else if parts.len() == 1 {
        parts[0]
    } else {
        join_slash(parts.drop_last()) + seq!['/'] + parts.last()
    }
}

/// The glob inclusion for a year: an existing one for that year, else the
/// first one with its year directory replaced, else `YYYY/*.journal`.
pub open spec fn spec_glob_target_include(incs: Seq<Seq<char>>, year: Seq<char>) -> Seq<char> {
    let k = first_with_year(incs, year);
    if k >= 0 {
        incs[k]
    } else if incs.len() > 0 {
        let parts = split_on(incs[0], '/').drop_last();
        let j = last_year_index(parts);
        if j >= 0 {
            join_slash(parts.update(j, year)) + "/*.journal"@
        } else {
            year + "/*.journal"@
        }
    } else {
        year + "/*.journal"@
    }
}

proof fn lemma_first_with_year_bounds(incs: Seq<Seq<char>>, year: Seq<char>)
    ensures
        -1 <= first_with_year(incs, year) < incs.len(),
        first_with_year(incs, year) >= 0 ==> spec_glob_include_year(incs[first_with_year(incs, year)]) == Some(year),
    decreases incs.len(),
{
    if incs.len() > 0 {
        lemma_first_with_year_bounds(incs.drop_last(), year);
    }
}

fn join_slash_of(parts: &Vec<Vec<char>>, n: usize) -> (r: Vec<char>)
    requires
        n <= parts.len(),
    ensures
        r@ == join_slash(views(parts@).take(n as int)),
{
    let mut out: Vec<char> = Vec::new();
    let mut i: usize = 0;
    while i < n
        invariant
            0 <= i <= n <= parts.len(),
            out@ == join_slash(views(parts@).take(i as int)),
        decreases n - i,
    {
        let ghost pre = views(parts@).take(i as int + 1);
        assert(pre.drop_last() =~= views(parts@).take(i as int));
        assert(pre.last() == parts@[i as int]@);
        if i > 0 {
            out.push('/');
        } else {
            assert(pre =~= seq![parts@[0]@]);
        }
        push_all(&mut out, &parts[i]);
        i += 1;
    }
    out
}

/// The glob inclusion that a transaction of `year` goes under.
pub fn glob_target_include(includes: &Vec<String>, year: &str) -> (r: String)
    ensures
        r@ == spec_glob_target_include(string_views(includes@), year@),
{
    let ghost incs = string_views(includes@);
    let mut i: usize = 0;
    while i < includes.len()
        invariant
            0 <= i <= includes.len(),
            incs == string_views(includes@),
            first_with_year(incs.take(i as int), year@) == -1,
        decreases includes.len() - i,
    {
        let ghost pre = incs.take(i as int + 1);
        assert(pre.drop_last() =~= incs.take(i as int));
        assert(pre.last() == includes@[i as int]@);
        let y = glob_include_year(includes[i].as_str());
        let hit = match &y {
            Some(v) => str_eq_string(v, year),
            None => false,
        };
        if hit {
            proof {
                assert(first_with_year(pre, year@) == i);
                lemma_first_with_year_prefix(incs, i as int + 1, year@);
            }
            return includes[i].clone();
        }
        i += 1;
    }
    assert(incs.take(includes.len() as int) =~= incs);
    if includes.len() > 0 {
        let parts = split_on_chars(&to_chars(includes[0].as_str()), '/');
        proof {
            crate::journal::files::lemma_split_on_len(includes@[0]@, '/');
        }
        let n = parts.len() - 1;
        let ghost ps = views(parts@).take(n as int);
        assert(ps =~= views(parts@).drop_last());
        assert(ps.take(n as int) =~= ps);
        let mut j: usize = n;
        while j > 0
            invariant
                0 <= j <= n,
                n == parts.len() - 1,
                ps == views(parts@).take(n as int),
                last_year_index(ps) == last_year_index(ps.take(j as int)),
            ensures
                0 <= j <= n,
                last_year_index(ps) == last_year_index(ps.take(j as int)),
                j > 0 ==> is_year_part(ps[j - 1]),
            decreases j,
        {
            let ghost pre = ps.take(j as int);
            assert(pre.last() == parts@[j - 1]@);
            assert(pre.drop_last() =~= ps.take(j - 1));
            if is_year_part_of(&parts[j - 1]) {
                break;
            }
            j -= 1;
        }
        if j > 0 {
            let idx = j - 1;
            assert(ps.take(j as int).last() == ps[idx as int]);
            assert(last_year_index(ps) == idx);
            let mut updated: Vec<Vec<char>> = Vec::new();
            let mut k: usize = 0;
            while k < n
                invariant
                    0 <= k <= n,
                    n == parts.len() - 1,
                    idx < n,
                    views(updated@) == ps.update(idx as int, year@).take(k as int),
                    ps == views(parts@).take(n as int),
                decreases n - k,
            {
                let ghost before = views(updated@);
                let item = if k == idx {
                    to_chars(year)
                } else {
                    parts[k].clone()
                };
                assert(item@ == ps.update(idx as int, year@)[k as int]);
                updated.push(item);
                assert(views(updated@) =~= before.push(item@));
                assert(views(updated@) =~= ps.update(idx as int, year@).take(k as int + 1));
                k += 1;
            }
            assert(views(updated@).take(n as int) =~= ps.update(idx as int, year@));
            let mut out = join_slash_of(&updated, n);
            push_str(&mut out, "/*.journal");
            return string_of(&out);
        } else {
            assert(ps.take(0) =~= Seq::<Seq<char>>::empty());
        }
    }
    let mut out = to_chars(year);
    push_str(&mut out, "/*.journal");
    string_of(&out)
}

proof fn lemma_first_with_year_prefix(incs: Seq<Seq<char>>, n: int, year: Seq<char>)
    requires
        0 <= n <= incs.len(),
        first_with_year(incs.take(n), year) >= 0,
    ensures
        first_with_year(incs, year) == first_with_year(incs.take(n), year),
    decreases incs.len() - n,
{
    if n < incs.len() {
        assert(incs.take(n + 1).drop_last() =~= incs.take(n));
        lemma_first_with_year_prefix(incs, n + 1, year);
    } else {
        assert(incs.take(n) =~= incs);
    }
}

fn str_eq_string(a: &String, b: &str) -> (r: bool)
    ensures
        r == (a@ == b@),
{
    crate::text::str_eq(a.as_str(), b)
}

/// Whether some glob inclusion has the year of `target`.
pub open spec fn spec_glob_include_matches_year(target: Seq<char>, incs: Seq<Seq<char>>) -> bool {
    exists|i: int| 0 <= i < incs.len() && spec_glob_include_year(#[trigger] incs[i]) == spec_glob_include_year(target)
}

fn opt_eq(a: &Option<String>, b: &Option<String>) -> (r: bool)
    ensures
        r == (crate::journal::types::opt_text(*a) == crate::journal::types::opt_text(*b)),
{
    match (a, b) {
        (Some(x), Some(y)) => crate::text::str_eq(x.as_str(), y.as_str()),
        (None, None) => true,
        _ => false,
    }
}

/// Whether the year of a glob inclusion is already included.
pub fn glob_include_matches_year(target_include: &str, includes: &Vec<String>) -> (r: bool)
    ensures
        r == spec_glob_include_matches_year(target_include@, string_views(includes@)),
{
    let target = glob_include_year(target_include);
    let mut i: usize = 0;
    while i < includes.len()
        invariant
            0 <= i <= includes.len(),
            crate::journal::types::opt_text(target) == spec_glob_include_year(target_include@),
            forall|k: int| 0 <= k < i ==> spec_glob_include_year(#[trigger] string_views(includes@)[k]) != spec_glob_include_year(target_include@),
        decreases includes.len() - i,
    {
        let y = glob_include_year(includes[i].as_str());
        assert(string_views(includes@)[i as int] == includes@[i as int]@);
        if opt_eq(&y, &target) {
            return true;
        }
        i += 1;
    }
    false
}

/// The first line whose inclusion sorts after `new`, or -1.
pub open spec fn first_after(found: Seq<Option<Seq<char>>>, new: Seq<char>) -> int
    decreases found.len(),
{
    if found.len() == 0 {
        -1
    } else if first_after(found.drop_last(), new) >= 0 {
        first_after(found.drop_last(), new)
    } else if found.last() matches Some(inc) && text_order(new, inc, 0) < 0 {
        found.len() - 1
    } else {
        -1
    }
}

/// The last line with an inclusion, or -1.
pub open spec fn last_found(found: Seq<Option<Seq<char>>>) -> int
    decreases found.len(),
{
    if found.len() == 0 {
        -1
    } else if found.last() is Some {
        found.len() - 1
    } else {
        last_found(found.drop_last())
    }
}

/// Where the new inclusion line goes: before the first inclusion that sorts
/// after it, else after the last inclusion, else at the end.
pub open spec fn insertion_index(found: Seq<Option<Seq<char>>>, new: Seq<char>) -> int {
    if last_found(found) < 0 {
        found.len() as int
    } else if first_after(found, new) >= 0 {
        first_after(found, new)
    } else {
        last_found(found) + 1
    }
}

/// The main file with a line `include <new>` inserted among its inclusions
/// (`found` holds the inclusion that each line names, if any), lines joined
/// with `\n` and a final `\n`.
pub open spec fn spec_insert_sorted_include(content: Seq<char>, new: Seq<char>, found: Seq<Option<Seq<char>>>) -> Seq<char> {
    let ls = lines(content);
    join_lines(ls.insert(insertion_index(found, new), "include "@ + new)) + seq!['\n']
}

proof fn lemma_last_found_bounds(found: Seq<Option<Seq<char>>>)
    ensures
        -1 <= last_found(found) < found.len(),
    decreases found.len(),
{
    if found.len() > 0 {
        lemma_last_found_bounds(found.drop_last());
    }
}

proof fn lemma_first_after_bounds(found: Seq<Option<Seq<char>>>, new: Seq<char>)
    ensures
        -1 <= first_after(found, new) < found.len(),
    decreases found.len(),
{
    if found.len() > 0 {
        lemma_first_after_bounds(found.drop_last(), new);
    }
}

pub open spec fn opt_views(v: Seq<Option<String>>) -> Seq<Option<Seq<char>>> {
    v.map_values(|o: Option<String>| crate::journal::types::opt_text(o))
}

/// Inserts `include <new>` into the main file's text, given the inclusion
/// that each of its lines names.
pub fn insert_include_line(content: &str, new_include: &str, found: &Vec<Option<String>>) -> (r: String)
    requires
        found.len() == lines(content@).len(),
    ensures
        r@ == spec_insert_sorted_include(content@, new_include@, opt_views(found@)),
{
    let ghost fs = opt_views(found@);
    let ls = lines_of(&to_chars(content));
    let new_chars = to_chars(new_include);
    let mut first: usize = found.len();
    let mut last: usize = found.len();
    let mut i: usize = 0;
    while i < found.len()
        invariant
            0 <= i <= found.len(),
            fs == opt_views(found@),
            new_chars@ == new_include@,
            first <= found.len(),
            last <= found.len(),
            first == found.len() <==> first_after(fs.take(i as int), new_include@) < 0,
            first < found.len() ==> first == first_after(fs.take(i as int), new_include@),
            last == found.len() <==> last_found(fs.take(i as int)) < 0,
            last < found.len() ==> last == last_found(fs.take(i as int)),
        decreases found.len() - i,
    {
        let ghost pre = fs.take(i as int + 1);
        assert(pre.drop_last() =~= fs.take(i as int));
        assert(pre.last() == crate::journal::types::opt_text(found@[i as int]));
        proof {
            lemma_first_after_bounds(fs.take(i as int), new_include@);
            lemma_last_found_bounds(fs.take(i as int));
        }
        match &found[i] {
            Some(inc) => {
                last = i;
                if first == found.len() {
                    let ic = to_chars(inc.as_str());
                    if text_order_of(&new_chars, &ic) < 0 {
                        first = i;
                    }
                }
            },
            None => {},
        }
        i += 1;
    }
    assert(fs.take(found.len() as int) =~= fs);
    let index: usize = if last == found.len() {
        found.len()
    } else if first < found.len() {
        first
    } else {
        last + 1
    };
    assert(index == insertion_index(fs, new_include@));
    assert(views(ls@).len() == ls.len());
    assert(index <= ls.len());
    let mut line = to_chars("include ");
    push_all(&mut line, &new_chars);
    let mut out_lines = ls;
    let ghost before = views(out_lines@);
    out_lines.insert(index, line);
    assert(views(out_lines@) =~= before.insert(index as int, "include "@ + new_include@));
    let mut out = crate::text::join_lines_of(&out_lines, 0, out_lines.len());
    assert(views(out_lines@).subrange(0, out_lines.len() as int) =~= views(out_lines@));
    out.push('\n');
    string_of(&out)
}

/// The glob inclusions that the lines name, line by line.
pub open spec fn glob_found(ls: Seq<Seq<char>>) -> Seq<Option<Seq<char>>> {
    ls.map_values(|l: Seq<char>| spec_parse_glob_include(l))
}

fn glob_found_of(content: &str) -> (r: Vec<Option<String>>)
    ensures
        opt_views(r@) == glob_found(lines(content@)),
{
    let ls = lines_of(&to_chars(content));
    let mut out: Vec<Option<String>> = Vec::new();
    let mut i: usize = 0;
    while i < ls.len()
        invariant
            0 <= i <= ls.len(),
            views(ls@) == lines(content@),
            opt_views(out@) == glob_found(views(ls@)).take(i as int),
        decreases ls.len() - i,
    {
        let line = string_of(&ls[i]);
        let ghost before = opt_views(out@);
        let g = parse_glob_include(line.as_str());
        out.push(g);
        assert(opt_views(out@) =~= before.push(crate::journal::types::opt_text(g)));
        assert(glob_found(views(ls@))[i as int] == spec_parse_glob_include(ls@[i as int]@));
        assert(opt_views(out@) =~= glob_found(views(ls@)).take(i as int + 1));
        i += 1;
    }
    assert(glob_found(views(ls@)).take(ls.len() as int) =~= glob_found(views(ls@)));
    out
}

/// Adds `include <new>` for a year directory to the main file, among its glob
/// inclusions.
pub fn insert_glob_include_sorted(content: &str, new_include: &str) -> (r: String)
    ensures
        r@ == spec_insert_sorted_include(content@, new_include@, glob_found(lines(content@))),
{
    let found = glob_found_of(content);
    insert_include_line(content, new_include, &found)
}

/// What month-file inclusions may be found on lines: only lines with an
/// inclusion, and only that inclusion.
pub open spec fn flat_found_ok(ls: Seq<Seq<char>>, found: Seq<Option<Seq<char>>>) -> bool {
    &&& found.len() == ls.len()
    &&& forall|i: int| 0 <= i < found.len() ==> (#[trigger] found[i] is Some ==> found[i] == spec_parse_include_directive(ls[i]))
}

/// The month-file inclusions that the lines name, line by line (an
/// inclusion counts where its last segment is a month file name).
pub open spec fn month_found(ls: Seq<Seq<char>>) -> Seq<Option<Seq<char>>> {
    ls.map_values(
        |l: Seq<char>|
            match spec_parse_include_directive(l) {
                Some(i) => if is_month_file_name(last_segment(i)) {
                    Some(i)
                } else {
                    None
                },
                None => None,
            },
    )
}

/// Adds `include <new>` for a month file to the main file, among its
/// month-file inclusions. Which lines count as such rests on the platform's
/// file names; where every inclusion is a `plain_file_path`, they are those
/// of `month_found`.
pub fn insert_include_sorted(content: &str, new_include: &str) -> (r: String)
    ensures
        exists|found: Seq<Option<Seq<char>>>| flat_found_ok(lines(content@), found)
            && r@ == spec_insert_sorted_include(content@, new_include@, found),
        plain_includes(lines(content@)) ==> r@ == spec_insert_sorted_include(
            content@,
            new_include@,
            month_found(lines(content@)),
        ),
{
    let ls = lines_of(&to_chars(content));
    let mut found: Vec<Option<String>> = Vec::new();
    let mut i: usize = 0;
    while i < ls.len()
        invariant
            0 <= i <= ls.len(),
            views(ls@) == lines(content@),
            found.len() == i,
            forall|k: int| 0 <= k < i ==> (#[trigger] opt_views(found@)[k] is Some ==> opt_views(found@)[k]
                == spec_parse_include_directive(views(ls@)[k])),
            plain_includes(views(ls@)) ==> forall|k: int| 0 <= k < i ==> #[trigger] opt_views(found@)[k]
                == month_found(views(ls@))[k],
        decreases ls.len() - i,
    {
        let line = string_of(&ls[i]);
        let f = parse_flat_include_filename(line.as_str());
        let ghost before = opt_views(found@);
        found.push(f);
        assert(opt_views(found@) =~= before.push(crate::journal::types::opt_text(f)));
        assert(views(ls@)[i as int] == ls@[i as int]@);
        proof {
            if plain_includes(views(ls@)) {
                assert(spec_parse_include_directive(views(ls@)[i as int]) is Some ==> plain_file_path(
                    spec_parse_include_directive(views(ls@)[i as int])->0,
                ));
                assert(opt_views(found@)[i as int] == month_found(views(ls@))[i as int]);
            }
        }
        i += 1;
    }
    let r = insert_include_line(content, new_include, &found);
    assert(flat_found_ok(lines(content@), opt_views(found@)));
    proof {
        if plain_includes(lines(content@)) {
            assert(opt_views(found@) =~= month_found(lines(content@)));
        }
    }
    r
}

/// Which inclusion a new transaction of a flat split journal goes to.
#[derive(Debug, Clone, Copy, PartialEq, Eq, Structural)]
pub enum FlatTarget {
    /// The inclusion at this index already names the month file.
    Existing(usize),
    /// The inclusion at this index is a month file of the same year: the new
    /// file goes beside it.
    SameYear(usize),
    /// A new month file next to the main file.
    New,
}

pub open spec fn names_file(n: Option<Seq<char>>, name: Seq<char>) -> bool {
    n == Some(name)
}

pub open spec fn names_year(n: Option<Seq<char>>, year: Seq<char>) -> bool {
    n matches Some(x) && crate::text::starts_with(x, year)
}

/// The first file name that is `name`, or -1.
pub open spec fn first_named(names: Seq<Option<Seq<char>>>, name: Seq<char>) -> int
    decreases names.len(),
{
    if names.len() == 0 {
        -1
    } else if first_named(names.drop_last(), name) >= 0 {
        first_named(names.drop_last(), name)
    } else if names_file(names.last(), name) {
        names.len() - 1
    } else {
        -1
    }
}

/// The first file name that starts with `year`, or -1.
pub open spec fn first_of_year(names: Seq<Option<Seq<char>>>, year: Seq<char>) -> int
    decreases names.len(),
{
    if names.len() == 0 {
        -1
    } else if first_of_year(names.drop_last(), year) >= 0 {
        first_of_year(names.drop_last(), year)
    } else if names_year(names.last(), year) {
        names.len() - 1
    } else {
        -1
    }
}

pub open spec fn spec_pick_flat_target(names: Seq<Option<Seq<char>>>, name: Seq<char>, year: Seq<char>) -> FlatTarget {
    if first_named(names, name) >= 0 {
        FlatTarget::Existing(first_named(names, name) as usize)
    } else if first_of_year(names, year) >= 0 {
        FlatTarget::SameYear(first_of_year(names, year) as usize)
    } else {
        FlatTarget::New
    }
}

proof fn lemma_first_named_bounds(names: Seq<Option<Seq<char>>>, name: Seq<char>, year: Seq<char>)
    ensures
        -1 <= first_named(names, name) < names.len(),
        -1 <= first_of_year(names, year) < names.len(),
    decreases names.len(),
{
    if names.len() > 0 {
        lemma_first_named_bounds(names.drop_last(), name, year);
    }
}

/// Picks the inclusion for a month file from the file names of the month-file
/// inclusions: the one with that name, else the first of the same year, else
/// none.
pub fn pick_flat_target(names: &Vec<Option<String>>, target_name: &str, target_year: &str) -> (r: FlatTarget)
    ensures
        r == spec_pick_flat_target(opt_views(names@), target_name@, target_year@),
{
    let ghost ns = opt_views(names@);
    let yc = to_chars(target_year);
    let mut named: usize = names.len();
    let mut of_year: usize = names.len();
    let mut i: usize = 0;
    while i < names.len()
        invariant
            0 <= i <= names.len(),
            ns == opt_views(names@),
            yc@ == target_year@,
            named <= names.len(),
            of_year <= names.len(),
            named == names.len() <==> first_named(ns.take(i as int), target_name@) < 0,
            named < names.len() ==> named == first_named(ns.take(i as int), target_name@),
            of_year == names.len() <==> first_of_year(ns.take(i as int), target_year@) < 0,
            of_year < names.len() ==> of_year == first_of_year(ns.take(i as int), target_year@),
        decreases names.len() - i,
    {
        let ghost pre = ns.take(i as int + 1);
        assert(pre.drop_last() =~= ns.take(i as int));
        assert(pre.last() == crate::journal::types::opt_text(names@[i as int]));
        proof {
            lemma_first_named_bounds(ns.take(i as int), target_name@, target_year@);
        }
        match &names[i] {
            Some(n) => {
                if named == names.len() && crate::text::str_eq(n.as_str(), target_name) {
                    named = i;
                }
                if of_year == names.len() && crate::text::starts_with_chars(&to_chars(n.as_str()), &yc) {
                    of_year = i;
                }
            },
            None => {},
        }
        i += 1;
    }
    assert(ns.take(names.len() as int) =~= ns);
    if named < names.len() {
        FlatTarget::Existing(named)
    } else if of_year < names.len() {
        FlatTarget::SameYear(of_year)
    } else {
        FlatTarget::New
    }
}

/// The first four characters of a date: its year.
pub open spec fn date_year(date: Seq<char>) -> Seq<char> {
    if date.len() < 4 { date } else { date.take(4) }
}

fn take_chars(s: &str, n: usize) -> (r: Vec<char>)
    ensures
        r@ == (if s@.len() < n { s@ } else { s@.take(n as int) }),
{
    let c = to_chars(s);
    let k = if c.len() < n { c.len() } else { n };
    let r = slice_of(&c, 0, k);
    assert(c.len() < n ==> r@ =~= c@);
    r
}

/// The file names of inclusions of `plain_file_path`: their last segments.
pub open spec fn plain_names(incs: Seq<Seq<char>>) -> Seq<Option<Seq<char>>> {
    incs.map_values(|x: Seq<char>| Some(last_segment(x)))
}

proof fn lemma_parent_text(path: Seq<char>)
    requires
        simple_path(path),
    ensures
        !parent_text(path).contains('\\'),
        !parent_text(path).contains(':'),
        parent_text(path).len() > 0 ==> parent_text(path).last() != '/',
{
    crate::text::lemma_last_match_props(path, char_pred('/'));
    let j = last_match(path, char_pred('/'));
    if j >= 0 {
        let b = path.take(j);
        assert forall|i: int| 0 <= i < b.len() implies b[i] != '\\' && b[i] != ':' by {
            assert(b[i] == path[i]);
            assert(!path.contains(b[i]) || (b[i] != '\\' && b[i] != ':'));
        }
        if b.len() > 0 {
            assert(path[j] == '/');
            assert(b.last() == path[j - 1]);
        }
    }
}

/// The inclusion of a flat split journal that a transaction goes to: the
/// month file's inclusion where one names it; else the month file beside an
/// inclusion of the same year; else the month file by itself. Which file names
/// match rests on the platform's paths; for inclusions of `plain_file_path`
/// the names are their last segments, and the choice is stated exactly. The
/// month file beside another ends with its name, and beside a `simple_path`
/// it is that inclusion's text before its last `/`, a separator (which one
/// depends on the platform) and the name; the name alone where there is no
/// `/`.
pub fn flat_target_include(includes: &Vec<String>, input: &TransactionInput) -> (r: String)
    ensures
        includes.len() == 0 ==> r@ == spec_target_subjournal_name(input.date@),
        (forall|i: int| 0 <= i < includes.len() ==> plain_file_path(#[trigger] includes@[i]@)) ==> match spec_pick_flat_target(
            plain_names(string_views(includes@)),
            spec_target_subjournal_name(input.date@),
            date_year(input.date@),
        ) {
            FlatTarget::Existing(k) => r@ == includes@[k as int]@,
            FlatTarget::SameYear(k) => plain_file_name(spec_target_subjournal_name(input.date@)) ==> ends_with(
                r@,
                spec_target_subjournal_name(input.date@),
            ) && (simple_path(includes@[k as int]@) ==> if parent_text(includes@[k as int]@).len() == 0 {
                r@ == spec_target_subjournal_name(input.date@)
            } else {
                joined_path(r@, parent_text(includes@[k as int]@), spec_target_subjournal_name(input.date@))
            }),
            FlatTarget::New => r@ == spec_target_subjournal_name(input.date@),
        },
{
    let target_name = target_subjournal_name(input);
    let year = string_of(&take_chars(input.date.as_str(), 4));
    let mut names: Vec<Option<String>> = Vec::new();
    let mut i: usize = 0;
    while i < includes.len()
        invariant
            0 <= i <= includes.len(),
            names.len() == i,
            forall|k: int| 0 <= k < i && plain_file_path(includes@[k]@) ==> ((#[trigger] names@[k]) is Some
                && names@[k]->0@ == last_segment(includes@[k]@)),
        decreases includes.len() - i,
    {
        names.push(file_name_of(includes[i].as_str()));
        i += 1;
    }
    proof {
        if forall|k: int| 0 <= k < includes.len() ==> plain_file_path(#[trigger] includes@[k]@) {
            assert(opt_views(names@) =~= plain_names(string_views(includes@))) by {
                assert forall|k: int| 0 <= k < names.len() implies opt_views(names@)[k] == plain_names(
                    string_views(includes@),
                )[k] by {
                    assert(plain_file_path(includes@[k]@));
                    assert(string_views(includes@)[k] == includes@[k]@);
                }
            }
        }
    }
    match pick_flat_target(&names, target_name.as_str(), year.as_str()) {
        FlatTarget::Existing(k) => {
            proof {
                lemma_first_named_bounds(opt_views(names@), target_name@, year@);
            }
            includes[k].clone()
        },
        FlatTarget::SameYear(k) => {
            proof {
                lemma_first_named_bounds(opt_views(names@), target_name@, year@);
            }
            match parent_of(includes[k].as_str()) {
                Some(parent) => {
                    proof {
                        if simple_path(includes@[k as int]@) {
                            lemma_parent_text(includes@[k as int]@);
                        }
                    }
                    if to_chars(parent.as_str()).len() == 0 {
                        assert(target_name@.skip(0) =~= target_name@);
                        target_name
                    } else {
                        join_path(parent.as_str(), target_name.as_str())
                    }
                },
                None => {
                    assert(target_name@.skip(0) =~= target_name@);
                    target_name
                },
            }
        },
        FlatTarget::New => target_name,
    }
}

/// `s` with every occurrence of `p` (not empty) replaced by `q`
/// (`str::replace`).
pub open spec fn replace_all(s: Seq<char>, p: Seq<char>, q: Seq<char>) -> Seq<char>
    decreases s.len(),
{
    let k = crate::text::find_sub(s, p);
    if p.len() == 0 || k < 0 {
        s
    } else {
        proof {
            crate::text::lemma_find_sub_occurs(s, p);
        }
        s.take(k) + q + replace_all(s.skip(k + p.len()), p, q)
    }
}

fn replace_all_of(s: &Vec<char>, p: &Vec<char>, q: &Vec<char>) -> (r: Vec<char>)
    requires
        p.len() > 0,
    ensures
        r@ == replace_all(s@, p@, q@),
    decreases s.len(),
{
    proof {
        crate::text::lemma_find_sub_occurs(s@, p@);
    }
    match crate::text::find_chars(s, p) {
        None => s.clone(),
        Some(k) => {
            let mut out = slice_of(s, 0, k);
            push_all(&mut out, q);
            let rest = slice_of(s, k + p.len(), s.len());
            assert(rest@ =~= s@.skip(k + p.len()));
            let tail = replace_all_of(&rest, p, q);
            push_all(&mut out, &tail);
            out
        },
    }
}

/// The month file under a glob inclusion: `*.journal` replaced by `MM.journal`
/// for the month of the date (its sixth and seventh characters).
pub open spec fn spec_glob_month_include(target_include: Seq<char>, date: Seq<char>) -> Seq<char> {
    let month = date.subrange(crate::calendar::min_of(5, date.len() as int), crate::calendar::min_of(7, date.len() as int));
    replace_all(target_include, "*.journal"@, month + ".journal"@)
}

/// The path, relative to the main file, of the month file of a transaction
/// under a glob inclusion.
pub fn glob_month_include(target_include: &str, input: &TransactionInput) -> (r: String)
    ensures
        r@ == spec_glob_month_include(target_include@, input.date@),
{
    let d = to_chars(input.date.as_str());
    let a = if d.len() < 5 { d.len() } else { 5 };
    let b = if d.len() < 7 { d.len() } else { 7 };
    let mut month = slice_of(&d, a, b);
    push_str(&mut month, ".journal");
    let star = to_chars("*.journal");
    proof {
        reveal_strlit("*.journal");
    }
    let r = replace_all_of(&to_chars(target_include), &star, &month);
    string_of(&r)
}

} // verus!

verus! {

/// Inclusions that appear in the order of their texts.
pub open spec fn found_in_order(found: Seq<Option<Seq<char>>>) -> bool {
    forall|i: int, j: int|
        0 <= i < j < found.len() && found[i] is Some && found[j] is Some ==> text_order(
            (#[trigger] found[i])->0,
            (#[trigger] found[j])->0,
            0,
        ) <= 0
}

proof fn lemma_first_after_props(found: Seq<Option<Seq<char>>>, new: Seq<char>)
    ensures
        first_after(found, new) >= 0 ==> (found[first_after(found, new)] matches Some(inc) && text_order(new, inc, 0) < 0),
        forall|i: int|
            0 <= i < found.len() && (first_after(found, new) < 0 || i < first_after(found, new)) && found[i] is Some
                ==> text_order(new, (#[trigger] found[i])->0, 0) >= 0,
    decreases found.len(),
{
    if found.len() > 0 {
        let d = found.drop_last();
        lemma_first_after_props(d, new);
        lemma_first_after_bounds(d, new);
        assert forall|i: int|
            0 <= i < found.len() && (first_after(found, new) < 0 || i < first_after(found, new)) && found[i] is Some
                implies text_order(new, (#[trigger] found[i])->0, 0) >= 0 by {
            if i < d.len() {
                assert(found[i] == d[i]);
            }
        }
        if first_after(d, new) >= 0 {
            assert(found[first_after(d, new)] == d[first_after(d, new)]);
        }
    }
}

proof fn lemma_last_found_props(found: Seq<Option<Seq<char>>>)
    ensures
        last_found(found) >= 0 ==> found[last_found(found)] is Some,
        forall|i: int| 0 <= i < found.len() && last_found(found) < i ==> (#[trigger] found[i]) is None,
    decreases found.len(),
{
    if found.len() > 0 {
        let d = found.drop_last();
        lemma_last_found_props(d);
        lemma_last_found_bounds(d);
        assert forall|i: int| 0 <= i < found.len() && last_found(found) < i implies (#[trigger] found[i]) is None by {
            if i < d.len() {
                assert(found[i] == d[i]);
            }
        }
        if last_found(d) >= 0 {
            assert(found[last_found(d)] == d[last_found(d)]);
        }
    }
}

/// A new inclusion goes where it keeps the inclusions in order: inserted
/// among inclusions that are in the order of their texts, they stay in that
/// order.
pub proof fn law_inserted_inclusion_keeps_order(found: Seq<Option<Seq<char>>>, new: Seq<char>)
    requires
        found_in_order(found),
    ensures
        found_in_order(found.insert(insertion_index(found, new), Some(new))),
        0 <= insertion_index(found, new) <= found.len(),
{
    lemma_first_after_props(found, new);
    lemma_first_after_bounds(found, new);
    lemma_last_found_props(found);
    lemma_last_found_bounds(found);
    let k = insertion_index(found, new);
    let g = found.insert(k, Some(new));
    assert forall|i: int| 0 <= i < g.len() implies (#[trigger] g[i]) == (if i < k {
        found[i]
    } else if i == k {
        Some(new)
    } else {
        found[i - 1]
    }) by {}
    assert forall|i: int, j: int|
        0 <= i < j < g.len() && g[i] is Some && g[j] is Some implies text_order(
            (#[trigger] g[i])->0,
            (#[trigger] g[j])->0,
            0,
        ) <= 0 by {
        if i == k {
            // the new inclusion before a later one
            let f = first_after(found, new);
            assert(f >= 0 && k == f);
            let inc = g[j]->0;
            assert(found[j - 1] == g[j]);
            if j - 1 > f {
                assert(found[f] is Some && found[j - 1] is Some);
                assert(text_order(found[f]->0, found[j - 1]->0, 0) <= 0);
                lemma_text_order_transitive(new, found[f]->0, inc, 0);
            }
        } else if j == k {
            // an earlier inclusion before the new one
            assert(found[i] == g[i]);
            lemma_text_order_flip(new, g[i]->0);
        } else if i < k && j > k {
            assert(found[i] == g[i]);
            assert(found[j - 1] == g[j]);
        } else if j < k {
            assert(found[i] == g[i]);
            assert(found[j] == g[j]);
        } else {
            assert(found[i - 1] == g[i]);
            assert(found[j - 1] == g[j]);
        }
    }
}

/// Adding an inclusion keeps every line of the main file: the result reads
/// back as the file's lines with the new `include` line at its place.
/// (Lines that hold a `\n` or end with `\r` are not read back as written,
/// so they are left out.)
pub proof fn law_inserted_inclusion_keeps_lines(content: Seq<char>, new: Seq<char>, found: Seq<Option<Seq<char>>>)
    requires
        found.len() == lines(content).len(),
        forall|i: int| 0 <= i < lines(content).len() ==> is_plain_line(#[trigger] lines(content)[i]),
        is_plain_line("include "@ + new),
    ensures
        lines(spec_insert_sorted_include(content, new, found)) == lines(content).insert(
            insertion_index(found, new),
            "include "@ + new,
        ),
{
    let ls = lines(content);
    lemma_first_after_bounds(found, new);
    lemma_last_found_bounds(found);
    let k = insertion_index(found, new);
    let xs = ls.insert(k, "include "@ + new);
    assert forall|i: int| 0 <= i < xs.len() implies is_plain_line(#[trigger] xs[i]) by {
        if i < k {
            assert(xs[i] == ls[i]);
        } else if i > k {
            assert(xs[i] == ls[i - 1]);
        }
    }
    lemma_lines_of_joined(xs);
}

/// Adding a glob inclusion to a main file whose glob inclusions are in the
/// order of their texts keeps them in that order, and keeps every other line:
/// the written file reads back as its lines with the new `include` line
/// inserted where `insertion_index` says (for files whose lines and new line
/// hold no `\n` and end in no `\r`).
pub proof fn law_glob_inclusion_inserted_in_order(content: Seq<char>, new: Seq<char>)
    requires
        found_in_order(glob_found(lines(content))),
        forall|i: int| 0 <= i < lines(content).len() ==> is_plain_line(#[trigger] lines(content)[i]),
        is_plain_line("include "@ + new),
    ensures
        found_in_order(glob_found(lines(content)).insert(insertion_index(glob_found(lines(content)), new), Some(new))),
        lines(spec_insert_sorted_include(content, new, glob_found(lines(content)))) == lines(content).insert(
            insertion_index(glob_found(lines(content)), new),
            "include "@ + new,
        ),
{
    law_inserted_inclusion_keeps_order(glob_found(lines(content)), new);
    law_inserted_inclusion_keeps_lines(content, new, glob_found(lines(content)));
}

/// Adding a month-file inclusion to a main file whose month-file inclusions
/// are in the order of their texts keeps them in that order, and keeps every
/// other line: the written file reads back as its lines with the new
/// `include` line inserted where `insertion_index` says (for files whose
/// inclusions are `plain_file_path`s and whose lines and new line hold no
/// `\n` and end in no `\r`).
pub proof fn law_month_inclusion_inserted_in_order(content: Seq<char>, new: Seq<char>)
    requires
        found_in_order(month_found(lines(content))),
        forall|i: int| 0 <= i < lines(content).len() ==> is_plain_line(#[trigger] lines(content)[i]),
        is_plain_line("include "@ + new),
    ensures
        found_in_order(month_found(lines(content)).insert(insertion_index(month_found(lines(content)), new), Some(new))),
        lines(spec_insert_sorted_include(content, new, month_found(lines(content)))) == lines(content).insert(
            insertion_index(month_found(lines(content)), new),
            "include "@ + new,
        ),
{
    law_inserted_inclusion_keeps_order(month_found(lines(content)), new);
    law_inserted_inclusion_keeps_lines(content, new, month_found(lines(content)));
}

/// Where a new `include` line goes, given the inclusion each line names (if
/// any): before the first line whose inclusion sorts after the new one;
/// else right after the last line with an inclusion; else at the end.
pub proof fn law_insertion_place(found: Seq<Option<Seq<char>>>, new: Seq<char>)
    ensures
        (exists|i: int| 0 <= i < found.len() && #[trigger] found[i] is Some && text_order(new, found[i]->0, 0) < 0)
            ==> ({
            let k = insertion_index(found, new);
            &&& 0 <= k < found.len()
            &&& found[k] is Some && text_order(new, found[k]->0, 0) < 0
            &&& forall|i: int| 0 <= i < k && #[trigger] found[i] is Some ==> text_order(new, found[i]->0, 0) >= 0
        }),
        (forall|i: int| 0 <= i < found.len() && #[trigger] found[i] is Some ==> text_order(new, found[i]->0, 0) >= 0)
            && (exists|i: int| 0 <= i < found.len() && #[trigger] found[i] is Some) ==> ({
            let k = insertion_index(found, new);
            &&& 1 <= k <= found.len()
            &&& found[k - 1] is Some
            &&& forall|i: int| k <= i < found.len() ==> #[trigger] found[i] is None
        }),
        (forall|i: int| 0 <= i < found.len() ==> #[trigger] found[i] is None) ==> insertion_index(found, new)
            == found.len(),
{
    lemma_first_after_props(found, new);
    lemma_first_after_bounds(found, new);
    lemma_last_found_props(found);
    lemma_last_found_bounds(found);
    if exists|i: int| 0 <= i < found.len() && #[trigger] found[i] is Some && text_order(new, found[i]->0, 0) < 0 {
        let i = choose|i: int| 0 <= i < found.len() && #[trigger] found[i] is Some && text_order(new, found[i]->0, 0) < 0;
        assert(last_found(found) >= 0);
        assert(first_after(found, new) >= 0);
    }
    if exists|i: int| 0 <= i < found.len() && #[trigger] found[i] is Some {
        let i = choose|i: int| 0 <= i < found.len() && #[trigger] found[i] is Some;
        assert(last_found(found) >= 0);
    }
}

} // verus!
