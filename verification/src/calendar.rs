//! Calendar dates of the proleptic Gregorian calendar, as chrono keeps them,
//! and the arithmetic that recurring rules need: month lengths, month ends,
//! stepping by days, months and years.

use vstd::prelude::*;
use chrono::Datelike;

verus! {

/// A calendar day: year, month (1 to 12) and day of the month.
#[derive(Debug, Clone, Copy, PartialEq, Eq, Structural)]
pub struct CalDate {
    pub year: i32,
    pub month: u32,
    pub day: u32,
}

impl View for CalDate {
    type V = (int, int, int);

    open spec fn view(&self) -> (int, int, int) {
        (self.year as int, self.month as int, self.day as int)
    }
}

pub open spec fn is_leap_year(y: int) -> bool {
    (y % 4 == 0 && y % 100 != 0) || y % 400 == 0
}

/// The number of days of a month of the Gregorian calendar.
pub open spec fn month_length(y: int, m: int) -> int {
    if m == 2 {
        if is_leap_year(y) { 29 } else { 28 }
    } else if m == 4 || m == 6 || m == 9 || m == 11 {
        30
    } else {
        31
    }
}

/// The first year that chrono's dates reach.
pub open spec fn min_year() -> int {
    -262143
}

/// The last year that chrono's dates reach.
pub open spec fn max_year() -> int {
    262142
}

/// A day of the calendar within chrono's range of years.
pub open spec fn is_calendar_date(t: (int, int, int)) -> bool {
    &&& min_year() <= t.0 <= max_year()
    &&& 1 <= t.1 <= 12
    &&& 1 <= t.2 <= month_length(t.0, t.1)
}

impl CalDate {
    pub open spec fn valid(self) -> bool {
        is_calendar_date(self@)
    }
}

/// The day after a day, on a calendar without bounds.
pub open spec fn next_day(t: (int, int, int)) -> (int, int, int) {
    if t.2 < month_length(t.0, t.1) {
        (t.0, t.1, t.2 + 1)
    } else if t.1 < 12 {
        (t.0, t.1 + 1, 1)
    } else {
        (t.0 + 1, 1, 1)
    }
}

/// The day before a day, on a calendar without bounds.
pub open spec fn prev_day(t: (int, int, int)) -> (int, int, int) {
    if t.2 > 1 {
        (t.0, t.1, t.2 - 1)
    } else if t.1 > 1 {
        (t.0, t.1 - 1, month_length(t.0, t.1 - 1))
    } else {
        (t.0 - 1, 12, 31)
    }
}

/// The day `n` days after `t`.
pub open spec fn days_after(t: (int, int, int), n: nat) -> (int, int, int)
    decreases n,
{
    if n == 0 {
        t
    } else {
        days_after(next_day(t), (n - 1) as nat)
    }
}

/// The day `n` days before `t`.
pub open spec fn days_before(t: (int, int, int), n: nat) -> (int, int, int)
    decreases n,
{
    if n == 0 {
        t
    } else {
        days_before(prev_day(t), (n - 1) as nat)
    }
}

/// `a` is not later than `b`: years, then months, then days.
pub open spec fn date_le(a: (int, int, int), b: (int, int, int)) -> bool {
    a.0 < b.0 || (a.0 == b.0 && (a.1 < b.1 || (a.1 == b.1 && a.2 <= b.2)))
}

/// A number that grows with the calendar order of valid days.
pub open spec fn day_ordinal(t: (int, int, int)) -> int {
    t.0 * 372 + t.1 * 31 + t.2
}

pub proof fn lemma_ordinal_order(a: (int, int, int), b: (int, int, int))
    requires
        1 <= a.1 <= 12,
        1 <= a.2 <= 31,
        1 <= b.1 <= 12,
        1 <= b.2 <= 31,
    ensures
        date_le(a, b) <==> day_ordinal(a) <= day_ordinal(b),
        a == b <==> day_ordinal(a) == day_ordinal(b),
{
}

pub open spec fn digit_char(n: int) -> char {
    (48 + n) as char
}

pub open spec fn two_digits(n: int) -> Seq<char> {
    seq![digit_char(n / 10), digit_char(n % 10)]
}

pub open spec fn four_digits(n: int) -> Seq<char> {
    seq![digit_char(n / 1000), digit_char((n / 100) % 10), digit_char((n / 10) % 10), digit_char(n % 10)]
}

/// `YYYY-MM-DD` with zero-padded fields.
pub open spec fn iso_text_of(t: (int, int, int)) -> Seq<char> {
    four_digits(t.0) + seq!['-'] + two_digits(t.1) + seq!['-'] + two_digits(t.2)
}

pub open spec fn iso_date_format() -> Seq<char> {
    "%Y-%m-%d"@
}

/// `chrono::NaiveDate::from_ymd_opt`: a date exactly when the year, month and
/// day name a day of the proleptic Gregorian calendar within chrono's years.
#[verifier::external_body]
pub(crate) fn date_from_ymd(year: i32, month: u32, day: u32) -> (r: Option<CalDate>)
    ensures
        r is Some <==> is_calendar_date((year as int, month as int, day as int)),
        r matches Some(d) ==> d.year == year && d.month == month && d.day == day,
{
    chrono::NaiveDate::from_ymd_opt(year, month, day).map(|d| CalDate { year: d.year(), month: d.month(), day: d.day() })
}

/// `chrono::NaiveDate::checked_add_days`: the day `days` days later, or `None`
/// where that day lies beyond chrono's range.
#[verifier::external_body]
pub(crate) fn date_add_days(date: &CalDate, days: u32) -> (r: Option<CalDate>)
    requires
        date.valid(),
    ensures
        r is Some <==> is_calendar_date(days_after(date@, days as nat)),
        r matches Some(d) ==> d@ == days_after(date@, days as nat),
{
    let start = chrono::NaiveDate::from_ymd_opt(date.year, date.month, date.day).unwrap();
    start.checked_add_days(chrono::Days::new(days as u64)).map(|d| CalDate { year: d.year(), month: d.month(), day: d.day() })
}

/// `chrono::NaiveDate::checked_sub_days`: the day `days` days earlier, or
/// `None` where that day lies before chrono's range.
#[verifier::external_body]
pub(crate) fn date_sub_days(date: &CalDate, days: u32) -> (r: Option<CalDate>)
    requires
        date.valid(),
    ensures
        r is Some <==> is_calendar_date(days_before(date@, days as nat)),
        r matches Some(d) ==> d@ == days_before(date@, days as nat),
{
    let start = chrono::NaiveDate::from_ymd_opt(date.year, date.month, date.day).unwrap();
    start.checked_sub_days(chrono::Days::new(days as u64)).map(|d| CalDate { year: d.year(), month: d.month(), day: d.day() })
}

/// The name for what `chrono::NaiveDate::parse_from_str` makes of a text in a
/// format: the date, or the text of the parse error.
pub uninterp spec fn parsed_date(s: Seq<char>, fmt: Seq<char>) -> Result<(int, int, int), Seq<char>>;

/// `chrono::NaiveDate::parse_from_str(s, fmt)`, with the error as its text.
/// Which texts a format accepts is chrono's parser; the result depends on the
/// two texts alone, and a parsed date is a day of chrono's calendar.
#[verifier::external_body]
pub(crate) fn parse_date(s: &str, fmt: &str) -> (r: Result<CalDate, String>)
    ensures
        r matches Ok(d) ==> (parsed_date(s@, fmt@) matches Ok(p) && p == d@ && d.valid()),
        r matches Err(e) ==> (parsed_date(s@, fmt@) matches Err(m) && m == e@),
{
    match chrono::NaiveDate::parse_from_str(s, fmt) {
        Ok(d) => Ok(CalDate { year: d.year(), month: d.month(), day: d.day() }),
        Err(e) => Err(e.to_string()),
    }
}

/// The year as chrono's `%Y` writes it: four digits for the years 0 to 9999;
/// outside them a sign and at least four digits (`{:+05}`).
pub open spec fn year_text(y: int) -> Seq<char> {
    if 0 <= y <= 9999 {
        four_digits(y)
    } else if y > 9999 {
        seq!['+'] + crate::journal::number::nat_digits(y as nat)
    } else if -y <= 9999 {
        seq!['-'] + four_digits(-y)
    } else {
        seq!['-'] + crate::journal::number::nat_digits((-y) as nat)
    }
}

/// The text that chrono's `format("%Y-%m-%d")` writes for a day: the year as
/// `year_text`, month and day with two digits.
pub open spec fn iso_date_text(y: int, m: int, d: int) -> Seq<char> {
    year_text(y) + seq!['-'] + two_digits(m) + seq!['-'] + two_digits(d)
}

/// `chrono::NaiveDate::format(fmt).to_string()` for the ISO format. chrono
/// writes the year with at least four digits (and a sign outside 0 to 9999),
/// month and day with two (`iso_date_text`): for the years 0 to 9999 that is
/// `YYYY-MM-DD`.
#[verifier::external_body]
pub(crate) fn format_date(date: &CalDate, fmt: &str) -> (r: String)
    requires
        date.valid(),
        fmt@ == iso_date_format(),
    ensures
        r@ == iso_date_text(date.year as int, date.month as int, date.day as int),
        0 <= date.year <= 9999 ==> r@ == iso_text_of(date@),
{
    let d = chrono::NaiveDate::from_ymd_opt(date.year, date.month, date.day).unwrap();
    d.format(fmt).to_string()
}

/// `a` is not later than `b`.
pub fn date_not_after(a: &CalDate, b: &CalDate) -> (r: bool)
    ensures
        r == date_le(a@, b@),
{
    a.year < b.year || (a.year == b.year && (a.month < b.month || (a.month == b.month && a.day <= b.day)))
}

/// The month length that the recurrence code reads off the calendar: the day
/// before the first of the next month (of the next year after December); 30
/// where chrono's range has no such day.
pub open spec fn calendar_month_days(y: int, m: int) -> int {
    if min_year() <= y <= max_year() && !(m == 12 && y == max_year()) {
        month_length(y, m)
    } else {
        30
    }
}

/// The number of days in a month.
pub fn days_in_month(year: i32, month: u32) -> (r: u32)
    requires
        year < i32::MAX,
        1 <= month <= 12,
    ensures
        r == calendar_month_days(year as int, month as int),
{
    let next = match date_from_ymd(year, month + 1, 1) {
        Some(d) => Some(d),
        None => date_from_ymd(year + 1, 1, 1),
    };
    match next {
        Some(n) => {
            let before = date_sub_days(&n, 1);
            proof {
                reveal_with_fuel(days_before, 2);
            }
            match before {
                Some(b) => b.day,
                None => 30,
            }
        },
        None => 30,
    }
}

/// The last day of a date's month (the date itself where chrono's range
/// ends within that month).
pub open spec fn month_end(t: (int, int, int)) -> (int, int, int) {
    if t.1 == 12 && t.0 == max_year() {
        t
    } else {
        (t.0, t.1, month_length(t.0, t.1))
    }
}

/// The last day of the month of a date.
pub fn last_day_of_month(date: &CalDate) -> (r: CalDate)
    requires
        date.valid(),
    ensures
        r@ == month_end(date@),
        r.valid(),
{
    proof {
        reveal_with_fuel(days_before, 2);
    }
    match date_from_ymd(date.year, date.month + 1, 1) {
        Some(next) => {
            match date_sub_days(&next, 1) {
                Some(d) => d,
                None => *date,
            }
        },
        None => {
            if date.month == 12 {
                match date_from_ymd(date.year + 1, 1, 1) {
                    Some(next) => {
                        match date_sub_days(&next, 1) {
                            Some(d) => d,
                            None => *date,
                        }
                    },
                    None => *date,
                }
            } else {
                *date
            }
        },
    }
}

pub open spec fn min_of(a: int, b: int) -> int {
    if a <= b { a } else { b }
}

/// The date `months` months after `t`, on day `canonical_day` or the last day
/// of that month if it is shorter; `t` itself where chrono has no such day.
pub open spec fn months_later(t: (int, int, int), months: int, canonical_day: int) -> (int, int, int) {
    let target = t.1 + months;
    let year = t.0 + (target - 1) / 12;
    let month = (target - 1) % 12 + 1;
    let day = min_of(canonical_day, calendar_month_days(year, month));
    if is_calendar_date((year, month, day)) {
        (year, month, day)
    } else {
        t
    }
}

/// Moves a date forward by whole months, keeping the canonical day where the
/// month has it.
pub fn advance_months(date: &CalDate, months: u32, canonical_day: u32) -> (r: CalDate)
    requires
        date.valid(),
    ensures
        r@ == months_later(date@, months as int, canonical_day as int),
        r.valid(),
{
    let target_month: i64 = date.month as i64 + months as i64;
    let year_offset: i64 = (target_month - 1) / 12;
    let month: u32 = ((target_month - 1) % 12 + 1) as u32;
    assert(year_offset <= 357913942) by (nonlinear_arith)
        requires
            target_month <= 12 + 4294967295,
            year_offset == (target_month - 1) / 12,
            target_month >= 1,
    ;
    let year: i32 = (date.year as i64 + year_offset) as i32;
    let max_day = days_in_month(year, month);
    let day = if canonical_day < max_day { canonical_day } else { max_day };
    match date_from_ymd(year, month, day) {
        Some(d) => d,
        None => *date,
    }
}

/// How a recurring rule steps from one occurrence to the next.
#[derive(Debug, Clone, Copy, PartialEq, Eq, Structural)]
pub enum Recurrence {
    /// A fixed number of days.
    Days(u32),
    /// A number of months, on the start's day of the month where it exists.
    Months(u32),
    /// One year, on the start's month and day where it exists.
    Yearly,
}

/// The next yearly occurrence after `t`: the start's month and day one year
/// on (the month's last day where it is shorter), else 366 days on.
pub open spec fn year_later(t: (int, int, int), canonical_month: int, canonical_day: int) -> Option<(int, int, int)> {
    let year = t.0 + 1;
    let day = min_of(canonical_day, calendar_month_days(year, canonical_month));
    if is_calendar_date((year, canonical_month, day)) {
        Some((year, canonical_month, day))
    } else if is_calendar_date(days_after(t, 366)) {
        Some(days_after(t, 366))
    } else {
        None
    }
}

/// The occurrence after `t` of a rule that started on `start`; `None` where
/// it would lie beyond chrono's range.
pub open spec fn next_occurrence(kind: Recurrence, start: (int, int, int), t: (int, int, int)) -> Option<(int, int, int)> {
    match kind {
        Recurrence::Days(n) => if is_calendar_date(days_after(t, n as nat)) {
            Some(days_after(t, n as nat))
        } else {
            None
        },
        Recurrence::Months(n) => Some(months_later(t, n as int, start.2)),
        Recurrence::Yearly => year_later(t, start.1, start.2),
    }
}

pub open spec fn date_opt_view(o: Option<CalDate>) -> Option<(int, int, int)> {
    match o {
        Some(d) => Some(d@),
        None => None,
    }
}

pub open spec fn date_views(s: Seq<CalDate>) -> Seq<(int, int, int)> {
    s.map_values(|d: CalDate| d@)
}

fn next_occurrence_of(kind: &Recurrence, start: &CalDate, date: &CalDate) -> (r: Option<CalDate>)
    requires
        start.valid(),
        date.valid(),
    ensures
        date_opt_view(r) == next_occurrence(*kind, start@, date@),
        r matches Some(d) ==> d.valid(),
{
    match kind {
        Recurrence::Days(n) => date_add_days(date, *n),
        Recurrence::Months(n) => Some(advance_months(date, *n, start.day)),
        Recurrence::Yearly => {
            let max_day = days_in_month(date.year + 1, start.month);
            let day = if start.day < max_day { start.day } else { max_day };
            match date_from_ymd(date.year + 1, start.month, day) {
                Some(d) => Some(d),
                None => date_add_days(date, 366),
            }
        },
    }
}

/// After the last occurrence the rule stops: no next day, or the next one is
/// past the end, or it does not move forward.
pub open spec fn stops_after(next: Option<(int, int, int)>, last: (int, int, int), end: (int, int, int)) -> bool {
    match next {
        None => true,
        Some(n) => !date_le(n, end) || date_le(n, last),
    }
}

/// `r` lists the occurrences of a rule from `start` up to `end`: it begins at
/// `start` (and is empty when `start` is after `end`), each date is the next
/// occurrence after the one before and later than it, none is after `end`,
/// and the rule stops after the last one.
pub open spec fn is_occurrence_list(r: Seq<(int, int, int)>, kind: Recurrence, start: (int, int, int), end: (int, int, int)) -> bool {
    &&& (r.len() > 0 <==> date_le(start, end))
    &&& r.len() > 0 ==> r[0] == start
    &&& forall|i: int| 0 <= i < r.len() ==> date_le(#[trigger] r[i], end)
    &&& forall|i: int|
        0 <= i < r.len() - 1 ==> next_occurrence(kind, start, #[trigger] r[i]) == Some(r[i + 1]) && !date_le(r[i + 1], r[i])
    &&& r.len() > 0 ==> stops_after(next_occurrence(kind, start, r.last()), r.last(), end)
}

/// The occurrences of a rule from its start date up to an end date.
#[verifier::spinoff_prover]
#[verifier::rlimit(100)]
pub fn recurrence_dates(kind: &Recurrence, start: &CalDate, end: &CalDate) -> (r: Vec<CalDate>)
    requires
        start.valid(),
        end.valid(),
    ensures
        is_occurrence_list(date_views(r@), *kind, start@, end@),
        forall|i: int| 0 <= i < r.len() ==> (#[trigger] r[i]).valid(),
{
    let mut dates: Vec<CalDate> = Vec::new();
    if !date_not_after(start, end) {
        assert(date_views(dates@) =~= Seq::<(int, int, int)>::empty());
        return dates;
    }
    let mut current: CalDate = *start;
    loop
        invariant_except_break
            dates.len() > 0 ==> next_occurrence(*kind, start@, dates@.last()@) == Some(current@),
            dates.len() > 0 ==> !date_le(current@, dates@.last()@),
        invariant
            start.valid(),
            end.valid(),
            current.valid(),
            date_le(start@, end@),
            date_le(current@, end@),
            dates.len() == 0 ==> current == *start,
            dates.len() > 0 ==> dates[0]@ == start@,
            forall|i: int| 0 <= i < dates.len() ==> date_le((#[trigger] dates[i])@, end@) && dates[i].valid(),
            forall|i: int|
                0 <= i < dates.len() - 1 ==> next_occurrence(*kind, start@, (#[trigger] dates[i])@) == Some(dates[i + 1]@)
                    && !date_le(dates[i + 1]@, dates[i]@),
        ensures
            is_occurrence_list(date_views(dates@), *kind, start@, end@),
            forall|i: int| 0 <= i < dates.len() ==> (#[trigger] dates[i]).valid(),
        decreases day_ordinal(end@) - day_ordinal(current@),
    {
        let ghost before = dates@;
        dates.push(current);
        assert(dates@.last() == current);
        assert forall|i: int| 0 <= i < dates.len() - 1 implies next_occurrence(*kind, start@, (#[trigger] dates[i])@) == Some(dates[i + 1]@)
            && !date_le(dates[i + 1]@, dates[i]@) by {
            if i < before.len() - 1 {
                assert(dates[i] == before[i] && dates[i + 1] == before[i + 1]);
            } else {
                assert(dates[i] == before.last());
            }
        }
        let next = next_occurrence_of(kind, start, &current);
        let stop = match next {
            None => true,
            Some(n) => !date_not_after(&n, end) || date_not_after(&n, &current),
        };
        if stop {
            assert(date_views(dates@).last() == current@);
            assert(forall|i: int| 0 <= i < dates.len() ==> date_views(dates@)[i] == (#[trigger] dates[i])@);
            break;
        }
        let n = next.unwrap();
        proof {
            lemma_ordinal_order(current@, n@);
            lemma_ordinal_order(n@, end@);
        }
        current = n;
    }
    dates
}

/// The occurrences of a rule are in calendar order, each one later than the
/// one before, and all lie between the start and the end.
pub proof fn law_occurrences_ascending(r: Seq<(int, int, int)>, kind: Recurrence, start: (int, int, int), end: (int, int, int))
    requires
        is_occurrence_list(r, kind, start, end),
    ensures
        forall|i: int, j: int| 0 <= i < j < r.len() ==> !date_le(#[trigger] r[j], #[trigger] r[i]),
        forall|i: int| 0 <= i < r.len() ==> date_le(start, #[trigger] r[i]) && date_le(r[i], end),
{
    assert forall|i: int, j: int| 0 <= i < j < r.len() implies !date_le(#[trigger] r[j], #[trigger] r[i]) by {
        lemma_chain_strict(r, kind, start, end, i, j);
    }
    assert forall|i: int| 0 <= i < r.len() implies date_le(start, #[trigger] r[i]) && date_le(r[i], end) by {
        if i > 0 {
            lemma_chain_strict(r, kind, start, end, 0, i);
        }
    }
}

proof fn lemma_chain_strict(r: Seq<(int, int, int)>, kind: Recurrence, start: (int, int, int), end: (int, int, int), i: int, j: int)
    requires
        is_occurrence_list(r, kind, start, end),
        0 <= i < j < r.len(),
    ensures
        !date_le(r[j], r[i]),
    decreases j - i,
{
    assert(next_occurrence(kind, start, r[j - 1]) == Some(r[j]) && !date_le(r[j], r[j - 1]));
    if i < j - 1 {
        lemma_chain_strict(r, kind, start, end, i, j - 1);
    }
}

} // verus!
