//! Calendar dates of the proleptic Gregorian calendar, held as plain numbers,
//! with the date arithmetic, formatting and parsing that `chrono` performs.

use chrono::Datelike;
use crate::text::is_white;
use vstd::prelude::*;

verus! {

/// The earliest year a date can have (that of `chrono::NaiveDate::MIN`).
pub const MIN_YEAR: i32 = -262143;

/// The latest year a date can have (that of `chrono::NaiveDate::MAX`).
pub const MAX_YEAR: i32 = 262142;

/// A calendar date as mathematical numbers.
pub struct Ymd {
    pub year: int,
    pub month: int,
    pub day: int,
}

pub open spec fn mk_ymd(year: int, month: int, day: int) -> Ymd {
    Ymd { year, month, day }
}

pub open spec fn is_leap(y: int) -> bool {
    (y % 4 == 0 && y % 100 != 0) || y % 400 == 0
}

/// Number of days of month `m` of year `y` (30 for a month number out of range).
pub open spec fn month_days(y: int, m: int) -> int {
    if m == 1 || m == 3 || m == 5 || m == 7 || m == 8 || m == 10 || m == 12 {
        31
    } else if m == 4 || m == 6 || m == 9 || m == 11 {
        30
    } else if m == 2 {
        if is_leap(y) {
            29
        } else {
            28
        }
    } else {
        30
    }
}

/// Whether `(y, m, d)` names a day that a date can hold.
pub open spec fn valid_ymd(y: int, m: int, d: int) -> bool {
    &&& MIN_YEAR <= y <= MAX_YEAR
    &&& 1 <= m <= 12
    &&& 1 <= d <= month_days(y, m)
}

pub open spec fn valid(x: Ymd) -> bool {
    valid_ymd(x.year, x.month, x.day)
}

/// Days in the months of a year before month `m`.
pub open spec fn days_before_month(y: int, m: int) -> int {
    let base = if m == 1 {
        0int
    } else if m == 2 {
        31
    } else if m == 3 {
        59
    } else if m == 4 {
        90
    } else if m == 5 {
        120
    } else if m == 6 {
        151
    } else if m == 7 {
        181
    } else if m == 8 {
        212
    } else if m == 9 {
        243
    } else if m == 10 {
        273
    } else if m == 11 {
        304
    } else {
        334
    };
    if m > 2 && is_leap(y) {
        base + 1
    } else {
        base
    }
}

/// Number of days from 0001-01-01 to the given date (negative before it).
pub open spec fn day_number(x: Ymd) -> int {
    let py = x.year - 1;
    365 * py + py / 4 - py / 100 + py / 400 + days_before_month(x.year, x.month) + x.day - 1
}

/// Day of the week, 0 for Monday through 6 for Sunday (0001-01-01 is a Monday).
pub open spec fn weekday_of(x: Ymd) -> int {
    day_number(x) % 7
}

/// Whether `n` is the day number of some date in range.
pub open spec fn day_number_in_range(n: int) -> bool {
    day_number(Ymd { year: MIN_YEAR as int, month: 1, day: 1 }) <= n <= day_number(
        Ymd { year: MAX_YEAR as int, month: 12, day: 31 },
    )
}

/// The date whose day number is `n`.
pub open spec fn date_of_day_number(n: int) -> Ymd {
    choose|y: Ymd| valid(y) && day_number(y) == n
}

/// The date `n` days after `x`, `None` when that day is out of range.
pub open spec fn add_days_spec(x: Ymd, n: int) -> Option<Ymd> {
    if day_number_in_range(day_number(x) + n) {
        Some(date_of_day_number(day_number(x) + n))
    } else {
        None
    }
}

/// The date `n` months after `x`, its day clamped to the length of the
/// target month; `None` when the target year is out of range.
pub open spec fn add_months_spec(x: Ymd, n: int) -> Option<Ymd> {
    let total = x.year * 12 + (x.month - 1) + n;
    let y = total / 12;
    let m = total % 12 + 1;
    let d = if x.day <= month_days(y, m) {
        x.day
    } else {
        month_days(y, m)
    };
    if MIN_YEAR <= y <= MAX_YEAR {
        Some(Ymd { year: y, month: m, day: d })
    } else {
        None
    }
}

pub open spec fn digit_char(n: int) -> char {
    ((n + 48) as u32) as char
}

/// Decimal digits of `n`, without leading zeros ("0" for zero).
pub open spec fn decimal(n: nat) -> Seq<char>
    decreases n,
{
    if n < 10 {
        seq![digit_char(n as int)]
    } else {
        decimal(n / 10) + seq![digit_char((n % 10) as int)]
    }
}

/// Decimal digits of `n`, zero-padded on the left to at least `w` characters.
pub open spec fn padded(n: nat, w: nat) -> Seq<char> {
    let ds = decimal(n);
    if ds.len() < w {
        Seq::new((w - ds.len()) as nat, |i: int| '0') + ds
    } else {
        ds
    }
}

/// The year as `%Y` writes it: four digits for years 0 to 9999, otherwise a
/// sign followed by at least four digits.
pub open spec fn year_text(y: int) -> Seq<char> {
    if 0 <= y <= 9999 {
        padded(y as nat, 4)
    } else if y > 9999 {
        seq!['+'] + padded(y as nat, 4)
    } else {
        seq!['-'] + padded((-y) as nat, 4)
    }
}

/// The date as `%Y-%m-%d` writes it.
pub open spec fn date_text(x: Ymd) -> Seq<char> {
    year_text(x.year) + seq!['-'] + padded(x.month as nat, 2) + seq!['-'] + padded(
        x.day as nat,
        2,
    )
}

pub open spec fn is_ascii_digit(c: char) -> bool {
    48 <= (c as u32) <= 57
}

pub open spec fn digit_value(c: char) -> int {
    (c as u32) - 48
}

/// Whether `s` has the shape of `\d{4}-\d{2}-\d{2}` with `digit` as `\d`.
pub open spec fn date_shape_with(s: Seq<char>, digit: spec_fn(char) -> bool) -> bool {
    &&& s.len() == 10
    &&& s[4] == '-'
    &&& s[7] == '-'
    &&& forall|i: int| 0 <= i < 10 && i != 4 && i != 7 ==> #[trigger] digit(s[i])
}

/// The numbers that a `YYYY-MM-DD` text of ASCII digits spells.
pub open spec fn ymd_of_text(s: Seq<char>) -> Ymd {
    Ymd {
        year: digit_value(s[0]) * 1000 + digit_value(s[1]) * 100 + digit_value(s[2]) * 10
            + digit_value(s[3]),
        month: digit_value(s[5]) * 10 + digit_value(s[6]),
        day: digit_value(s[8]) * 10 + digit_value(s[9]),
    }
}

/// What `NaiveDate::parse_from_str(s, "%Y-%m-%d")` gives for the text `s`.
pub uninterp spec fn parsed_date(s: Seq<char>) -> Option<Ymd>;

proof fn lemma_digit_char(k: int)
    requires
        0 <= k < 10,
    ensures
        is_ascii_digit(digit_char(k)),
        digit_value(digit_char(k)) == k,
{
}

/// Two-digit zero padding of a number below one hundred.
proof fn lemma_padded2(n: int)
    requires
        0 <= n < 100,
    ensures
        padded(n as nat, 2) == seq![digit_char(n / 10), digit_char(n % 10)],
{
    assert(digit_char(0) == '0');
    if n < 10 {
        assert(decimal(n as nat) == seq![digit_char(n)]);
        assert(padded(n as nat, 2) =~= seq![digit_char(n / 10), digit_char(n % 10)]);
    } else {
        assert(decimal((n / 10) as nat) == seq![digit_char(n / 10)]);
        assert(decimal(n as nat) =~= seq![digit_char(n / 10), digit_char(n % 10)]);
        assert(padded(n as nat, 2) =~= seq![digit_char(n / 10), digit_char(n % 10)]);
    }
}

/// Four-digit zero padding of a number below ten thousand.
proof fn lemma_padded4(n: int)
    requires
        0 <= n < 10000,
    ensures
        padded(n as nat, 4) == seq![
            digit_char(n / 1000),
            digit_char(n / 100 % 10),
            digit_char(n / 10 % 10),
            digit_char(n % 10),
        ],
{
    let want = seq![
        digit_char(n / 1000),
        digit_char(n / 100 % 10),
        digit_char(n / 10 % 10),
        digit_char(n % 10),
    ];
    assert(digit_char(0) == '0');
    if n < 10 {
        assert(decimal(n as nat) == seq![digit_char(n)]);
        assert(padded(n as nat, 4) =~= want);
    } else if n < 100 {
        assert(decimal((n / 10) as nat) == seq![digit_char(n / 10)]);
        assert(decimal(n as nat) =~= seq![digit_char(n / 10), digit_char(n % 10)]);
        assert(padded(n as nat, 4) =~= want);
    } else if n < 1000 {
        let m = n / 10;
        assert(decimal((m / 10) as nat) == seq![digit_char(m / 10)]);
        assert(decimal(m as nat) =~= seq![digit_char(m / 10), digit_char(m % 10)]);
        assert(m / 10 == n / 100);
        assert(decimal(n as nat) =~= seq![
            digit_char(n / 100),
            digit_char(n / 10 % 10),
            digit_char(n % 10),
        ]);
        assert(padded(n as nat, 4) =~= want);
    } else {
        let m = n / 10;
        let q = m / 10;
        assert(decimal((q / 10) as nat) == seq![digit_char(q / 10)]);
        assert(decimal(q as nat) =~= seq![digit_char(q / 10), digit_char(q % 10)]);
        assert(decimal(m as nat) =~= seq![
            digit_char(q / 10),
            digit_char(q % 10),
            digit_char(m % 10),
        ]);
        assert(q / 10 == n / 1000);
        assert(q == n / 100);
        assert(decimal(n as nat) =~= seq![
            digit_char(q / 10),
            digit_char(q % 10),
            digit_char(m % 10),
            digit_char(n % 10),
        ]);
        assert(padded(n as nat, 4) =~= want);
    }
}

/// A date of a year from 0 to 9999 is written as ten characters of the shape
/// `YYYY-MM-DD` with ASCII digits, and reading those digits back gives the
/// date again: `parse_text` turns `to_text` of such a date into the date.
pub proof fn lemma_date_text_roundtrip(x: Ymd)
    requires
        valid(x),
        0 <= x.year <= 9999,
    ensures
        date_text(x).len() == 10,
        ascii_date_text(date_text(x)),
        ymd_of_text(date_text(x)) == x,
{
    let y = x.year;
    let m = x.month;
    let d = x.day;
    lemma_padded4(y);
    lemma_padded2(m);
    lemma_padded2(d);
    let s = date_text(x);
    assert(s =~= seq![
        digit_char(y / 1000),
        digit_char(y / 100 % 10),
        digit_char(y / 10 % 10),
        digit_char(y % 10),
        '-',
        digit_char(m / 10),
        digit_char(m % 10),
        '-',
        digit_char(d / 10),
        digit_char(d % 10),
    ]);
    lemma_digit_char(y / 1000);
    lemma_digit_char(y / 100 % 10);
    lemma_digit_char(y / 10 % 10);
    lemma_digit_char(y % 10);
    lemma_digit_char(m / 10);
    lemma_digit_char(m % 10);
    lemma_digit_char(d / 10);
    lemma_digit_char(d % 10);
    assert(y == (y / 1000) * 1000 + (y / 100 % 10) * 100 + (y / 10 % 10) * 10 + y % 10)
        by (nonlinear_arith)
        requires
            0 <= y < 10000,
    ;
    assert(m == (m / 10) * 10 + m % 10) by (nonlinear_arith);
    assert(d == (d / 10) * 10 + d % 10) by (nonlinear_arith);
    assert(ymd_of_text(s) == x);
}

/// A month has as many days as there are from its first day to the first
/// day of the month after it.
pub proof fn lemma_month_days_span(y: int, m: int)
    requires
        1 <= m <= 12,
    ensures
        month_days(y, m) == if m < 12 {
            day_number(mk_ymd(y, m + 1, 1)) - day_number(mk_ymd(y, m, 1))
        } else {
            day_number(mk_ymd(y + 1, 1, 1)) - day_number(mk_ymd(y, 12, 1))
        },
{
    if m == 12 {
        let a = y - 1;
        assert(y / 4 - a / 4 == if y % 4 == 0 { 1int } else { 0int });
        assert(y / 100 - a / 100 == if y % 100 == 0 { 1int } else { 0int });
        assert(y / 400 - a / 400 == if y % 400 == 0 { 1int } else { 0int });
    }
}

/// A date of the proleptic Gregorian calendar within the range of
/// `chrono::NaiveDate`.
#[derive(Debug, Clone, Copy, PartialEq, Eq)]
pub struct Date {
    year: i32,
    month: u32,
    day: u32,
}

impl Date {
    #[verifier::type_invariant]
    spec fn inv(self) -> bool {
        valid_ymd(self.year as int, self.month as int, self.day as int)
    }

    pub closed spec fn view(&self) -> Ymd {
        Ymd { year: self.year as int, month: self.month as int, day: self.day as int }
    }

    /// Every date is a valid day within range.
    pub fn lemma_valid(&self)
        ensures
            valid(self@),
    {
        proof {
            use_type_invariant(self);
        }
    }

    pub fn year(&self) -> (r: i32)
        ensures
            r == self@.year,
    {
        self.year
    }

    pub fn month(&self) -> (r: u32)
        ensures
            r == self@.month,
    {
        self.month
    }

    pub fn day(&self) -> (r: u32)
        ensures
            r == self@.day,
    {
        self.day
    }

    /// Whether two dates are the same day.
    pub fn same_as(&self, other: &Date) -> (r: bool)
        ensures
            r == (self@ == other@),
    {
        self.year == other.year && self.month == other.month && self.day == other.day
    }

    /// The date with the given year, month and day, if it exists
    /// (`NaiveDate::from_ymd_opt`).
    pub fn from_ymd_opt(year: i32, month: u32, day: u32) -> (r: Option<Date>)
        ensures
            r is Some <==> valid_ymd(year as int, month as int, day as int),
            r matches Some(d) ==> d@ == mk_ymd(year as int, month as int, day as int),
    {
        chrono_from_ymd(year, month, day)
    }
}

/// Calls `NaiveDate::from_ymd_opt`, which makes a date exactly when the
/// numbers name a day of the proleptic Gregorian calendar within the range
/// of `NaiveDate`; the contract claims this of it.
#[verifier::external_body]
fn chrono_from_ymd(year: i32, month: u32, day: u32) -> (r: Option<Date>)
    ensures
        r is Some <==> valid_ymd(year as int, month as int, day as int),
        r matches Some(d) ==> d@ == mk_ymd(year as int, month as int, day as int),
{
    chrono::NaiveDate::from_ymd_opt(year, month, day).map(
        |nd| Date { year: nd.year(), month: nd.month(), day: nd.day() },
    )
}

/// Whether `s` has the shape `\d{4}-\d{2}-\d{2}` with ASCII digits.
pub open spec fn ascii_date_text(s: Seq<char>) -> bool {
    date_shape_with(s, |c: char| is_ascii_digit(c))
}

/// Calls `NaiveDate::parse_from_str(s, "%Y-%m-%d")`. Its result is named
/// `parsed_date`; the contract claims, from chrono's parser (which reads
/// ASCII digits only and wants the whole text used), that a text of ten
/// characters with `-` at positions 4 and 7 and only digits elsewhere gives
/// the date those ASCII digits spell when it exists, and nothing when it does
/// not or when a digit is not ASCII. Of other texts nothing more is stated.
#[verifier::external_body]
fn chrono_parse_date(s: &str) -> (r: Option<Date>)
    ensures
        option_ymd(r) == parsed_date(s@),
        ascii_date_text(s@) ==> (r is Some <==> valid(ymd_of_text(s@))),
        ascii_date_text(s@) ==> (r matches Some(d) ==> d@ == ymd_of_text(s@)),
        (s@.len() == 10 && s@[4] == '-' && s@[7] == '-' && !ascii_date_text(s@) && (forall|i: int|
            0 <= i < 10 && i != 4 && i != 7 ==> !is_white(#[trigger] s@[i]) && s@[i] != '+'
                && s@[i] != '-')) ==> r is None,
{
    chrono::NaiveDate::parse_from_str(s, "%Y-%m-%d").ok().map(
        |nd| Date { year: nd.year(), month: nd.month(), day: nd.day() },
    )
}

/// Calls `Datelike::weekday` and `Weekday::num_days_from_monday`: the day of
/// the week of the date, counted from Monday as 0.
#[verifier::external_body]
fn chrono_weekday(d: &Date) -> (r: u32)
    ensures
        r == weekday_of(d@),
{
    chrono::NaiveDate::from_ymd_opt(d.year, d.month, d.day).expect("a valid date").weekday().num_days_from_monday()
}

/// Calls `NaiveDate::checked_add_signed` with `TimeDelta::days(days)`: the
/// date `days` days later (the one valid date with that day number), or
/// `None` when that day is out of the range of `NaiveDate`. `requires` keeps `TimeDelta::days` from panicking.
#[verifier::external_body]
fn chrono_add_days(d: &Date, days: i64) -> (r: Option<Date>)
    requires
        -100_000_000_000 <= days <= 100_000_000_000,
    ensures
        option_ymd(r) == add_days_spec(d@, days as int),
        r matches Some(x) ==> day_number(x@) == day_number(d@) + days,
{
    chrono::NaiveDate::from_ymd_opt(d.year, d.month, d.day).expect("a valid date").checked_add_signed(
        chrono::TimeDelta::days(days),
    ).map(|nd| Date { year: nd.year(), month: nd.month(), day: nd.day() })
}

/// Calls `NaiveDate::checked_add_months` with `Months::new(months)`: the
/// month moves forward, the day is clamped to the last day of the target
/// month, and `None` comes when the target year is out of range.
#[verifier::external_body]
fn chrono_add_months(d: &Date, months: u32) -> (r: Option<Date>)
    ensures
        option_ymd(r) == add_months_spec(d@, months as int),
{
    chrono::NaiveDate::from_ymd_opt(d.year, d.month, d.day).expect("a valid date").checked_add_months(
        chrono::Months::new(months),
    ).map(|nd| Date { year: nd.year(), month: nd.month(), day: nd.day() })
}

/// Calls `NaiveDate::format("%Y-%m-%d")` and renders it to a `String`.
#[verifier::external_body]
fn chrono_format(d: &Date) -> (r: String)
    ensures
        r@ == date_text(d@),
{
    chrono::NaiveDate::from_ymd_opt(d.year, d.month, d.day).expect("a valid date").format("%Y-%m-%d").to_string()
}

/// Calls `NaiveDate::signed_duration_since` and `TimeDelta::num_days`: the
/// number of days from `d` to `other`.
#[verifier::external_body]
fn chrono_days_between(d: &Date, other: &Date) -> (r: i64)
    ensures
        r == day_number(other@) - day_number(d@),
{
    let a = chrono::NaiveDate::from_ymd_opt(d.year, d.month, d.day).expect("a valid date");
    let b = chrono::NaiveDate::from_ymd_opt(other.year, other.month, other.day).expect("a valid date");
    b.signed_duration_since(a).num_days()
}

/// Calls `chrono::Local::now().date_naive()`: the current local date. What it
/// returns depends on the clock and the time zone; only that it is a date is
/// known.
#[verifier::external_body]
fn chrono_today() -> (r: Date) {
    let nd = chrono::Local::now().date_naive();
    Date { year: nd.year(), month: nd.month(), day: nd.day() }
}

impl Date {
    /// Day of the week, 0 for Monday through 6 for Sunday.
    pub fn weekday(&self) -> (r: u32)
        ensures
            r == weekday_of(self@),
            r < 7,
    {
        chrono_weekday(self)
    }

    /// The date `days` days later (earlier when negative), if in range.
    pub fn add_days(&self, days: i64) -> (r: Option<Date>)
        requires
            -100_000_000_000 <= days <= 100_000_000_000,
        ensures
            option_ymd(r) == add_days_spec(self@, days as int),
            r matches Some(x) ==> day_number(x@) == day_number(self@) + days,
    {
        chrono_add_days(self, days)
    }

    /// Number of days from this date to `other` (negative when `other` is
    /// earlier).
    pub fn days_until(&self, other: &Date) -> (r: i64)
        ensures
            r == day_number(other@) - day_number(self@),
    {
        chrono_days_between(self, other)
    }

    /// The date `months` months later, its day clamped to the month's length.
    pub fn add_months(&self, months: u32) -> (r: Option<Date>)
        ensures
            option_ymd(r) == add_months_spec(self@, months as int),
    {
        chrono_add_months(self, months)
    }

    /// The date as `YYYY-MM-DD`.
    pub fn to_text(&self) -> (r: String)
        ensures
            r@ == date_text(self@),
    {
        chrono_format(self)
    }

    /// Parses a `%Y-%m-%d` text as chrono does.
    pub fn parse_text(s: &str) -> (r: Option<Date>)
        ensures
            option_ymd(r) == parsed_date(s@),
            ascii_date_text(s@) ==> (r is Some <==> valid(ymd_of_text(s@))),
            ascii_date_text(s@) ==> (r matches Some(d) ==> d@ == ymd_of_text(s@)),
            (s@.len() == 10 && s@[4] == '-' && s@[7] == '-' && !ascii_date_text(s@) && (forall|
                i: int|
                0 <= i < 10 && i != 4 && i != 7 ==> !is_white(#[trigger] s@[i]) && s@[i] != '+'
                    && s@[i] != '-')) ==> r is None,
    {
        chrono_parse_date(s)
    }
}

/// The current local date.
pub fn today() -> Date {
    chrono_today()
}

pub open spec fn option_ymd(d: Option<Date>) -> Option<Ymd> {
    match d {
        Some(x) => Some(x@),
        None => None,
    }
}

} // verus!
