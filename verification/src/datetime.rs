//! Dates and times of tracks, read and written through `chrono`.
use chrono::{Datelike, NaiveDate, NaiveDateTime, Timelike};
use vstd::prelude::*;

verus! {

/// The format in which track times are read and written.
pub const TIME_FORMAT: &'static str = "%Y-%m-%d %H:%M:%S";

/// A date and time without a time zone, as `chrono::NaiveDateTime` holds it:
/// the proleptic Gregorian date, the time of day, and the nanoseconds within
/// the second, which reach `1_000_000_000` and above only in a leap second
/// (then `second` is 59).
#[derive(Clone, Copy, Debug, PartialEq, Eq, Structural)]
pub struct DateTime {
    pub year: i32,
    pub month: u32,
    pub day: u32,
    pub hour: u32,
    pub minute: u32,
    pub second: u32,
    pub nanosecond: u32,
}

/// The smallest year that `chrono` represents.
pub open spec fn min_year() -> int {
    -262143
}

/// The largest year that `chrono` represents.
pub open spec fn max_year() -> int {
    262142
}

/// Leap years of the proleptic Gregorian calendar.
pub open spec fn is_leap_year(y: int) -> bool {
    (y % 4 == 0 && y % 100 != 0) || y % 400 == 0
}

/// The number of days of a month.
pub open spec fn days_in_month(y: int, m: int) -> int {
    if m == 2 {
        if is_leap_year(y) {
            29
        } else {
            28
        }
    } else if m == 4 || m == 6 || m == 9 || m == 11 {
        30
    } else {
        31
    }
}

/// Whether `y-m-d` is a date of the calendar.
pub open spec fn valid_date(y: int, m: int, d: int) -> bool {
    1 <= m <= 12 && 1 <= d <= days_in_month(y, m)
}

impl DateTime {
    /// The values that `chrono` accepts for a date and time.
    pub open spec fn wf(self) -> bool {
        &&& min_year() <= self.year <= max_year()
        &&& valid_date(self.year as int, self.month as int, self.day as int)
        &&& self.hour < 24
        &&& self.minute < 60
        &&& self.second < 60
        &&& self.nanosecond < 2_000_000_000
        &&& (self.nanosecond >= 1_000_000_000 ==> self.second == 59)
    }
}

/// The number of days of a month, for a year and month within range.
fn month_length(year: i32, month: u32) -> (r: u32)
    requires
        1 <= month <= 12,
    ensures
        r == days_in_month(year as int, month as int),
{
    if month == 2 {
        if (year % 4 == 0 && year % 100 != 0) || year % 400 == 0 {
            29
        } else {
            28
        }
    } else if month == 4 || month == 6 || month == 9 || month == 11 {
        30
    } else {
        31
    }
}

impl DateTime {
    /// Tests whether the fields form a date and time that `chrono` holds.
    pub fn is_valid(&self) -> (r: bool)
        ensures
            r == self.wf(),
    {
        if self.year < -262143 || self.year > 262142 || self.month < 1 || self.month > 12 {
            return false;
        }
        let days = month_length(self.year, self.month);
        self.day >= 1 && self.day <= days && self.hour < 24 && self.minute < 60 && self.second < 60
            && self.nanosecond < 2_000_000_000 && (self.nanosecond < 1_000_000_000
            || self.second == 59)
    }
}

/// The number of days before January 1st of year `y`, counted from year 0.
pub open spec fn days_before_year(y: int) -> int {
    365 * y + (y + 3) / 4 - (y + 99) / 100 + (y + 399) / 400
}

/// The number of days of year `y` before the first day of month `m`.
pub open spec fn days_before_month(y: int, m: int) -> int
    decreases m,
{
    if m <= 1 {
        0
    } else {
        days_before_month(y, m - 1) + days_in_month(y, m - 1)
    }
}

/// The number of the day of a date, counted from January 1st of year 0.
pub open spec fn day_number(y: int, m: int, d: int) -> int {
    days_before_year(y) + days_before_month(y, m) + d - 1
}

/// The whole seconds since midnight of the time of a date and time.
pub open spec fn seconds_of_day(t: DateTime) -> int {
    t.hour * 3600 + t.minute * 60 + t.second
}

/// What `end.signed_duration_since(start).num_seconds()` gives in `chrono`:
/// the days between the dates, the seconds between the times with the leap
/// second counted, and the nanoseconds, rounded toward zero.
pub open spec fn spec_seconds_between(end: DateTime, start: DateTime) -> int {
    let s1 = seconds_of_day(end);
    let s2 = seconds_of_day(start);
    let adj: int = if s1 > s2 && start.nanosecond >= 1_000_000_000 {
        1
    } else if s1 < s2 && end.nanosecond >= 1_000_000_000 {
        -1
    } else {
        0
    };
    let fd = end.nanosecond - start.nanosecond;
    let days = day_number(end.year as int, end.month as int, end.day as int) - day_number(
        start.year as int,
        start.month as int,
        start.day as int,
    );
    let secs = days * 86400 + (s1 - s2) + adj + fd / 1_000_000_000;
    let nanos = fd % 1_000_000_000;
    if secs < 0 && nanos > 0 {
        secs + 1
    } else {
        secs
    }
}

/// The decimal digit of a number below ten.
pub open spec fn digit_char(d: int) -> char {
    if d == 0 {
        '0'
    } else if d == 1 {
        '1'
    } else if d == 2 {
        '2'
    } else if d == 3 {
        '3'
    } else if d == 4 {
        '4'
    } else if d == 5 {
        '5'
    } else if d == 6 {
        '6'
    } else if d == 7 {
        '7'
    } else if d == 8 {
        '8'
    } else {
        '9'
    }
}

/// The decimal digits of a natural number, without leading zeros.
pub open spec fn spec_decimal(n: nat) -> Seq<char>
    decreases n,
{
    if n < 10 {
        seq![digit_char(n as int)]
    } else {
        spec_decimal(n / 10).push(digit_char((n % 10) as int))
    }
}

/// The decimal text of an integer, with a `-` before a negative one.
pub open spec fn spec_int_text(n: int) -> Seq<char> {
    if n < 0 {
        seq!['-'] + spec_decimal((-n) as nat)
    } else {
        spec_decimal(n as nat)
    }
}

/// A text padded on the left with zeros up to a width.
pub open spec fn zero_pad(s: Seq<char>, width: nat) -> Seq<char> {
    if s.len() >= width {
        s
    } else {
        Seq::new((width - s.len()) as nat, |i: int| '0') + s
    }
}

/// The decimal digits of a natural number, padded with zeros to a width.
pub open spec fn padded(n: nat, width: nat) -> Seq<char> {
    zero_pad(spec_decimal(n), width)
}

/// The text of a year as `%Y` writes it: four digits for years 0 to 9999,
/// and otherwise a sign and at least four digits.
pub open spec fn year_text(y: int) -> Seq<char> {
    if 0 <= y <= 9999 {
        padded(y as nat, 4)
    } else if y < 0 {
        seq!['-'] + padded((-y) as nat, 4)
    } else {
        seq!['+'] + padded(y as nat, 4)
    }
}

/// The text of a date and time in the format `%Y-%m-%d %H:%M:%S`; a leap
/// second shows as second 60.
pub open spec fn spec_format_datetime(t: DateTime) -> Seq<char> {
    year_text(t.year as int) + seq!['-'] + padded(t.month as nat, 2) + seq!['-'] + padded(
        t.day as nat,
        2,
    ) + seq![' '] + padded(t.hour as nat, 2) + seq![':'] + padded(t.minute as nat, 2) + seq![':']
        + padded((t.second + t.nanosecond / 1_000_000_000) as nat, 2)
}

/// The value of an ASCII digit.
pub open spec fn digit_value(c: char) -> int {
    c as int - '0' as int
}

/// Whether a character is an ASCII digit.
pub open spec fn is_ascii_digit(c: char) -> bool {
    '0' <= c <= '9'
}

/// Whether the characters `s[from..from + n]` are ASCII digits.
pub open spec fn digits_at(s: Seq<char>, from: int, n: int) -> bool {
    forall|i: int| from <= i < from + n ==> is_ascii_digit(#[trigger] s[i])
}

/// The value of the decimal number written in `s[from..from + n]`.
pub open spec fn number_at(s: Seq<char>, from: int, n: int) -> int
    decreases n,
{
    if n <= 0 {
        0
    } else {
        number_at(s, from, n - 1) * 10 + digit_value(s[from + n - 1])
    }
}

/// The fields of a text of the exact shape `YYYY-MM-DD hh:mm:ss` written
/// with ASCII digits.
pub open spec fn canonical_fields(s: Seq<char>) -> Option<(int, int, int, int, int, int)> {
    if s.len() == 19 && digits_at(s, 0, 4) && s[4] == '-' && digits_at(s, 5, 2) && s[7] == '-'
        && digits_at(s, 8, 2) && s[10] == ' ' && digits_at(s, 11, 2) && s[13] == ':' && digits_at(
        s,
        14,
        2,
    ) && s[16] == ':' && digits_at(s, 17, 2) {
        Some(
            (
                number_at(s, 0, 4),
                number_at(s, 5, 2),
                number_at(s, 8, 2),
                number_at(s, 11, 2),
                number_at(s, 14, 2),
                number_at(s, 17, 2),
            ),
        )
    } else {
        None
    }
}

/// What `chrono` reads from a text of the shape `YYYY-MM-DD hh:mm:ss` in
/// the format `%Y-%m-%d %H:%M:%S`: the fields where they form a date and a
/// time, second 60 being a leap second.
pub open spec fn spec_parse_canonical(f: (int, int, int, int, int, int)) -> Option<DateTime> {
    let (y, mo, d, h, mi, se) = f;
    if valid_date(y, mo, d) && h < 24 && mi < 60 && se <= 60 {
        Some(
            DateTime {
                year: y as i32,
                month: mo as u32,
                day: d as u32,
                hour: h as u32,
                minute: mi as u32,
                second: if se == 60 {
                    59
                } else {
                    se as u32
                },
                nanosecond: if se == 60 {
                    1_000_000_000
                } else {
                    0
                },
            },
        )
    } else {
        None
    }
}

/// What `chrono::NaiveDateTime::parse_from_str(s, fmt)` gives, as the fields
/// of the date and time.
pub uninterp spec fn chrono_parse_datetime(s: Seq<char>, fmt: Seq<char>) -> Option<DateTime>;

/// Reads a date and time with `chrono::NaiveDateTime::parse_from_str`.
///
/// Claims that the result is a function of the text and the format, that
/// whatever is read is a valid `chrono` value, and, for the format
/// `%Y-%m-%d %H:%M:%S` and a text of the shape `YYYY-MM-DD hh:mm:ss` in
/// ASCII digits, what chrono's parser (`format/parsed.rs`) does: month
/// 1..=12, a day of that month, hour below 24, minute below 60, and second
/// up to 60, where 60 is a leap second held as second 59 with
/// 1_000_000_000 nanoseconds.  Other texts are left to the name.
#[verifier::external_body]
pub(crate) fn parse_datetime(s: &str, fmt: &str) -> (r: Option<DateTime>)
    ensures
        r == chrono_parse_datetime(s@, fmt@),
        r matches Some(d) ==> d.wf(),
        fmt@ == TIME_FORMAT@ ==> (canonical_fields(s@) matches Some(f) ==> r
            == spec_parse_canonical(f)),
{
    match NaiveDateTime::parse_from_str(s, fmt) {
        Ok(d) => Some(DateTime {
            year: d.year(),
            month: d.month(),
            day: d.day(),
            hour: d.hour(),
            minute: d.minute(),
            second: d.second(),
            nanosecond: d.nanosecond(),
        }),
        Err(_) => None,
    }
}

/// Writes a date and time with `chrono`'s `format("%Y-%m-%d %H:%M:%S")`.
///
/// Claims what chrono's formatter (`format/formatting.rs`) writes for these
/// items: the year zero-padded to four digits (with a sign outside 0..=9999),
/// then month, day, hour, minute and second zero-padded to two digits, the
/// second counting a leap second as 60.
#[verifier::external_body]
pub(crate) fn format_datetime(t: &DateTime, fmt: &str) -> (r: String)
    requires
        t.wf(),
        fmt@ == TIME_FORMAT@,
    ensures
        r@ == spec_format_datetime(*t),
{
    let d = NaiveDate::from_ymd_opt(t.year, t.month, t.day).unwrap();
    let d = d.and_hms_nano_opt(t.hour, t.minute, t.second, t.nanosecond).unwrap();
    d.format(fmt).to_string()
}

/// The whole seconds from `start` to `end`, by `chrono`'s
/// `signed_duration_since` and `num_seconds`.
///
/// Claims what the chrono source (`NaiveDate::signed_duration_since`,
/// `NaiveTime::signed_duration_since`, `TimeDelta::num_seconds`) computes:
/// `spec_seconds_between`.
#[verifier::external_body]
pub(crate) fn seconds_between(end: &DateTime, start: &DateTime) -> (r: i64)
    requires
        end.wf(),
        start.wf(),
    ensures
        r == spec_seconds_between(*end, *start),
{
    let e = NaiveDate::from_ymd_opt(end.year, end.month, end.day).unwrap();
    let e = e.and_hms_nano_opt(end.hour, end.minute, end.second, end.nanosecond).unwrap();
    let s = NaiveDate::from_ymd_opt(start.year, start.month, start.day).unwrap();
    let s = s.and_hms_nano_opt(start.hour, start.minute, start.second, start.nanosecond).unwrap();
    e.signed_duration_since(s).num_seconds()
}

} // verus!

verus! {

/// The days of a year: 366 in a leap year, else 365.
pub open spec fn days_in_year(y: int) -> int {
    if is_leap_year(y) {
        366
    } else {
        365
    }
}

/// Consecutive years are `days_in_year` apart.
proof fn lemma_days_before_next_year(y: int)
    ensures
        days_before_year(y + 1) == days_before_year(y) + days_in_year(y),
{
    assert((y + 4) / 4 == (y + 3) / 4 + (if y % 4 == 0 { 1int } else { 0 })) by {
        assert(y == 4 * (y / 4) + y % 4);
    }
    assert((y + 100) / 100 == (y + 99) / 100 + (if y % 100 == 0 { 1int } else { 0 })) by {
        assert(y == 100 * (y / 100) + y % 100);
    }
    assert((y + 400) / 400 == (y + 399) / 400 + (if y % 400 == 0 { 1int } else { 0 })) by {
        assert(y == 400 * (y / 400) + y % 400);
    }
    if y % 400 == 0 {
        assert(y % 100 == 0) by {
            assert(y == 400 * (y / 400));
            assert(y == 100 * (4 * (y / 400)));
        }
        assert(y % 4 == 0) by {
            assert(y == 4 * (100 * (y / 400)));
        }
    } else if y % 100 == 0 {
        assert(y % 4 == 0) by {
            assert(y == 100 * (y / 100));
            assert(y == 4 * (25 * (y / 100)));
        }
    }
}

/// Years further on start later: by at least the days of the earlier year.
proof fn lemma_days_before_year_monotonic(y1: int, y2: int)
    requires
        y1 < y2,
    ensures
        days_before_year(y1) + days_in_year(y1) <= days_before_year(y2),
    decreases y2 - y1,
{
    lemma_days_before_next_year(y1);
    if y1 + 1 < y2 {
        lemma_days_before_year_monotonic(y1 + 1, y2);
    }
}

/// The months before month `m` (1 to 13) and the days of month `m` add up.
proof fn lemma_days_before_month_bounds(y: int, m1: int, m2: int)
    requires
        1 <= m1 < m2 <= 13,
    ensures
        days_before_month(y, m1) + days_in_month(y, m1) <= days_before_month(y, m2),
    decreases m2 - m1,
{
    if m1 + 1 < m2 {
        lemma_days_before_month_bounds(y, m1 + 1, m2);
    }
}

/// No month starts before the year.
proof fn lemma_days_before_month_nonneg(y: int, m: int)
    ensures
        days_before_month(y, m) >= 0,
    decreases m,
{
    if m > 1 {
        lemma_days_before_month_nonneg(y, m - 1);
    }
}

/// All twelve months make a year.
proof fn lemma_days_before_month_13(y: int)
    ensures
        days_before_month(y, 13) == days_in_year(y),
{
    reveal_with_fuel(days_before_month, 13);
}

/// The seconds of a date and time from the start of year 0, leap seconds
/// aside.
pub open spec fn instant_seconds(t: DateTime) -> int {
    day_number(t.year as int, t.month as int, t.day as int) * 86400 + seconds_of_day(t)
}

/// Whether `a` comes before `b` on the calendar and the clock.
pub open spec fn earlier(a: DateTime, b: DateTime) -> bool {
    ||| a.year < b.year
    ||| a.year == b.year && a.month < b.month
    ||| a.year == b.year && a.month == b.month && a.day < b.day
    ||| a.year == b.year && a.month == b.month && a.day == b.day && seconds_of_day(a)
        < seconds_of_day(b)
}

/// A date and time that comes earlier has fewer seconds.
proof fn lemma_earlier_instant(a: DateTime, b: DateTime)
    requires
        a.wf(),
        b.wf(),
        earlier(a, b),
    ensures
        instant_seconds(a) < instant_seconds(b),
{
    let (ya, ma, da) = (a.year as int, a.month as int, a.day as int);
    let (yb, mb, db) = (b.year as int, b.month as int, b.day as int);
    if ya < yb {
        lemma_days_before_year_monotonic(ya, yb);
        if ma < 13 {
            lemma_days_before_month_bounds(ya, ma, 13);
        }
        lemma_days_before_month_13(ya);
        assert(day_number(ya, ma, da) < days_before_year(yb));
        lemma_days_before_month_nonneg(yb, mb);
        assert(day_number(ya, ma, da) + 1 <= day_number(yb, mb, db));
    } else if ya == yb && ma < mb {
        lemma_days_before_month_bounds(ya, ma, mb);
        assert(da <= days_in_month(ya, ma));
        assert(days_before_month(ya, ma) + da <= days_before_month(yb, mb));
        assert(day_number(ya, ma, da) + 1 <= day_number(yb, mb, db));
    }
}

/// Swapping the two times negates the duration, for every pair of values,
/// leap seconds and nanoseconds included: the whole seconds are rounded
/// toward zero either way.
pub proof fn law_duration_antisymmetric(a: DateTime, b: DateTime)
    requires
        a.wf(),
        b.wf(),
    ensures
        spec_seconds_between(a, b) == -spec_seconds_between(b, a),
{
    let fd = a.nanosecond - b.nanosecond;
    assert(-2_000_000_000 < fd < 2_000_000_000);
    let q = fd / 1_000_000_000;
    let r = fd % 1_000_000_000;
    let q2 = (-fd) / 1_000_000_000;
    let r2 = (-fd) % 1_000_000_000;
    assert(fd == q * 1_000_000_000 + r && 0 <= r < 1_000_000_000);
    assert(-fd == q2 * 1_000_000_000 + r2 && 0 <= r2 < 1_000_000_000);
    if r == 0 {
        assert(r2 == 0 && q2 == -q);
    } else {
        assert(r2 == 1_000_000_000 - r && q2 == -q - 1);
    }
}

/// A track that ends when it starts lasts zero seconds, one that ends
/// before it starts lasts a negative number of seconds, and one that ends
/// after it starts a positive number; swapping the times negates the
/// duration (for times read from descriptions, which carry no fraction of a
/// second; a leap second is read as second 59 with a full second of
/// nanoseconds).
pub proof fn law_duration_sign(start: DateTime, end: DateTime)
    requires
        start.wf(),
        end.wf(),
        start.nanosecond == 0,
        end.nanosecond == 0,
    ensures
        spec_seconds_between(end, start) == instant_seconds(end) - instant_seconds(start),
        end == start ==> spec_seconds_between(end, start) == 0,
        earlier(end, start) ==> spec_seconds_between(end, start) < 0,
        earlier(start, end) ==> spec_seconds_between(end, start) > 0,
        spec_seconds_between(start, end) == -spec_seconds_between(end, start),
{
    if earlier(end, start) {
        lemma_earlier_instant(end, start);
    }
    if earlier(start, end) {
        lemma_earlier_instant(start, end);
    }
}

} // verus!
