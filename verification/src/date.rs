use vstd::prelude::*;
use chrono::{Datelike, NaiveDate};

verus! {

/// A calendar day of the proleptic Gregorian calendar. A todo.txt date names
/// a day only; where a stored date needs an instant, it is midnight UTC of
/// that day.
#[derive(Clone, Copy, Debug, PartialEq, Eq, Structural)]
pub struct Date {
    pub year: i32,
    pub month: u32,
    pub day: u32,
}

/// Whether `y` is a Gregorian leap year.
pub open spec fn is_leap_year(y: int) -> bool {
    (y % 4 == 0 && y % 100 != 0) || y % 400 == 0
}

/// The number of days of month `m` (1 to 12) of year `y`.
pub open spec fn days_in_month(y: int, m: int) -> int {
    if m == 2 {
        if is_leap_year(y) {
            29
        } else {
            28
        }
    } else if m == 4 || m == 6 || m == 9 || m == 11 {
        30
    } else {
        31
    }
}

/// Whether the triple names a day of the calendar.
pub open spec fn is_valid_ymd(y: int, m: int, d: int) -> bool {
    1 <= m <= 12 && 1 <= d <= days_in_month(y, m)
}

impl Date {
    /// Whether this names an existing day with a year of four digits.
    pub open spec fn is_valid(self) -> bool {
        0 <= self.year <= 9999 && is_valid_ymd(self.year as int, self.month as int, self.day as int)
    }
}

/// Whether `c` is an ASCII decimal digit.
pub open spec fn is_digit(c: char) -> bool {
    '0' <= c && c <= '9'
}

/// The value of a decimal digit.
pub open spec fn digit_value(c: char) -> int {
    (c as int) - ('0' as int)
}

/// The value of the decimal digits `s[lo..hi]`.
pub open spec fn digits_value(s: Seq<char>, lo: int, hi: int) -> int
    decreases hi - lo,
{
    if hi <= lo {
        0
    } else {
        digits_value(s, lo, hi - 1) * 10 + digit_value(s[hi - 1])
    }
}

/// Whether `s` has the shape `DDDD-DD-DD` of a todo.txt date.
pub open spec fn is_date_shaped(s: Seq<char>) -> bool {
    &&& s.len() == 10
    &&& is_digit(s[0]) && is_digit(s[1]) && is_digit(s[2]) && is_digit(s[3])
    &&& s[4] == '-'
    &&& is_digit(s[5]) && is_digit(s[6])
    &&& s[7] == '-'
    &&& is_digit(s[8]) && is_digit(s[9])
}

/// The day that a date-shaped text names, when it names one.
pub open spec fn date_of_text(s: Seq<char>) -> Option<Date> {
    let y = digits_value(s, 0, 4);
    let m = digits_value(s, 5, 7);
    let d = digits_value(s, 8, 10);
    if is_valid_ymd(y, m, d) {
        Some(Date { year: y as i32, month: m as u32, day: d as u32 })
    } else {
        None
    }
}

/// The two decimal digits of `n` (below 100).
pub open spec fn two_digits(n: int) -> Seq<char> {
    seq![(48 + n / 10) as char, (48 + n % 10) as char]
}

/// The `YYYY-MM-DD` text of a day with a four-digit year.
pub open spec fn date_text(d: Date) -> Seq<char> {
    two_digits(d.year / 100) + two_digits((d.year as int) % 100) + seq!['-'] + two_digits(d.month as int)
        + seq!['-'] + two_digits(d.day as int)
}

/// The RFC 3339 text of midnight UTC of a day with a four-digit year.
pub open spec fn midnight_rfc3339_text(d: Date) -> Seq<char> {
    date_text(d) + seq!['T', '0', '0', ':', '0', '0', ':', '0', '0', '+', '0', '0', ':', '0', '0']
}

/// A day written as `YYYY-MM-DD` reads back as the same day: formatting a
/// valid date and parsing the text again gives the date back.
pub proof fn law_date_text_reads_back(d: Date)
    requires
        d.is_valid(),
    ensures
        is_date_shaped(date_text(d)),
        date_of_text(date_text(d)) == Some(d),
{
    let t = date_text(d);
    let y = d.year as int;
    let m = d.month as int;
    let day = d.day as int;
    let hi = y / 100;
    let lo = y % 100;
    assert(0 <= hi < 100 && 0 <= lo < 100);
    assert(t.len() == 10);
    assert(t[0] == ((48 + hi / 10) as char) && t[1] == ((48 + hi % 10) as char));
    assert(t[2] == ((48 + lo / 10) as char) && t[3] == ((48 + lo % 10) as char));
    assert(t[4] == '-' && t[7] == '-');
    assert(t[5] == ((48 + m / 10) as char) && t[6] == ((48 + m % 10) as char));
    assert(t[8] == ((48 + day / 10) as char) && t[9] == ((48 + day % 10) as char));
    assert(digit_value(t[0]) == hi / 10 && digit_value(t[1]) == hi % 10);
    assert(digit_value(t[2]) == lo / 10 && digit_value(t[3]) == lo % 10);
    assert(digit_value(t[5]) == m / 10 && digit_value(t[6]) == m % 10);
    assert(digit_value(t[8]) == day / 10 && digit_value(t[9]) == day % 10);
    reveal_with_fuel(digits_value, 5);
    assert(digits_value(t, 0, 4) == ((hi / 10 * 10 + hi % 10) * 10 + lo / 10) * 10 + lo % 10);
    assert(digits_value(t, 5, 7) == m / 10 * 10 + m % 10);
    assert(digits_value(t, 8, 10) == day / 10 * 10 + day % 10);
    assert(hi / 10 * 10 + hi % 10 == hi) by (nonlinear_arith)
        requires 0 <= hi < 100;
    assert(lo / 10 * 10 + lo % 10 == lo) by (nonlinear_arith)
        requires 0 <= lo < 100;
    assert((hi * 10 + lo / 10) * 10 + lo % 10 == y) by (nonlinear_arith)
        requires hi == y / 100, lo == y % 100, lo / 10 * 10 + lo % 10 == lo, 0 <= y;
    assert(m / 10 * 10 + m % 10 == m) by (nonlinear_arith)
        requires 0 <= m;
    assert(day / 10 * 10 + day % 10 == day) by (nonlinear_arith)
        requires 0 <= day;
}

/// Calls `chrono::NaiveDate::parse_from_str(s, "%Y-%m-%d")`. On a text of the
/// shape `DDDD-DD-DD` chrono reads the three numbers and accepts them exactly
/// when they name a day of the proleptic Gregorian calendar.
#[verifier::external_body]
pub(crate) fn parse_date(s: &str) -> (r: Option<Date>)
    requires
        is_date_shaped(s@),
    ensures
        r == date_of_text(s@),
{
    match NaiveDate::parse_from_str(s, "%Y-%m-%d") {
        Ok(d) => Some(Date { year: d.year(), month: d.month(), day: d.day() }),
        Err(_) => None,
    }
}

/// Calls `chrono::NaiveDate::format(&d, "%Y-%m-%d")` and `to_string`. For a
/// year of four digits chrono writes the zero-padded year, month and day
/// joined by hyphens.
#[verifier::external_body]
pub(crate) fn format_date(d: Date) -> (r: String)
    requires
        d.is_valid(),
    ensures
        r@ == date_text(d),
{
    let nd = NaiveDate::from_ymd_opt(d.year, d.month, d.day).unwrap();
    nd.format("%Y-%m-%d").to_string()
}

/// Calls `chrono::DateTime::<Utc>::to_rfc3339` on midnight UTC of `d`. For a
/// year of four digits chrono writes `YYYY-MM-DDT00:00:00+00:00`: no fraction
/// of a second, since there is none, and the offset as `+00:00`.
#[verifier::external_body]
pub(crate) fn midnight_rfc3339(d: Date) -> (r: String)
    requires
        d.is_valid(),
    ensures
        r@ == midnight_rfc3339_text(d),
{
    let nd = NaiveDate::from_ymd_opt(d.year, d.month, d.day).unwrap();
    nd.and_hms_opt(0, 0, 0).unwrap().and_utc().to_rfc3339()
}

/// Whether day `a` comes before day `b` or is the same day.
pub open spec fn date_le(a: Date, b: Date) -> bool {
    a.year < b.year || (a.year == b.year && (a.month < b.month || (a.month == b.month && a.day
        <= b.day)))
}

/// Whether day `a` is not later than day `b`, as `NaiveDate`'s order decides.
pub fn date_not_after(a: Date, b: Date) -> (r: bool)
    ensures
        r == date_le(a, b),
{
    a.year < b.year || (a.year == b.year && (a.month < b.month || (a.month == b.month && a.day
        <= b.day)))
}

/// `date_le` is the chronological order of days: a total order in which a
/// day of an earlier year comes first, then within a year a day of an
/// earlier month, then within a month the earlier day.
pub proof fn law_date_order_is_chronological(a: Date, b: Date, c: Date)
    ensures
        date_le(a, a),
        date_le(a, b) && date_le(b, a) ==> a == b,
        date_le(a, b) && date_le(b, c) ==> date_le(a, c),
        date_le(a, b) || date_le(b, a),
        a.year < b.year ==> date_le(a, b) && !date_le(b, a),
        a.year == b.year && a.month < b.month ==> date_le(a, b) && !date_le(b, a),
        a.year == b.year && a.month == b.month ==> (date_le(a, b) <==> a.day <= b.day),
{
}

} // verus!
