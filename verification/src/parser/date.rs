//! Dates in the PDF form `D:YYYYMMDDHHmmSSOHH'mm`.

use vstd::prelude::*;
use vstd::string::StrSliceExecFns;

verus! {

/// A date and time with the offset of its time zone from UTC, in seconds.
#[derive(Debug, Clone, Copy, PartialEq, Eq, Structural)]
pub struct Date {
    pub year: i32,
    pub month: u32,
    pub day: u32,
    pub hour: u32,
    pub minute: u32,
    pub second: u32,
    pub offset: i32,
}

/// Why a text is not a date.
#[derive(Debug, Clone, Copy, PartialEq, Eq, Structural)]
pub enum DateError {
    /// The text does not have the form of a date.
    Format,
    /// The date or time does not exist.
    Invalid,
    /// The time zone is malformed or out of range.
    TimeZone,
}

pub open spec fn is_leap_year(y: int) -> bool {
    (y % 4 == 0 && y % 100 != 0) || y % 400 == 0
}

pub open spec fn days_in_month(y: int, m: int) -> int {
    if m == 2 {
        if is_leap_year(y) {
            29
        } else {
            28
        }
    } else if m == 4 || m == 6 || m == 9 || m == 11 {
        30
    } else {
        31
    }
}

/// A day of the proleptic Gregorian calendar.
pub open spec fn calendar_valid(y: int, m: int, d: int) -> bool {
    1 <= m <= 12 && 1 <= d <= days_in_month(y, m)
}

/// A time of day, without leap seconds.
pub open spec fn time_valid(h: int, mi: int, s: int) -> bool {
    0 <= h < 24 && 0 <= mi < 60 && 0 <= s < 60
}

/// Calls `chrono::NaiveDate::from_ymd_opt`, which gives a date exactly when
/// the month and day name a day of the proleptic Gregorian calendar in a
/// year that chrono supports; every year from 0 to 9999 is.
#[verifier::external_body]
fn ymd_valid(year: i32, month: u32, day: u32) -> (r: bool)
    requires
        0 <= year <= 9999,
    ensures
        r == calendar_valid(year as int, month as int, day as int),
{
    chrono::NaiveDate::from_ymd_opt(year, month, day).is_some()
}

/// Calls `chrono::NaiveTime::from_hms_opt`, which gives a time exactly when
/// the hour is below 24 and the minute and second below 60.
#[verifier::external_body]
fn hms_valid(hour: u32, minute: u32, second: u32) -> (r: bool)
    ensures
        r == time_valid(hour as int, minute as int, second as int),
{
    chrono::NaiveTime::from_hms_opt(hour, minute, second).is_some()
}

/// Calls `chrono::FixedOffset::east_opt`, which gives an offset exactly when
/// it lies strictly between -86400 and 86400 seconds.
#[verifier::external_body]
fn offset_valid(secs: i32) -> (r: bool)
    ensures
        r == (-86400 < secs < 86400),
{
    chrono::FixedOffset::east_opt(secs).is_some()
}

pub open spec fn is_digit_char(c: char) -> bool {
    '0' <= c <= '9'
}

/// The value of the decimal digits `t[a..b]`.
pub open spec fn char_digits_value(t: Seq<char>, a: int, b: int) -> int
    decreases b - a,
{
    if b <= a {
        0
    } else {
        char_digits_value(t, a, b - 1) * 10 + (t[b - 1] as int - '0' as int)
    }
}

/// The end of the run of digits that starts at `p`.
pub open spec fn digit_run_end(t: Seq<char>, p: int) -> int
    decreases t.len() - p,
{
    if 0 <= p < t.len() && is_digit_char(t[p]) {
        digit_run_end(t, p + 1)
    } else {
        p
    }
}

/// Whether `t[a..b]` are all digits.
pub open spec fn digit_chars(t: Seq<char>, a: int, b: int) -> bool {
    0 <= a <= b <= t.len() && forall|i: int| a <= i < b ==> #[trigger] is_digit_char(t[i])
}

/// An optional field of two digits at `p`: its value and end, or `default`
/// and `p` when two digits do not follow.
pub open spec fn opt_two(t: Seq<char>, p: int, default: int) -> (int, int) {
    if digit_chars(t, p, p + 2) {
        (char_digits_value(t, p, p + 2), p + 2)
    } else {
        (default, p)
    }
}

/// The parts of a date before its time zone.
pub struct DateParts {
    pub year: int,
    pub month: int,
    pub day: int,
    pub hour: int,
    pub minute: int,
    pub second: int,
    pub end: int,
}

/// `D:`, four digits of year, then optional two-digit month, day, hour,
/// minute and second (1, 1, 0, 0, 0 when missing); the date and the time
/// must exist.
pub open spec fn spec_date_parts(t: Seq<char>) -> Option<DateParts> {
    if !(t.len() >= 2 && t[0] == 'D' && t[1] == ':' && digit_chars(t, 2, 6)) {
        None
    } else {
        let year = char_digits_value(t, 2, 6);
        let (month, p1) = opt_two(t, 6, 1);
        let (day, p2) = opt_two(t, p1, 1);
        let (hour, p3) = opt_two(t, p2, 0);
        let (minute, p4) = opt_two(t, p3, 0);
        let (second, p5) = opt_two(t, p4, 0);
        if calendar_valid(year, month, day) && time_valid(hour, minute, second) {
            Some(DateParts { year, month, day, hour, minute, second, end: p5 })
        } else {
            None
        }
    }
}

/// What the time zone part gives.
pub enum TimeZone {
    /// An offset in seconds and where the zone ends.
    Offset(int, int),
    /// No time zone: nothing is read.
    Absent,
    /// A malformed or out-of-range zone: the date is refused.
    Fails,
    /// The offset does not fit in 32 bits while it is computed.
    Overflow,
}

/// The time zone at `p`: `Z`, or `+` or `-`, the hours, and optionally `'`
/// and the minutes (which must be below 60).
pub open spec fn spec_time_zone(t: Seq<char>, p: int) -> TimeZone {
    if !(0 <= p < t.len()) {
        TimeZone::Absent
    } else if t[p] == 'Z' {
        TimeZone::Offset(0, p + 1)
    } else if t[p] == '+' || t[p] == '-' {
        let e1 = digit_run_end(t, p + 1);
        if e1 == p + 1 || char_digits_value(t, p + 1, e1) > i32::MAX {
            TimeZone::Absent
        } else {
            let hour = char_digits_value(t, p + 1, e1);
            let e3 = digit_run_end(t, e1 + 1);
            let has_minute = e1 < t.len() && t[e1] == '\'' && e3 > e1 + 1 && char_digits_value(
                t,
                e1 + 1,
                e3,
            ) <= i32::MAX;
            let minute = if has_minute {
                char_digits_value(t, e1 + 1, e3)
            } else {
                0
            };
            let end = if has_minute {
                e3
            } else {
                e1
            };
            if minute >= 60 {
                TimeZone::Fails
            } else if hour * 3600 + minute * 60 > i32::MAX {
                TimeZone::Overflow
            } else {
                let secs = if t[p] == '+' {
                    hour * 3600 + minute * 60
                } else {
                    -(hour * 3600 + minute * 60)
                };
                if -86400 < secs < 86400 {
                    TimeZone::Offset(secs, end)
                } else {
                    TimeZone::Fails
                }
            }
        }
    } else {
        TimeZone::Absent
    }
}

/// Whether computing the time zone offset of the date at the start of `t`
/// would not fit in 32 bits.
pub open spec fn date_overflows(t: Seq<char>) -> bool {
    spec_date_parts(t) matches Some(d) && spec_time_zone(t, d.end) is Overflow
}

/// A date at the start of `t`: the date, its offset, and where it ends.
pub open spec fn spec_string_date(t: Seq<char>) -> Option<(DateParts, int, int)> {
    match spec_date_parts(t) {
        None => None,
        Some(d) => match spec_time_zone(t, d.end) {
            TimeZone::Offset(secs, e) => Some((d, secs, e)),
            TimeZone::Absent => Some((d, 0, d.end)),
            _ => None,
        },
    }
}

/// The date that the parts and offset make.
pub open spec fn date_of(d: DateParts, secs: int) -> Date {
    Date {
        year: d.year as i32,
        month: d.month as u32,
        day: d.day as u32,
        hour: d.hour as u32,
        minute: d.minute as u32,
        second: d.second as u32,
        offset: secs as i32,
    }
}

/// The end of the run of digits at `p`.
fn digit_run_at(t: &str, n: usize, p: usize) -> (e: usize)
    requires
        n == t@.len(),
        p <= n,
    ensures
        e == digit_run_end(t@, p as int),
        p <= e <= n,
        digit_chars(t@, p as int, e as int),
{
    let mut i = p;
    while i < n && '0' <= t.get_char(i) && t.get_char(i) <= '9'
        invariant
            p <= i <= n,
            n == t@.len(),
            digit_run_end(t@, i as int) == digit_run_end(t@, p as int),
            digit_chars(t@, p as int, i as int),
        decreases n - i,
    {
        i = i + 1;
    }
    i
}

/// The value of the digits `t[a..b]`, if it fits in `bound`.
fn digits_value_upto(t: &str, a: usize, b: usize, bound: u32) -> (r: Option<u32>)
    requires
        digit_chars(t@, a as int, b as int),
    ensures
        r matches Some(v) ==> v == char_digits_value(t@, a as int, b as int) && v <= bound,
        r is None ==> char_digits_value(t@, a as int, b as int) > bound,
{
    let mut v: u32 = 0;
    let mut over = false;
    let mut i = a;
    while i < b
        invariant
            a <= i <= b <= t@.len(),
            digit_chars(t@, a as int, b as int),
            !over ==> v == char_digits_value(t@, a as int, i as int) && v <= bound,
            over ==> char_digits_value(t@, a as int, i as int) > bound,
            over ==> char_digits_value(t@, a as int, i as int) >= 0,
        decreases b - i,
    {
        let c = t.get_char(i);
        assert(is_digit_char(t@[i as int]));
        let d = (c as u32) - ('0' as u32);
        proof {
            lemma_char_digits_nonneg(t@, a as int, i as int);
        }
        if !over {
            if d > bound || v > (bound - d) / 10 {
                over = true;
            } else {
                assert(v * 10 + d <= bound) by (nonlinear_arith)
                    requires
                        v <= (bound - d) / 10,
                        d <= bound,
                ;
                v = v * 10 + d;
            }
        }
        i = i + 1;
    }
    if over {
        None
    } else {
        Some(v)
    }
}

pub proof fn lemma_char_digits_nonneg(t: Seq<char>, a: int, b: int)
    requires
        digit_chars(t, a, b),
    ensures
        char_digits_value(t, a, b) >= 0,
    decreases b - a,
{
    if b > a {
        assert(is_digit_char(t[b - 1]));
        lemma_char_digits_nonneg(t, a, b - 1);
    }
}

/// An optional two-digit field at `p`.
fn opt_two_at(t: &str, n: usize, p: usize, default: u32) -> (r: (u32, usize))
    requires
        n == t@.len(),
        p <= n,
        default < 100,
    ensures
        (r.0 as int, r.1 as int) == opt_two(t@, p as int, default as int),
        p <= r.1 <= n,
        r.0 < 100,
{
    if n - p >= 2 && '0' <= t.get_char(p) && t.get_char(p) <= '9' && '0' <= t.get_char(p + 1)
        && t.get_char(p + 1) <= '9' {
        let hi = (t.get_char(p) as u32) - ('0' as u32);
        let lo = (t.get_char(p + 1) as u32) - ('0' as u32);
        assert forall|i: int| p <= i < p + 2 implies #[trigger] is_digit_char(t@[i]) by {
            if i == p {
            } else {
                assert(i == p + 1);
            }
        }
        assert(char_digits_value(t@, p as int, p as int) == 0);
        assert(char_digits_value(t@, p as int, p + 1) == hi);
        assert(char_digits_value(t@, p as int, p + 2) == hi * 10 + lo);
        (hi * 10 + lo, p + 2)
    } else {
        proof {
            if digit_chars(t@, p as int, p + 2) {
                assert(is_digit_char(t@[p as int]));
                assert(is_digit_char(t@[p + 1]));
            }
        }
        proof {
            if digit_chars(t@, p as int, p + 2) {
                assert(is_digit_char(t@[p as int]));
                assert(is_digit_char(t@[p + 1]));
            }
        }
        (default, p)
    }
}

/// Reads a date at the start of `input` and gives it with the rest of the
/// input. The date is `D:` and the year, then optional month, day, hour,
/// minute and second of two digits each, which must make an existing date
/// and time; then an optional time zone, `Z` or a signed offset in hours
/// and optionally `'` and minutes (UTC when there is none). A time zone
/// whose offset does not fit in 32 bits while it is computed is not read.
pub fn string_date(input: &str) -> (r: Result<(&str, Date), DateError>)
    requires
        !date_overflows(input@),
    ensures
        match spec_string_date(input@) {
            Some((d, secs, e)) => r matches Ok((rest, date)) && date == date_of(d, secs) && rest@
                == input@.subrange(e, input@.len() as int),
            None => r is Err,
        },
{
    date_checked(input).unwrap()
}

/// Reads a date as [`string_date`] does, when the offset of its time zone
/// fits in 32 bits while it is computed; `None` when it does not.
pub fn date_checked(input: &str) -> (r: Option<Result<(&str, Date), DateError>>)
    ensures
        r is None <==> date_overflows(input@),
        r matches Some(x) ==> match spec_string_date(input@) {
            Some((d, secs, e)) => x matches Ok((rest, date)) && date == date_of(d, secs) && rest@
                == input@.subrange(e, input@.len() as int),
            None => x is Err,
        },
{
    let n = input.unicode_len();
    if !(n >= 6 && input.get_char(0) == 'D' && input.get_char(1) == ':') {
        return Some(Err(DateError::Format));
    }
    let e = digit_run_at(input, n, 2);
    if e < 6 {
        proof {
            if digit_chars(input@, 2, 6) {
                lemma_run_covers(input@, 2, 6);
            }
        }
        return Some(Err(DateError::Format));
    }
    proof {
        assert(digit_chars(input@, 2, 6));
        lemma_char_digits_bound(input@, 2, 6);
        reveal_with_fuel(pow10, 5);
        assert(pow10(4) == 10000);
    }
    let year = match digits_value_upto(input, 2, 6, 9999) {
        Some(v) => v as i32,
        None => {
            return Some(Err(DateError::Format));
        },
    };
    let (month, p1) = opt_two_at(input, n, 6, 1);
    let (day, p2) = opt_two_at(input, n, p1, 1);
    let (hour, p3) = opt_two_at(input, n, p2, 0);
    let (minute, p4) = opt_two_at(input, n, p3, 0);
    let (second, p5) = opt_two_at(input, n, p4, 0);
    if !ymd_valid(year, month, day) || !hms_valid(hour, minute, second) {
        return Some(Err(DateError::Invalid));
    }
    let base = Date { year, month, day, hour, minute, second, offset: 0 };
    if p5 < n && input.get_char(p5) == 'Z' {
        return Some(Ok((input.substring_char(p5 + 1, n), base)));
    }
    if !(p5 < n && (input.get_char(p5) == '+' || input.get_char(p5) == '-')) {
        return Some(Ok((input.substring_char(p5, n), base)));
    }
    let plus = input.get_char(p5) == '+';
    let e1 = digit_run_at(input, n, p5 + 1);
    if e1 == p5 + 1 {
        return Some(Ok((input.substring_char(p5, n), base)));
    }
    let hour_tz = match digits_value_upto(input, p5 + 1, e1, 0x7fff_ffff) {
        Some(v) => v,
        None => {
            return Some(Ok((input.substring_char(p5, n), base)));
        },
    };
    let mut minute_tz: u32 = 0;
    let mut end = e1;
    if e1 < n && input.get_char(e1) == '\'' {
        let e3 = digit_run_at(input, n, e1 + 1);
        if e3 > e1 + 1 {
            match digits_value_upto(input, e1 + 1, e3, 0x7fff_ffff) {
                Some(v) => {
                    minute_tz = v;
                    end = e3;
                },
                None => {},
            }
        }
    }
    if minute_tz >= 60 {
        return Some(Err(DateError::TimeZone));
    }
    if (hour_tz as u64) * 3600 + (minute_tz as u64) * 60 > 0x7fff_ffff {
        return None;
    }
    let magnitude = (hour_tz * 3600 + minute_tz * 60) as i32;
    let secs = if plus {
        magnitude
    } else {
        -magnitude
    };
    if !offset_valid(secs) {
        return Some(Err(DateError::TimeZone));
    }
    Some(Ok((input.substring_char(end, n), Date { offset: secs, ..base })))
}

/// A run of digits that reaches `b` covers all of `a..b`.
proof fn lemma_run_covers(t: Seq<char>, a: int, b: int)
    requires
        digit_chars(t, a, b),
    ensures
        digit_run_end(t, a) >= b,
    decreases t.len() - a,
{
    if a < b {
        assert(is_digit_char(t[a]));
        lemma_run_covers(t, a + 1, b);
    } else {
        lemma_run_end_ge(t, a);
    }
}

proof fn lemma_run_end_ge(t: Seq<char>, p: int)
    ensures
        digit_run_end(t, p) >= p,
    decreases t.len() - p,
{
    if 0 <= p < t.len() && is_digit_char(t[p]) {
        lemma_run_end_ge(t, p + 1);
    }
}

pub open spec fn pow10(n: nat) -> nat
    decreases n,
{
    if n == 0 {
        1
    } else {
        10 * pow10((n - 1) as nat)
    }
}

/// `n` digits stand for a number below `10^n`.
proof fn lemma_char_digits_bound(t: Seq<char>, a: int, b: int)
    requires
        digit_chars(t, a, b),
    ensures
        char_digits_value(t, a, b) < pow10((b - a) as nat),
    decreases b - a,
{
    if b > a {
        assert(is_digit_char(t[b - 1]));
        lemma_char_digits_bound(t, a, b - 1);
        lemma_char_digits_nonneg(t, a, b - 1);
        assert(pow10((b - a) as nat) == 10 * pow10((b - 1 - a) as nat));
    }
}

} // verus!
