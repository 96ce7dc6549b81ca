//! Local date and time as written in a header: `YYYY/MM/DD hh:mm:ss`.
//!
//! A `LocalTime` is a wall-clock date and time in the machine's time zone. It
//! is formatted and parsed by `chrono`; reading the clock and resolving the
//! time zone depend on the machine and are stated only as far as every outcome
//! allows.
use chrono::{Datelike, Local, NaiveDate, NaiveDateTime, TimeZone, Timelike};
use vstd::prelude::*;
use vstd::utf8::is_ascii_chars;
use crate::text::{trim, trim_chars};

verus! {

/// The format of dates in a header.
pub const DATE_FORMAT: &'static str = "%Y/%m/%d %H:%M:%S";

/// The earliest year a date can have.
pub const MIN_YEAR: i32 = -262143;

/// The latest year a date can have.
pub const MAX_YEAR: i32 = 262142;

/// A wall-clock date and time. A `nanosecond` of one billion or more marks a
/// leap second (shown as second 60).
#[derive(Clone, Copy, Debug, PartialEq, Eq, Structural)]
pub struct LocalTime {
    pub year: i32,
    pub month: u32,
    pub day: u32,
    pub hour: u32,
    pub minute: u32,
    pub second: u32,
    pub nanosecond: u32,
}

/// Leap years of the proleptic Gregorian calendar.
pub open spec fn is_leap_year(y: int) -> bool {
    (y % 4 == 0 && y % 100 != 0) || y % 400 == 0
}

/// The number of days of month `m` of year `y`.
pub open spec fn days_in_month(y: int, m: int) -> int {
    if m == 2 {
        if is_leap_year(y) {
            29
        } else {
            28
        }
    } else if m == 4 || m == 6 || m == 9 || m == 11 {
        30
    } else {
        31
    }
}

impl LocalTime {
    /// A real calendar date and time of day within the supported years.
    pub open spec fn valid(self) -> bool {
        &&& MIN_YEAR <= self.year <= MAX_YEAR
        &&& 1 <= self.month <= 12
        &&& 1 <= self.day <= days_in_month(self.year as int, self.month as int)
        &&& self.hour < 24
        &&& self.minute < 60
        &&& self.second < 60
        &&& self.nanosecond < 2_000_000_000
        &&& self.nanosecond >= 1_000_000_000 ==> self.second == 59
    }

    /// The second as shown: 60 during a leap second.
    pub open spec fn shown_second(self) -> nat {
        if self.nanosecond >= 1_000_000_000 {
            (self.second + 1) as nat
        } else {
            self.second as nat
        }
    }
}

/// The character of the decimal digit `d`.
pub open spec fn digit_char(d: int) -> char {
    (48 + d) as char
}

/// The decimal digits of `n`, without leading zeros.
pub open spec fn decimal(n: nat) -> Seq<char>
    decreases n,
{
    if n < 10 {
        seq![digit_char(n as int)]
    } else {
        decimal(n / 10).push(digit_char((n % 10) as int))
    }
}

/// The decimal digits of `n`, with leading zeros up to `w` digits.
pub open spec fn zero_padded(n: nat, w: nat) -> Seq<char> {
    let d = decimal(n);
    if d.len() >= w {
        d
    } else {
        Seq::new((w - d.len()) as nat, |i: int| '0') + d
    }
}

/// A year as written: four digits for years 0 to 9999, and otherwise a sign
/// followed by at least four digits.
pub open spec fn year_text(y: int) -> Seq<char> {
    if 0 <= y <= 9999 {
        zero_padded(y as nat, 4)
    } else if y < 0 {
        seq!['-'] + zero_padded((-y) as nat, 4)
    } else {
        seq!['+'] + zero_padded(y as nat, 4)
    }
}

/// The text of a date and time in a header, `YYYY/MM/DD hh:mm:ss`.
pub open spec fn date_text(t: LocalTime) -> Seq<char> {
    year_text(t.year as int) + seq!['/'] + zero_padded(t.month as nat, 2) + seq!['/']
        + zero_padded(t.day as nat, 2) + seq![' '] + zero_padded(t.hour as nat, 2) + seq![':']
        + zero_padded(t.minute as nat, 2) + seq![':'] + zero_padded(t.shown_second(), 2)
}

/// `t` in whole seconds: its fraction of a second dropped, a leap second
/// kept as one.
pub open spec fn whole_seconds(t: LocalTime) -> LocalTime {
    LocalTime {
        year: t.year,
        month: t.month,
        day: t.day,
        hour: t.hour,
        minute: t.minute,
        second: t.second,
        nanosecond: if t.nanosecond >= 1_000_000_000 {
            1_000_000_000
        } else {
            0
        },
    }
}

/// What `NaiveDateTime::parse_from_str` gives for a text and a format.
pub uninterp spec fn chrono_parse(text: Seq<char>, format: Seq<char>) -> Option<LocalTime>;

/// `NaiveDateTime::format` followed by `to_string`, with the header date
/// format: the year (four digits, or a sign and at least four digits outside
/// 0..=9999), then month, day, hour, minute and second on two digits each.
#[verifier::external_body]
fn format_with(t: &LocalTime, format: &str) -> (r: String)
    requires
        t.valid(),
        format@ == DATE_FORMAT@,
    ensures
        r@ == date_text(*t),
{
    let date = NaiveDate::from_ymd_opt(t.year, t.month, t.day).unwrap();
    date.and_hms_nano_opt(t.hour, t.minute, t.second, t.nanosecond).unwrap().format(
        format,
    ).to_string()
}

/// `NaiveDateTime::parse_from_str`. Its result is named `chrono_parse`; any
/// time it returns is a valid one, and the header date format reads back its
/// own text of a time in the years 0 to 9999 as that time in whole seconds
/// (`%Y` takes four digits, `%S` of 60 is a leap second). Which other texts it
/// accepts (chrono's parsing rules) is left to the name.
#[verifier::external_body]
fn parse_with(text: &str, format: &str) -> (r: Option<LocalTime>)
    ensures
        r == chrono_parse(text@, format@),
        r matches Some(t) ==> t.valid(),
        forall|t: LocalTime|
            #![trigger date_text(t)]
            t.valid() && 0 <= t.year <= 9999 && format@ == DATE_FORMAT@ && text@ == date_text(t)
                ==> r == Some(whole_seconds(t)),
{
    match NaiveDateTime::parse_from_str(text, format) {
        Ok(d) => Some(
            LocalTime {
                year: d.year(),
                month: d.month(),
                day: d.day(),
                hour: d.hour(),
                minute: d.minute(),
                second: d.second(),
                nanosecond: d.nanosecond(),
            },
        ),
        Err(_) => None,
    }
}

/// `Local::now`, as a wall-clock time: some valid time (it depends on the
/// clock and the time zone).
#[verifier::external_body]
pub fn local_now() -> (r: LocalTime)
    ensures
        r.valid(),
{
    let d = Local::now().naive_local();
    LocalTime {
        year: d.year(),
        month: d.month(),
        day: d.day(),
        hour: d.hour(),
        minute: d.minute(),
        second: d.second(),
        nanosecond: d.nanosecond(),
    }
}

/// `Local::from_local_datetime(..).single()`: whether the wall-clock time `t`
/// names exactly one instant in the machine's time zone (it does not in a
/// daylight-saving gap or overlap). Nothing is stated: it depends on the
/// machine's time zone.
#[verifier::external_body]
fn local_time_is_unique(t: &LocalTime) -> bool
    requires
        t.valid(),
{
    let date = NaiveDate::from_ymd_opt(t.year, t.month, t.day).unwrap();
    let d = date.and_hms_nano_opt(t.hour, t.minute, t.second, t.nanosecond).unwrap();
    Local.from_local_datetime(&d).single().is_some()
}

/// The header text of a date and time, `YYYY/MM/DD hh:mm:ss`.
pub fn format_date(dt: &LocalTime) -> (r: String)
    requires
        dt.valid(),
    ensures
        r@ == date_text(*dt),
{
    format_with(dt, DATE_FORMAT)
}

/// The date a header field holds, from chrono's parse `parsed` of its text
/// and whether the local time zone makes that wall-clock time a single
/// instant (`single`): the parsed date when it does, none otherwise.
pub fn single_instant(parsed: Option<LocalTime>, single: bool) -> (r: Option<LocalTime>)
    ensures
        r == (if single {
            parsed
        } else {
            None
        }),
{
    if single {
        parsed
    } else {
        None
    }
}

/// The date in `s` (surrounding white space ignored), when chrono parses it
/// with the header date format and it names one instant in the local time
/// zone (see `single_instant`); `None` when it does not parse. Whether a
/// parsed time is a single instant depends on the machine's time zone and is
/// not stated.
pub fn parse_header_date(s: &str) -> (r: Option<LocalTime>)
    ensures
        chrono_parse(trim_chars(s@), DATE_FORMAT@) is None ==> r is None,
        r matches Some(t) ==> chrono_parse(trim_chars(s@), DATE_FORMAT@) == Some(t) && t.valid(),
        forall|t: LocalTime|
            #![trigger date_text(t)]
            t.valid() && 0 <= t.year <= 9999 && trim_chars(s@) == date_text(t) ==> (r is None || r
                == Some(whole_seconds(t))),
{
    let text = trim(s);
    let parsed = parse_with(text, DATE_FORMAT);
    let single = match parsed {
        Some(t) => local_time_is_unique(&t),
        None => false,
    };
    single_instant(parsed, single)
}

/// The date in `s` (see `parse_header_date`), or the current time when `s`
/// holds no usable date. Which of the two it is depends on the time zone and
/// the clock, so only validity is stated here.
pub fn parse_date(s: &str) -> (r: LocalTime)
    ensures
        r.valid(),
{
    match parse_header_date(s) {
        Some(t) => t,
        None => local_now(),
    }
}

/// `t` is a date that a header field with the text `text` can be read as at
/// `now`: the date chrono parses from it, or `now` when it does not parse
/// (or when the parsed wall-clock time is not a single instant in the local
/// time zone).
pub open spec fn date_read_as(text: Seq<char>, now: LocalTime, t: LocalTime) -> bool {
    match chrono_parse(trim_chars(text), DATE_FORMAT@) {
        Some(p) => t == p || t == now,
        None => t == now,
    }
}

/// `t` is what a header field with the text `text` is read as at `now` (see
/// `date_read_as`), where a field holding the text of a date `d` (years 0 to
/// 9999) is read as `d` in whole seconds, or as `now` when the local time
/// zone does not make it a single instant.
pub open spec fn kept_date(text: Seq<char>, now: LocalTime, t: LocalTime) -> bool {
    &&& date_read_as(text, now, t)
    &&& forall|d: LocalTime|
        #![trigger date_text(d)]
        d.valid() && 0 <= d.year <= 9999 && trim_chars(text) == date_text(d) ==> (t
            == whole_seconds(d) || t == now)
}

/// The date in `s` (see `parse_header_date`), or `now` when `s` holds no usable date.
pub fn parse_date_or(s: &str, now: LocalTime) -> (r: LocalTime)
    requires
        now.valid(),
    ensures
        r.valid(),
        kept_date(s@, now, r),
{
    match parse_header_date(s) {
        Some(t) => t,
        None => now,
    }
}

/// `c` is one of the digits `0` to `9`.
pub open spec fn is_digit(c: char) -> bool {
    '0' <= c && c <= '9'
}

/// `10` to the power `k`.
pub open spec fn pow10(k: nat) -> nat
    decreases k,
{
    if k == 0 {
        1
    } else {
        10 * pow10((k - 1) as nat)
    }
}

proof fn lemma_decimal_digits(n: nat)
    ensures
        decimal(n).len() >= 1,
        forall|i: int| 0 <= i < decimal(n).len() ==> is_digit(#[trigger] decimal(n)[i]),
    decreases n,
{
    if n >= 10 {
        lemma_decimal_digits(n / 10);
    }
}

proof fn lemma_decimal_len(n: nat, k: nat)
    requires
        1 <= k,
        n < pow10(k),
    ensures
        decimal(n).len() <= k,
    decreases k,
{
    if n >= 10 {
        assert(k >= 2) by {
            if k == 1 {
                assert(pow10(1) == 10 * pow10(0));
            }
        }
        assert(pow10(k) == 10 * pow10((k - 1) as nat));
        lemma_decimal_len(n / 10, (k - 1) as nat);
    }
}

proof fn lemma_zero_padded(n: nat, w: nat)
    requires
        1 <= w,
        n < pow10(w),
    ensures
        zero_padded(n, w).len() == w,
        forall|i: int| 0 <= i < w ==> is_digit(#[trigger] zero_padded(n, w)[i]),
{
    lemma_decimal_digits(n);
    lemma_decimal_len(n, w);
    let d = decimal(n);
    assert forall|i: int| 0 <= i < w implies is_digit(#[trigger] zero_padded(n, w)[i]) by {
        if d.len() < w && i >= w - d.len() {
            assert(zero_padded(n, w)[i] == d[i - (w - d.len())]);
        }
    }
}

proof fn lemma_zero_padded_any(n: nat, w: nat)
    ensures
        forall|i: int| 0 <= i < zero_padded(n, w).len() ==> is_digit(#[trigger] zero_padded(n, w)[i]),
{
    lemma_decimal_digits(n);
    let d = decimal(n);
    assert forall|i: int| 0 <= i < zero_padded(n, w).len() implies is_digit(
        #[trigger] zero_padded(n, w)[i],
    ) by {
        if d.len() < w && i >= w - d.len() {
            assert(zero_padded(n, w)[i] == d[i - (w - d.len())]);
        }
    }
}

/// The text of a date never holds a line break; for the years 0 to 9999 it is
/// 19 ASCII characters that start and end with a digit, so trimming white
/// space leaves it as it is.
pub proof fn lemma_date_text_shape(t: LocalTime)
    requires
        t.valid(),
    ensures
        forall|i: int| 0 <= i < date_text(t).len() ==> #[trigger] date_text(t)[i] != '\n',
        0 <= t.year <= 9999 ==> {
            &&& date_text(t).len() == 19
            &&& is_ascii_chars(date_text(t))
            &&& is_digit(date_text(t)[0])
            &&& is_digit(date_text(t).last())
            &&& trim_chars(date_text(t)) == date_text(t)
        },
{
    assert(pow10(2) == 100) by {
        reveal_with_fuel(pow10, 3);
    }
    assert(pow10(4) == 10000) by {
        reveal_with_fuel(pow10, 5);
    }
    lemma_zero_padded(t.month as nat, 2);
    lemma_zero_padded(t.day as nat, 2);
    lemma_zero_padded(t.hour as nat, 2);
    lemma_zero_padded(t.minute as nat, 2);
    lemma_zero_padded(t.shown_second(), 2);
    let y = t.year as int;
    let yt = year_text(y);
    if 0 <= y <= 9999 {
        lemma_zero_padded(y as nat, 4);
    } else if y < 0 {
        lemma_zero_padded_any((-y) as nat, 4);
    } else {
        lemma_zero_padded_any(y as nat, 4);
    }
    assert forall|i: int| 0 <= i < yt.len() implies #[trigger] yt[i] != '\n' by {
        if !(0 <= y <= 9999) && i > 0 {
            if y < 0 {
                assert(yt[i] == zero_padded((-y) as nat, 4)[i - 1]);
            } else {
                assert(yt[i] == zero_padded(y as nat, 4)[i - 1]);
            }
        }
    }
}

} // verus!
