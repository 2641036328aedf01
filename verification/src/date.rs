//! Removing cache items by their last access time: reading the date given on the command line,
//! and choosing the items older or younger than it.
use vstd::prelude::*;

use chrono::NaiveDate;
use regex::Regex;

use crate::library::{components_from_groups, components_of, opt_str_view, Component, Error, RemoveDirArgs};
use crate::order::{order_by_path, path_order, string_views};
use crate::paths::{split_chars, split_on};
use crate::remove::{remove_file, DryRunMessage, FileRemoval};
use crate::text::{chars_of, decimal, push_char, push_decimal, push_str, string_of};

verus! {

/// Whether `c` is a decimal digit in the sense of the `regex` crate's `\d` (Unicode general
/// category Nd).
pub uninterp spec fn is_unicode_digit(c: char) -> bool;

/// `\d` of the `regex` crate: for ASCII the digits `0` to `9`, beyond ASCII the other decimal
/// digits of Unicode.
pub open spec fn regex_digit(c: char) -> bool {
    if (c as u32) < 128 {
        '0' <= c && c <= '9'
    } else {
        is_unicode_digit(c)
    }
}

/// The text matches `^\d{4}.\d{2}.\d{2}$`: ten characters, digits but for the fifth and eighth,
/// which are anything but a line break.
pub open spec fn date_shaped(s: Seq<char>) -> bool {
    &&& s.len() == 10
    &&& regex_digit(s[0]) && regex_digit(s[1]) && regex_digit(s[2]) && regex_digit(s[3])
    &&& s[4] != '\n'
    &&& regex_digit(s[5]) && regex_digit(s[6])
    &&& s[7] != '\n'
    &&& regex_digit(s[8]) && regex_digit(s[9])
}

/// The text matches `^\d{2}:\d{2}:\d{2}$`.
pub open spec fn time_shaped(s: Seq<char>) -> bool {
    &&& s.len() == 8
    &&& regex_digit(s[0]) && regex_digit(s[1]) && s[2] == ':'
    &&& regex_digit(s[3]) && regex_digit(s[4]) && s[5] == ':'
    &&& regex_digit(s[6]) && regex_digit(s[7])
}

/// Whether `date` matches `^\d{4}.\d{2}.\d{2}$` (`regex::Regex::is_match`; the `regex` crate
/// documents `\d` as a Unicode decimal digit and `.` as any character but a line break).
#[verifier::external_body]
fn matches_date_pattern(date: &str) -> (r: bool)
    ensures
        r == date_shaped(date@),
        r ==> forall|i: int|
            0 <= i < 10 && i != 4 && i != 7 && (date@[i] as u32) >= 128 ==> is_unicode_digit(#[trigger] date@[i]),
{
    Regex::new(r"^\d{4}.\d{2}.\d{2}$").unwrap().is_match(date)
}

/// Whether `date` matches `^\d{2}:\d{2}:\d{2}$` (`regex::Regex::is_match`).
#[verifier::external_body]
fn matches_time_pattern(date: &str) -> (r: bool)
    ensures
        r == time_shaped(date@),
        r ==> forall|i: int|
            0 <= i < 8 && i != 2 && i != 5 && (date@[i] as u32) >= 128 ==> is_unicode_digit(#[trigger] date@[i]),
{
    Regex::new(r"^\d{2}:\d{2}:\d{2}$").unwrap().is_match(date)
}

/// The value of a string of ASCII digits.
pub open spec fn digits_value(s: Seq<char>) -> nat
    decreases s.len(),
{
    if s.len() == 0 {
        0
    } else {
        10 * digits_value(s.drop_last()) + (s.last() as u32 - '0' as u32) as nat
    }
}

/// Whether all characters are ASCII digits.
pub open spec fn all_ascii_digits(s: Seq<char>) -> bool {
    forall|i: int| 0 <= i < s.len() ==> '0' <= #[trigger] s[i] && s[i] <= '9'
}

/// What `str::parse::<u32>` accepts: an optional `+` and at least one ASCII digit, of a value
/// that fits in a `u32`; and that value.
pub open spec fn u32_text(s: Seq<char>) -> Option<u32> {
    let digits = if s.len() > 0 && s[0] == '+' {
        s.drop_first()
    } else {
        s
    };
    if digits.len() > 0 && all_ascii_digits(digits) && digits_value(digits) <= u32::MAX {
        Some(digits_value(digits) as u32)
    } else {
        None
    }
}

/// The message of the error `str::parse::<u32>` gives for `s`.
pub uninterp spec fn int_error_text(s: Seq<char>) -> Seq<char>;

/// `str::parse::<u32>`: the value of an optional `+` followed by ASCII digits when it fits in a
/// `u32`, as the standard library documents it; else the error's message, which depends on the
/// text alone and is named.
#[verifier::external_body]
pub(crate) fn parse_u32(s: &str) -> (r: Result<u32, String>)
    ensures
        match r {
            Ok(n) => u32_text(s@) == Some(n),
            Err(e) => u32_text(s@) is None && e@ == int_error_text(s@),
        },
{
    match s.parse::<u32>() {
        Ok(n) => Ok(n),
        Err(e) => Err(e.to_string()),
    }
}

/// Whether `year` is a leap year of the proleptic Gregorian calendar.
pub open spec fn is_leap_year(year: int) -> bool {
    year % 4 == 0 && (year % 100 != 0 || year % 400 == 0)
}

/// The number of days of `month` in `year`.
pub open spec fn days_in_month(year: int, month: int) -> int {
    if month == 2 {
        if is_leap_year(year) { 29 } else { 28 }
    } else if month == 4 || month == 6 || month == 9 || month == 11 {
        30
    } else {
        31
    }
}

/// Whether the calendar date exists and lies in the years `chrono` handles.
pub open spec fn is_valid_date(year: i32, month: u32, day: u32) -> bool {
    &&& -262143 <= year <= 262142
    &&& 1 <= month <= 12
    &&& 1 <= day <= days_in_month(year as int, month as int)
}

/// `chrono::NaiveDate::from_ymd_opt(year, month, day).is_some()`: whether the calendar date
/// exists in the proleptic Gregorian calendar within the years `chrono` supports.
#[verifier::external_body]
fn date_exists(year: i32, month: u32, day: u32) -> (r: bool)
    ensures
        r == is_valid_date(year, month, day),
{
    NaiveDate::from_ymd_opt(year, month, day).is_some()
}

/// A date and a time of day, without a time zone, to the nanosecond.
#[derive(PartialEq, Eq, Structural, Clone, Copy, Debug)]
pub struct DateTime {
    pub year: i32,
    pub month: u32,
    pub day: u32,
    pub hour: u32,
    pub minute: u32,
    pub second: u32,
    /// The fraction of the second, in nanoseconds.
    pub nanosecond: u32,
}

/// Whether `a` comes before `b`: by date, then by time of day, then by the fraction of the second.
pub open spec fn date_time_lt(a: DateTime, b: DateTime) -> bool {
    ||| a.year < b.year
    ||| a.year == b.year && a.month < b.month
    ||| a.year == b.year && a.month == b.month && a.day < b.day
    ||| a.year == b.year && a.month == b.month && a.day == b.day && a.hour < b.hour
    ||| a.year == b.year && a.month == b.month && a.day == b.day && a.hour == b.hour && a.minute
        < b.minute
    ||| a.year == b.year && a.month == b.month && a.day == b.day && a.hour == b.hour && a.minute
        == b.minute && a.second < b.second
    ||| a.year == b.year && a.month == b.month && a.day == b.day && a.hour == b.hour && a.minute
        == b.minute && a.second == b.second && a.nanosecond < b.nanosecond
}

/// Whether `a` comes before `b`.
pub fn date_time_less(a: &DateTime, b: &DateTime) -> (r: bool)
    ensures
        r == date_time_lt(*a, *b),
{
    if a.year != b.year {
        a.year < b.year
    } else if a.month != b.month {
        a.month < b.month
    } else if a.day != b.day {
        a.day < b.day
    } else if a.hour != b.hour {
        a.hour < b.hour
    } else if a.minute != b.minute {
        a.minute < b.minute
    } else if a.second != b.second {
        a.second < b.second
    } else {
        a.nanosecond < b.nanosecond
    }
}

/// One more than the largest value a field of a `DateTime` can hold.
pub open spec fn field_radix() -> int {
    0x1_0000_0000
}

/// The moment `a` as a single number: its fields as the digits of a number in base
/// `field_radix()`, the year most significant and the nanosecond least.
pub open spec fn instant(a: DateTime) -> int {
    let r = field_radix();
    (((((a.year as int * r + a.month as int) * r + a.day as int) * r + a.hour as int) * r + a.minute as int) * r
        + a.second as int) * r + a.nanosecond as int
}

/// Appending a digit keeps the order of the numbers before it, and breaks ties by the digit.
proof fn lemma_append_digit(x: int, d: int, y: int, e: int)
    by (nonlinear_arith)
    requires
        0 <= d < 0x1_0000_0000,
        0 <= e < 0x1_0000_0000,
    ensures
        (x * 0x1_0000_0000 + d < y * 0x1_0000_0000 + e) <==> (x < y || (x == y && d < e)),
        (x * 0x1_0000_0000 + d == y * 0x1_0000_0000 + e) <==> (x == y && d == e),
{
}

/// The order of date and time is the order of moments: `a` comes before `b` exactly when the
/// number `instant(a)`, in which a larger field always outweighs all smaller ones together, is
/// smaller. So an earlier year, or the same year and an earlier month whatever the days, or so on
/// down to the nanosecond, comes first.
pub proof fn lemma_date_order_is_chronological(a: DateTime, b: DateTime)
    ensures
        date_time_lt(a, b) <==> instant(a) < instant(b),
        a.year < b.year ==> date_time_lt(a, b),
        a.year == b.year && a.month < b.month ==> date_time_lt(a, b),
{
    let r = field_radix();
    let a1 = a.year as int;
    let b1 = b.year as int;
    let a2 = a1 * r + a.month as int;
    let b2 = b1 * r + b.month as int;
    let a3 = a2 * r + a.day as int;
    let b3 = b2 * r + b.day as int;
    let a4 = a3 * r + a.hour as int;
    let b4 = b3 * r + b.hour as int;
    let a5 = a4 * r + a.minute as int;
    let b5 = b4 * r + b.minute as int;
    let a6 = a5 * r + a.second as int;
    let b6 = b5 * r + b.second as int;
    lemma_append_digit(a1, a.month as int, b1, b.month as int);
    lemma_append_digit(a2, a.day as int, b2, b.day as int);
    lemma_append_digit(a3, a.hour as int, b3, b.hour as int);
    lemma_append_digit(a4, a.minute as int, b4, b.minute as int);
    lemma_append_digit(a5, a.second as int, b5, b.second as int);
    lemma_append_digit(a6, a.nanosecond as int, b6, b.nanosecond as int);
    assert(instant(a) == a6 * r + a.nanosecond as int);
    assert(instant(b) == b6 * r + b.nanosecond as int);
}

/// A valid time of day (no leap second).
pub open spec fn valid_time(h: u32, m: u32, s: u32) -> bool {
    h < 24 && m < 60 && s < 60
}

/// The position of the first piece that does not parse as a `u32`, if any.
pub open spec fn first_bad_piece(ps: Seq<Seq<char>>) -> Option<int>
    decreases ps.len(),
{
    if ps.len() == 0 {
        None
    } else if u32_text(ps[0]) is None {
        Some(0)
    } else {
        match first_bad_piece(ps.drop_first()) {
            Some(k) => Some(k + 1),
            None => None,
        }
    }
}

/// The value of a piece that parses.
pub open spec fn piece_value(p: Seq<char>) -> u32 {
    u32_text(p)->0
}

/// The outcome of reading a date: a date and time, or a failure with the text it is about and
/// what was expected.
pub enum DateReading {
    Parsed(DateTime),
    Failed(Seq<char>, Seq<char>),
}

/// An `i32` as `Display` writes it.
pub open spec fn i32_text(n: i32) -> Seq<char> {
    if n < 0 {
        seq!['-'] + decimal((-(n as int)) as nat)
    } else {
        decimal(n as nat)
    }
}

/// How the date `d` given on the command line reads, at the moment `now`: `yyyy.mm.dd` is that
/// day at the current time, `hh:mm:ss` is that time today, each to the whole second; anything
/// else fails, also text of that shape that does not split into three pieces.
pub open spec fn date_reading(d: Seq<char>, now: DateTime) -> DateReading {
    if date_shaped(d) {
        let ps = split_on(d, '.');
        match first_bad_piece(ps) {
            Some(k) => DateReading::Failed(int_error_text(ps[k]), "u32"@),
            None => if ps.len() < 3 {
                DateReading::Failed(d, "a valid date"@)
            } else {
                let (y, m, dd) = (piece_value(ps[0]), piece_value(ps[1]), piece_value(ps[2]));
                if is_valid_date(y as i32, m, dd) {
                    DateReading::Parsed(DateTime {
                        year: y as i32,
                        month: m,
                        day: dd,
                        hour: now.hour,
                        minute: now.minute,
                        second: now.second,
                        nanosecond: 0,
                    })
                } else {
                    DateReading::Failed(
                        decimal(y as nat) + "."@ + decimal(m as nat) + "."@ + decimal(dd as nat),
                        "date"@,
                    )
                }
            },
        }
    } else if time_shaped(d) {
        let ps = split_on(d, ':');
        match first_bad_piece(ps) {
            Some(k) => DateReading::Failed(int_error_text(ps[k]), "u32"@),
            None => if ps.len() < 3 {
                DateReading::Failed(d, "a valid date"@)
            } else if is_valid_date(now.year, now.month, now.day) {
                DateReading::Parsed(DateTime {
                    year: now.year,
                    month: now.month,
                    day: now.day,
                    hour: piece_value(ps[0]),
                    minute: piece_value(ps[1]),
                    second: piece_value(ps[2]),
                    nanosecond: 0,
                })
            } else {
                DateReading::Failed(
                    i32_text(now.year) + ":"@ + decimal(now.month as nat) + ":"@ + decimal(now.day as nat),
                    "date"@,
                )
            },
        }
    } else {
        DateReading::Failed(d, "a valid date"@)
    }
}

/// The inputs on which no date and time can be formed, so that reading fails hard: a valid
/// date with a current time of day out of range, or a time of day out of range (`25:00:00`).
pub open spec fn date_reading_panics(d: Seq<char>, now: DateTime) -> bool {
    if date_shaped(d) {
        let ps = split_on(d, '.');
        first_bad_piece(ps) is None && ps.len() >= 3 && is_valid_date(
            piece_value(ps[0]) as i32,
            piece_value(ps[1]),
            piece_value(ps[2]),
        ) && !valid_time(now.hour, now.minute, now.second)
    } else if time_shaped(d) {
        let ps = split_on(d, ':');
        first_bad_piece(ps) is None && ps.len() >= 3 && is_valid_date(now.year, now.month, now.day)
            && !valid_time(piece_value(ps[0]), piece_value(ps[1]), piece_value(ps[2]))
    } else {
        false
    }
}

/// The pieces parsed as `u32`, or the position of the first one that does not parse together
/// with its error message.
fn parse_pieces(pieces: &Vec<Vec<char>>) -> (r: Result<Vec<u32>, (usize, String)>)
    ensures
        match r {
            Ok(vs) => first_bad_piece(pieces@.map_values(|p: Vec<char>| p@)) is None && vs@.len()
                == pieces@.len() && forall|k: int| 0 <= k < vs@.len() ==> #[trigger] vs@[k] == piece_value(pieces@[k]@),
            Err((k, e)) => first_bad_piece(pieces@.map_values(|p: Vec<char>| p@)) == Some(k as int)
                && k < pieces@.len() && e@ == int_error_text(pieces@[k as int]@),
        },
{
    let ghost ps = pieces@.map_values(|p: Vec<char>| p@);
    let mut vs: Vec<u32> = Vec::new();
    let mut i: usize = 0;
    while i < pieces.len()
        invariant
            i <= pieces.len(),
            ps == pieces@.map_values(|p: Vec<char>| p@),
            vs@.len() == i,
            forall|k: int| 0 <= k < i ==> #[trigger] u32_text(ps[k]) is Some,
            forall|k: int| 0 <= k < i ==> #[trigger] vs@[k] == piece_value(ps[k]),
        decreases pieces.len() - i,
    {
        let text = string_of(&pieces[i]);
        assert(text@ == ps[i as int]);
        match parse_u32(text.as_str()) {
            Ok(n) => {
                vs.push(n);
            },
            Err(e) => {
                proof {
                    lemma_first_bad_piece(ps, i as int);
                }
                return Err((i, e));
            },
        }
        i = i + 1;
    }
    proof {
        lemma_first_bad_piece(ps, ps.len() as int);
    }
    Ok(vs)
}

/// When the first `i` pieces parse, the first bad piece is at `i` or later, and exactly at `i`
/// when that one does not parse.
proof fn lemma_first_bad_piece(ps: Seq<Seq<char>>, i: int)
    requires
        0 <= i <= ps.len(),
        forall|k: int| 0 <= k < i ==> #[trigger] u32_text(ps[k]) is Some,
    ensures
        i < ps.len() && u32_text(ps[i]) is None ==> first_bad_piece(ps) == Some(i),
        i == ps.len() ==> first_bad_piece(ps) is None,
    decreases i,
{
    if i > 0 {
        let t = ps.drop_first();
        assert forall|k: int| 0 <= k < i - 1 implies #[trigger] u32_text(t[k]) is Some by {
            assert(t[k] == ps[k + 1]);
        }
        lemma_first_bad_piece(t, i - 1);
        assert(u32_text(ps[0]) is Some);
    } else if ps.len() > 0 {
    }
}

/// The failure of reading a date, as an error.
fn date_failure(text: String, reason: &str) -> (e: Error)
    ensures
        e matches Error::DateParseFailure(t, r) && t@ == text@ && r@ == reason@,
{
    let mut r = String::new();
    push_str(&mut r, reason);
    Error::DateParseFailure(text, r)
}

/// Writes an `i32` as `Display` does.
fn push_i32(s: &mut String, n: i32)
    ensures
        final(s)@ == old(s)@ + i32_text(n),
{
    if n < 0 {
        push_char(s, '-');
        let m: u64 = (-(n as i64)) as u64;
        push_decimal(s, m);
    } else {
        push_decimal(s, n as u64);
    }
}

/// Reads a date given on the command line at the moment `now`: `yyyy.mm.dd` is that day at the
/// current time of day, `hh:mm:ss` is that time today. Text of another shape, pieces that are no
/// numbers and dates that do not exist are errors.
pub fn parse_date(date: &str, now: &DateTime) -> (r: Result<DateTime, Error>)
    requires
        !date_reading_panics(date@, *now),
    ensures
        match r {
            Ok(dt) => date_reading(date@, *now) == DateReading::Parsed(dt),
            Err(Error::DateParseFailure(t, why)) => date_reading(date@, *now) == DateReading::Failed(t@, why@),
            Err(_) => false,
        },
{
    proof {
        reveal_strlit("u32");
        reveal_strlit("date");
        reveal_strlit("a valid date");
        reveal_strlit(".");
        reveal_strlit(":");
    }
    if matches_date_pattern(date) {
        let cs = chars_of(date);
        let pieces = split_chars(&cs, '.');
        let ghost ps = pieces@.map_values(|p: Vec<char>| p@);
        match parse_pieces(&pieces) {
            Err((k, e)) => {
                assert(ps[k as int] == pieces@[k as int]@);
                Err(date_failure(e, "u32"))
            },
            Ok(split) => {
                if split.len() < 3 {
                    let mut t = String::new();
                    push_str(&mut t, date);
                    return Err(date_failure(t, "a valid date"));
                }
                assert(ps[0] == pieces@[0]@ && ps[1] == pieces@[1]@ && ps[2] == pieces@[2]@);
                let y = split[0] as i32;
                if date_exists(y, split[1], split[2]) {
                    Ok(DateTime {
                        year: y,
                        month: split[1],
                        day: split[2],
                        hour: now.hour,
                        minute: now.minute,
                        second: now.second,
                        nanosecond: 0,
                    })
                } else {
                    let mut t = String::new();
                    push_decimal(&mut t, split[0] as u64);
                    push_str(&mut t, ".");
                    push_decimal(&mut t, split[1] as u64);
                    push_str(&mut t, ".");
                    push_decimal(&mut t, split[2] as u64);
                    Err(date_failure(t, "date"))
                }
            },
        }
    } else if matches_time_pattern(date) {
        let cs = chars_of(date);
        let pieces = split_chars(&cs, ':');
        let ghost ps = pieces@.map_values(|p: Vec<char>| p@);
        match parse_pieces(&pieces) {
            Err((k, e)) => {
                assert(ps[k as int] == pieces@[k as int]@);
                Err(date_failure(e, "u32"))
            },
            Ok(split) => {
                if split.len() < 3 {
                    let mut t = String::new();
                    push_str(&mut t, date);
                    return Err(date_failure(t, "a valid date"));
                }
                assert(ps[0] == pieces@[0]@ && ps[1] == pieces@[1]@ && ps[2] == pieces@[2]@);
                if date_exists(now.year, now.month, now.day) {
                    Ok(DateTime {
                        year: now.year,
                        month: now.month,
                        day: now.day,
                        hour: split[0],
                        minute: split[1],
                        second: split[2],
                        nanosecond: 0,
                    })
                } else {
                    let mut t = String::new();
                    push_i32(&mut t, now.year);
                    push_str(&mut t, ":");
                    push_decimal(&mut t, now.month as u64);
                    push_str(&mut t, ":");
                    push_decimal(&mut t, now.day as u64);
                    Err(date_failure(t, "date"))
                }
            },
        }
    } else {
        let mut t = String::new();
        push_str(&mut t, date);
        Err(date_failure(t, "a valid date"))
    }
}

} // verus!

verus! {

/// Reads a date like `parse_date`, or returns `None` for the inputs on which that fails hard.
pub fn try_parse_date(date: &str, now: &DateTime) -> (r: Option<Result<DateTime, Error>>)
    ensures
        r is None <==> date_reading_panics(date@, *now),
        r matches Some(res) ==> match res {
            Ok(dt) => date_reading(date@, *now) == DateReading::Parsed(dt),
            Err(Error::DateParseFailure(t, why)) => date_reading(date@, *now) == DateReading::Failed(t@, why@),
            Err(_) => false,
        },
{
    let is_date = matches_date_pattern(date);
    let is_time = !is_date && matches_time_pattern(date);
    if is_date || is_time {
        let cs = chars_of(date);
        let pieces = split_chars(&cs, if is_date { '.' } else { ':' });
        let ghost ps = pieces@.map_values(|p: Vec<char>| p@);
        if let Ok(split) = parse_pieces(&pieces) {
            if split.len() < 3 {
                return Some(parse_date(date, now));
            }
            assert(ps[0] == pieces@[0]@ && ps[1] == pieces@[1]@ && ps[2] == pieces@[2]@);
            if is_date {
                if date_exists(split[0] as i32, split[1], split[2]) && !(now.hour < 24 && now.minute < 60 && now.second < 60) {
                    return None;
                }
            } else {
                if date_exists(now.year, now.month, now.day) && !(split[0] < 24 && split[1] < 60 && split[2] < 60) {
                    return None;
                }
            }
        }
    }
    Some(parse_date(date, now))
}

/// A cache item and the time it was last accessed.
pub struct FileWithDate {
    pub file: String,
    pub access_date: DateTime,
}

/// The mathematical content of a `FileWithDate`.
pub struct FileWithDateView {
    pub file: Seq<char>,
    pub access_date: DateTime,
}

impl View for FileWithDate {
    type V = FileWithDateView;

    open spec fn view(&self) -> FileWithDateView {
        FileWithDateView { file: self.file@, access_date: self.access_date }
    }
}

/// The views of a list of items.
pub open spec fn dated_views(fs: Seq<FileWithDate>) -> Seq<FileWithDateView> {
    fs.map_values(|f: FileWithDate| f@)
}

/// How items are compared with the date given on the command line.
pub enum AgeRelation {
    /// No date was given.
    NoDate,
    /// Items last accessed before this date.
    FileOlderThanDate(String),
    /// Items last accessed after this date.
    FileYoungerThanDate(String),
}

/// Whether an item accessed at `access` is chosen when comparing with `date`: younger items were
/// accessed after it, older items before it.
pub open spec fn chosen(younger: bool, access: DateTime, date: DateTime) -> bool {
    if younger {
        date_time_lt(date, access)
    } else {
        date_time_lt(access, date)
    }
}

/// The items chosen when comparing with `date`, in order.
pub open spec fn chosen_files(fs: Seq<FileWithDateView>, younger: bool, date: DateTime) -> Seq<FileWithDateView>
    decreases fs.len(),
{
    if fs.len() == 0 {
        seq![]
    } else if chosen(younger, fs.last().access_date, date) {
        chosen_files(fs.drop_last(), younger, date).push(fs.last())
    } else {
        chosen_files(fs.drop_last(), younger, date)
    }
}

/// Filtering by date keeps exactly the items on the asked side of the date: every item kept is
/// on that side, and an item on that side is kept.
pub proof fn lemma_chosen_files_exact(fs: Seq<FileWithDateView>, younger: bool, date: DateTime)
    ensures
        forall|k: int| 0 <= k < chosen_files(fs, younger, date).len() ==> chosen(
            younger,
            (#[trigger] chosen_files(fs, younger, date)[k]).access_date,
            date,
        ),
        forall|j: int| 0 <= j < fs.len() && chosen(younger, fs[j].access_date, date) ==> chosen_files(
            fs,
            younger,
            date,
        ).contains(#[trigger] fs[j]),
        chosen_files(fs, younger, date).len() <= fs.len(),
    decreases fs.len(),
{
    if fs.len() > 0 {
        let rest = fs.drop_last();
        lemma_chosen_files_exact(rest, younger, date);
        let c = chosen_files(fs, younger, date);
        let cr = chosen_files(rest, younger, date);
        assert forall|k: int| 0 <= k < c.len() implies chosen(younger, (#[trigger] c[k]).access_date, date) by {
            if k < cr.len() {
                assert(c[k] == cr[k]);
            }
        }
        assert forall|j: int| 0 <= j < fs.len() && chosen(younger, fs[j].access_date, date) implies c.contains(
            #[trigger] fs[j],
        ) by {
            if j < fs.len() - 1 {
                assert(rest[j] == fs[j]);
                assert(cr.contains(rest[j]));
                let k = choose|k: int| 0 <= k < cr.len() && cr[k] == rest[j];
                assert(c[k] == cr[k]);
            } else {
                assert(c[c.len() - 1] == fs[j]);
            }
        }
    }
}

fn copy_dated(f: &FileWithDate) -> (r: FileWithDate)
    ensures
        r@ == f@,
{
    FileWithDate { file: f.file.clone(), access_date: f.access_date }
}

/// The items accessed after (`younger`) or before `date`, in order.
fn choose_files(fs: &Vec<FileWithDate>, younger: bool, date: &DateTime) -> (r: Vec<FileWithDate>)
    ensures
        dated_views(r@) == chosen_files(dated_views(fs@), younger, *date),
{
    let ghost all = dated_views(fs@);
    let mut r: Vec<FileWithDate> = Vec::new();
    let mut i: usize = 0;
    while i < fs.len()
        invariant
            i <= fs.len(),
            all == dated_views(fs@),
            dated_views(r@) == chosen_files(all.take(i as int), younger, *date),
        decreases fs.len() - i,
    {
        let f = &fs[i];
        assert(all.take(i + 1).drop_last() =~= all.take(i as int));
        assert(all.take(i + 1).last() == f@);
        let keep = if younger {
            date_time_less(date, &f.access_date)
        } else {
            date_time_less(&f.access_date, date)
        };
        if keep {
            let ghost before = dated_views(r@);
            r.push(copy_dated(f));
            assert(dated_views(r@) =~= before.push(f@));
        }
        i = i + 1;
    }
    assert(all.take(fs.len() as int) =~= all);
    r
}

/// The date text of a comparison, and whether it asks for younger items.
pub open spec fn relation_date(rel: AgeRelation) -> (Seq<char>, bool) {
    match rel {
        AgeRelation::NoDate => (seq![], false),
        AgeRelation::FileOlderThanDate(d) => (d@, false),
        AgeRelation::FileYoungerThanDate(d) => (d@, true),
    }
}

/// Chooses the items accessed before (older) or after (younger) the date given, read at the
/// moment `now`; a date that does not read is an error.
pub fn filter_files_by_date(date: &AgeRelation, files: &Vec<FileWithDate>, now: &DateTime) -> (r: Result<Vec<FileWithDate>, Error>)
    requires
        !(date is NoDate),
        !date_reading_panics(relation_date(*date).0, *now),
    ensures
        match date_reading(relation_date(*date).0, *now) {
            DateReading::Parsed(dt) => r matches Ok(fs) && dated_views(fs@) == chosen_files(
                dated_views(files@),
                relation_date(*date).1,
                dt,
            ),
            DateReading::Failed(t, why) => r matches Err(Error::DateParseFailure(a, b)) && a@ == t && b@ == why,
        },
{
    let (text, younger) = match date {
        AgeRelation::FileYoungerThanDate(d) => (d, true),
        AgeRelation::FileOlderThanDate(d) => (d, false),
        AgeRelation::NoDate => {
            assert(false);
            return Err(Error::NoCWD);
        },
    };
    match parse_date(text.as_str(), now) {
        Ok(dt) => Ok(choose_files(files, younger, &dt)),
        Err(e) => Err(e),
    }
}

} // verus!

verus! {

/// The items of the parts of the cache that removal by date looks at, with their access times.
pub struct DatedItems {
    /// The archives of the registries.
    pub registry_pkg_files: Vec<FileWithDate>,
    /// The extracted sources of the registries.
    pub registry_source_files: Vec<FileWithDate>,
    /// The git checkouts.
    pub checkout_items: Vec<FileWithDate>,
    /// The bare git repositories.
    pub bare_repo_items: Vec<FileWithDate>,
}

/// The items of one removable directory (the registry index has none to remove by date).
pub open spec fn items_of(items: DatedItems, c: Component) -> Seq<FileWithDateView> {
    match c {
        Component::RegistryCrateCache => dated_views(items.registry_pkg_files@),
        Component::RegistrySources => dated_views(items.registry_source_files@),
        Component::RegistryIndex => seq![],
        Component::GitRepos => dated_views(items.checkout_items@),
        Component::GitDB => dated_views(items.bare_repo_items@),
    }
}

/// The items of the first `n` directories, one directory after the other.
pub open spec fn items_of_all(items: DatedItems, cs: Seq<Component>, n: int) -> Seq<FileWithDateView>
    decreases n,
{
    if n <= 0 {
        seq![]
    } else {
        items_of_all(items, cs, n - 1) + items_of(items, cs[n - 1])
    }
}

/// The items sorted by path, stably.
pub open spec fn sorted_by_path(fs: Seq<FileWithDateView>) -> Seq<FileWithDateView> {
    path_order(fs.map_values(|f: FileWithDateView| f.file)).map_values(|i: int| fs[i])
}

/// What removing by date decides: the line to print, the removals to carry out, and the
/// directories whose cached contents change.
pub struct DatePlan {
    pub message: String,
    pub removals: Vec<FileRemoval>,
    pub invalidate: Vec<Component>,
}

/// The line announcing a removal by date.
pub open spec fn date_plan_message(dry_run: bool, count: nat, younger: bool, date: Seq<char>) -> Seq<char> {
    (if dry_run { "dry-run: would delete "@ } else { "Deleting "@ }) + decimal(count) + " items that are "@
        + (if younger { "younger than "@ } else { "older than "@ }) + date + "..."@
}

/// Exactly one of the two dates was given.
pub open spec fn one_date(arg_younger: Option<&str>, arg_older: Option<&str>) -> bool {
    (arg_younger is Some) != (arg_older is Some)
}

/// The date given and whether it asks for younger items.
pub open spec fn given_date(arg_younger: Option<&str>, arg_older: Option<&str>) -> (Seq<char>, bool) {
    match arg_younger {
        Some(y) => (y@, true),
        None => match arg_older {
            Some(o) => (o@, false),
            None => (seq![], false),
        },
    }
}

/// Decides a removal by date: in the directories that the groups `dirs` cover, the items last
/// accessed after `arg_younger` or before `arg_older` (read at the moment `now`), in path order.
/// A dry run only announces them; a real run removes each and names the directories to refresh.
pub fn remove_files_by_dates(
    items: &DatedItems,
    arg_younger: Option<&str>,
    arg_older: Option<&str>,
    dry_run: bool,
    dirs: Option<&str>,
    now: &DateTime,
) -> (r: Result<DatePlan, Error>)
    requires
        one_date(arg_younger, arg_older),
        !date_reading_panics(given_date(arg_younger, arg_older).0, *now),
    ensures
        match components_of(opt_str_view(dirs)) {
            RemoveDirArgs::NoArg => r matches Err(Error::RemoveDirNoArg),
            RemoveDirArgs::Invalid(text) => r matches Err(Error::InvalidDeletableDirs(t)) && t@ == text,
            RemoveDirArgs::Selected(cs) => {
                let (date, younger) = given_date(arg_younger, arg_older);
                match date_reading(date, *now) {
                    DateReading::Failed(t, why) => r matches Err(Error::DateParseFailure(a, b)) && a@ == t && b@ == why,
                    DateReading::Parsed(dt) => {
                        let chosen = chosen_files(sorted_by_path(items_of_all(*items, cs, cs.len() as int)), younger, dt);
                        r matches Ok(plan) && plan.message@ == date_plan_message(dry_run, chosen.len(), younger, date)
                            && plan.invalidate@ == (if dry_run { Seq::<Component>::empty() } else { cs })
                            && plan.removals@.len() == (if dry_run { 0 } else { chosen.len() })
                            && forall|k: int| 0 <= k < plan.removals@.len() ==> {
                                let rm = #[trigger] plan.removals@[k];
                                &&& rm.path@ == chosen[k].file
                                &&& rm.message is None
                                &&& rm.delete
                            }
                    },
                }
            },
        },
{
    if dirs.is_none() {
        return Err(Error::RemoveDirNoArg);
    }
    let components = match components_from_groups(dirs) {
        Ok(cs) => cs,
        Err(e) => return Err(e),
    };
    let ghost cs = components@;
    let mut files: Vec<FileWithDate> = Vec::new();
    let mut k: usize = 0;
    while k < components.len()
        invariant
            k <= components.len(),
            cs == components@,
            dated_views(files@) == items_of_all(*items, cs, k as int),
        decreases components.len() - k,
    {
        let part: &Vec<FileWithDate> = match components[k] {
            Component::RegistryCrateCache => &items.registry_pkg_files,
            Component::RegistrySources => &items.registry_source_files,
            Component::RegistryIndex => {
                assert(items_of_all(*items, cs, k + 1) =~= items_of_all(*items, cs, k as int));
                k = k + 1;
                continue;
            },
            Component::GitRepos => &items.checkout_items,
            Component::GitDB => &items.bare_repo_items,
        };
        let ghost before = dated_views(files@);
        let mut j: usize = 0;
        while j < part.len()
            invariant
                j <= part.len(),
                dated_views(files@) == before + dated_views(part@).take(j as int),
            decreases part.len() - j,
        {
            let ghost b2 = dated_views(files@);
            files.push(copy_dated(&part[j]));
            assert(dated_views(files@) =~= b2.push(part@[j as int]@));
            assert(dated_views(part@).take(j + 1) =~= dated_views(part@).take(j as int).push(part@[j as int]@));
            j = j + 1;
        }
        assert(dated_views(part@).take(part.len() as int) =~= dated_views(part@));
        assert(items_of(*items, cs[k as int]) == dated_views(part@));
        k = k + 1;
    }
    let (date_text, younger) = match arg_younger {
        Some(y) => (y, true),
        None => (arg_older.unwrap(), false),
    };
    let mut paths: Vec<String> = Vec::new();
    let mut i: usize = 0;
    let ghost all = dated_views(files@);
    while i < files.len()
        invariant
            i <= files.len(),
            all == dated_views(files@),
            paths@.len() == i,
            forall|q: int| 0 <= q < i ==> #[trigger] paths@[q]@ == all[q].file,
        decreases files.len() - i,
    {
        paths.push(files[i].file.clone());
        i = i + 1;
    }
    assert(string_views(paths@) =~= all.map_values(|f: FileWithDateView| f.file));
    let order = order_by_path(&paths);
    let ghost op = order@.map_values(|i: usize| i as int);
    let mut sorted: Vec<FileWithDate> = Vec::new();
    let mut q: usize = 0;
    while q < order.len()
        invariant
            q <= order.len(),
            order@.len() == files@.len(),
            all == dated_views(files@),
            op == order@.map_values(|i: usize| i as int),
            op == path_order(all.map_values(|f: FileWithDateView| f.file)),
            crate::order::is_order_by(op, files@.len() as int, crate::order::path_before(all.map_values(|f: FileWithDateView| f.file))),
            dated_views(sorted@) == op.take(q as int).map_values(|i: int| all[i]),
        decreases order.len() - q,
    {
        assert(op[q as int] == order@[q as int] as int);
        assert(0 <= op[q as int] < files@.len());
        let ghost before = dated_views(sorted@);
        sorted.push(copy_dated(&files[order[q]]));
        assert(dated_views(sorted@) =~= before.push(all[op[q as int]]));
        assert(op.take(q + 1).map_values(|i: int| all[i]) =~= op.take(q as int).map_values(|i: int| all[i]).push(all[op[q as int]]));
        q = q + 1;
    }
    assert(op.take(order.len() as int) =~= op);
    let relation = if younger {
        AgeRelation::FileYoungerThanDate(string_of(&chars_of(date_text)))
    } else {
        AgeRelation::FileOlderThanDate(string_of(&chars_of(date_text)))
    };
    let filtered = match filter_files_by_date(&relation, &sorted, now) {
        Ok(fs) => fs,
        Err(e) => return Err(e),
    };
    let mut message = String::new();
    if dry_run {
        push_str(&mut message, "dry-run: would delete ");
    } else {
        push_str(&mut message, "Deleting ");
    }
    push_decimal(&mut message, filtered.len() as u64);
    push_str(&mut message, " items that are ");
    if younger {
        push_str(&mut message, "younger than ");
    } else {
        push_str(&mut message, "older than ");
    }
    push_str(&mut message, date_text);
    push_str(&mut message, "...");
    let mut removals: Vec<FileRemoval> = Vec::new();
    let mut invalidate: Vec<Component> = Vec::new();
    if !dry_run {
        let mut k: usize = 0;
        let ghost fv = dated_views(filtered@);
        while k < filtered.len()
            invariant
                k <= filtered.len(),
                fv == dated_views(filtered@),
                removals@.len() == k,
                forall|q: int| 0 <= q < k ==> {
                    let rm = #[trigger] removals@[q];
                    &&& rm.path@ == fv[q].file
                    &&& rm.message is None
                    &&& rm.delete
                },
            decreases filtered.len() - k,
        {
            let rm = remove_file(filtered[k].file.as_str(), false, None, &DryRunMessage::Default, None);
            removals.push(rm);
            k = k + 1;
        }
        invalidate = components;
    }
    Ok(DatePlan { message, removals, invalidate })
}

} // verus!
