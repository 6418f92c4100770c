//! Reading dates, times and durations as the user writes them, and the
//! calls into `chrono` that this needs.
//!
//! Instants are held as whole seconds or milliseconds since 1970-01-01 00:00
//! of the local wall clock; the time zone plays no part.

use chrono::Timelike;
use vstd::prelude::*;
use vstd::string::*;

use crate::arg_error::ArgParseError;
use crate::duration::{duration_ms, duration_out_of_range_message, max_delta_secs, parse_duration_spec};
use crate::outcome::localized;
use crate::text::{append_str, trim, trim_string};

verus! {

/// The first second that `chrono::NaiveDateTime` holds: year -262143.
pub open spec fn min_secs() -> int {
    -8_334_601_315_200
}

/// The last second that `chrono::NaiveDateTime` holds: year 262142.
pub open spec fn max_secs() -> int {
    8_210_266_876_799
}

/// A second that `chrono` can hand out as a local wall-clock time: inside its
/// range, widened by a day for a time-zone offset.
pub open spec fn clock_secs(s: int) -> bool {
    min_secs() - 86400 <= s <= max_secs() + 86400
}

// ------------------------------------------------------------------------------------------
// Trusted calls
// ------------------------------------------------------------------------------------------

/// What `str::to_lowercase` returns for a string.
pub uninterp spec fn lowercase(s: Seq<char>) -> Seq<char>;

/// Lower-cases a string.
///
/// Trusted: `str::to_lowercase`, by the Unicode lower-case mapping; its result
/// is given a name and nothing more is claimed of it.
#[verifier::external_body]
pub(crate) fn to_lowercase(s: &str) -> (r: String)
    ensures
        r@ == lowercase(s@),
{
    s.to_lowercase()
}

/// The current local wall-clock time, in whole seconds.
///
/// Trusted: `chrono::Local::now().naive_local()`, read through
/// `and_utc().timestamp()`. It claims the range of `NaiveDateTime`, widened
/// by a day for the offset; which time it is is not claimed.
#[verifier::external_body]
pub(crate) fn local_now() -> (r: i64)
    ensures
        clock_secs(r as int),
{
    chrono::Local::now().naive_local().and_utc().timestamp()
}

/// What `NaiveDateTime::parse_from_str` reads from a text with a format, as
/// whole seconds; `None` when it fails.
pub uninterp spec fn naive_datetime_from_str(input: Seq<char>, fmt: Seq<char>) -> Option<i64>;

/// Reads a date and time with a `strftime` format.
///
/// Trusted: `chrono::NaiveDateTime::parse_from_str`, read through
/// `and_utc().timestamp()`; the result is named, and claimed to lie in the
/// range of `NaiveDateTime`.
#[verifier::external_body]
fn parse_naive_datetime(input: &str, fmt: &str) -> (r: Option<i64>)
    ensures
        r == naive_datetime_from_str(input@, fmt@),
        r matches Some(v) ==> min_secs() <= v <= max_secs(),
{
    match chrono::NaiveDateTime::parse_from_str(input, fmt) {
        Ok(dt) => Some(dt.and_utc().timestamp()),
        Err(_) => None,
    }
}

/// What `NaiveTime::parse_from_str` reads from a text with a format, as
/// seconds after midnight; `None` when it fails.
pub uninterp spec fn naive_time_from_str(input: Seq<char>, fmt: Seq<char>) -> Option<u32>;

/// Reads a time of day with a `strftime` format.
///
/// Trusted: `chrono::NaiveTime::parse_from_str`, read through
/// `num_seconds_from_midnight`, which counts the non-leap seconds of a day.
#[verifier::external_body]
fn parse_naive_time(input: &str, fmt: &str) -> (r: Option<u32>)
    ensures
        r == naive_time_from_str(input@, fmt@),
        r matches Some(v) ==> v < 86400,
{
    match chrono::NaiveTime::parse_from_str(input, fmt) {
        Ok(t) => Some(t.num_seconds_from_midnight()),
        Err(_) => None,
    }
}

/// What `DateTime::parse_from_rfc3339` reads from a text, as whole seconds of
/// its own wall clock; `None` when it fails.
pub uninterp spec fn rfc3339_from_str(input: Seq<char>) -> Option<i64>;

/// Reads an RFC 3339 date and time.
///
/// Trusted: `chrono::DateTime::parse_from_rfc3339`, read through
/// `naive_local().and_utc().timestamp()`; the result is named, and claimed to
/// lie in the range of `NaiveDateTime` widened by a day for the offset.
#[verifier::external_body]
fn parse_rfc3339(input: &str) -> (r: Option<i64>)
    ensures
        r == rfc3339_from_str(input@),
        r matches Some(v) ==> clock_secs(v as int),
{
    match chrono::DateTime::parse_from_rfc3339(input) {
        Ok(dt) => Some(dt.naive_local().and_utc().timestamp()),
        Err(_) => None,
    }
}

/// What `DateTime::parse_from_rfc2822` reads from a text, as whole seconds of
/// its own wall clock; `None` when it fails.
pub uninterp spec fn rfc2822_from_str(input: Seq<char>) -> Option<i64>;

/// Reads an RFC 2822 date and time.
///
/// Trusted: `chrono::DateTime::parse_from_rfc2822`, read through
/// `naive_local().and_utc().timestamp()`; the result is named, and claimed to
/// lie in the range of `NaiveDateTime` widened by a day for the offset.
#[verifier::external_body]
fn parse_rfc2822(input: &str) -> (r: Option<i64>)
    ensures
        r == rfc2822_from_str(input@),
        r matches Some(v) ==> clock_secs(v as int),
{
    match chrono::DateTime::parse_from_rfc2822(input) {
        Ok(dt) => Some(dt.naive_local().and_utc().timestamp()),
        Err(_) => None,
    }
}

// ------------------------------------------------------------------------------------------
// Dates and times
// ------------------------------------------------------------------------------------------

/// The first second of the day of `s`.
pub open spec fn day_start(s: int) -> int {
    s - s % 86400
}

/// The first second of the minute of `s`.
pub open spec fn minute_start(s: int) -> int {
    s - s % 60
}

/// The first format among `%Y-%m-%d %H:%M`, `%Y-%m-%d %H:%M:%S` and
/// `%Y-%m-%d %H:%M:%S%.f` that reads `t`.
pub open spec fn datetime_formats(t: Seq<char>) -> Option<i64> {
    if naive_datetime_from_str(t, "%Y-%m-%d %H:%M"@) is Some {
        naive_datetime_from_str(t, "%Y-%m-%d %H:%M"@)
    } else if naive_datetime_from_str(t, "%Y-%m-%d %H:%M:%S"@) is Some {
        naive_datetime_from_str(t, "%Y-%m-%d %H:%M:%S"@)
    } else {
        naive_datetime_from_str(t, "%Y-%m-%d %H:%M:%S%.f"@)
    }
}

/// The first format among `%H:%M`, `%H:%M:%S` and `%H:%M:%S%.f` that reads `t`.
pub open spec fn time_formats(t: Seq<char>) -> Option<u32> {
    if naive_time_from_str(t, "%H:%M"@) is Some {
        naive_time_from_str(t, "%H:%M"@)
    } else if naive_time_from_str(t, "%H:%M:%S"@) is Some {
        naive_time_from_str(t, "%H:%M:%S"@)
    } else {
        naive_time_from_str(t, "%H:%M:%S%.f"@)
    }
}

/// The instant, in whole seconds, that the trimmed and lower-cased text `t`
/// names when the clock reads `now`, or the message of its error: `now`,
/// `tomorrow` (a day after now), a date and time, a time of day today, or an
/// RFC 3339 or RFC 2822 date.
pub open spec fn parse_time_spec(t: Seq<char>, now: int, is_ru: bool) -> Result<int, Seq<char>> {
    if t == "now"@ {
        Ok(now)
    } else if t == "tomorrow"@ {
        Ok(now + 86400)
    } else if t.contains('-') && t.contains(':') && datetime_formats(t) is Some {
        Ok(datetime_formats(t)->0 as int)
    } else if t.contains(':') && time_formats(t) is Some {
        Ok(day_start(now) + time_formats(t)->0)
    } else if rfc3339_from_str(t) is Some {
        Ok(rfc3339_from_str(t)->0 as int)
    } else if rfc2822_from_str(t) is Some {
        Ok(rfc2822_from_str(t)->0 as int)
    } else {
        Err(
            localized(
                is_ru,
                "Invalid date/time value: '"@ + t + "'"@,
                "Недопустимое значение даты/времени: '"@ + t + "'"@,
            ),
        )
    }
}

/// The clock reading `now` leaves room for a day more.
pub open spec fn tomorrow_fits(now: int) -> bool {
    now + 86400 <= max_secs()
}

/// The message of a date beyond the range of the calendar.
pub open spec fn date_out_of_range_message(is_ru: bool) -> Seq<char> {
    localized(is_ru, "Date is out of range"@, "Дата вне допустимого диапазона"@)
}

fn floor_to_day(x: i64) -> (r: i64)
    requires
        x - 86400 >= i64::MIN,
    ensures
        r == day_start(x as int),
{
    let m = x % 86400;
    if m < 0 {
        x - (m + 86400)
    } else {
        x - m
    }
}

fn floor_to_minute(x: i64) -> (r: i64)
    requires
        x - 60 >= i64::MIN,
    ensures
        r == minute_start(x as int),
{
    let m = x % 60;
    if m < 0 {
        x - (m + 60)
    } else {
        x - m
    }
}

/// Whether two strings hold the same characters.
pub fn str_eq(a: &str, b: &str) -> (r: bool)
    ensures
        r == (a@ == b@),
{
    let cs = crate::text::chars_of(a);
    assert(cs@.subrange(0, cs@.len() as int) == cs@);
    crate::text::range_eq_str(&cs, 0, cs.len(), b)
}

fn contains_char(s: &str, c: char) -> (b: bool)
    ensures
        b == s@.contains(c),
{
    let cs = crate::text::chars_of(s);
    let mut i: usize = 0;
    while i < cs.len()
        invariant
            cs@ == s@,
            i <= cs@.len(),
            forall|k: int| 0 <= k < i ==> cs@[k] != c,
        decreases cs@.len() - i,
    {
        if cs[i] == c {
            assert(s@[i as int] == c);
            return true;
        }
        i = i + 1;
    }
    false
}

fn datetime_formats_exec(t: &str) -> (r: Option<i64>)
    ensures
        r == datetime_formats(t@),
        r matches Some(v) ==> min_secs() <= v <= max_secs(),
{
    let a = parse_naive_datetime(t, "%Y-%m-%d %H:%M");
    if a.is_some() {
        return a;
    }
    let b = parse_naive_datetime(t, "%Y-%m-%d %H:%M:%S");
    if b.is_some() {
        return b;
    }
    parse_naive_datetime(t, "%Y-%m-%d %H:%M:%S%.f")
}

fn time_formats_exec(t: &str) -> (r: Option<u32>)
    ensures
        r == time_formats(t@),
        r matches Some(v) ==> v < 86400,
{
    let a = parse_naive_time(t, "%H:%M");
    if a.is_some() {
        return a;
    }
    let b = parse_naive_time(t, "%H:%M:%S");
    if b.is_some() {
        return b;
    }
    parse_naive_time(t, "%H:%M:%S%.f")
}

/// Reads a trimmed, lower-cased date or time when the clock reads `now`.
pub fn parse_time_lowered(t: &str, now: i64, is_ru: bool) -> (res: Result<i64, ArgParseError>)
    requires
        clock_secs(now as int),
        t@ == "tomorrow"@ ==> tomorrow_fits(now as int),
    ensures
        match parse_time_spec(t@, now as int, is_ru) {
            Ok(v) => res == Ok::<i64, ArgParseError>(v as i64) && clock_secs(v),
            Err(m) => res matches Err(e) && e.message@ == m,
        },
{
    if str_eq(t, "now") {
        return Ok(now);
    }
    if str_eq(t, "tomorrow") {
        return Ok(now + 86400);
    }
    if contains_char(t, '-') && contains_char(t, ':') {
        if let Some(v) = datetime_formats_exec(t) {
            return Ok(v);
        }
    }
    if contains_char(t, ':') {
        if let Some(v) = time_formats_exec(t) {
            return Ok(floor_to_day(now) + v as i64);
        }
    }
    if let Some(v) = parse_rfc3339(t) {
        return Ok(v);
    }
    if let Some(v) = parse_rfc2822(t) {
        return Ok(v);
    }
    let mut message = if is_ru {
        String::from_str("Недопустимое значение даты/времени: '")
    } else {
        String::from_str("Invalid date/time value: '")
    };
    append_str(&mut message, t);
    append_str(&mut message, "'");
    Err(ArgParseError::new(message))
}


/// How a date or time is read, whatever the clock reads: `now` is the
/// reading itself and `tomorrow` a day (86 400 s) after it; a full date and
/// time names the same instant whenever it is read; a time of day names
/// that time on the day of the reading, so its distance from the start of
/// that day does not depend on the reading; and the language only changes
/// the error messages, never whether a text is read or what it names.
pub proof fn time_reading_and_the_clock(t: Seq<char>, now: int, later: int, is_ru: bool)
    ensures
        parse_time_outcome("now"@, now, is_ru) == Ok::<int, Seq<char>>(now),
        tomorrow_fits(now) ==> parse_time_outcome("tomorrow"@, now, is_ru) == Ok::<
            int,
            Seq<char>,
        >(now + 86400),
        (t.contains('-') && t.contains(':') && datetime_formats(t) is Some) ==> parse_time_outcome(
            t,
            now,
            is_ru,
        ) == parse_time_outcome(t, later, is_ru),
        (t != "now"@ && t != "tomorrow"@ && !(t.contains('-') && t.contains(':')
            && datetime_formats(t) is Some) && t.contains(':') && time_formats(t) is Some) ==> (
        parse_time_outcome(t, now, is_ru) matches Ok(a) && parse_time_outcome(t, later, is_ru)
            matches Ok(b) && a - day_start(now) == b - day_start(later)),
        parse_time_outcome(t, now, true) is Ok <==> parse_time_outcome(t, now, false) is Ok,
        parse_time_outcome(t, now, true) matches Ok(v) ==> parse_time_outcome(t, now, false)
            == Ok::<int, Seq<char>>(v),
{
    reveal_strlit("now");
    reveal_strlit("tomorrow");
    assert("now"@.len() == 3 && "tomorrow"@.len() == 8);
    assert("now"@ != "tomorrow"@);
    assert(!"now"@.contains(':')) by {
        assert forall|i: int| 0 <= i < "now"@.len() implies "now"@[i] != ':' by {}
    }
}

/// The language only changes a duration's error messages, never whether it
/// is read or how long it is.
pub proof fn duration_reading_and_language(t: Seq<char>)
    ensures
        parse_duration_outcome(t, true) is Ok <==> parse_duration_outcome(t, false) is Ok,
        parse_duration_outcome(t, true) matches Ok(v) ==> parse_duration_outcome(t, false)
            == Ok::<int, Seq<char>>(v),
{
}

/// `res` is the outcome `r`: the same value, or an error with the same
/// message.
pub open spec fn outcome_is(res: Result<i64, ArgParseError>, r: Result<int, Seq<char>>) -> bool {
    match r {
        Ok(v) => res == Ok::<i64, ArgParseError>(v as i64),
        Err(m) => res matches Err(e) && e.message@ == m,
    }
}

/// What reading the trimmed, lower-cased text `t` gives when the clock reads
/// `now`: `parse_time_spec`, except that the next midnight after the last day
/// of the calendar is an error.
pub open spec fn parse_time_outcome(t: Seq<char>, now: int, is_ru: bool) -> Result<
    int,
    Seq<char>,
> {
    if t == "tomorrow"@ && !tomorrow_fits(now) {
        Err(date_out_of_range_message(is_ru))
    } else {
        parse_time_spec(t, now, is_ru)
    }
}

/// `r` with a value rounded down to its minute, in milliseconds.
pub open spec fn to_minute_ms(r: Result<int, Seq<char>>) -> Result<int, Seq<char>> {
    match r {
        Ok(v) => Ok(minute_start(v) * 1000),
        Err(m) => Err(m),
    }
}

/// Reads a date or time as the user writes it, in whole seconds, when the
/// clock reads `now`: the text is trimmed and lower-cased first.
pub fn parse_time_at(input: &str, now: i64, is_ru: bool) -> (res: Result<i64, ArgParseError>)
    requires
        clock_secs(now as int),
    ensures
        outcome_is(res, parse_time_outcome(lowercase(trim(input@)), now as int, is_ru)),
        res matches Ok(v) ==> clock_secs(v as int),
{
    let trimmed = trim_string(input);
    let t = to_lowercase(trimmed.as_str());
    if str_eq(t.as_str(), "tomorrow") && now > 8_210_266_876_799 - 86400 {
        let message = if is_ru {
            String::from_str("Дата вне допустимого диапазона")
        } else {
            String::from_str("Date is out of range")
        };
        return Err(ArgParseError::new(message));
    }
    parse_time_lowered(t.as_str(), now, is_ru)
}

/// Reads a date or time as `parse_time_at` does, rounded down to its
/// minute, in milliseconds.
pub fn parse_time_to_minutes_at(input: &str, now: i64, is_ru: bool) -> (res: Result<
    i64,
    ArgParseError,
>)
    requires
        clock_secs(now as int),
    ensures
        outcome_is(res, to_minute_ms(parse_time_outcome(lowercase(trim(input@)), now as int, is_ru))),
        res matches Ok(v) ==> clock_secs(v / 1000) && v % 60000 == 0,
{
    match parse_time_at(input, now, is_ru) {
        Ok(v) => {
            let m = floor_to_minute(v);
            Ok(m * 1000)
        },
        Err(e) => Err(e),
    }
}

/// Reads a date or time as the user writes it, in whole seconds: the text is
/// trimmed and lower-cased, and read against the clock at the time of the
/// call.
pub fn parse_time(input: &str, is_ru: bool) -> (res: Result<i64, ArgParseError>)
    ensures
        exists|now: int|
            clock_secs(now) && outcome_is(
                res,
                parse_time_outcome(lowercase(trim(input@)), now, is_ru),
            ),
        res matches Ok(v) ==> clock_secs(v as int),
{
    let now = local_now();
    parse_time_at(input, now, is_ru)
}

/// Reads a date or time as `parse_time` does, rounded down to its minute, in
/// milliseconds.
pub fn parse_time_to_minutes(input: &str, is_ru: bool) -> (res: Result<i64, ArgParseError>)
    ensures
        exists|now: int|
            clock_secs(now) && outcome_is(
                res,
                to_minute_ms(parse_time_outcome(lowercase(trim(input@)), now, is_ru)),
            ),
        res matches Ok(v) ==> clock_secs(v / 1000) && v % 60000 == 0,
{
    let now = local_now();
    parse_time_to_minutes_at(input, now, is_ru)
}

/// The largest duration, in milliseconds: `i64::MAX` less what does not make
/// a whole second.
pub open spec fn max_duration_ms() -> int {
    max_delta_secs() * 1000
}

/// What reading the trimmed, lower-cased duration `t` gives: `parse_duration_spec`,
/// except that a duration beyond what the duration type holds is an error.
pub open spec fn parse_duration_outcome(t: Seq<char>, is_ru: bool) -> Result<int, Seq<char>> {
    match parse_duration_spec(t, is_ru) {
        Ok(v) => if v <= max_duration_ms() {
            Ok(v)
        } else {
            Err(duration_out_of_range_message(t, is_ru))
        },
        Err(m) => Err(m),
    }
}

/// Reads a duration as the user writes it, in milliseconds: the text is
/// trimmed and lower-cased first.
pub fn parse_duration(input: &str, is_ru: bool) -> (res: Result<i64, ArgParseError>)
    ensures
        outcome_is(res, parse_duration_outcome(lowercase(trim(input@)), is_ru)),
        res matches Ok(v) ==> 0 <= v <= max_duration_ms(),
{
    let trimmed = trim_string(input);
    let t = to_lowercase(trimmed.as_str());
    match duration_ms(t.as_str(), is_ru) {
        Ok(v) => {
            if v > 9_223_372_036_854_775_000u128 {
                let mut message = if is_ru {
                    String::from_str("Длительность вне допустимого диапазона: ")
                } else {
                    String::from_str("Duration is out of range: ")
                };
                append_str(&mut message, t.as_str());
                assert(parse_duration_spec(t@, is_ru) is Ok);
                assert(parse_duration_spec(t@, is_ru)->Ok_0 > max_duration_ms());
                Err(ArgParseError::new(message))
            } else {
                assert(parse_duration_spec(t@, is_ru)->Ok_0 == v);
                Ok(v as i64)
            }
        },
        Err(e) => Err(e),
    }
}

} // verus!
