//! Durations as the user writes them: `30m`, `12 hours`, `2w`, `20:30`.

use vstd::prelude::*;
use vstd::string::*;

use crate::arg_error::ArgParseError;
use crate::outcome::localized;
use crate::text::{
    all_digits, append_str, chars_of, decimal, digits_value, is_ascii_digit, lemma_decimal_digits,
    parse_digits, range_eq_str, string_from_range,
};

verus! {

/// The largest number of whole seconds a duration holds: `i64::MAX`
/// milliseconds.
pub open spec fn max_delta_secs() -> int {
    9_223_372_036_854_775
}

/// `\s` without Unicode: tab, line feed, vertical tab, form feed, carriage
/// return, space.
pub open spec fn is_regex_space(c: char) -> bool {
    let u = c as u32;
    (9 <= u <= 13) || u == 32
}

/// `\w` without Unicode: ASCII letters, digits and `_`.
pub open spec fn is_regex_word(c: char) -> bool {
    ('0' <= c <= '9') || ('a' <= c <= 'z') || ('A' <= c <= 'Z') || c == '_'
}

/// The length of the run of ASCII digits at the front of `s`.
pub open spec fn digit_run(s: Seq<char>) -> nat
    decreases s.len(),
{
    if s.len() == 0 || !is_ascii_digit(s[0]) {
        0
    } else {
        1 + digit_run(s.drop_first())
    }
}

/// The length of the run of `\s` characters at the front of `s`.
pub open spec fn space_run(s: Seq<char>) -> nat
    decreases s.len(),
{
    if s.len() == 0 || !is_regex_space(s[0]) {
        0
    } else {
        1 + space_run(s.drop_first())
    }
}

/// All characters of `s` match `\w`.
pub open spec fn all_word(s: Seq<char>) -> bool {
    forall|i: int| 0 <= i < s.len() ==> #[trigger] is_regex_word(s[i])
}

/// `s` matches `^0+$`.
pub open spec fn is_zeros(s: Seq<char>) -> bool {
    s.len() > 0 && forall|i: int| 0 <= i < s.len() ==> #[trigger] s[i] == '0'
}

/// The captures of `^(\d+)\s*(\w+)$` on `s`, with the regex's backtracking:
/// the longest run of digits, unless the text is only digits, when the last
/// digit is the unit.
pub open spec fn number_and_unit(s: Seq<char>) -> Option<(Seq<char>, Seq<char>)> {
    let k = digit_run(s);
    if k == 0 {
        None
    } else if k == s.len() {
        if k >= 2 {
            Some((s.take(k - 1), s.skip(k - 1)))
        } else {
            None
        }
    } else {
        let w = s.skip(k as int).skip(space_run(s.skip(k as int)) as int);
        if w.len() > 0 && all_word(w) {
            Some((s.take(k as int), w))
        } else {
            None
        }
    }
}

/// The captures of `^(\d+):(\d{1,2})$` on `s`.
pub open spec fn hours_and_minutes(s: Seq<char>) -> Option<(Seq<char>, Seq<char>)> {
    let k = digit_run(s);
    let m = s.skip(k + 1int);
    if k > 0 && k < s.len() && s[k as int] == ':' && 1 <= m.len() <= 2 && all_digits(m) {
        Some((s.take(k as int), m))
    } else {
        None
    }
}

/// The seconds in one of a unit, or `None` for an unknown unit. Months are 30
/// days and years 365.
pub open spec fn unit_seconds(u: Seq<char>) -> Option<nat> {
    if u == "m"@ || u == "min"@ || u == "mins"@ || u == "minute"@ || u == "minutes"@ {
        Some(60)
    } else if u == "h"@ || u == "hr"@ || u == "hrs"@ || u == "hour"@ || u == "hours"@ {
        Some(3600)
    } else if u == "d"@ || u == "day"@ || u == "days"@ {
        Some(86400)
    } else if u == "w"@ || u == "week"@ || u == "weeks"@ {
        Some(604800)
    } else if u == "month"@ || u == "months"@ {
        Some(2592000)
    } else if u == "y"@ || u == "yr"@ || u == "year"@ || u == "years"@ {
        Some(31536000)
    } else {
        None
    }
}

/// The duration, in milliseconds, that the trimmed and lower-cased text `t`
/// names, or the message of the error it gives.
pub open spec fn parse_duration_spec(t: Seq<char>, is_ru: bool) -> Result<int, Seq<char>> {
    if is_zeros(t) {
        Ok(0)
    } else {
        match number_and_unit(t) {
            Some((d, u)) => if digits_value(d) > i64::MAX {
                Err(localized(is_ru, "Invalid number: "@ + d, "Недопустимое число: "@ + d))
            } else {
                match unit_seconds(u) {
                    None => Err(
                        localized(
                            is_ru,
                            "Unknown unit: "@ + u,
                            "Неизвестная единица измерения: "@ + u,
                        ),
                    ),
                    Some(f) => Ok((digits_value(d) * f * 1000) as int),
                }
            },
            None => match hours_and_minutes(t) {
                Some((h, m)) => if digits_value(h) > i64::MAX {
                    Err(
                        localized(
                            is_ru,
                            "Invalid hours: "@ + h,
                            "Недопустимое количество часов: "@ + h,
                        ),
                    )
                } else if digits_value(m) >= 60 {
                    Err(
                        localized(
                            is_ru,
                            "Invalid minutes: "@ + m,
                            "Недопустимое количество минут: "@ + m,
                        ),
                    )
                } else {
                    Ok(((digits_value(h) * 3600 + digits_value(m) * 60) * 1000) as int)
                },
                None => Err(
                    localized(
                        is_ru,
                        "Invalid duration value: "@ + t,
                        "Недопустимое значение длительности: "@ + t,
                    ),
                ),
            },
        }
    }
}

/// The message of a duration out of range.
pub open spec fn duration_out_of_range_message(t: Seq<char>, is_ru: bool) -> Seq<char> {
    localized(
        is_ru,
        "Duration is out of range: "@ + t,
        "Длительность вне допустимого диапазона: "@ + t,
    )
}

fn digit_run_from(cs: &Vec<char>, i: usize) -> (k: usize)
    requires
        i <= cs@.len(),
    ensures
        k == digit_run(cs@.skip(i as int)),
        i + k <= cs@.len(),
{
    let mut j = i;
    while j < cs.len() && '0' <= cs[j] && cs[j] <= '9'
        invariant
            i <= j <= cs@.len(),
            digit_run(cs@.skip(i as int)) == (j - i) + digit_run(cs@.skip(j as int)),
        decreases cs@.len() - j,
    {
        assert(cs@.skip(j as int).drop_first() == cs@.skip(j + 1));
        j = j + 1;
    }
    j - i
}

fn space_run_from(cs: &Vec<char>, i: usize) -> (k: usize)
    requires
        i <= cs@.len(),
    ensures
        k == space_run(cs@.skip(i as int)),
        i + k <= cs@.len(),
{
    let mut j = i;
    while j < cs.len() && ((9 <= cs[j] as u32 && cs[j] as u32 <= 13) || cs[j] as u32 == 32)
        invariant
            i <= j <= cs@.len(),
            space_run(cs@.skip(i as int)) == (j - i) + space_run(cs@.skip(j as int)),
        decreases cs@.len() - j,
    {
        assert(cs@.skip(j as int).drop_first() == cs@.skip(j + 1));
        j = j + 1;
    }
    j - i
}

fn all_word_from(cs: &Vec<char>, i: usize) -> (b: bool)
    requires
        i <= cs@.len(),
    ensures
        b == all_word(cs@.skip(i as int)),
{
    let mut j = i;
    while j < cs.len()
        invariant
            i <= j <= cs@.len(),
            forall|k: int| i <= k < j ==> is_regex_word(#[trigger] cs@[k]),
        decreases cs@.len() - j,
    {
        let c = cs[j];
        if !(('0' <= c && c <= '9') || ('a' <= c && c <= 'z') || ('A' <= c && c <= 'Z') || c
            == '_') {
            assert(!is_regex_word(cs@.skip(i as int)[j - i]));
            return false;
        }
        j = j + 1;
    }
    assert forall|k: int| 0 <= k < cs@.skip(i as int).len() implies #[trigger] is_regex_word(
        cs@.skip(i as int)[k],
    ) by {
        assert(cs@.skip(i as int)[k] == cs@[i + k]);
    }
    true
}

fn all_zeros(cs: &Vec<char>) -> (b: bool)
    ensures
        b == is_zeros(cs@),
{
    if cs.len() == 0 {
        return false;
    }
    let mut j: usize = 0;
    while j < cs.len()
        invariant
            j <= cs@.len(),
            forall|k: int| 0 <= k < j ==> #[trigger] cs@[k] == '0',
        decreases cs@.len() - j,
    {
        if cs[j] != '0' {
            return false;
        }
        j = j + 1;
    }
    true
}

/// The captures of `^(\d+)\s*(\w+)$`, as bounds into `cs`.
fn number_and_unit_exec(cs: &Vec<char>) -> (res: Option<(usize, usize)>)
    ensures
        match number_and_unit(cs@) {
            None => res is None,
            Some((d, u)) => res matches Some((k, w)) && k <= w <= cs@.len() && d
                == cs@.subrange(0, k as int) && u == cs@.subrange(w as int, cs@.len() as int),
        },
{
    let n = cs.len();
    let k = digit_run_from(cs, 0);
    assert(cs@.skip(0) == cs@);
    if k == 0 {
        return None;
    }
    if k == n {
        if k >= 2 {
            assert(cs@.take(k - 1) == cs@.subrange(0, k - 1));
            assert(cs@.skip(k - 1) == cs@.subrange(k - 1, n as int));
            return Some((k - 1, k - 1));
        }
        return None;
    }
    let sp = space_run_from(cs, k);
    assert(cs@.skip(k as int).skip(sp as int) == cs@.skip(k + sp));
    if k + sp < n && all_word_from(cs, k + sp) {
        assert(cs@.take(k as int) == cs@.subrange(0, k as int));
        assert(cs@.skip(k + sp) == cs@.subrange(k + sp, n as int));
        Some((k, k + sp))
    } else {
        None
    }
}

/// The captures of `^(\d+):(\d{1,2})$`, as the bound of the hours in `cs`.
fn hours_and_minutes_exec(cs: &Vec<char>) -> (res: Option<usize>)
    ensures
        match hours_and_minutes(cs@) {
            None => res is None,
            Some((h, m)) => res matches Some(k) && k < cs@.len() && h == cs@.subrange(0, k as int)
                && m == cs@.subrange(k + 1, cs@.len() as int),
        },
{
    let n = cs.len();
    let k = digit_run_from(cs, 0);
    assert(cs@.skip(0) == cs@);
    if k == 0 || k >= n || cs[k] != ':' {
        return None;
    }
    let m_len = n - k - 1;
    assert(cs@.skip(k + 1).len() == m_len);
    if m_len < 1 || m_len > 2 {
        return None;
    }
    let mut j = k + 1;
    while j < n
        invariant
            k + 1 <= j <= n,
            k < n,
            k == digit_run(cs@),
            n == cs@.len(),
            forall|i: int| k + 1 <= i < j ==> is_ascii_digit(#[trigger] cs@[i]),
        decreases n - j,
    {
        if !('0' <= cs[j] && cs[j] <= '9') {
            assert(!is_ascii_digit(cs@.skip(k + 1)[j - k - 1]));
            return None;
        }
        j = j + 1;
    }
    assert(all_digits(cs@.skip(k + 1))) by {
        assert forall|i: int| 0 <= i < cs@.skip(k + 1).len() implies #[trigger] is_ascii_digit(
            cs@.skip(k + 1)[i],
        ) by {
            assert(cs@.skip(k + 1)[i] == cs@[k + 1 + i]);
        }
    }
    assert(cs@.take(k as int) == cs@.subrange(0, k as int));
    assert(cs@.skip(k + 1) == cs@.subrange(k + 1, n as int));
    Some(k)
}

/// The seconds in one of the unit `cs[from..to]`.
fn unit_seconds_exec(cs: &Vec<char>, from: usize, to: usize) -> (res: Option<u64>)
    requires
        from <= to <= cs@.len(),
    ensures
        res == (match unit_seconds(cs@.subrange(from as int, to as int)) {
            Some(f) => Some(f as u64),
            None => None,
        }),
{
    if range_eq_str(cs, from, to, "m") || range_eq_str(cs, from, to, "min") || range_eq_str(
        cs,
        from,
        to,
        "mins",
    ) || range_eq_str(cs, from, to, "minute") || range_eq_str(cs, from, to, "minutes") {
        Some(60)
    } else if range_eq_str(cs, from, to, "h") || range_eq_str(cs, from, to, "hr")
        || range_eq_str(cs, from, to, "hrs") || range_eq_str(cs, from, to, "hour")
        || range_eq_str(cs, from, to, "hours") {
        Some(3600)
    } else if range_eq_str(cs, from, to, "d") || range_eq_str(cs, from, to, "day")
        || range_eq_str(cs, from, to, "days") {
        Some(86400)
    } else if range_eq_str(cs, from, to, "w") || range_eq_str(cs, from, to, "week")
        || range_eq_str(cs, from, to, "weeks") {
        Some(604800)
    } else if range_eq_str(cs, from, to, "month") || range_eq_str(cs, from, to, "months") {
        Some(2592000)
    } else if range_eq_str(cs, from, to, "y") || range_eq_str(cs, from, to, "yr")
        || range_eq_str(cs, from, to, "year") || range_eq_str(cs, from, to, "years") {
        Some(31536000)
    } else {
        None
    }
}

/// `prefix` in the user's language, followed by `cs[from..to]`.
fn message_with(is_ru: bool, en: &str, ru: &str, cs: &Vec<char>, from: usize, to: usize) -> (s:
    String)
    requires
        from <= to <= cs@.len(),
    ensures
        s@ == localized(is_ru, en@, ru@) + cs@.subrange(from as int, to as int),
{
    let mut s = if is_ru {
        String::from_str(ru)
    } else {
        String::from_str(en)
    };
    let tail = string_from_range(cs, from, to);
    append_str(&mut s, tail.as_str());
    s
}

/// Parses a trimmed, lower-cased duration into milliseconds, whatever its
/// size.
pub fn duration_ms(t: &str, is_ru: bool) -> (res: Result<u128, ArgParseError>)
    ensures
        match parse_duration_spec(t@, is_ru) {
            Ok(v) => res == Ok::<u128, ArgParseError>(v as u128),
            Err(m) => res matches Err(e) && e.message@ == m,
        },
        res matches Ok(x) ==> parse_duration_spec(t@, is_ru) == Ok::<int, Seq<char>>(x as int),
{
    let cs = chars_of(t);
    let n = cs.len();
    if all_zeros(&cs) {
        return Ok(0);
    }
    match number_and_unit_exec(&cs) {
        Some((k, w)) => {
            proof {
                assert(all_digits(cs@.subrange(0, k as int))) by {
                    assert(cs@.subrange(0, k as int) == cs@.take(digit_run(cs@) as int)
                        || cs@.subrange(0, k as int) == cs@.take(digit_run(cs@) - 1));
                    lemma_digit_run_digits(cs@);
                }
            }
            let v = match parse_digits(&cs, 0, k, 9_223_372_036_854_775_807u64) {
                Some(v) => v,
                None => {
                    return Err(
                        ArgParseError::new(
                            message_with(is_ru, "Invalid number: ", "Недопустимое число: ", &cs, 0, k),
                        ),
                    );
                },
            };
            match unit_seconds_exec(&cs, w, n) {
                None => {
                    return Err(
                        ArgParseError::new(
                            message_with(
                                is_ru,
                                "Unknown unit: ",
                                "Неизвестная единица измерения: ",
                                &cs,
                                w,
                                n,
                            ),
                        ),
                    );
                },
                Some(f) => {
                    assert(v * f * 1000 <= u128::MAX) by (nonlinear_arith)
                        requires
                            v <= i64::MAX,
                            f <= 31536000,
                    ;
                    return Ok((v as u128) * (f as u128) * 1000);
                },
            }
        },
        None => {},
    }
    match hours_and_minutes_exec(&cs) {
        Some(k) => {
            proof {
                lemma_digit_run_digits(cs@);
                assert(cs@.subrange(0, k as int) == cs@.take(digit_run(cs@) as int));
            }
            let h = match parse_digits(&cs, 0, k, 9_223_372_036_854_775_807u64) {
                Some(h) => h,
                None => {
                    return Err(
                        ArgParseError::new(
                            message_with(
                                is_ru,
                                "Invalid hours: ",
                                "Недопустимое количество часов: ",
                                &cs,
                                0,
                                k,
                            ),
                        ),
                    );
                },
            };
            let m = match parse_digits(&cs, k + 1, n, 59) {
                Some(m) => m,
                None => {
                    return Err(
                        ArgParseError::new(
                            message_with(
                                is_ru,
                                "Invalid minutes: ",
                                "Недопустимое количество минут: ",
                                &cs,
                                k + 1,
                                n,
                            ),
                        ),
                    );
                },
            };
            assert((h * 3600 + m * 60) * 1000 <= u128::MAX) by (nonlinear_arith)
                requires
                    h <= i64::MAX,
                    m <= 59,
            ;
            Ok(((h as u128) * 3600 + (m as u128) * 60) * 1000)
        },
        None => {
            Err(
                ArgParseError::new(
                    message_with(
                        is_ru,
                        "Invalid duration value: ",
                        "Недопустимое значение длительности: ",
                        &cs,
                        0,
                        n,
                    ),
                ),
            )
        },
    }
}

proof fn lemma_digit_run_digits(s: Seq<char>)
    ensures
        digit_run(s) <= s.len(),
        all_digits(s.take(digit_run(s) as int)),
        digit_run(s) >= 1 ==> all_digits(s.take(digit_run(s) - 1)),
    decreases s.len(),
{
    if s.len() > 0 && is_ascii_digit(s[0]) {
        lemma_digit_run_digits(s.drop_first());
        let k = digit_run(s);
        assert forall|i: int| 0 <= i < k implies #[trigger] is_ascii_digit(s.take(k as int)[i]) by {
            if i > 0 {
                assert(s.take(k as int)[i] == s.drop_first().take(k - 1)[i - 1]);
            }
        }
        assert forall|i: int| 0 <= i < k - 1 implies #[trigger] is_ascii_digit(
            s.take(k - 1)[i],
        ) by {
            assert(s.take(k - 1)[i] == s.take(k as int)[i]);
        }
    }
}

proof fn lemma_digit_run_of_digits(d: Seq<char>, rest: Seq<char>)
    requires
        all_digits(d),
        rest.len() == 0 || !is_ascii_digit(rest[0]),
    ensures
        digit_run(d + rest) == d.len(),
    decreases d.len(),
{
    if d.len() == 0 {
        assert(d + rest =~= rest);
    } else {
        let t = d.drop_first();
        assert(all_digits(t)) by {
            assert forall|i: int| 0 <= i < t.len() implies #[trigger] is_ascii_digit(t[i]) by {
                assert(t[i] == d[i + 1]);
            }
        }
        assert(is_ascii_digit(d[0]));
        assert((d + rest)[0] == d[0]);
        assert((d + rest).drop_first() =~= t + rest);
        lemma_digit_run_of_digits(t, rest);
    }
}

/// The unit words and the number of seconds in one of each, as a table of
/// their own: minutes, hours, days, weeks, months of 30 days, years of 365
/// days.
pub open spec fn unit_table_seconds(u: Seq<char>) -> Option<nat> {
    if u == "m"@ || u == "min"@ || u == "mins"@ || u == "minute"@ || u == "minutes"@ {
        Some(60)
    } else if u == "h"@ || u == "hr"@ || u == "hrs"@ || u == "hour"@ || u == "hours"@ {
        Some(60 * 60)
    } else if u == "d"@ || u == "day"@ || u == "days"@ {
        Some(24 * 60 * 60)
    } else if u == "w"@ || u == "week"@ || u == "weeks"@ {
        Some(7 * 24 * 60 * 60)
    } else if u == "month"@ || u == "months"@ {
        Some(30 * 24 * 60 * 60)
    } else if u == "y"@ || u == "yr"@ || u == "year"@ || u == "years"@ {
        Some(365 * 24 * 60 * 60)
    } else {
        None
    }
}

proof fn lemma_unit_words_shape()
    ensures
        "m"@.len() == 1 && "m"@[0] == 'm' && "m"@[0] == 'm',
        "min"@.len() == 3 && "min"@[0] == 'm' && "min"@[2] == 'n',
        "mins"@.len() == 4 && "mins"@[0] == 'm' && "mins"@[3] == 's',
        "minute"@.len() == 6 && "minute"@[0] == 'm' && "minute"@[5] == 'e',
        "minutes"@.len() == 7 && "minutes"@[0] == 'm' && "minutes"@[6] == 's',
        "h"@.len() == 1 && "h"@[0] == 'h' && "h"@[0] == 'h',
        "hr"@.len() == 2 && "hr"@[0] == 'h' && "hr"@[1] == 'r',
        "hrs"@.len() == 3 && "hrs"@[0] == 'h' && "hrs"@[2] == 's',
        "hour"@.len() == 4 && "hour"@[0] == 'h' && "hour"@[3] == 'r',
        "hours"@.len() == 5 && "hours"@[0] == 'h' && "hours"@[4] == 's',
        "d"@.len() == 1 && "d"@[0] == 'd' && "d"@[0] == 'd',
        "day"@.len() == 3 && "day"@[0] == 'd' && "day"@[2] == 'y',
        "days"@.len() == 4 && "days"@[0] == 'd' && "days"@[3] == 's',
        "w"@.len() == 1 && "w"@[0] == 'w' && "w"@[0] == 'w',
        "week"@.len() == 4 && "week"@[0] == 'w' && "week"@[3] == 'k',
        "weeks"@.len() == 5 && "weeks"@[0] == 'w' && "weeks"@[4] == 's',
        "month"@.len() == 5 && "month"@[0] == 'm' && "month"@[4] == 'h',
        "months"@.len() == 6 && "months"@[0] == 'm' && "months"@[5] == 's',
        "y"@.len() == 1 && "y"@[0] == 'y' && "y"@[0] == 'y',
        "yr"@.len() == 2 && "yr"@[0] == 'y' && "yr"@[1] == 'r',
        "year"@.len() == 4 && "year"@[0] == 'y' && "year"@[3] == 'r',
        "years"@.len() == 5 && "years"@[0] == 'y' && "years"@[4] == 's',
{
    reveal_strlit("m");
    reveal_strlit("min");
    reveal_strlit("mins");
    reveal_strlit("minute");
    reveal_strlit("minutes");
    reveal_strlit("h");
    reveal_strlit("hr");
    reveal_strlit("hrs");
    reveal_strlit("hour");
    reveal_strlit("hours");
    reveal_strlit("d");
    reveal_strlit("day");
    reveal_strlit("days");
    reveal_strlit("w");
    reveal_strlit("week");
    reveal_strlit("weeks");
    reveal_strlit("month");
    reveal_strlit("months");
    reveal_strlit("y");
    reveal_strlit("yr");
    reveal_strlit("year");
    reveal_strlit("years");
}

proof fn lemma_number_and_word(n: nat, sep: Seq<char>, u: Seq<char>, is_ru: bool)
    requires
        n <= i64::MAX,
        sep == ""@ || sep == " "@,
        u.len() > 0,
        forall|i: int| 0 <= i < u.len() ==> 'a' <= #[trigger] u[i] <= 'z',
    ensures
        unit_seconds(u) matches Some(f) ==> parse_duration_spec(decimal(n) + sep + u, is_ru)
            == Ok::<int, Seq<char>>((n * f * 1000) as int),
        unit_seconds(u) is None ==> parse_duration_spec(decimal(n) + sep + u, is_ru) == Err::<
            int,
            Seq<char>,
        >(localized(is_ru, "Unknown unit: "@ + u, "Неизвестная единица измерения: "@ + u)),
{
    reveal_strlit("");
    reveal_strlit(" ");
    let d = decimal(n);
    lemma_decimal_digits(n);
    let rest = sep + u;
    let t = d + rest;
    assert(t =~= decimal(n) + sep + u);
    assert('a' <= u[0] <= 'z');
    assert(rest[0] == ' ' || rest[0] == u[0]);
    assert(!is_ascii_digit(rest[0]));
    lemma_digit_run_of_digits(d, rest);
    let k = d.len();
    assert(t.take(k as int) =~= d);
    assert(t.skip(k as int) =~= rest);
    assert(k < t.len());
    if sep.len() == 1 {
        assert(rest.drop_first() =~= u);
        assert(space_run(u) == 0);
        assert(space_run(rest) == 1);
        assert(rest.skip(1) =~= u);
    } else {
        assert(rest =~= u);
        assert(space_run(u) == 0);
        assert(rest.skip(0) =~= u);
    }
    assert(all_word(u));
    assert(number_and_unit(t) == Some((d, u)));
    assert(!is_zeros(t)) by {
        assert(t[t.len() - 1] == u[u.len() - 1]);
    }
}

proof fn lemma_unit_tables_agree(u: Seq<char>)
    requires
        unit_table_seconds(u) is Some,
    ensures
        unit_seconds(u) == unit_table_seconds(u),
        u.len() > 0,
        forall|i: int| 0 <= i < u.len() ==> 'a' <= #[trigger] u[i] <= 'z',
{
    lemma_unit_words_shape();
    if u == "m"@ {
        reveal_strlit("m");
    }
    if u == "min"@ {
        reveal_strlit("min");
    }
    if u == "mins"@ {
        reveal_strlit("mins");
    }
    if u == "minute"@ {
        reveal_strlit("minute");
    }
    if u == "minutes"@ {
        reveal_strlit("minutes");
    }
    if u == "h"@ {
        reveal_strlit("h");
    }
    if u == "hr"@ {
        reveal_strlit("hr");
    }
    if u == "hrs"@ {
        reveal_strlit("hrs");
    }
    if u == "hour"@ {
        reveal_strlit("hour");
    }
    if u == "hours"@ {
        reveal_strlit("hours");
    }
    if u == "d"@ {
        reveal_strlit("d");
    }
    if u == "day"@ {
        reveal_strlit("day");
    }
    if u == "days"@ {
        reveal_strlit("days");
    }
    if u == "w"@ {
        reveal_strlit("w");
    }
    if u == "week"@ {
        reveal_strlit("week");
    }
    if u == "weeks"@ {
        reveal_strlit("weeks");
    }
    if u == "month"@ {
        reveal_strlit("month");
    }
    if u == "months"@ {
        reveal_strlit("months");
    }
    if u == "y"@ {
        reveal_strlit("y");
    }
    if u == "yr"@ {
        reveal_strlit("yr");
    }
    if u == "year"@ {
        reveal_strlit("year");
    }
    if u == "years"@ {
        reveal_strlit("years");
    }
}

/// A number followed by a word that is not a unit (`2 fortnights`, `5s`) is
/// refused, and the message names the word.
pub proof fn duration_unknown_unit(n: nat, sep: Seq<char>, u: Seq<char>, is_ru: bool)
    requires
        n <= i64::MAX,
        sep == ""@ || sep == " "@,
        u.len() > 0,
        forall|i: int| 0 <= i < u.len() ==> 'a' <= #[trigger] u[i] <= 'z',
        unit_table_seconds(u) is None,
    ensures
        parse_duration_spec(decimal(n) + sep + u, is_ru) == Err::<int, Seq<char>>(
            localized(is_ru, "Unknown unit: "@ + u, "Неизвестная единица измерения: "@ + u),
        ),
{
    assert(unit_seconds(u) == unit_table_seconds(u));
    lemma_number_and_word(n, sep, u, is_ru);
}

/// A number and a unit word, with or without one space between them, name
/// that many units: `n` minutes are `n * 60 000` ms, `n` hours
/// `n * 3 600 000` ms, and so on, whichever spelling of the unit is used.
pub proof fn duration_of_number_and_unit(n: nat, sep: Seq<char>, u: Seq<char>, is_ru: bool)
    requires
        n <= i64::MAX,
        sep == ""@ || sep == " "@,
        unit_table_seconds(u) is Some,
    ensures
        parse_duration_spec(decimal(n) + sep + u, is_ru) == Ok::<int, Seq<char>>(
            (n * unit_table_seconds(u)->0 * 1000) as int,
        ),
        (u == "m"@ || u == "min"@ || u == "mins"@ || u == "minute"@ || u == "minutes"@)
            ==> parse_duration_spec(decimal(n) + sep + u, is_ru) == Ok::<int, Seq<char>>(
            (n * 60000) as int,
        ),
        (u == "h"@ || u == "hr"@ || u == "hrs"@ || u == "hour"@ || u == "hours"@)
            ==> parse_duration_spec(decimal(n) + sep + u, is_ru) == Ok::<int, Seq<char>>(
            (n * 3600000) as int,
        ),
        (u == "d"@ || u == "day"@ || u == "days"@) ==> parse_duration_spec(
            decimal(n) + sep + u,
            is_ru,
        ) == Ok::<int, Seq<char>>((n * 86400000) as int),
        (u == "w"@ || u == "week"@ || u == "weeks"@) ==> parse_duration_spec(
            decimal(n) + sep + u,
            is_ru,
        ) == Ok::<int, Seq<char>>((n * 604800000) as int),
        (u == "month"@ || u == "months"@) ==> parse_duration_spec(decimal(n) + sep + u, is_ru)
            == Ok::<int, Seq<char>>((n * 2592000000) as int),
        (u == "y"@ || u == "yr"@ || u == "year"@ || u == "years"@) ==> parse_duration_spec(
            decimal(n) + sep + u,
            is_ru,
        ) == Ok::<int, Seq<char>>((n * 31536000000) as int),
{
    lemma_unit_tables_agree(u);
    lemma_number_and_word(n, sep, u, is_ru);
    lemma_unit_words_shape();
    let f = unit_table_seconds(u)->0;
    assert(n * f * 1000 == n * (f * 1000)) by (nonlinear_arith);
    if u == "m"@ || u == "min"@ || u == "mins"@ || u == "minute"@ || u == "minutes"@ {
        assert(f == 60);
    } else if u == "h"@ || u == "hr"@ || u == "hrs"@ || u == "hour"@ || u == "hours"@ {
        assert(f == 3600);
    } else if u == "d"@ || u == "day"@ || u == "days"@ {
        assert(f == 86400);
    } else if u == "w"@ || u == "week"@ || u == "weeks"@ {
        assert(f == 604800);
    } else if u == "month"@ || u == "months"@ {
        assert(f == 2592000);
    }
}

/// `H:MM` names `H` hours and `MM` minutes, for minutes below 60 written
/// with one digit or two.
pub proof fn duration_of_hours_and_minutes(h: nat, m: nat, mm: Seq<char>, is_ru: bool)
    requires
        h <= i64::MAX,
        m < 60,
        mm == decimal(m) || (m < 10 && mm == seq!['0'] + decimal(m)),
    ensures
        parse_duration_spec(decimal(h) + seq![':'] + mm, is_ru) == Ok::<int, Seq<char>>(
            (h * 3600000 + m * 60000) as int,
        ),
{
    let d = decimal(h);
    lemma_decimal_digits(h);
    lemma_decimal_digits(m);
    let rest = seq![':'] + mm;
    let t = d + rest;
    lemma_digit_run_of_digits(d, rest);
    let k = d.len();
    assert(t[k as int] == ':');
    assert(t.take(k as int) =~= d);
    assert(t.skip(k + 1int) =~= mm);
    if mm != decimal(m) {
        let z = seq!['0'];
        assert(mm.drop_last() =~= z);
        assert(z.drop_last() =~= Seq::<char>::empty());
        assert(z.last() == '0');
        assert(crate::text::digit_value('0') == 0);
        assert(digits_value(z) == digits_value(z.drop_last()) * 10 + crate::text::digit_value(z.last()));
        assert(digits_value(z) == 0);
        assert(digits_value(mm) == digits_value(mm.drop_last()) * 10 + crate::text::digit_value(mm.last()));
        assert(digits_value(decimal(m)) == digits_value(decimal(m).drop_last()) * 10
            + crate::text::digit_value(decimal(m).last()));
        assert(mm.last() == decimal(m)[0]);
        assert(decimal(m) =~= seq![decimal(m)[0]]);
        assert(decimal(m).drop_last() =~= Seq::<char>::empty());
        assert(digits_value(mm) == digits_value(decimal(m)));
        assert(is_ascii_digit(decimal(m)[0]));
        assert(all_digits(mm)) by {
            assert forall|i: int| 0 <= i < mm.len() implies #[trigger] is_ascii_digit(mm[i]) by {
                if i == 1 {
                    assert(mm[1] == decimal(m)[0]);
                }
            }
        }
    } else {
        if decimal(m).len() > 2 {
            assert(m >= 10);
            assert(decimal(m) == decimal(m / 10).push(crate::text::digit_char(m % 10)));
            assert(m / 10 < 10);
        }
    }
    assert(1 <= mm.len() <= 2);
    assert(number_and_unit(t) is None) by {
        assert(digit_run(t) == k);
        assert(k < t.len());
        let w = t.skip(k as int).skip(space_run(t.skip(k as int)) as int);
        assert(space_run(t.skip(k as int)) == 0);
        assert(w[0] == ':');
        assert(!is_regex_word(w[0]));
    }
    assert(hours_and_minutes(t) == Some((d, mm)));
    assert(!is_zeros(t)) by {
        assert(t[k as int] == ':');
    }
    assert(digits_value(d) == h);
    assert(digits_value(mm) == m);
    assert(parse_duration_spec(t, is_ru) == Ok::<int, Seq<char>>(
        ((digits_value(d) * 3600 + digits_value(mm) * 60) * 1000) as int,
    ));
    assert(t =~= decimal(h) + seq![':'] + mm);
}

} // verus!
