//! The `--since`, `--until` and `--duration` options, and the period they
//! give.

use vstd::prelude::*;
use vstd::string::*;

use crate::arg_error::ArgParseError;
use crate::clock::{clock_secs, local_now, max_secs, min_secs, minute_start};
use crate::node::TimePeriod;
use crate::outcome::localized;

verus! {

/// The period options of an action, once read.
#[derive(Clone, Copy, Debug, PartialEq, Eq, Hash, Structural)]
pub enum ParsedTimePeriod {
    /// No period option was given.
    NotSpecified,
    /// The options give an empty period: any period is removed.
    Reset,
    /// The options give this period.
    Period(TimePeriod),
}

impl ParsedTimePeriod {
    /// The period of `Period`.
    pub fn unwrap(&self) -> (p: &TimePeriod)
        requires
            *self is Period,
        ensures
            *self == ParsedTimePeriod::Period(*p),
    {
        match self {
            ParsedTimePeriod::Period(p) => p,
            _ => vstd::pervasive::unreached(),
        }
    }
}

/// The period options as given, each one optional; instants and the
/// duration are in milliseconds.
#[derive(Clone, Copy, Debug, PartialEq, Eq, Structural)]
pub struct CliTimePeriod {
    pub since: Option<i64>,
    pub until: Option<i64>,
    pub duration: Option<i64>,
}

/// The first millisecond that `chrono::NaiveDateTime` holds.
pub open spec fn min_ms() -> int {
    min_secs() * 1000
}

/// The last millisecond that `chrono::NaiveDateTime` holds.
pub open spec fn max_ms() -> int {
    max_secs() * 1000 + 999
}

/// `--until` and `--duration` were both given.
pub open spec fn conflict_message(is_ru: bool) -> Seq<char> {
    localized(
        is_ru,
        "The '--until' and '--duration' options cannot be set simultaneously"@,
        "Параметры '--until' и '--duration' не могут быть заданы одновременно"@,
    )
}

/// `--since` was given alone.
pub open spec fn missing_end_message(is_ru: bool) -> Seq<char> {
    localized(
        is_ru,
        "If the '--since' option is set, then one of '--until' or '--duration' options must also be set"@,
        "Если указана опция '--since', то также должна быть указана одна из опций '--until' или '--duration'"@,
    )
}

/// `--since` lies before now.
pub open spec fn since_in_past_message(is_ru: bool) -> Seq<char> {
    localized(
        is_ru,
        "The '--since' time is earlier then now"@,
        "Время '--since' раньше текущего момента"@,
    )
}

/// `--until` lies before now.
pub open spec fn until_in_past_message(is_ru: bool) -> Seq<char> {
    localized(
        is_ru,
        "The '--until' time is earlier then now"@,
        "Время '--until' раньше текущего момента"@,
    )
}

/// `--until` lies before `--since`.
pub open spec fn until_before_since_message(is_ru: bool) -> Seq<char> {
    localized(
        is_ru,
        "The '--until' time is earlier to '--since'"@,
        "Время '--until' раньше времени '--since'"@,
    )
}

/// The end of the period falls outside the calendar.
pub open spec fn end_out_of_range_message(is_ru: bool) -> Seq<char> {
    localized(
        is_ru,
        "The period end is out of range"@,
        "Конец периода вне допустимого диапазона"@,
    )
}

/// The start that the options give when the clock reads `now`.
pub open spec fn effective_since(p: CliTimePeriod, now: int) -> int {
    match p.since {
        Some(s) => s as int,
        None => now,
    }
}

/// The options ask for `since + duration` as the end.
pub open spec fn ends_by_duration(p: CliTimePeriod) -> bool {
    p.until is None && p.duration is Some
}

/// The end `since + duration`, when the options ask for it, lies in the
/// calendar.
pub open spec fn end_in_range(p: CliTimePeriod, now: int) -> bool {
    ends_by_duration(p) ==> min_ms() <= effective_since(p, now) + p.duration->0 <= max_ms()
}

/// The checks of the given instants against `now` and each other.
pub open spec fn bounds_spec(p: CliTimePeriod, now: int, is_ru: bool) -> Result<(), Seq<char>> {
    if p.since matches Some(s) && s < now {
        Err(since_in_past_message(is_ru))
    } else if p.until matches Some(u) && u < now {
        Err(until_in_past_message(is_ru))
    } else if p.since matches Some(s) && p.until matches Some(u) && u < s {
        Err(until_before_since_message(is_ru))
    } else {
        Ok(())
    }
}

/// The period that the options give when the clock reads `now`, or the
/// message of their error.
pub open spec fn parsed_period_spec(p: CliTimePeriod, now: int, is_ru: bool) -> Result<
    ParsedTimePeriod,
    Seq<char>,
> {
    if p.since is None && p.until is None && p.duration is None {
        Ok(ParsedTimePeriod::NotSpecified)
    } else if p.until is Some && p.duration is Some {
        Err(conflict_message(is_ru))
    } else if p.until is None && p.duration is None {
        Err(missing_end_message(is_ru))
    } else {
        let since = effective_since(p, now);
        let until = match p.until {
            Some(u) => u as int,
            None => since + p.duration->0,
        };
        match bounds_spec(p, now, is_ru) {
            Err(m) => Err(m),
            Ok(()) => if since == until {
                Ok(ParsedTimePeriod::Reset)
            } else {
                Ok(ParsedTimePeriod::Period(TimePeriod { since: since as i64, until: until as i64 }))
            },
        }
    }
}

fn message(is_ru: bool, en: &str, ru: &str) -> (e: ArgParseError)
    ensures
        e.message@ == localized(is_ru, en@, ru@),
{
    if is_ru {
        ArgParseError::new(String::from_str(ru))
    } else {
        ArgParseError::new(String::from_str(en))
    }
}

impl CliTimePeriod {
    /// No option given.
    pub fn new() -> (p: Self)
        ensures
            p == (CliTimePeriod { since: None, until: None, duration: None }),
    {
        CliTimePeriod { since: None, until: None, duration: None }
    }

    /// Whether no option was given.
    pub fn is_none(&self) -> (b: bool)
        ensures
            b == (self.since is None && self.until is None && self.duration is None),
    {
        self.since.is_none() && self.until.is_none() && self.duration.is_none()
    }

    /// Records `--since`.
    pub fn set_since(&mut self, since: i64) -> (res: Result<(), ArgParseError>)
        ensures
            res is Ok,
            *final(self) == (CliTimePeriod { since: Some(since), ..*old(self) }),
    {
        self.since = Some(since);
        Ok(())
    }

    /// Records `--until`.
    pub fn set_until(&mut self, until: i64) -> (res: Result<(), ArgParseError>)
        ensures
            res is Ok,
            *final(self) == (CliTimePeriod { until: Some(until), ..*old(self) }),
    {
        self.until = Some(until);
        Ok(())
    }

    /// Records `--duration`.
    pub fn set_duration(&mut self, duration: i64) -> (res: Result<(), ArgParseError>)
        ensures
            res is Ok,
            *final(self) == (CliTimePeriod { duration: Some(duration), ..*old(self) }),
    {
        self.duration = Some(duration);
        Ok(())
    }

    /// Checks the given instants against `now` and each other.
    pub fn check_time_bounds(&self, now: i64, is_ru: bool) -> (res: Result<(), ArgParseError>)
        ensures
            match bounds_spec(*self, now as int, is_ru) {
                Ok(()) => res is Ok,
                Err(m) => res matches Err(e) && e.message@ == m,
            },
    {
        if let Some(since) = self.since {
            if since < now {
                return Err(
                    message(
                        is_ru,
                        "The '--since' time is earlier then now",
                        "Время '--since' раньше текущего момента",
                    ),
                );
            }
        }
        if let Some(until) = self.until {
            if until < now {
                return Err(
                    message(
                        is_ru,
                        "The '--until' time is earlier then now",
                        "Время '--until' раньше текущего момента",
                    ),
                );
            }
        }
        if let (Some(since), Some(until)) = (self.since, self.until) {
            if until < since {
                return Err(
                    message(
                        is_ru,
                        "The '--until' time is earlier to '--since'",
                        "Время '--until' раньше времени '--since'",
                    ),
                );
            }
        }
        Ok(())
    }

    /// The period the options give when the clock reads `now`; an end
    /// `since + duration` beyond the calendar is an error.
    pub fn as_parsed_time_period_at(&self, now: i64, is_ru: bool) -> (res: Result<
        ParsedTimePeriod,
        ArgParseError,
    >)
        ensures
            period_outcome(*self, now as int, is_ru, res),
    {
        if self.is_none() {
            return Ok(ParsedTimePeriod::NotSpecified);
        }
        if self.until.is_some() && self.duration.is_some() {
            return Err(
                message(
                    is_ru,
                    "The '--until' and '--duration' options cannot be set simultaneously",
                    "Параметры '--until' и '--duration' не могут быть заданы одновременно",
                ),
            );
        }
        let since = match self.since {
            Some(s) => s,
            None => now,
        };
        if self.until.is_none() && self.duration.is_some() {
            let d = self.duration.unwrap();
            let lo: i64 = -8_334_601_315_200_000;
            let hi: i64 = 8_210_266_876_799_999;
            let fits = if d >= 0 {
                since <= hi - d
            } else {
                since >= lo - d
            };
            if !fits || since + d < lo || since + d > hi {
                return Err(
                    message(
                        is_ru,
                        "The period end is out of range",
                        "Конец периода вне допустимого диапазона",
                    ),
                );
            }
        }
        let until = match self.until {
            Some(u) => u,
            None => match self.duration {
                Some(d) => since + d,
                None => {
                    return Err(
                        message(
                            is_ru,
                            "If the '--since' option is set, then one of '--until' or '--duration' options must also be set",
                            "Если указана опция '--since', то также должна быть указана одна из опций '--until' или '--duration'",
                        ),
                    );
                },
            },
        };
        self.check_time_bounds(now, is_ru)?;
        if since == until {
            Ok(ParsedTimePeriod::Reset)
        } else {
            Ok(ParsedTimePeriod::Period(TimePeriod::new(since, until)))
        }
    }

    /// The period the options give, against the clock at the time of the call
    /// rounded down to its minute; an end beyond the calendar is an error.
    pub fn as_parsed_time_period(&self, is_ru: bool) -> (res: Result<
        ParsedTimePeriod,
        ArgParseError,
    >)
        ensures
            exists|now: int| clock_minute(now) && #[trigger] period_outcome(*self, now, is_ru, res),
    {
        if self.is_none() {
            let r = Ok(ParsedTimePeriod::NotSpecified);
            assert(clock_minute(0) && period_outcome(*self, 0, is_ru, r));
            return r;
        }
        let secs = local_now();
        let now = minute_ms(secs);
        let r = self.as_parsed_time_period_at(now, is_ru);
        r
    }
}

/// The clock reading `secs` rounded down to its minute, in milliseconds.
pub(crate) fn minute_ms(secs: i64) -> (now: i64)
    requires
        clock_secs(secs as int),
    ensures
        now == minute_start(secs as int) * 1000,
        clock_minute(now as int),
{
    let m = secs % 60;
    let minute = if m < 0 {
        secs - (m + 60)
    } else {
        secs - m
    };
    assert(minute == minute_start(secs as int));
    let ghost k: int = secs as int / 60;
    assert(minute == 60 * k);
    let now = minute * 1000;
    assert(now == 60000 * k);
    now
}

/// A reading of the clock rounded down to its minute, in milliseconds.
pub open spec fn clock_minute(now: int) -> bool {
    &&& now % 60000 == 0
    &&& (min_secs() - 86460) * 1000 <= now <= (max_secs() + 86400) * 1000
}

/// What the options give when the clock reads `now`: the period or the
/// error of `parsed_period_spec`, or the out-of-range error when the end
/// `since + duration` falls outside the calendar.
pub open spec fn checked_period_spec(p: CliTimePeriod, now: int, is_ru: bool) -> Result<
    ParsedTimePeriod,
    Seq<char>,
> {
    if end_in_range(p, now) {
        parsed_period_spec(p, now, is_ru)
    } else {
        Err(end_out_of_range_message(is_ru))
    }
}

/// `res` is the outcome of `checked_period_spec`, the error by its message.
pub open spec fn period_outcome(
    p: CliTimePeriod,
    now: int,
    is_ru: bool,
    res: Result<ParsedTimePeriod, ArgParseError>,
) -> bool {
    match checked_period_spec(p, now, is_ru) {
        Ok(v) => res == Ok::<ParsedTimePeriod, ArgParseError>(v),
        Err(m) => res matches Err(e) && e.message@ == m,
    }
}

/// A period given by the options never starts before the clock reading it
/// was read against, and always lasts: `now <= since < until`. A duration is
/// never negative, as `parse_duration` reads it.
/// How the period options combine, whatever the clock reads: none given
/// is no period; `--until` with `--duration`, or a start with no end, is
/// refused; a start or end before now, or an end before the start, is
/// refused. Otherwise the period runs from the start given (or now) to the
/// end given (or the start plus the duration); an empty one resets the
/// period.
pub proof fn period_from_options(p: CliTimePeriod, now: int, is_ru: bool)
    ensures
        (p.since is None && p.until is None && p.duration is None) ==> checked_period_spec(
            p,
            now,
            is_ru,
        ) == Ok::<ParsedTimePeriod, Seq<char>>(ParsedTimePeriod::NotSpecified),
        (p.until is Some && p.duration is Some) ==> checked_period_spec(p, now, is_ru) is Err,
        (p.since is Some && p.until is None && p.duration is None) ==> checked_period_spec(
            p,
            now,
            is_ru,
        ) is Err,
        (p.since matches Some(s) && s < now) ==> checked_period_spec(p, now, is_ru) is Err,
        (p.until matches Some(u) && u < now) ==> checked_period_spec(p, now, is_ru) is Err,
        (p.since matches Some(s) && p.until matches Some(u) && u < s) ==> checked_period_spec(
            p,
            now,
            is_ru,
        ) is Err,
        (p.until is Some && p.duration is None && (p.since is Some ==> now <= p.since->0
            <= p.until->0) && now <= p.until->0) ==> checked_period_spec(p, now, is_ru) == Ok::<
            ParsedTimePeriod,
            Seq<char>,
        >(
            if (if p.since is Some {
            p.since->0 as int
        } else {
            now
        }) == p.until->0 {
                ParsedTimePeriod::Reset
            } else {
                ParsedTimePeriod::Period(
                    TimePeriod { since: (if p.since is Some {
            p.since->0 as int
        } else {
            now
        }) as i64, until: p.until->0 },
                )
            },
        ),
        (p.until is None && p.duration is Some && (p.since is Some ==> now <= p.since->0)
            && min_ms() <= (if p.since is Some {
            p.since->0 as int
        } else {
            now
        }) + p.duration->0 <= max_ms()) ==> checked_period_spec(
            p,
            now,
            is_ru,
        ) == Ok::<ParsedTimePeriod, Seq<char>>(
            if p.duration->0 == 0 {
                ParsedTimePeriod::Reset
            } else {
                ParsedTimePeriod::Period(
                    TimePeriod {
                        since: (if p.since is Some {
            p.since->0 as int
        } else {
            now
        }) as i64,
                        until: ((if p.since is Some {
            p.since->0 as int
        } else {
            now
        }) + p.duration->0) as i64,
                    },
                )
            },
        ),
{
}

pub proof fn set_period_lasts(p: CliTimePeriod, now: int, is_ru: bool)
    requires
        p.duration matches Some(d) ==> d >= 0,
        i64::MIN <= now <= i64::MAX,
    ensures
        checked_period_spec(p, now, is_ru) matches Ok(ParsedTimePeriod::Period(tp)) ==> now
            <= tp.since < tp.until,
{
}

} // verus!
