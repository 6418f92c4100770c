use ywpm::clock::{parse_duration, parse_time, parse_time_at, parse_time_to_minutes, parse_time_to_minutes_at};
use ywpm::node::TimePeriod;
use ywpm::time_period::{CliTimePeriod, ParsedTimePeriod};

// 2026-06-11 10:15:30 as seconds of the wall clock.
const NOW: i64 = 1_781_172_930;
const DAY: i64 = 86_400;

fn ms(d: i64) -> i64 {
    d * 1000
}

#[test]
fn durations_with_units() {
    assert_eq!(parse_duration("30m", false).unwrap(), ms(30 * 60));
    assert_eq!(parse_duration("40 minutes", false).unwrap(), ms(40 * 60));
    assert_eq!(parse_duration("12h", false).unwrap(), ms(12 * 3600));
    assert_eq!(parse_duration("3d", false).unwrap(), ms(3 * DAY));
    assert_eq!(parse_duration("2w", false).unwrap(), ms(14 * DAY));
    assert_eq!(parse_duration("5 month", false).unwrap(), ms(5 * 30 * DAY));
    assert_eq!(parse_duration("1 year", false).unwrap(), ms(365 * DAY));
    assert_eq!(parse_duration(" 20:30 ", false).unwrap(), ms(20 * 3600 + 30 * 60));
    assert_eq!(parse_duration("000", false).unwrap(), 0);
    assert_eq!(parse_duration("1000Y", false).unwrap(), ms(1000 * 365 * DAY));
}

#[test]
fn durations_refused() {
    assert!(parse_duration("abc", false).is_err());
    assert!(parse_duration("5 parsecs", false).is_err());
    assert!(parse_duration("", false).is_err());
    let e = parse_duration("99999999999999999999y", false).unwrap_err();
    assert!(e.message().len() > 0);
}

#[test]
fn time_words_and_formats() {
    assert_eq!(parse_time_at("now", NOW, false).unwrap(), NOW);
    assert_eq!(parse_time_at(" NOW ", NOW, false).unwrap(), NOW);
    assert_eq!(parse_time_at("tomorrow", NOW, false).unwrap(), NOW + DAY);
    let day = NOW - NOW % DAY;
    assert_eq!(parse_time_at("14:00", NOW, false).unwrap(), day + 14 * 3600);
    assert_eq!(parse_time_at("14:00:30", NOW, false).unwrap(), day + 14 * 3600 + 30);
    assert_eq!(parse_time_at("2026-06-11 12:00", NOW, false).unwrap(), day + 12 * 3600);
    assert_eq!(
        parse_time_at("2026-07-27T20:08:32+03:00", NOW, false).unwrap(),
        1_785_182_912
    );
    assert_eq!(parse_time_at("27 Jul 2026 20:08:32 +0000", NOW, false).unwrap(), 1_785_182_912);
    assert_eq!(
        parse_time_to_minutes_at("27 jul 2026 20:08:32 +0000", NOW, false).unwrap(),
        (1_785_182_912 - 32) * 1000
    );
}

#[test]
fn time_rounded_to_minutes() {
    assert_eq!(parse_time_to_minutes_at("now", NOW, false).unwrap(), (NOW - NOW % 60) * 1000);
    let v = parse_time_to_minutes("now", false).unwrap();
    assert_eq!(v % 60_000, 0);
    assert!(parse_time("now", false).is_ok());
}

#[test]
fn time_refused_with_message() {
    let e = parse_time_at("someday", NOW, false).unwrap_err();
    assert_eq!(e.message(), "Invalid date/time value: 'someday'");
    let e = parse_time_at("someday", NOW, true).unwrap_err();
    assert_eq!(e.message(), "Недопустимое значение даты/времени: 'someday'");
}

#[test]
fn period_options() {
    let now = ms(NOW - NOW % 60);
    let mut p = CliTimePeriod::new();
    assert!(p.is_none());
    assert_eq!(p.as_parsed_time_period_at(now, false).ok(), Some(ParsedTimePeriod::NotSpecified));
    p.set_duration(ms(3600)).unwrap();
    assert_eq!(
        p.as_parsed_time_period_at(now, false).ok(),
        Some(ParsedTimePeriod::Period(TimePeriod::new(now, now + ms(3600))))
    );
    let mut z = CliTimePeriod::new();
    z.set_duration(0).unwrap();
    assert_eq!(z.as_parsed_time_period_at(now, false).ok(), Some(ParsedTimePeriod::Reset));
    assert_eq!(
        ParsedTimePeriod::Period(TimePeriod::new(1, 2)).unwrap(),
        &TimePeriod::new(1, 2)
    );
}

#[test]
fn period_errors() {
    let now = ms(NOW);
    let mut both = CliTimePeriod::new();
    both.set_until(now + 1).unwrap();
    both.set_duration(5).unwrap();
    assert_eq!(
        both.as_parsed_time_period_at(now, false).err().unwrap().message(),
        "The '--until' and '--duration' options cannot be set simultaneously"
    );
    let mut since_only = CliTimePeriod::new();
    since_only.set_since(now + 10).unwrap();
    assert_eq!(
        since_only.as_parsed_time_period_at(now, false).err().unwrap().message(),
        "If the '--since' option is set, then one of '--until' or '--duration' options must also be set"
    );
    let mut past = CliTimePeriod::new();
    past.set_since(now - 1).unwrap();
    past.set_duration(10).unwrap();
    assert_eq!(
        past.as_parsed_time_period_at(now, false).err().unwrap().message(),
        "The '--since' time is earlier then now"
    );
    let mut until_past = CliTimePeriod::new();
    until_past.set_until(now - 1).unwrap();
    assert_eq!(
        until_past.as_parsed_time_period_at(now, false).err().unwrap().message(),
        "The '--until' time is earlier then now"
    );
    let mut reversed = CliTimePeriod::new();
    reversed.set_since(now + 100).unwrap();
    reversed.set_until(now + 50).unwrap();
    assert_eq!(
        reversed.as_parsed_time_period_at(now, true).err().unwrap().message(),
        "Время '--until' раньше времени '--since'"
    );
    let mut far = CliTimePeriod::new();
    far.set_since(i64::MAX - 10).unwrap();
    far.set_duration(1000).unwrap();
    assert_eq!(
        far.as_parsed_time_period_at(now, false).err().unwrap().message(),
        "The period end is out of range"
    );
}

#[test]
fn set_period_lasts_on_examples() {
    let now = ms(NOW);
    for d in [1i64, 60_000, ms(DAY)] {
        let mut p = CliTimePeriod::new();
        p.set_duration(d).unwrap();
        match p.as_parsed_time_period_at(now, false).ok().unwrap() {
            ParsedTimePeriod::Period(tp) => assert!(now <= tp.since && tp.since < tp.until),
            _ => panic!("expected a period"),
        }
    }
}

#[test]
fn period_in_bounds_and_expiry() {
    let p = TimePeriod::new(10, 20);
    assert!(p.is_datetime_in_bounds(10));
    assert!(!p.is_datetime_in_bounds(20));
    assert!(p.is_expired(20));
    assert!(!p.is_expired(19));
    assert!(TimePeriod::is_none_or_now(&None, 5));
    assert!(!TimePeriod::is_some_and_datetime_in_bounds(&None, 5));
    assert!(TimePeriod::is_some_and_datetime_in_bounds(&Some(p), 15));
}
