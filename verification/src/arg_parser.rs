//! Reading the command line: options, with their values, and words.

use vstd::prelude::*;
use vstd::string::*;

use crate::action::{Action, ActionView};
use crate::arg_error::{concat5, ArgParseError};
use crate::clock::{
    clock_secs,
    local_now,
    lowercase,
    parse_duration,
    parse_duration_outcome,
    parse_time_outcome,
    parse_time_to_minutes_at,
    str_eq,
    to_minute_ms,
};
use crate::display_mode::{parse_mode_spec, DisplayMode};
use crate::outcome::localized;
use crate::parse_action::{
    action_outcome,
    apply_period_option,
    apply_setting_option,
    as_action_spec,
    empty_parse,
    period_agree,
    repeated_option_message,
    settings_agree,
    usage_message,
    with_usage,
    ArgParseAction,
    ArgParseActionView,
    PeriodOption,
    SettingOption,
    UniqueOption,
};
use crate::text::{
    append_str, chars_of, decimal, is_ascii_digit, lemma_decimal_digits, parse_unsigned,
    parse_unsigned_spec, string_from_range, trim, views,
};
use crate::time_period::minute_ms;

verus! {

/// Whether `s` is written as an option: it starts with `-`.
pub open spec fn is_option(s: Seq<char>) -> bool {
    s.len() > 0 && s[0] == '-'
}

/// `k` is the position of the first `=` in `s`.
pub open spec fn first_eq_at(s: Seq<char>, k: int) -> bool {
    &&& 0 <= k < s.len()
    &&& s[k] == '='
    &&& forall|j: int| 0 <= j < k ==> s[j] != '='
}

/// An option as written, split at its first `=` into the option's name and
/// the value written with it.
pub open spec fn split_option(s: Seq<char>) -> (Seq<char>, Option<Seq<char>>) {
    if exists|k: int| first_eq_at(s, k) {
        let k = choose|k: int| first_eq_at(s, k);
        (s.take(k), Some(s.skip(k + 1)))
    } else {
        (s, None)
    }
}

/// The value of an option: the one written with it, else the next word,
/// with the number of words it takes from `rest`.
pub open spec fn option_value(written: Option<Seq<char>>, rest: Seq<Seq<char>>) -> Option<(Seq<char>, nat)> {
    match written {
        Some(v) => Some((v, 0)),
        None => if rest.len() > 0 {
            Some((rest[0], 1))
        } else {
            None
        },
    }
}

/// `"Missing value for option '{name}'"`, localized.
pub open spec fn missing_value_message(name: Seq<char>, is_ru: bool) -> Seq<char> {
    localized(
        is_ru,
        "Missing value for option '"@ + name + "'"@,
        "Требуется значение для опции '"@ + name + "'"@,
    )
}

/// `"Invalid value for option '{name}': '{value}'"`, localized.
pub open spec fn invalid_value_message(name: Seq<char>, value: Seq<char>, is_ru: bool) -> Seq<char> {
    localized(
        is_ru,
        "Invalid value for option '"@ + name + "': '"@ + value + "'"@,
        "Недопустимое значение для параметра '"@ + name + "': '"@ + value + "'"@,
    )
}

/// The invalid-value message of an option that takes a `u16`.
pub open spec fn invalid_u16_message(name: Seq<char>, value: Seq<char>, is_ru: bool) -> Seq<char> {
    invalid_value_message(name, value, is_ru) + localized(
        is_ru,
        ". Expected integer from 0 to 65 535"@,
        ". Ожидается целое число от 0 до 65 535"@,
    )
}

/// The recursive search level written as `value`: an integer from 1 to 65 535.
pub open spec fn recursive_level_spec(value: Seq<char>) -> Option<nat> {
    match parse_unsigned_spec(value, 65535) {
        Some(l) => if l >= 1 {
            Some(l)
        } else {
            None
        },
        None => None,
    }
}

/// The recursive search level is any whole number from 1 to 65 535,
/// written in decimal, with or without a `+`; 0 and larger numbers are
/// refused.
pub proof fn recursive_level_range(n: nat)
    ensures
        1 <= n <= 65535 ==> recursive_level_spec(decimal(n)) == Some(n),
        1 <= n <= 65535 ==> recursive_level_spec(seq!['+'] + decimal(n)) == Some(n),
        (n == 0 || n > 65535) ==> recursive_level_spec(decimal(n)) is None,
{
    lemma_decimal_digits(n);
    let d = decimal(n);
    assert(is_ascii_digit(d[0]));
    assert((seq!['+'] + d).drop_first() =~= d);
}

/// The invalid-value message of the recursive search level.
pub open spec fn invalid_level_message(name: Seq<char>, value: Seq<char>, is_ru: bool) -> Seq<char> {
    invalid_value_message(name, value, is_ru) + localized(
        is_ru,
        ". Expected integer from 1 to 65 535"@,
        ". Ожидается целое число от 1 до 65 535"@,
    )
}

/// The invalid-value message of an option that takes a `u32`.
pub open spec fn invalid_u32_message(name: Seq<char>, value: Seq<char>, is_ru: bool) -> Seq<char> {
    invalid_value_message(name, value, is_ru) + localized(
        is_ru,
        ". Expected integer from 0 to 4 294 967 295"@,
        ". Ожидается целое число от 0 до 4 294 967 295"@,
    )
}

/// `"Unknown option: '{name}'"`, localized, with the usage lines.
pub open spec fn unknown_option_message(name: Seq<char>, cmd: Seq<char>, is_ru: bool) -> Seq<char> {
    usage_message(
        localized(is_ru, "Unknown option: '"@ + name + "'"@, "Неизвестный параметр: '"@ + name + "'"@),
        cmd,
        is_ru,
    )
}

/// Where reading the command line stands: what was read, whether options are
/// still read as options, and the socket given last.
pub struct ParseState {
    pub acc: ArgParseActionView,
    pub allow_options: bool,
    pub socket: Option<Seq<char>>,
}

/// How reading the command line ends.
pub enum ParseEnd {
    /// All words were read.
    Finished(ArgParseActionView),
    /// An option that answers at once: help or version.
    Early(ActionView),
    /// An error, by its message.
    Failed(Seq<char>),
}

/// What one word does.
pub enum Step {
    /// Reading goes on in the new state, after the word and the given number
    /// of following words.
    Continue(ParseState, nat),
    /// Reading ends, with the socket given last.
    Stop(ParseEnd, Option<Seq<char>>),
}

/// Records a unique option, or refuses it when the same text came before.
pub open spec fn unique_step(st: ParseState, arg: Seq<char>, o: UniqueOption, used: nat, is_ru: bool) -> Step {
    if st.acc.unique_option_names.contains(arg) {
        Step::Stop(ParseEnd::Failed(repeated_option_message(arg, is_ru)), st.socket)
    } else {
        Step::Continue(
            ParseState {
                acc: ArgParseActionView {
                    unique_option_names: st.acc.unique_option_names.push(arg),
                    unique_options: st.acc.unique_options.push(o),
                    ..st.acc
                },
                ..st
            },
            used,
        )
    }
}

/// Records a settings option.
pub open spec fn setting_step(st: ParseState, arg: Seq<char>, o: SettingOption, used: nat) -> Step {
    Step::Continue(
        ParseState {
            acc: ArgParseActionView {
                settings_options: st.acc.settings_options.push(arg),
                settings: apply_setting_option(st.acc.settings, o),
                ..st.acc
            },
            ..st
        },
        used,
    )
}

/// Records a period option.
pub open spec fn period_step(st: ParseState, arg: Seq<char>, o: PeriodOption, used: nat) -> Step {
    Step::Continue(
        ParseState {
            acc: ArgParseActionView {
                period_options: st.acc.period_options.push(arg),
                period: apply_period_option(st.acc.period, o),
                ..st.acc
            },
            ..st
        },
        used,
    )
}

/// What the option `arg` named `name` does, with the value `value` and the
/// number of words it took, when the clock reads `now` seconds.
pub open spec fn valued_option_step(
    st: ParseState,
    arg: Seq<char>,
    name: Seq<char>,
    value: Seq<char>,
    used: nat,
    now: int,
    is_ru: bool,
) -> Step {
    let fail = |m: Seq<char>| Step::Stop(ParseEnd::Failed(m), st.socket);
    if name == "-m"@ || name == "--mode"@ {
        match parse_mode_spec(value) {
            Some(m) => setting_step(st, arg, SettingOption::Mode(m), used),
            None => fail(invalid_value_message(name, value, is_ru)),
        }
    } else if name == "-r"@ || name == "--recursive-level"@ {
        match recursive_level_spec(value) {
            Some(l) => setting_step(st, arg, SettingOption::RecursiveLevel(l as u16), used),
            None => fail(invalid_level_message(name, value, is_ru)),
        }
    } else if name == "-s"@ || name == "--since"@ {
        match to_minute_ms(parse_time_outcome(lowercase(trim(value)), now, is_ru)) {
            Ok(v) => period_step(st, arg, PeriodOption::Since(v as i64), used),
            Err(m) => fail(m),
        }
    } else if name == "-u"@ || name == "--until"@ {
        match to_minute_ms(parse_time_outcome(lowercase(trim(value)), now, is_ru)) {
            Ok(v) => period_step(st, arg, PeriodOption::Until(v as i64), used),
            Err(m) => fail(m),
        }
    } else if name == "-d"@ || name == "--duration"@ {
        match parse_duration_outcome(lowercase(trim(value)), is_ru) {
            Ok(v) => period_step(st, arg, PeriodOption::Duration(v as i64), used),
            Err(m) => fail(m),
        }
    } else if name == "--display-id"@ {
        match parse_unsigned_spec(value, 4294967295) {
            Some(id) => unique_step(st, arg, UniqueOption::DisplayId(id as u32), used, is_ru),
            None => fail(invalid_u32_message(name, value, is_ru)),
        }
    } else {
        Step::Continue(ParseState { socket: Some(value), ..st }, used)
    }
}

/// The options that take a value.
pub open spec fn takes_value(name: Seq<char>) -> bool {
    ||| name == "-m"@
    ||| name == "--mode"@
    ||| name == "-r"@
    ||| name == "--recursive-level"@
    ||| name == "-s"@
    ||| name == "--since"@
    ||| name == "-u"@
    ||| name == "--until"@
    ||| name == "-d"@
    ||| name == "--duration"@
    ||| name == "--display-id"@
    ||| name == "--socket"@
}

/// What the word `arg` does in state `st`, with the words `rest` after it,
/// for the program `cmd` when the clock reads `now` seconds.
pub open spec fn parse_step(
    st: ParseState,
    arg: Seq<char>,
    rest: Seq<Seq<char>>,
    cmd: Seq<char>,
    now: int,
    is_ru: bool,
) -> Step {
    if st.allow_options && is_option(arg) {
        let (name, written) = split_option(arg);
        if name == "-h"@ || name == "--help"@ {
            Step::Stop(ParseEnd::Early(ActionView::Help), st.socket)
        } else if name == "-V"@ || name == "--version"@ {
            Step::Stop(ParseEnd::Early(ActionView::Version), st.socket)
        } else if name == "-v"@ || name == "--verbose"@ {
            unique_step(st, arg, UniqueOption::VerboseFlag, 0, is_ru)
        } else if name == "--"@ {
            Step::Continue(ParseState { allow_options: false, ..st }, 0)
        } else if takes_value(name) {
            match option_value(written, rest) {
                None => Step::Stop(ParseEnd::Failed(missing_value_message(name, is_ru)), st.socket),
                Some((value, used)) => valued_option_step(st, arg, name, value, used, now, is_ru),
            }
        } else {
            Step::Stop(ParseEnd::Failed(unknown_option_message(name, cmd, is_ru)), st.socket)
        }
    } else {
        Step::Continue(
            ParseState {
                acc: if st.acc.name is None {
                    ArgParseActionView { name: Some(arg), ..st.acc }
                } else {
                    ArgParseActionView { args: st.acc.args.push(arg), ..st.acc }
                },
                ..st
            },
            0,
        )
    }
}

/// How reading the words `rest` ends from state `st`, with the socket given
/// last.
pub open spec fn parse_from(
    st: ParseState,
    rest: Seq<Seq<char>>,
    cmd: Seq<char>,
    now: int,
    is_ru: bool,
) -> (ParseEnd, Option<Seq<char>>)
    decreases rest.len(),
{
    if rest.len() == 0 {
        (ParseEnd::Finished(st.acc), st.socket)
    } else {
        match parse_step(st, rest[0], rest.drop_first(), cmd, now, is_ru) {
            Step::Stop(end, socket) => (end, socket),
            Step::Continue(next, used) => if used < rest.len() {
                parse_from(next, rest.skip(1 + used as int), cmd, now, is_ru)
            } else {
                (ParseEnd::Finished(next.acc), next.socket)
            },
        }
    }
}

/// Reading the command line `args` (the program first) when the clock reads
/// `now` seconds.
pub open spec fn read_args(args: Seq<Seq<char>>, now: int, is_ru: bool) -> (ParseEnd, Option<Seq<char>>) {
    parse_from(
        ParseState { acc: empty_parse(), allow_options: true, socket: None },
        args.drop_first(),
        args[0],
        now,
        is_ru,
    )
}

/// The action that the command line `args` gives when the clock reads `now`
/// seconds, or the message of its error. Paths are not yet made absolute.
pub open spec fn parse_args_spec(args: Seq<Seq<char>>, now: int, is_ru: bool) -> Result<
    ActionView,
    Seq<char>,
> {
    match read_args(args, now, is_ru).0 {
        ParseEnd::Early(a) => Ok(a),
        ParseEnd::Failed(m) => Err(m),
        ParseEnd::Finished(acc) => as_action_spec(
            acc,
            args[0],
            crate::clock::minute_start(now) * 1000,
            is_ru,
        ),
    }
}

/// The characters of an optional string.
pub open spec fn opt_view(o: Option<String>) -> Option<Seq<char>> {
    match o {
        Some(s) => Some(s@),
        None => None,
    }
}

/// Splits an option as written at its first `=`.
pub fn split_option_exec(arg: &str) -> (r: (String, Option<String>))
    ensures
        r.0@ == split_option(arg@).0,
        opt_view(r.1) == split_option(arg@).1,
{
    let cs = chars_of(arg);
    let n = cs.len();
    let mut k: usize = 0;
    while k < n
        invariant
            cs@ == arg@,
            n == cs@.len(),
            k <= n,
            forall|j: int| 0 <= j < k ==> cs@[j] != '=',
        decreases n - k,
    {
        if cs[k] == '=' {
            assert(first_eq_at(arg@, k as int));
            proof {
                let c = choose|c: int| first_eq_at(arg@, c);
                if c < k {
                    assert(cs@[c] != '=');
                } else if c > k {
                    assert(arg@[k as int] != '=');
                }
                assert(c == k);
            }
            let name = string_from_range(&cs, 0, k);
            let value = string_from_range(&cs, k + 1, n);
            assert(name@ == arg@.take(k as int));
            assert(value@ == arg@.skip(k + 1));
            return (name, Some(value));
        }
        k = k + 1;
    }
    assert forall|c: int| !first_eq_at(arg@, c) by {
        if 0 <= c < n {
            assert(cs@[c] != '=');
        }
    }
    (String::from_str(arg), None)
}

/// The value of the option `opt_name`: the one written with it, else the word
/// at `next`, which is then taken.
pub fn require_opt_value(
    opt_name: &str,
    opt_value: &mut Option<String>,
    args: &Vec<String>,
    next: &mut usize,
    is_ru: bool,
) -> (res: Result<String, ArgParseError>)
    requires
        *old(next) <= args@.len(),
    ensures
        *final(opt_value) is None,
        match option_value(opt_view(*old(opt_value)), views(args@).skip(*old(next) as int)) {
            Some((v, used)) => res matches Ok(s) && s@ == v && *final(next) == *old(next) + used,
            None => res matches Err(e) && e.message@ == missing_value_message(opt_name@, is_ru)
                && *final(next) == *old(next),
        },
{
    let written = opt_value.take();
    match written {
        Some(v) => Ok(v),
        None => {
            if *next < args.len() {
                let v = args[*next].clone();
                assert(views(args@).skip(*old(next) as int)[0] == args@[*old(next) as int]@);
                *next = *next + 1;
                Ok(v)
            } else {
                let e = if is_ru {
                    concat5("Требуется значение для опции '", opt_name, "'", "", "")
                } else {
                    concat5("Missing value for option '", opt_name, "'", "", "")
                };
                proof {
                    reveal_strlit("");
                }
                Err(ArgParseError::new(e))
            }
        },
    }
}

fn invalid_value(opt_name: &str, opt_value: &str, is_ru: bool) -> (s: String)
    ensures
        s@ == invalid_value_message(opt_name@, opt_value@, is_ru),
{
    if is_ru {
        concat5("Недопустимое значение для параметра '", opt_name, "': '", opt_value, "'")
    } else {
        concat5("Invalid value for option '", opt_name, "': '", opt_value, "'")
    }
}

/// Reads the display mode given to the option `opt_name`.
pub fn parse_display_mode(opt_name: &str, opt_value: &str, is_ru: bool) -> (res: Result<
    DisplayMode,
    ArgParseError,
>)
    ensures
        match parse_mode_spec(opt_value@) {
            Some(m) => res == Ok::<DisplayMode, ArgParseError>(m),
            None => res matches Err(e) && e.message@ == invalid_value_message(
                opt_name@,
                opt_value@,
                is_ru,
            ),
        },
{
    match DisplayMode::parse(opt_value) {
        Ok(m) => Ok(m),
        Err(_) => Err(ArgParseError::new(invalid_value(opt_name, opt_value, is_ru))),
    }
}

/// Reads the `u16` given to the option `opt_name`.
pub fn parse_u16(opt_name: &str, opt_value: &str, is_ru: bool) -> (res: Result<u16, ArgParseError>)
    ensures
        match parse_unsigned_spec(opt_value@, 65535) {
            Some(v) => res == Ok::<u16, ArgParseError>(v as u16),
            None => res matches Err(e) && e.message@ == invalid_u16_message(
                opt_name@,
                opt_value@,
                is_ru,
            ),
        },
{
    match parse_unsigned(opt_value, 65535) {
        Some(v) => Ok(v as u16),
        None => {
            let mut m = invalid_value(opt_name, opt_value, is_ru);
            if is_ru {
                append_str(&mut m, ". Ожидается целое число от 0 до 65 535");
            } else {
                append_str(&mut m, ". Expected integer from 0 to 65 535");
            }
            Err(ArgParseError::new(m))
        },
    }
}

/// Reads the recursive search level given to the option `opt_name`.
pub fn parse_recursive_level(opt_name: &str, opt_value: &str, is_ru: bool) -> (res: Result<
    u16,
    ArgParseError,
>)
    ensures
        match recursive_level_spec(opt_value@) {
            Some(v) => res == Ok::<u16, ArgParseError>(v as u16),
            None => res matches Err(e) && e.message@ == invalid_level_message(
                opt_name@,
                opt_value@,
                is_ru,
            ),
        },
{
    let level = match parse_unsigned(opt_value, 65535) {
        Some(v) => if v >= 1 {
            Some(v as u16)
        } else {
            None
        },
        None => None,
    };
    match level {
        Some(v) => Ok(v),
        None => {
            let mut m = invalid_value(opt_name, opt_value, is_ru);
            if is_ru {
                append_str(&mut m, ". Ожидается целое число от 1 до 65 535");
            } else {
                append_str(&mut m, ". Expected integer from 1 to 65 535");
            }
            Err(ArgParseError::new(m))
        },
    }
}

/// Reads the `u32` given to the option `opt_name`.
pub fn parse_u32(opt_name: &str, opt_value: &str, is_ru: bool) -> (res: Result<u32, ArgParseError>)
    ensures
        match parse_unsigned_spec(opt_value@, 4294967295) {
            Some(v) => res == Ok::<u32, ArgParseError>(v as u32),
            None => res matches Err(e) && e.message@ == invalid_u32_message(
                opt_name@,
                opt_value@,
                is_ru,
            ),
        },
{
    match parse_unsigned(opt_value, 4294967295) {
        Some(v) => Ok(v as u32),
        None => {
            let mut m = invalid_value(opt_name, opt_value, is_ru);
            if is_ru {
                append_str(&mut m, ". Ожидается целое число от 0 до 4 294 967 295");
            } else {
                append_str(&mut m, ". Expected integer from 0 to 4 294 967 295");
            }
            Err(ArgParseError::new(m))
        },
    }
}

/// What one word did: reading goes on after it and the given number of
/// following words, or it ends with the answer.
pub enum StepResult {
    Continue(usize),
    Stop(Result<Action, ArgParseError>),
}

/// `r`, with the state it left, is what `step` says.
pub open spec fn step_done(
    step: Step,
    r: StepResult,
    acc: ArgParseActionView,
    allow: bool,
    socket: Option<Seq<char>>,
) -> bool {
    match step {
        Step::Continue(next, used) => {
            &&& r == StepResult::Continue(used as usize)
            &&& acc == next.acc
            &&& allow == next.allow_options
            &&& socket == next.socket
        },
        Step::Stop(end, sock) => {
            &&& socket == sock
            &&& match end {
                ParseEnd::Early(a) => r matches StepResult::Stop(Ok(x)) && x@ == a,
                ParseEnd::Failed(m) => r matches StepResult::Stop(Err(e)) && e.message@ == m,
                ParseEnd::Finished(_) => false,
            }
        },
    }
}

/// Whether the option `name` takes a value.
fn is_valued(name: &str) -> (b: bool)
    ensures
        b == takes_value(name@),
{
    str_eq(name, "-m") || str_eq(name, "--mode") || str_eq(name, "-r") || str_eq(
        name,
        "--recursive-level",
    ) || str_eq(name, "-s") || str_eq(name, "--since") || str_eq(name, "-u") || str_eq(
        name,
        "--until",
    ) || str_eq(name, "-d") || str_eq(name, "--duration") || str_eq(name, "--display-id")
        || str_eq(name, "--socket")
}

/// Reads the option `arg` named `name`, whose value `value` took `used`
/// words.
fn valued_option(
    acc: &mut ArgParseAction,
    socket: &mut Option<String>,
    arg: &String,
    name: &str,
    value: String,
    used: usize,
    now: i64,
    is_ru: bool,
) -> (r: StepResult)
    requires
        clock_secs(now as int),
    ensures
        step_done(
            valued_option_step(
                ParseState { acc: old(acc)@, allow_options: true, socket: opt_view(*old(socket)) },
                arg@,
                name@,
                value@,
                used as nat,
                now as int,
                is_ru,
            ),
            r,
            final(acc)@,
            true,
            opt_view(*final(socket)),
        ),
{
    if str_eq(name, "-m") || str_eq(name, "--mode") {
        let v = match parse_display_mode(name, value.as_str(), is_ru) {
            Ok(m) => Ok(SettingOption::Mode(m)),
            Err(e) => Err(e),
        };
        match acc.add_setting(arg.clone(), v) {
            Ok(()) => StepResult::Continue(used),
            Err(e) => StepResult::Stop(Err(e)),
        }
    } else if str_eq(name, "-r") || str_eq(name, "--recursive-level") {
        let v = match parse_recursive_level(name, value.as_str(), is_ru) {
            Ok(l) => Ok(SettingOption::RecursiveLevel(l)),
            Err(e) => Err(e),
        };
        match acc.add_setting(arg.clone(), v) {
            Ok(()) => StepResult::Continue(used),
            Err(e) => StepResult::Stop(Err(e)),
        }
    } else if str_eq(name, "-s") || str_eq(name, "--since") {
        let v = match parse_time_to_minutes_at(value.as_str(), now, is_ru) {
            Ok(t) => Ok(PeriodOption::Since(t)),
            Err(e) => Err(e),
        };
        match acc.add_time_period_option(arg.clone(), v) {
            Ok(()) => StepResult::Continue(used),
            Err(e) => StepResult::Stop(Err(e)),
        }
    } else if str_eq(name, "-u") || str_eq(name, "--until") {
        let v = match parse_time_to_minutes_at(value.as_str(), now, is_ru) {
            Ok(t) => Ok(PeriodOption::Until(t)),
            Err(e) => Err(e),
        };
        match acc.add_time_period_option(arg.clone(), v) {
            Ok(()) => StepResult::Continue(used),
            Err(e) => StepResult::Stop(Err(e)),
        }
    } else if str_eq(name, "-d") || str_eq(name, "--duration") {
        let v = match parse_duration(value.as_str(), is_ru) {
            Ok(d) => Ok(PeriodOption::Duration(d)),
            Err(e) => Err(e),
        };
        match acc.add_time_period_option(arg.clone(), v) {
            Ok(()) => StepResult::Continue(used),
            Err(e) => StepResult::Stop(Err(e)),
        }
    } else if str_eq(name, "--display-id") {
        match parse_u32(name, value.as_str(), is_ru) {
            Ok(id) => match acc.add_unique_option(arg.clone(), UniqueOption::DisplayId(id), is_ru) {
                Ok(()) => StepResult::Continue(used),
                Err(e) => StepResult::Stop(Err(e)),
            },
            Err(e) => StepResult::Stop(Err(e)),
        }
    } else {
        *socket = Some(value);
        StepResult::Continue(used)
    }
}

/// The state of the reading as plain values.
pub open spec fn state_of(acc: ArgParseActionView, allow: bool, socket: Option<String>) -> ParseState {
    ParseState { acc, allow_options: allow, socket: opt_view(socket) }
}

/// Reads the word `args[i]`, for the program `cmd` when the clock reads
/// `now` seconds.
pub fn parse_one(
    acc: &mut ArgParseAction,
    allow: &mut bool,
    socket: &mut Option<String>,
    args: &Vec<String>,
    i: usize,
    cmd: &str,
    now: i64,
    is_ru: bool,
) -> (r: StepResult)
    requires
        i < args@.len(),
        clock_secs(now as int),
    ensures
        step_done(
            parse_step(
                state_of(old(acc)@, *old(allow), *old(socket)),
                args@[i as int]@,
                views(args@).skip(i + 1),
                cmd@,
                now as int,
                is_ru,
            ),
            r,
            final(acc)@,
            *final(allow),
            opt_view(*final(socket)),
        ),
        r matches StepResult::Continue(used) ==> i + 1 + used <= args@.len(),
{
    let n = args.len();
    let arg = &args[i];
    let cs = chars_of(arg.as_str());
    if *allow && cs.len() > 0 && cs[0] == '-' {
        let (name, written) = split_option_exec(arg.as_str());
        let name_s = name.as_str();
        if str_eq(name_s, "-h") || str_eq(name_s, "--help") {
            return StepResult::Stop(Ok(Action::Help));
        }
        if str_eq(name_s, "-V") || str_eq(name_s, "--version") {
            return StepResult::Stop(Ok(Action::Version));
        }
        if str_eq(name_s, "-v") || str_eq(name_s, "--verbose") {
            return match acc.add_unique_option(arg.clone(), UniqueOption::VerboseFlag, is_ru) {
                Ok(()) => StepResult::Continue(0),
                Err(e) => StepResult::Stop(Err(e)),
            };
        }
        if str_eq(name_s, "--") {
            *allow = false;
            return StepResult::Continue(0);
        }
        if is_valued(name_s) {
            let mut written = written;
            let mut next = i + 1;
            let value = match require_opt_value(name_s, &mut written, args, &mut next, is_ru) {
                Ok(v) => v,
                Err(e) => {
                    return StepResult::Stop(Err(e));
                },
            };
            let used = next - (i + 1);
            return valued_option(acc, socket, arg, name_s, value, used, now, is_ru);
        }
        let m = if is_ru {
            concat5("Неизвестный параметр: '", name_s, "'", "", "")
        } else {
            concat5("Unknown option: '", name_s, "'", "", "")
        };
        proof {
            reveal_strlit("");
        }
        StepResult::Stop(Err(with_usage(m.as_str(), cmd, is_ru)))
    } else {
        acc.add_arg(arg.clone());
        StepResult::Continue(0)
    }
}

/// The socket after reading: the one given last on the command line, else
/// the one before.
pub open spec fn socket_after(given: Option<Seq<char>>, before: Option<String>) -> Option<Seq<char>> {
    match given {
        Some(s) => Some(s),
        None => opt_view(before),
    }
}

fn keep_socket(socket: &mut Option<String>, given: Option<String>)
    ensures
        opt_view(*final(socket)) == socket_after(opt_view(given), *old(socket)),
{
    if given.is_some() {
        *socket = given;
    }
}

/// Reads the command line `args`, the program first, when the clock reads
/// `now` seconds: the action it asks for, or the error. A `--socket` option
/// sets `socket`, also when an error comes later. Paths are not yet made
/// absolute.
pub fn parse_args_at(args: &Vec<String>, now: i64, is_ru: bool, socket: &mut Option<String>) -> (res:
    Result<Action, ArgParseError>)
    requires
        args@.len() >= 1,
        clock_secs(now as int),
    ensures
        action_outcome(res, parse_args_spec(views(args@), now as int, is_ru)),
        opt_view(*final(socket)) == socket_after(
            read_args(views(args@), now as int, is_ru).1,
            *old(socket),
        ),
{
    let ghost all = views(args@);
    let cmd = args[0].as_str();
    assert(all[0] == cmd@);
    let mut acc = ArgParseAction::new();
    let mut allow = true;
    let mut given: Option<String> = None;
    let mut i: usize = 1;
    assert(all.drop_first() =~= all.skip(1));
    while i < args.len()
        invariant
            1 <= i <= args@.len(),
            all == views(args@),
            all[0] == cmd@,
            clock_secs(now as int),
            settings_agree(acc@),
            period_agree(acc@),
            parse_from(state_of(acc@, allow, given), all.skip(i as int), cmd@, now as int, is_ru)
                == read_args(all, now as int, is_ru),
            opt_view(*socket) == opt_view(*old(socket)),
        decreases args@.len() - i,
    {
        let ghost rest = all.skip(i as int);
        let ghost st = state_of(acc@, allow, given);
        assert(rest[0] == args@[i as int]@);
        assert(rest.drop_first() =~= all.skip(i + 1));
        let r = parse_one(&mut acc, &mut allow, &mut given, args, i, cmd, now, is_ru);
        match r {
            StepResult::Continue(used) => {
                assert(rest.skip(1 + used as int) =~= all.skip(i + 1 + used));
                i = i + 1 + used;
            },
            StepResult::Stop(res) => {
                keep_socket(socket, given);
                return res;
            },
        }
    }
    assert(all.skip(i as int).len() == 0);
    keep_socket(socket, given);
    let minute = minute_ms(now);
    acc.as_action_at(cmd, minute, is_ru)
}

/// `res` and the socket are what reading `args` gives when the clock reads
/// `now` seconds.
pub open spec fn parse_args_outcome(
    args: Seq<Seq<char>>,
    now: int,
    is_ru: bool,
    res: Result<Action, ArgParseError>,
    before: Option<String>,
    after: Option<String>,
) -> bool {
    &&& action_outcome(res, parse_args_spec(args, now, is_ru))
    &&& opt_view(after) == socket_after(read_args(args, now, is_ru).1, before)
}

/// Reads the command line `args`, the program first, against the clock at
/// the time of the call: the action it asks for, or the error. A `--socket`
/// option sets `socket`, also when an error comes later. Paths are not yet
/// made absolute.
pub fn parse_args(args: &Vec<String>, is_ru: bool, socket: &mut Option<String>) -> (res: Result<
    Action,
    ArgParseError,
>)
    requires
        args@.len() >= 1,
    ensures
        exists|now: int|
            clock_secs(now) && #[trigger] parse_args_outcome(
                views(args@),
                now,
                is_ru,
                res,
                *old(socket),
                *final(socket),
            ),
{
    let now = local_now();
    let r = parse_args_at(args, now, is_ru, socket);
    assert(parse_args_outcome(views(args@), now as int, is_ru, r, *old(socket), *socket));
    r
}

} // verus!
