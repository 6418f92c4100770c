//! What the command line gave so far, and how it becomes an action.

use vstd::prelude::*;
use vstd::string::*;

use crate::action::{Action, ActionView};
use crate::arg_error::{
    ArgParseError,
    at_least_one_path_required_message,
    concat5,
    could_not_set_option_message,
    name_required_message,
    path_required_message,
    unknown_argument_message,
};
use crate::clock::str_eq;
use crate::display_mode::DisplayMode;
use crate::node::Settings;
use crate::outcome::localized;
use crate::text::{append_str, chars_of, contains_string, is_unicode_whitespace, is_whitespace, views};
use crate::clock::local_now;
use crate::time_period::{checked_period_spec, clock_minute, minute_ms, CliTimePeriod, ParsedTimePeriod};

verus! {

/// An option that may be given once only.
#[derive(Clone, Copy, Debug, PartialEq, Eq, Structural)]
pub enum UniqueOption {
    /// `--display-id`, with its value.
    DisplayId(u32),
    /// `-v`, `--verbose`.
    VerboseFlag,
}

/// The value of a settings option.
#[derive(Clone, Copy, Debug, PartialEq, Eq, Structural)]
pub enum SettingOption {
    Mode(DisplayMode),
    RecursiveLevel(u16),
}

/// The value of a period option, in milliseconds.
#[derive(Clone, Copy, Debug, PartialEq, Eq, Structural)]
pub enum PeriodOption {
    Since(i64),
    Until(i64),
    Duration(i64),
}

/// The command line read so far: the action's name, its arguments, and the
/// options with their values. Each option list keeps the options as they
/// were written, for the messages.
pub struct ArgParseAction {
    pub name: Option<String>,
    pub args: Vec<String>,
    pub settings_options: Vec<String>,
    pub period_options: Vec<String>,
    pub settings: Settings,
    pub period: CliTimePeriod,
    pub unique_option_names: Vec<String>,
    pub unique_options: Vec<UniqueOption>,
}

/// What an `ArgParseAction` holds, as plain values.
pub struct ArgParseActionView {
    pub name: Option<Seq<char>>,
    pub args: Seq<Seq<char>>,
    pub settings_options: Seq<Seq<char>>,
    pub period_options: Seq<Seq<char>>,
    pub settings: Settings,
    pub period: CliTimePeriod,
    pub unique_option_names: Seq<Seq<char>>,
    pub unique_options: Seq<UniqueOption>,
}

impl View for ArgParseAction {
    type V = ArgParseActionView;

    open spec fn view(&self) -> ArgParseActionView {
        ArgParseActionView {
            name: match self.name {
                Some(n) => Some(n@),
                None => None,
            },
            args: views(self.args@),
            settings_options: views(self.settings_options@),
            period_options: views(self.period_options@),
            settings: self.settings,
            period: self.period,
            unique_option_names: views(self.unique_option_names@),
            unique_options: self.unique_options@,
        }
    }
}

/// Nothing read yet.
pub open spec fn empty_parse() -> ArgParseActionView {
    ArgParseActionView {
        name: None,
        args: Seq::empty(),
        settings_options: Seq::empty(),
        period_options: Seq::empty(),
        settings: Settings { mode: None, recursive_level: None },
        period: CliTimePeriod { since: None, until: None, duration: None },
        unique_option_names: Seq::empty(),
        unique_options: Seq::empty(),
    }
}

/// After a word that is not an option: the action's name if none was read
/// yet, else one more argument.
pub open spec fn after_word(a: ArgParseActionView, arg: Seq<char>) -> ArgParseActionView {
    if a.name is None {
        ArgParseActionView { name: Some(arg), ..a }
    } else {
        ArgParseActionView { args: a.args.push(arg), ..a }
    }
}

/// After the words `xs`, in order.
pub open spec fn after_words(a: ArgParseActionView, xs: Seq<Seq<char>>) -> ArgParseActionView
    decreases xs.len(),
{
    if xs.len() == 0 {
        a
    } else {
        after_words(after_word(a, xs[0]), xs.drop_first())
    }
}

/// Words that are not options, given one by one: the first names the action
/// when none was named yet, and the others are its arguments in the order
/// given; nothing else changes.
pub proof fn words_name_then_args(a: ArgParseActionView, xs: Seq<Seq<char>>)
    ensures
        a.name is Some ==> after_words(a, xs) == (ArgParseActionView { args: a.args + xs, ..a }),
        (a.name is None && xs.len() > 0) ==> after_words(a, xs) == (ArgParseActionView {
            name: Some(xs[0]),
            args: a.args + xs.drop_first(),
            ..a
        }),
        xs.len() > 0 ==> after_words(empty_parse(), xs) == (ArgParseActionView {
            name: Some(xs[0]),
            args: xs.drop_first(),
            ..empty_parse()
        }),
    decreases xs.len(),
{
    if xs.len() > 0 {
        let b = after_word(a, xs[0]);
        words_name_then_args(b, xs.drop_first());
        if a.name is Some {
            assert(a.args.push(xs[0]) + xs.drop_first() =~= a.args + xs);
        }
        let e = empty_parse();
        words_name_then_args(after_word(e, xs[0]), xs.drop_first());
        assert(e.args + xs.drop_first() =~= xs.drop_first());
    } else {
        assert(a.args + xs =~= a.args);
    }
}

/// No setting is set.
pub open spec fn settings_none(s: Settings) -> bool {
    s.mode is None && s.recursive_level is None
}

/// No period option is set.
pub open spec fn period_none(p: CliTimePeriod) -> bool {
    p.since is None && p.until is None && p.duration is None
}

/// `s` with the setting `o`.
pub open spec fn apply_setting_option(s: Settings, o: SettingOption) -> Settings {
    match o {
        SettingOption::Mode(m) => Settings { mode: Some(m), ..s },
        SettingOption::RecursiveLevel(l) => Settings { recursive_level: Some(l), ..s },
    }
}

/// `p` with the period option `o`.
pub open spec fn apply_period_option(p: CliTimePeriod, o: PeriodOption) -> CliTimePeriod {
    match o {
        PeriodOption::Since(v) => CliTimePeriod { since: Some(v), ..p },
        PeriodOption::Until(v) => CliTimePeriod { until: Some(v), ..p },
        PeriodOption::Duration(v) => CliTimePeriod { duration: Some(v), ..p },
    }
}

/// `"More then one '{arg}' option specfied"`, localized.
pub open spec fn repeated_option_message(arg: Seq<char>, is_ru: bool) -> Seq<char> {
    localized(
        is_ru,
        "More then one '"@ + arg + "' option specfied"@,
        "Указано более одной опции '"@ + arg + "'"@,
    )
}

/// `message` followed by the usage lines for the program `cmd`.
pub open spec fn usage_message(message: Seq<char>, cmd: Seq<char>, is_ru: bool) -> Seq<char> {
    if is_ru {
        message + "\nИспользование: "@ + cmd + " <ДЕЙСТВИЕ> [ОПЦИИ] [АРГУМЕНТЫ]\nИспользуйте '"@
            + cmd + " --help' для дополнительной информации\n"@
    } else {
        message + "\nUsage: "@ + cmd + " <ACTION> [OPTIONS] [ARGUMENTS]\nRun '"@ + cmd
            + " --help' for more information\n"@
    }
}

/// The action named `name`, with empty arguments; `None` for an unknown
/// name.
pub open spec fn action_template(name: Seq<char>) -> Option<ActionView> {
    let no_settings = Settings { mode: None, recursive_level: None };
    if name == "help"@ {
        Some(ActionView::Help)
    } else if name == "get"@ {
        Some(ActionView::GetCurrentWallpaper)
    } else if name == "set"@ {
        Some(
            ActionView::SetWallpaper {
                path: Seq::empty(),
                settings: no_settings,
                period: ParsedTimePeriod::NotSpecified,
            },
        )
    } else if name == "random"@ {
        Some(ActionView::SetRandowWallpaper)
    } else if name == "reset"@ {
        Some(ActionView::ResetWallpaper)
    } else if name == "restore"@ {
        Some(ActionView::RestoreWallpaper)
    } else if name == "list"@ {
        Some(ActionView::GetNodeList)
    } else if name == "add"@ {
        Some(ActionView::AddNodes { paths: Seq::empty(), settings: no_settings })
    } else if name == "remove"@ {
        Some(ActionView::RemoveNodes { paths: Seq::empty() })
    } else if name == "clear"@ {
        Some(ActionView::ClearNodes)
    } else if name == "group-list"@ {
        Some(ActionView::GetGroupList)
    } else if name == "new-group"@ {
        Some(ActionView::NewGroup { name: Seq::empty(), paths: Seq::empty() })
    } else if name == "get-group"@ {
        Some(ActionView::GetGroup { name: Seq::empty() })
    } else if name == "set-group"@ {
        Some(
            ActionView::SetGroup {
                name: Seq::empty(),
                settings: no_settings,
                period: ParsedTimePeriod::NotSpecified,
            },
        )
    } else if name == "add-to-group"@ {
        Some(ActionView::AddToGroup { name: Seq::empty(), paths: Seq::empty() })
    } else if name == "remove-from-group"@ {
        Some(ActionView::RemoveFromGroup { name: Seq::empty(), paths: Seq::empty() })
    } else if name == "clear-group"@ {
        Some(ActionView::ClearGroup { name: Seq::empty() })
    } else if name == "remove-group"@ {
        Some(ActionView::RemoveGroup { name: Seq::empty() })
    } else if name == "find-non-fitting"@ {
        Some(
            ActionView::FindNonFittingWallpapers {
                paths: Seq::empty(),
                display_id: None,
                is_verbose: false,
            },
        )
    } else {
        None
    }
}

/// Which error a missing single argument gives.
#[derive(Clone, Copy, Debug, PartialEq, Eq, Structural)]
pub enum MissingArgument {
    Path,
    Name,
}

/// The single argument of `args`, or the error: `missing`'s message when
/// there is none, an unknown argument when there are more.
pub open spec fn exactly_one_spec(
    action_name: Seq<char>,
    args: Seq<Seq<char>>,
    missing: MissingArgument,
    is_ru: bool,
) -> Result<Seq<char>, Seq<char>> {
    if args.len() == 0 {
        Err(
            match missing {
                MissingArgument::Path => path_required_message(action_name, is_ru),
                MissingArgument::Name => name_required_message(action_name, is_ru),
            },
        )
    } else if args.len() >= 2 {
        Err(unknown_argument_message(args[1], action_name, is_ru))
    } else {
        Ok(args[0])
    }
}

/// The action `a` with its arguments `args`, or the error they give.
pub open spec fn add_args_spec(
    action_name: Seq<char>,
    a: ActionView,
    args: Seq<Seq<char>>,
    is_ru: bool,
) -> Result<ActionView, Seq<char>> {
    match a {
        ActionView::AddNodes { settings, .. } => if args.len() == 0 {
            Err(at_least_one_path_required_message(action_name, is_ru))
        } else {
            Ok(ActionView::AddNodes { paths: args, settings })
        },
        ActionView::RemoveNodes { .. } => if args.len() == 0 {
            Err(at_least_one_path_required_message(action_name, is_ru))
        } else {
            Ok(ActionView::RemoveNodes { paths: args })
        },
        ActionView::SetWallpaper { settings, period, .. } => match exactly_one_spec(
            action_name,
            args,
            MissingArgument::Path,
            is_ru,
        ) {
            Ok(path) => Ok(ActionView::SetWallpaper { path, settings, period }),
            Err(m) => Err(m),
        },
        ActionView::GetGroup { .. } => match exactly_one_spec(
            action_name,
            args,
            MissingArgument::Name,
            is_ru,
        ) {
            Ok(name) => Ok(ActionView::GetGroup { name }),
            Err(m) => Err(m),
        },
        ActionView::SetGroup { settings, period, .. } => match exactly_one_spec(
            action_name,
            args,
            MissingArgument::Name,
            is_ru,
        ) {
            Ok(name) => Ok(ActionView::SetGroup { name, settings, period }),
            Err(m) => Err(m),
        },
        ActionView::ClearGroup { .. } => match exactly_one_spec(
            action_name,
            args,
            MissingArgument::Name,
            is_ru,
        ) {
            Ok(name) => Ok(ActionView::ClearGroup { name }),
            Err(m) => Err(m),
        },
        ActionView::RemoveGroup { .. } => match exactly_one_spec(
            action_name,
            args,
            MissingArgument::Name,
            is_ru,
        ) {
            Ok(name) => Ok(ActionView::RemoveGroup { name }),
            Err(m) => Err(m),
        },
        ActionView::NewGroup { .. } => if args.len() == 0 {
            Err(name_required_message(action_name, is_ru))
        } else {
            Ok(ActionView::NewGroup { name: args[0], paths: args.drop_first() })
        },
        ActionView::AddToGroup { .. } => if args.len() == 0 {
            Err(name_required_message(action_name, is_ru))
        } else if args.len() == 1 {
            Err(at_least_one_path_required_message(action_name, is_ru))
        } else {
            Ok(ActionView::AddToGroup { name: args[0], paths: args.drop_first() })
        },
        ActionView::RemoveFromGroup { .. } => if args.len() == 0 {
            Err(name_required_message(action_name, is_ru))
        } else if args.len() == 1 {
            Err(at_least_one_path_required_message(action_name, is_ru))
        } else {
            Ok(ActionView::RemoveFromGroup { name: args[0], paths: args.drop_first() })
        },
        ActionView::FindNonFittingWallpapers { display_id, is_verbose, .. } => Ok(
            ActionView::FindNonFittingWallpapers { paths: args, display_id, is_verbose },
        ),
        _ => if args.len() == 0 {
            Ok(a)
        } else {
            Err(unknown_argument_message(args[0], action_name, is_ru))
        },
    }
}

/// The actions that take settings.
pub open spec fn takes_settings(a: ActionView) -> bool {
    a is SetWallpaper || a is AddNodes || a is SetGroup
}

/// The action `a` with the settings `s`, or the error when it takes none.
pub open spec fn add_settings_spec(
    action_name: Seq<char>,
    a: ActionView,
    s: Settings,
    options: Seq<Seq<char>>,
    is_ru: bool,
) -> Result<ActionView, Seq<char>> {
    match a {
        ActionView::SetWallpaper { path, period, .. } => Ok(
            ActionView::SetWallpaper { path, settings: s, period },
        ),
        ActionView::AddNodes { paths, .. } => Ok(ActionView::AddNodes { paths, settings: s }),
        ActionView::SetGroup { name, period, .. } => Ok(
            ActionView::SetGroup { name, settings: s, period },
        ),
        _ => if settings_none(s) {
            Ok(a)
        } else {
            Err(could_not_set_option_message(options, action_name, is_ru))
        },
    }
}

/// The action `a` with the period of `p` when the clock reads `now`, or the
/// error.
pub open spec fn add_period_spec(
    action_name: Seq<char>,
    a: ActionView,
    p: CliTimePeriod,
    options: Seq<Seq<char>>,
    now: int,
    is_ru: bool,
) -> Result<ActionView, Seq<char>> {
    match a {
        ActionView::SetWallpaper { path, settings, .. } => match checked_period_spec(
            p,
            now,
            is_ru,
        ) {
            Ok(period) => Ok(ActionView::SetWallpaper { path, settings, period }),
            Err(m) => Err(m),
        },
        ActionView::SetGroup { name, settings, .. } => match checked_period_spec(p, now, is_ru) {
            Ok(period) => Ok(ActionView::SetGroup { name, settings, period }),
            Err(m) => Err(m),
        },
        _ => if period_none(p) {
            Ok(a)
        } else {
            Err(could_not_set_option_message(options, action_name, is_ru))
        },
    }
}

/// The display id of the last `DisplayId` of `opts`, or `d` when there is
/// none.
pub open spec fn last_display_id(opts: Seq<UniqueOption>, d: Option<u32>) -> Option<u32>
    decreases opts.len(),
{
    if opts.len() == 0 {
        d
    } else {
        match opts.last() {
            UniqueOption::DisplayId(id) => Some(id),
            UniqueOption::VerboseFlag => last_display_id(opts.drop_last(), d),
        }
    }
}

/// The action `a` with the unique options `opts`, or the error when it takes
/// none.
pub open spec fn add_unique_options_spec(
    action_name: Seq<char>,
    a: ActionView,
    opts: Seq<UniqueOption>,
    is_ru: bool,
) -> Result<ActionView, Seq<char>> {
    match a {
        ActionView::FindNonFittingWallpapers { paths, display_id, is_verbose } => Ok(
            ActionView::FindNonFittingWallpapers {
                paths,
                display_id: last_display_id(opts, display_id),
                is_verbose: is_verbose || opts.contains(UniqueOption::VerboseFlag),
            },
        ),
        _ => if opts.len() == 0 {
            Ok(a)
        } else {
            Err(could_not_set_option_message(seq!["--display-id"@], action_name, is_ru))
        },
    }
}

/// The group name of an action on a group.
pub open spec fn group_name(a: ActionView) -> Option<Seq<char>> {
    match a {
        ActionView::NewGroup { name, .. } => Some(name),
        ActionView::GetGroup { name } => Some(name),
        ActionView::SetGroup { name, .. } => Some(name),
        ActionView::AddToGroup { name, .. } => Some(name),
        ActionView::RemoveFromGroup { name, .. } => Some(name),
        ActionView::ClearGroup { name } => Some(name),
        ActionView::RemoveGroup { name } => Some(name),
        _ => None,
    }
}

/// `"Group name can't be empty"`, localized.
pub open spec fn empty_group_name_message(is_ru: bool) -> Seq<char> {
    localized(is_ru, "Group name can't be empty"@, "Имя группы не должно быть пустым"@)
}

/// `"Group name can't contain only whitespaces"`, localized.
pub open spec fn blank_group_name_message(is_ru: bool) -> Seq<char> {
    localized(
        is_ru,
        "Group name can't contain only whitespaces"@,
        "Имя группы не должно содержать только пробелы"@,
    )
}

/// `a`, or the error when its group name is empty or all whitespace.
pub open spec fn validate_name_spec(a: ActionView, is_ru: bool) -> Result<ActionView, Seq<char>> {
    match group_name(a) {
        Some(name) => if name.len() == 0 {
            Err(empty_group_name_message(is_ru))
        } else if forall|i: int| 0 <= i < name.len() ==> is_unicode_whitespace(#[trigger] name[i]) {
            Err(blank_group_name_message(is_ru))
        } else {
            Ok(a)
        },
        None => Ok(a),
    }
}

/// The action that `v` gives for the program `cmd` when the clock reads
/// `now`, or the message of its error. Paths are not yet made absolute.
pub open spec fn as_action_spec(v: ArgParseActionView, cmd: Seq<char>, now: int, is_ru: bool) -> Result<
    ActionView,
    Seq<char>,
> {
    match v.name {
        None => Err(
            usage_message(
                localized(is_ru, "No action specified"@, "Действие не указано"@),
                cmd,
                is_ru,
            ),
        ),
        Some(n) => match action_template(n) {
            None => Err(
                usage_message(
                    localized(
                        is_ru,
                        "Unknown action: '"@ + n + "'"@,
                        "Неизвестное действие: '"@ + n + "'"@,
                    ),
                    cmd,
                    is_ru,
                ),
            ),
            Some(a0) => if a0 is Help {
                Ok(ActionView::Help)
            } else {
                match add_args_spec(n, a0, v.args, is_ru) {
                    Err(m) => Err(m),
                    Ok(a1) => match add_settings_spec(
                        n,
                        a1,
                        v.settings,
                        v.settings_options,
                        is_ru,
                    ) {
                        Err(m) => Err(m),
                        Ok(a2) => match add_period_spec(
                            n,
                            a2,
                            v.period,
                            v.period_options,
                            now,
                            is_ru,
                        ) {
                            Err(m) => Err(m),
                            Ok(a3) => match add_unique_options_spec(
                                n,
                                a3,
                                v.unique_options,
                                is_ru,
                            ) {
                                Err(m) => Err(m),
                                Ok(a4) => validate_name_spec(a4, is_ru),
                            },
                        },
                    },
                }
            },
        },
    }
}

/// The settings are set exactly when some settings option was given.
pub open spec fn settings_agree(v: ArgParseActionView) -> bool {
    settings_none(v.settings) == (v.settings_options.len() == 0)
}

/// The period is set exactly when some period option was given.
pub open spec fn period_agree(v: ArgParseActionView) -> bool {
    period_none(v.period) == (v.period_options.len() == 0)
}

/// Building the action from `v` checks that each option list agrees with
/// its value, where it reaches the check, and stops the program when one
/// does not.
pub open spec fn as_action_fails_check(v: ArgParseActionView, is_ru: bool) -> bool {
    match v.name {
        None => false,
        Some(n) => match action_template(n) {
            None => false,
            Some(a0) => !(a0 is Help) && match add_args_spec(n, a0, v.args, is_ru) {
                Err(_) => false,
                Ok(a1) => if !takes_settings(a1) && !settings_agree(v) {
                    true
                } else {
                    add_settings_spec(n, a1, v.settings, v.settings_options, is_ru) is Ok
                        && !period_agree(v)
                },
            },
        },
    }
}

/// `res` is the outcome `r`: the same action, or an error with the same
/// message.
pub open spec fn action_outcome(res: Result<Action, ArgParseError>, r: Result<ActionView, Seq<char>>) -> bool {
    match r {
        Ok(a) => res matches Ok(x) && x@ == a,
        Err(m) => res matches Err(e) && e.message@ == m,
    }
}

/// An error with `message` and the usage lines for `cmd`.
pub fn with_usage(message: &str, cmd: &str, is_ru: bool) -> (e: ArgParseError)
    ensures
        e.message@ == usage_message(message@, cmd@, is_ru),
{
    let text = if is_ru {
        concat5(
            message,
            "\nИспользование: ",
            cmd,
            " <ДЕЙСТВИЕ> [ОПЦИИ] [АРГУМЕНТЫ]\nИспользуйте '",
            cmd,
        )
    } else {
        concat5(message, "\nUsage: ", cmd, " <ACTION> [OPTIONS] [ARGUMENTS]\nRun '", cmd)
    };
    let mut text = text;
    if is_ru {
        append_str(&mut text, " --help' для дополнительной информации\n");
    } else {
        append_str(&mut text, " --help' for more information\n");
    }
    ArgParseError::new(text)
}

fn localized_error(is_ru: bool, en: &str, ru: &str) -> (e: ArgParseError)
    ensures
        e.message@ == localized(is_ru, en@, ru@),
{
    if is_ru {
        ArgParseError::new(String::from_str(ru))
    } else {
        ArgParseError::new(String::from_str(en))
    }
}

fn empty_settings() -> (s: Settings)
    ensures
        settings_none(s),
{
    Settings::new()
}

fn no_paths() -> (v: Vec<String>)
    ensures
        views(v@) == Seq::<Seq<char>>::empty(),
{
    let v: Vec<String> = Vec::new();
    assert(views(v@) =~= Seq::<Seq<char>>::empty());
    v
}

/// The action named `name`, with empty arguments.
fn action_template_exec(name: &str) -> (r: Option<Action>)
    ensures
        match action_template(name@) {
            Some(a) => r matches Some(x) && x@ == a,
            None => r is None,
        },
{
    proof {
        reveal_strlit("");
    }
    let r = if str_eq(name, "help") {
        Some(Action::Help)
    } else if str_eq(name, "get") {
        Some(Action::GetCurrentWallpaper)
    } else if str_eq(name, "set") {
        Some(
            Action::SetWallpaper {
                path: String::new(),
                settings: empty_settings(),
                period: ParsedTimePeriod::NotSpecified,
            },
        )
    } else if str_eq(name, "random") {
        Some(Action::SetRandowWallpaper)
    } else if str_eq(name, "reset") {
        Some(Action::ResetWallpaper)
    } else if str_eq(name, "restore") {
        Some(Action::RestoreWallpaper)
    } else if str_eq(name, "list") {
        Some(Action::GetNodeList)
    } else if str_eq(name, "add") {
        Some(Action::AddNodes { paths: no_paths(), settings: empty_settings() })
    } else if str_eq(name, "remove") {
        Some(Action::RemoveNodes { paths: no_paths() })
    } else if str_eq(name, "clear") {
        Some(Action::ClearNodes)
    } else if str_eq(name, "group-list") {
        Some(Action::GetGroupList)
    } else if str_eq(name, "new-group") {
        Some(Action::NewGroup { name: String::new(), paths: no_paths() })
    } else if str_eq(name, "get-group") {
        Some(Action::GetGroup { name: String::new() })
    } else if str_eq(name, "set-group") {
        Some(
            Action::SetGroup {
                name: String::new(),
                settings: empty_settings(),
                period: ParsedTimePeriod::NotSpecified,
            },
        )
    } else if str_eq(name, "add-to-group") {
        Some(Action::AddToGroup { name: String::new(), paths: no_paths() })
    } else if str_eq(name, "remove-from-group") {
        Some(Action::RemoveFromGroup { name: String::new(), paths: no_paths() })
    } else if str_eq(name, "clear-group") {
        Some(Action::ClearGroup { name: String::new() })
    } else if str_eq(name, "remove-group") {
        Some(Action::RemoveGroup { name: String::new() })
    } else if str_eq(name, "find-non-fitting") {
        Some(
            Action::FindNonFittingWallpapers {
                paths: no_paths(),
                display_id: None,
                is_verbose: false,
            },
        )
    } else {
        None
    };
    r
}

proof fn lemma_views_remove_first(s: Seq<String>)
    requires
        s.len() > 0,
    ensures
        views(s.remove(0)) == views(s).drop_first(),
        views(s)[0] == s[0]@,
        views(s).len() == s.len(),
{
    assert(views(s.remove(0)) =~= views(s).drop_first());
}

/// The single argument of `args`, or the error when there is none or more.
pub fn require_exactly_one(
    action_name: &str,
    args: Vec<String>,
    missing: MissingArgument,
    is_ru: bool,
) -> (res: Result<String, ArgParseError>)
    ensures
        match exactly_one_spec(action_name@, views(args@), missing, is_ru) {
            Ok(a) => res matches Ok(x) && x@ == a,
            Err(m) => res matches Err(e) && e.message@ == m,
        },
{
    let n = args.len();
    if n == 0 {
        match missing {
            MissingArgument::Path => Err(ArgParseError::path_required(action_name, is_ru)),
            MissingArgument::Name => Err(ArgParseError::name_required(action_name, is_ru)),
        }
    } else if n >= 2 {
        assert(views(args@)[1] == args@[1]@);
        Err(ArgParseError::unknown_argument(args[1].as_str(), action_name, is_ru))
    } else {
        proof {
            lemma_views_remove_first(args@);
        }
        let mut args = args;
        Ok(args.remove(0))
    }
}

/// Puts the arguments into the action named `action_name`.
pub fn add_args(action_name: &str, action: Action, args: Vec<String>, is_ru: bool) -> (res: Result<
    Action,
    ArgParseError,
>)
    ensures
        action_outcome(res, add_args_spec(action_name@, action@, views(args@), is_ru)),
{
    let ghost va = views(args@);
    assert(va.len() == args@.len());
    match action {
        Action::AddNodes { settings, .. } => {
            if args.len() == 0 {
                Err(ArgParseError::at_least_one_path_required(action_name, is_ru))
            } else {
                Ok(Action::AddNodes { paths: args, settings })
            }
        },
        Action::RemoveNodes { .. } => {
            if args.len() == 0 {
                Err(ArgParseError::at_least_one_path_required(action_name, is_ru))
            } else {
                Ok(Action::RemoveNodes { paths: args })
            }
        },
        Action::SetWallpaper { settings, period, .. } => {
            match require_exactly_one(action_name, args, MissingArgument::Path, is_ru) {
                Ok(path) => Ok(Action::SetWallpaper { path, settings, period }),
                Err(e) => Err(e),
            }
        },
        Action::GetGroup { .. } => {
            match require_exactly_one(action_name, args, MissingArgument::Name, is_ru) {
                Ok(name) => Ok(Action::GetGroup { name }),
                Err(e) => Err(e),
            }
        },
        Action::SetGroup { settings, period, .. } => {
            match require_exactly_one(action_name, args, MissingArgument::Name, is_ru) {
                Ok(name) => Ok(Action::SetGroup { name, settings, period }),
                Err(e) => Err(e),
            }
        },
        Action::ClearGroup { .. } => {
            match require_exactly_one(action_name, args, MissingArgument::Name, is_ru) {
                Ok(name) => Ok(Action::ClearGroup { name }),
                Err(e) => Err(e),
            }
        },
        Action::RemoveGroup { .. } => {
            match require_exactly_one(action_name, args, MissingArgument::Name, is_ru) {
                Ok(name) => Ok(Action::RemoveGroup { name }),
                Err(e) => Err(e),
            }
        },
        Action::NewGroup { .. } => {
            if args.len() == 0 {
                Err(ArgParseError::name_required(action_name, is_ru))
            } else {
                proof {
                    lemma_views_remove_first(args@);
                }
                let mut args = args;
                let name = args.remove(0);
                Ok(Action::NewGroup { name, paths: args })
            }
        },
        Action::AddToGroup { .. } => {
            if args.len() == 0 {
                Err(ArgParseError::name_required(action_name, is_ru))
            } else if args.len() == 1 {
                Err(ArgParseError::at_least_one_path_required(action_name, is_ru))
            } else {
                proof {
                    lemma_views_remove_first(args@);
                }
                let mut args = args;
                let name = args.remove(0);
                Ok(Action::AddToGroup { name, paths: args })
            }
        },
        Action::RemoveFromGroup { .. } => {
            if args.len() == 0 {
                Err(ArgParseError::name_required(action_name, is_ru))
            } else if args.len() == 1 {
                Err(ArgParseError::at_least_one_path_required(action_name, is_ru))
            } else {
                proof {
                    lemma_views_remove_first(args@);
                }
                let mut args = args;
                let name = args.remove(0);
                Ok(Action::RemoveFromGroup { name, paths: args })
            }
        },
        Action::FindNonFittingWallpapers { display_id, is_verbose, .. } => {
            Ok(Action::FindNonFittingWallpapers { paths: args, display_id, is_verbose })
        },
        other => {
            if args.len() == 0 {
                Ok(other)
            } else {
                assert(va[0] == args@[0]@);
                Err(ArgParseError::unknown_argument(args[0].as_str(), action_name, is_ru))
            }
        },
    }
}

/// Puts the settings into the action named `action_name`; an action that
/// takes none refuses them.
pub fn add_settings(
    action_name: &str,
    action: Action,
    settings: Settings,
    options: Vec<String>,
    is_ru: bool,
) -> (res: Result<Action, ArgParseError>)
    requires
        !takes_settings(action@) ==> settings_none(settings) == (options@.len() == 0),
    ensures
        action_outcome(
            res,
            add_settings_spec(action_name@, action@, settings, views(options@), is_ru),
        ),
{
    match action {
        Action::SetWallpaper { path, period, .. } => Ok(
            Action::SetWallpaper { path, settings, period },
        ),
        Action::AddNodes { paths, .. } => Ok(Action::AddNodes { paths, settings }),
        Action::SetGroup { name, period, .. } => Ok(Action::SetGroup { name, settings, period }),
        other => {
            if settings.is_none() {
                Ok(other)
            } else {
                Err(ArgParseError::could_not_set_option(&options, action_name, is_ru))
            }
        },
    }
}

/// Puts the period of the options into the action named `action_name`,
/// against the clock reading `now`; an action that takes none refuses them.
pub fn add_period(
    action_name: &str,
    action: Action,
    period: CliTimePeriod,
    options: Vec<String>,
    now: i64,
    is_ru: bool,
) -> (res: Result<Action, ArgParseError>)
    requires
        period_none(period) == (options@.len() == 0),
    ensures
        action_outcome(
            res,
            add_period_spec(action_name@, action@, period, views(options@), now as int, is_ru),
        ),
{
    match action {
        Action::SetWallpaper { path, settings, .. } => {
            match period.as_parsed_time_period_at(now, is_ru) {
                Ok(p) => Ok(Action::SetWallpaper { path, settings, period: p }),
                Err(e) => Err(e),
            }
        },
        Action::SetGroup { name, settings, .. } => {
            match period.as_parsed_time_period_at(now, is_ru) {
                Ok(p) => Ok(Action::SetGroup { name, settings, period: p }),
                Err(e) => Err(e),
            }
        },
        other => {
            if period.is_none() {
                Ok(other)
            } else {
                Err(ArgParseError::could_not_set_option(&options, action_name, is_ru))
            }
        },
    }
}

/// Puts the unique options into the action named `action_name`; only
/// `find-non-fitting` takes them.
pub fn add_unique_options(
    action_name: &str,
    action: Action,
    options: Vec<UniqueOption>,
    is_ru: bool,
) -> (res: Result<Action, ArgParseError>)
    ensures
        action_outcome(res, add_unique_options_spec(action_name@, action@, options@, is_ru)),
{
    match action {
        Action::FindNonFittingWallpapers { paths, display_id, is_verbose } => {
            let mut id = display_id;
            let mut verbose = is_verbose;
            let mut i: usize = 0;
            while i < options.len()
                invariant
                    i <= options@.len(),
                    id == last_display_id(options@.take(i as int), display_id),
                    verbose == (is_verbose || options@.take(i as int).contains(
                        UniqueOption::VerboseFlag,
                    )),
                decreases options@.len() - i,
            {
                let ghost before = options@.take(i as int);
                let ghost after = options@.take(i + 1);
                assert(after.drop_last() =~= before);
                assert(after.last() == options@[i as int]);
                match options[i] {
                    UniqueOption::DisplayId(v) => {
                        id = Some(v);
                    },
                    UniqueOption::VerboseFlag => {
                        verbose = true;
                    },
                }
                proof {
                    if options@[i as int] == UniqueOption::VerboseFlag {
                        assert(after[i as int] == UniqueOption::VerboseFlag);
                    } else {
                        assert forall|k: int| 0 <= k < after.len() && after[k]
                            == UniqueOption::VerboseFlag implies before.contains(
                            UniqueOption::VerboseFlag,
                        ) by {
                            assert(k < i);
                            assert(before[k] == after[k]);
                        }
                        if before.contains(UniqueOption::VerboseFlag) {
                            let k = choose|k: int|
                                0 <= k < before.len() && before[k] == UniqueOption::VerboseFlag;
                            assert(after[k] == before[k]);
                        }
                    }
                }
                i = i + 1;
            }
            assert(options@.take(options@.len() as int) =~= options@);
            Ok(Action::FindNonFittingWallpapers { paths, display_id: id, is_verbose: verbose })
        },
        other => {
            if options.len() == 0 {
                Ok(other)
            } else {
                let names = vec![String::from_str("--display-id")];
                assert(views(names@) =~= seq!["--display-id"@]);
                Err(ArgParseError::could_not_set_option(&names, action_name, is_ru))
            }
        },
    }
}

/// Whether every character of `s` is whitespace.
fn all_whitespace(s: &str) -> (b: bool)
    ensures
        b == forall|i: int| 0 <= i < s@.len() ==> is_unicode_whitespace(#[trigger] s@[i]),
{
    let cs = chars_of(s);
    let mut i: usize = 0;
    while i < cs.len()
        invariant
            cs@ == s@,
            i <= cs@.len(),
            forall|k: int| 0 <= k < i ==> is_unicode_whitespace(#[trigger] cs@[k]),
        decreases cs@.len() - i,
    {
        if !is_whitespace(cs[i]) {
            return false;
        }
        i = i + 1;
    }
    true
}

fn check_group_name(name: &String, is_ru: bool) -> (res: Result<(), ArgParseError>)
    ensures
        match validate_name_spec(ActionView::GetGroup { name: name@ }, is_ru) {
            Ok(_) => res is Ok,
            Err(m) => res matches Err(e) && e.message@ == m,
        },
{
    let cs = chars_of(name.as_str());
    if cs.len() == 0 {
        return Err(
            localized_error(is_ru, "Group name can't be empty", "Имя группы не должно быть пустым"),
        );
    }
    if all_whitespace(name.as_str()) {
        return Err(
            localized_error(
                is_ru,
                "Group name can't contain only whitespaces",
                "Имя группы не должно содержать только пробелы",
            ),
        );
    }
    Ok(())
}

/// The action, or the error when its group name is empty or all whitespace.
pub fn validate_name(action: Action, is_ru: bool) -> (res: Result<Action, ArgParseError>)
    ensures
        action_outcome(res, validate_name_spec(action@, is_ru)),
{
    let check = match &action {
        Action::NewGroup { name, .. } => check_group_name(name, is_ru),
        Action::GetGroup { name } => check_group_name(name, is_ru),
        Action::SetGroup { name, .. } => check_group_name(name, is_ru),
        Action::AddToGroup { name, .. } => check_group_name(name, is_ru),
        Action::RemoveFromGroup { name, .. } => check_group_name(name, is_ru),
        Action::ClearGroup { name } => check_group_name(name, is_ru),
        Action::RemoveGroup { name } => check_group_name(name, is_ru),
        _ => Ok(()),
    };
    match check {
        Ok(()) => Ok(action),
        Err(e) => Err(e),
    }
}

impl ArgParseAction {
    /// Nothing read yet.
    pub fn new() -> (a: Self)
        ensures
            a@ == empty_parse(),
    {
        let a = ArgParseAction {
            name: None,
            args: Vec::new(),
            settings_options: Vec::new(),
            period_options: Vec::new(),
            settings: Settings::new(),
            period: CliTimePeriod::new(),
            unique_option_names: Vec::new(),
            unique_options: Vec::new(),
        };
        assert(views(a.args@) =~= Seq::<Seq<char>>::empty());
        assert(views(a.settings_options@) =~= Seq::<Seq<char>>::empty());
        assert(views(a.period_options@) =~= Seq::<Seq<char>>::empty());
        assert(views(a.unique_option_names@) =~= Seq::<Seq<char>>::empty());
        assert(a.unique_options@ =~= Seq::<UniqueOption>::empty());
        a
    }

    /// A word that is not an option: the action's name if none was read yet,
    /// else one more argument.
    pub fn add_arg(&mut self, arg: String)
        ensures
            final(self)@ == after_word(old(self)@, arg@),
    {
        if self.name.is_none() {
            self.name = Some(arg);
        } else {
            let ghost a = arg@;
            self.args.push(arg);
            assert(views(self.args@) =~= views(old(self).args@).push(a));
        }
    }

    /// A settings option as written, `arg`, with its value or the error that
    /// reading the value gave; the option is kept for the messages either
    /// way.
    pub fn add_setting(&mut self, arg: String, value: Result<SettingOption, ArgParseError>) -> (res:
        Result<(), ArgParseError>)
        ensures
            final(self)@ == (ArgParseActionView {
                settings_options: old(self)@.settings_options.push(arg@),
                settings: match value {
                    Ok(o) => apply_setting_option(old(self)@.settings, o),
                    Err(_) => old(self)@.settings,
                },
                ..old(self)@
            }),
            match value {
                Ok(_) => res is Ok,
                Err(e) => res == Err::<(), ArgParseError>(e),
            },
    {
        let ghost a = arg@;
        self.settings_options.push(arg);
        assert(views(self.settings_options@) =~= views(old(self).settings_options@).push(a));
        match value {
            Ok(SettingOption::Mode(m)) => {
                self.settings.mode = Some(m);
                Ok(())
            },
            Ok(SettingOption::RecursiveLevel(l)) => {
                self.settings.recursive_level = Some(l);
                Ok(())
            },
            Err(e) => Err(e),
        }
    }

    /// A period option as written, `arg`, with its value or the error that
    /// reading the value gave; the option is kept for the messages either
    /// way.
    pub fn add_time_period_option(
        &mut self,
        arg: String,
        value: Result<PeriodOption, ArgParseError>,
    ) -> (res: Result<(), ArgParseError>)
        ensures
            final(self)@ == (ArgParseActionView {
                period_options: old(self)@.period_options.push(arg@),
                period: match value {
                    Ok(o) => apply_period_option(old(self)@.period, o),
                    Err(_) => old(self)@.period,
                },
                ..old(self)@
            }),
            match value {
                Ok(_) => res is Ok,
                Err(e) => res == Err::<(), ArgParseError>(e),
            },
    {
        let ghost a = arg@;
        self.period_options.push(arg);
        assert(views(self.period_options@) =~= views(old(self).period_options@).push(a));
        match value {
            Ok(PeriodOption::Since(v)) => self.period.set_since(v),
            Ok(PeriodOption::Until(v)) => self.period.set_until(v),
            Ok(PeriodOption::Duration(v)) => self.period.set_duration(v),
            Err(e) => Err(e),
        }
    }

    /// An option that may be given once, as written, `arg`: refused when the
    /// same text was given before.
    pub fn add_unique_option(&mut self, arg: String, value: UniqueOption, is_ru: bool) -> (res:
        Result<(), ArgParseError>)
        ensures
            if old(self)@.unique_option_names.contains(arg@) {
                &&& res matches Err(e) && e.message@ == repeated_option_message(arg@, is_ru)
                &&& final(self)@ == old(self)@
            } else {
                &&& res is Ok
                &&& final(self)@ == (ArgParseActionView {
                    unique_option_names: old(self)@.unique_option_names.push(arg@),
                    unique_options: old(self)@.unique_options.push(value),
                    ..old(self)@
                })
            },
    {
        if contains_string(&self.unique_option_names, arg.as_str()) {
            let e = if is_ru {
                concat5("Указано более одной опции '", arg.as_str(), "'", "", "")
            } else {
                concat5("More then one '", arg.as_str(), "' option specfied", "", "")
            };
            proof {
                reveal_strlit("");
            }
            return Err(ArgParseError::new(e));
        }
        let ghost a = arg@;
        self.unique_option_names.push(arg);
        assert(views(self.unique_option_names@) =~= views(old(self).unique_option_names@).push(a));
        self.unique_options.push(value);
        Ok(())
    }

    /// The action that the command line gives for the program `cmd`, with the
    /// period read against the clock reading `now`, in milliseconds. Paths are
    /// not yet made absolute.
    pub fn as_action_at(self, cmd: &str, now: i64, is_ru: bool) -> (res: Result<
        Action,
        ArgParseError,
    >)
        requires
            !as_action_fails_check(self@, is_ru),
        ensures
            action_outcome(res, as_action_spec(self@, cmd@, now as int, is_ru)),
    {
        let ghost v = self@;
        let ArgParseAction {
            name,
            args,
            settings_options,
            period_options,
            settings,
            period,
            unique_option_names: _,
            unique_options,
        } = self;
        let name = match name {
            None => {
                let m = localized_error(is_ru, "No action specified", "Действие не указано");
                return Err(with_usage(m.message.as_str(), cmd, is_ru));
            },
            Some(n) => n,
        };
        let action = match action_template_exec(name.as_str()) {
            None => {
                let m = if is_ru {
                    concat5("Неизвестное действие: '", name.as_str(), "'", "", "")
                } else {
                    concat5("Unknown action: '", name.as_str(), "'", "", "")
                };
                proof {
                    reveal_strlit("");
                }
                return Err(with_usage(m.as_str(), cmd, is_ru));
            },
            Some(a) => a,
        };
        if let Action::Help = action {
            return Ok(Action::Help);
        }
        let action = add_args(name.as_str(), action, args, is_ru)?;
        let action = add_settings(name.as_str(), action, settings, settings_options, is_ru)?;
        let action = add_period(name.as_str(), action, period, period_options, now, is_ru)?;
        let action = add_unique_options(name.as_str(), action, unique_options, is_ru)?;
        validate_name(action, is_ru)
    }

    /// The action that the command line gives for the program `cmd`, with the
    /// period read against the clock at the time of the call, rounded down
    /// to its minute. Paths are not yet made absolute.
    pub fn as_action(self, cmd: &str, is_ru: bool) -> (res: Result<Action, ArgParseError>)
        requires
            !as_action_fails_check(self@, is_ru),
        ensures
            exists|now: int| clock_minute(now) && #[trigger] action_outcome(
                res,
                as_action_spec(self@, cmd@, now, is_ru),
            ),
    {
        let ghost v = self@;
        let secs = local_now();
        let now = minute_ms(secs);
        let r = self.as_action_at(cmd, now, is_ru);
        assert(action_outcome(r, as_action_spec(v, cmd@, now as int, is_ru)));
        r
    }
}

/// `s` with each element kept at its first occurrence only.
pub open spec fn first_occurrences(s: Seq<Seq<char>>) -> Seq<Seq<char>>
    decreases s.len(),
{
    if s.len() == 0 {
        s
    } else {
        let u = first_occurrences(s.drop_last());
        if u.contains(s.last()) {
            u
        } else {
            u.push(s.last())
        }
    }
}

/// The paths with each one kept at its first occurrence only.
pub fn unique_paths(paths: &Vec<String>) -> (res: Vec<String>)
    ensures
        views(res@) == first_occurrences(views(paths@)),
{
    let mut res: Vec<String> = Vec::new();
    let mut i: usize = 0;
    assert(views(paths@.take(0)) =~= Seq::<Seq<char>>::empty());
    assert(views(res@) =~= Seq::<Seq<char>>::empty());
    while i < paths.len()
        invariant
            i <= paths@.len(),
            views(res@) == first_occurrences(views(paths@.take(i as int))),
        decreases paths@.len() - i,
    {
        let ghost before = views(paths@.take(i as int));
        let ghost after = views(paths@.take(i + 1));
        assert(after.drop_last() =~= before);
        assert(after.last() == paths@[i as int]@);
        if !contains_string(&res, paths[i].as_str()) {
            let ghost r0 = views(res@);
            res.push(paths[i].clone());
            assert(views(res@) =~= r0.push(paths@[i as int]@));
        }
        i = i + 1;
    }
    assert(paths@.take(paths@.len() as int) =~= paths@);
    res
}

/// Keeping first occurrences leaves no duplicates and loses no element:
/// the result holds exactly the elements of `s`, each once.
pub proof fn first_occurrences_unique(s: Seq<Seq<char>>)
    ensures
        first_occurrences(s).no_duplicates(),
        forall|x: Seq<char>| #[trigger] first_occurrences(s).contains(x) <==> s.contains(x),
    decreases s.len(),
{
    if s.len() > 0 {
        let d = s.drop_last();
        first_occurrences_unique(d);
        let u = first_occurrences(d);
        assert forall|x: Seq<char>| #[trigger] first_occurrences(s).contains(x) <==> s.contains(x) by {
            if d.contains(x) {
                let k = choose|k: int| 0 <= k < d.len() && d[k] == x;
                assert(s[k] == x);
            }
            if s.contains(x) && x != s.last() {
                let k = choose|k: int| 0 <= k < s.len() && s[k] == x;
                assert(k < s.len() - 1);
                assert(d[k] == x);
            }
            if !u.contains(s.last()) {
                let t = u.push(s.last());
                assert(t[u.len() as int] == s.last());
                if t.contains(x) && x != s.last() {
                    let k = choose|k: int| 0 <= k < t.len() && t[k] == x;
                    assert(u[k] == x);
                }
                if u.contains(x) {
                    let k = choose|k: int| 0 <= k < u.len() && u[k] == x;
                    assert(t[k] == x);
                }
            }
        }
        if !u.contains(s.last()) {
            let t = u.push(s.last());
            assert forall|a: int, b: int| 0 <= a < t.len() && 0 <= b < t.len() && a != b implies t[a]
                != t[b] by {
                if a == u.len() && b < u.len() {
                    assert(u[b] != s.last());
                } else if b == u.len() && a < u.len() {
                    assert(u[a] != s.last());
                }
            }
        }
    }
}

} // verus!
