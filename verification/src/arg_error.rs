//! Errors of command-line parsing.

use vstd::prelude::*;
use vstd::string::*;

use crate::outcome::localized;
use crate::text::{append_str, join, join_range, views};

verus! {

/// A command line that could not be parsed, with the message shown to the
/// user.
#[derive(Debug)]
pub struct ArgParseError {
    pub message: String,
}

/// `'{o}' option` for one option; `'{o1}', '{o2}', or '{o3}' options` for more.
pub open spec fn format_options_spec(options: Seq<Seq<char>>) -> Seq<char> {
    if options.len() == 1 {
        "'"@ + options[0] + "' option"@
    } else {
        "'"@ + join(options.drop_last(), "', '"@) + "', or '"@ + options.last() + "' options"@
    }
}

/// `"Unknown argument '{arg}' for action '{action_name}'"`, localized.
pub open spec fn unknown_argument_message(arg: Seq<char>, action_name: Seq<char>, is_ru: bool) -> Seq<
    char,
> {
    localized(
        is_ru,
        "Unknown argument '"@ + arg + "' for action '"@ + action_name + "'"@,
        "Неизвестный аргумент '"@ + arg + "' для действия '"@ + action_name + "'"@,
    )
}

/// `"Missing name for action '{action_name}'"`, localized.
pub open spec fn name_required_message(action_name: Seq<char>, is_ru: bool) -> Seq<char> {
    localized(
        is_ru,
        "Missing name for action '"@ + action_name + "'"@,
        "Требуется имя для действия '"@ + action_name + "'"@,
    )
}

/// `"Missing path for action '{action_name}'"`, localized.
pub open spec fn path_required_message(action_name: Seq<char>, is_ru: bool) -> Seq<char> {
    localized(
        is_ru,
        "Missing path for action '"@ + action_name + "'"@,
        "Требуется путь для действия '"@ + action_name + "'"@,
    )
}

/// `"At least one path is required for action '{action_name}'"`, localized.
pub open spec fn at_least_one_path_required_message(action_name: Seq<char>, is_ru: bool) -> Seq<
    char,
> {
    localized(
        is_ru,
        "At least one path is required for action '"@ + action_name + "'"@,
        "Требуется хотя бы один путь для действия '"@ + action_name + "'"@,
    )
}

/// `"Could not set {options} for action '{action_name}'"`, localized.
pub open spec fn could_not_set_option_message(
    options: Seq<Seq<char>>,
    action_name: Seq<char>,
    is_ru: bool,
) -> Seq<char> {
    localized(
        is_ru,
        "Could not set "@ + format_options_spec(options) + " for action '"@ + action_name + "'"@,
        "Невозможно задать "@ + format_options_spec(options) + " для действия '"@ + action_name
            + "'"@,
    )
}

/// Describes a non-empty list of options.
pub fn format_options(options: &Vec<String>) -> (s: String)
    requires
        options@.len() > 0,
    ensures
        s@ == format_options_spec(views(options@)),
{
    let n = options.len();
    let mut s = String::from_str("'");
    if n == 1 {
        append_str(&mut s, options[0].as_str());
        append_str(&mut s, "' option");
    } else {
        let head = join_range(options, 0, n - 1, "', '");
        append_str(&mut s, head.as_str());
        append_str(&mut s, "', or '");
        append_str(&mut s, options[n - 1].as_str());
        append_str(&mut s, "' options");
        assert(views(options@.subrange(0, n - 1)) == views(options@).drop_last());
    }
    s
}

/// Builds `prefix + a + middle + b + suffix`.
pub(crate) fn concat5(prefix: &str, a: &str, middle: &str, b: &str, suffix: &str) -> (s: String)
    ensures
        s@ == prefix@ + a@ + middle@ + b@ + suffix@,
{
    let mut s = String::from_str(prefix);
    append_str(&mut s, a);
    append_str(&mut s, middle);
    append_str(&mut s, b);
    append_str(&mut s, suffix);
    s
}

impl ArgParseError {
    /// An error with `message`.
    pub fn new(message: String) -> (e: Self)
        ensures
            e.message@ == message@,
    {
        ArgParseError { message }
    }

    /// The error's message.
    pub fn message(&self) -> (m: &String)
        ensures
            m@ == self.message@,
    {
        &self.message
    }

    /// The text shown to the user.
    pub fn to_display_string(&self) -> (s: String)
        ensures
            s@ == self.message@,
    {
        self.message.clone()
    }

    /// An argument that the action does not take.
    pub fn unknown_argument(arg: &str, action_name: &str, is_ru: bool) -> (e: Self)
        ensures
            e.message@ == unknown_argument_message(arg@, action_name@, is_ru),
    {
        let message = if is_ru {
            concat5("Неизвестный аргумент '", arg, "' для действия '", action_name, "'")
        } else {
            concat5("Unknown argument '", arg, "' for action '", action_name, "'")
        };
        ArgParseError { message }
    }

    /// An action that needs a group name got none.
    pub fn name_required(action_name: &str, is_ru: bool) -> (e: Self)
        ensures
            e.message@ == name_required_message(action_name@, is_ru),
    {
        let message = if is_ru {
            concat5("Требуется имя для действия '", action_name, "'", "", "")
        } else {
            concat5("Missing name for action '", action_name, "'", "", "")
        };
        proof {
            reveal_strlit("");
        }
        ArgParseError { message }
    }

    /// An action that needs a path got none.
    pub fn path_required(action_name: &str, is_ru: bool) -> (e: Self)
        ensures
            e.message@ == path_required_message(action_name@, is_ru),
    {
        let message = if is_ru {
            concat5("Требуется путь для действия '", action_name, "'", "", "")
        } else {
            concat5("Missing path for action '", action_name, "'", "", "")
        };
        proof {
            reveal_strlit("");
        }
        ArgParseError { message }
    }

    /// An action that needs paths got none.
    pub fn at_least_one_path_required(action_name: &str, is_ru: bool) -> (e: Self)
        ensures
            e.message@ == at_least_one_path_required_message(action_name@, is_ru),
    {
        let message = if is_ru {
            concat5("Требуется хотя бы один путь для действия '", action_name, "'", "", "")
        } else {
            concat5("At least one path is required for action '", action_name, "'", "", "")
        };
        proof {
            reveal_strlit("");
        }
        ArgParseError { message }
    }

    /// Options that the action does not take.
    pub fn could_not_set_option(options: &Vec<String>, action_name: &str, is_ru: bool) -> (e: Self)
        requires
            options@.len() > 0,
        ensures
            e.message@ == could_not_set_option_message(views(options@), action_name@, is_ru),
    {
        let formatted = format_options(options);
        let message = if is_ru {
            concat5("Невозможно задать ", formatted.as_str(), " для действия '", action_name, "'")
        } else {
            concat5("Could not set ", formatted.as_str(), " for action '", action_name, "'")
        };
        ArgParseError { message }
    }
}

} // verus!
