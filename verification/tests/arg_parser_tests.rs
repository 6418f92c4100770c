use ywpm::action::Action;
use ywpm::arg_error::{format_options, ArgParseError};
use ywpm::arg_parser::{
    parse_args, parse_args_at, parse_display_mode, parse_recursive_level, parse_u16, parse_u32,
    require_opt_value,
};
use ywpm::display_mode::{AlignX, AlignY, DisplayMode, FitMode};
use ywpm::node::{Settings, TimePeriod};
use ywpm::parse_action::{unique_paths, ArgParseAction, MissingArgument, require_exactly_one};
use ywpm::time_period::ParsedTimePeriod;

const NOW: i64 = 1_781_172_930;

fn args(v: &[&str]) -> Vec<String> {
    v.iter().map(|s| s.to_string()).collect()
}

fn parse(v: &[&str]) -> Result<Action, ArgParseError> {
    let mut socket = None;
    parse_args_at(&args(v), NOW, false, &mut socket)
}

fn err(v: &[&str]) -> String {
    match parse(v) {
        Err(e) => e.message().clone(),
        Ok(_) => panic!("expected an error"),
    }
}

#[test]
fn help_and_version_answer_at_once() {
    assert!(matches!(parse(&["ywpm", "add", "--help", "--bogus"]), Ok(Action::Help)));
    assert!(matches!(parse(&["ywpm", "-V"]), Ok(Action::Version)));
    assert!(matches!(parse(&["ywpm", "help", "x", "y"]), Ok(Action::Help)));
}

#[test]
fn no_action_gives_usage() {
    assert_eq!(
        err(&["ywpm"]),
        "No action specified\nUsage: ywpm <ACTION> [OPTIONS] [ARGUMENTS]\nRun 'ywpm --help' for more information\n"
    );
    let mut socket = None;
    let e = parse_args_at(&args(&["ywpm"]), NOW, true, &mut socket).err().unwrap();
    assert_eq!(
        e.message(),
        "Действие не указано\nИспользование: ywpm <ДЕЙСТВИЕ> [ОПЦИИ] [АРГУМЕНТЫ]\nИспользуйте 'ywpm --help' для дополнительной информации\n"
    );
}

#[test]
fn unknown_action_and_option() {
    assert!(err(&["ywpm", "fly"]).starts_with("Unknown action: 'fly'\nUsage: ywpm"));
    assert!(err(&["ywpm", "list", "--fly=1"]).starts_with("Unknown option: '--fly'\nUsage: ywpm"));
}

#[test]
fn set_with_mode_and_level() {
    match parse(&["ywpm", "set", "/a.png", "-m", "contain top", "--recursive-level=3"]) {
        Ok(Action::SetWallpaper { path, settings, period }) => {
            assert_eq!(path, "/a.png");
            assert_eq!(
                settings.mode,
                Some(DisplayMode::new_with_fields(FitMode::Contain, AlignX::Center, AlignY::Top))
            );
            assert_eq!(settings.recursive_level, Some(3));
            assert_eq!(period, ParsedTimePeriod::NotSpecified);
        }
        _ => panic!("expected set"),
    }
}

#[test]
fn set_with_duration_gives_period_from_minute() {
    match parse(&["ywpm", "set", "/a.png", "-d", "1h"]) {
        Ok(Action::SetWallpaper { period, .. }) => {
            let start = (NOW - NOW % 60) * 1000;
            assert_eq!(period, ParsedTimePeriod::Period(TimePeriod::new(start, start + 3_600_000)));
        }
        _ => panic!("expected set"),
    }
}

#[test]
fn path_and_name_arguments() {
    assert_eq!(err(&["ywpm", "set"]), "Missing path for action 'set'");
    assert_eq!(err(&["ywpm", "set", "a", "b"]), "Unknown argument 'b' for action 'set'");
    assert_eq!(err(&["ywpm", "add"]), "At least one path is required for action 'add'");
    assert_eq!(err(&["ywpm", "get-group"]), "Missing name for action 'get-group'");
    assert_eq!(err(&["ywpm", "add-to-group", "g"]), "At least one path is required for action 'add-to-group'");
    assert_eq!(err(&["ywpm", "list", "x"]), "Unknown argument 'x' for action 'list'");
    match parse(&["ywpm", "new-group", "g", "/a", "/b"]) {
        Ok(Action::NewGroup { name, paths }) => {
            assert_eq!(name, "g");
            assert_eq!(paths, args(&["/a", "/b"]));
        }
        _ => panic!("expected new-group"),
    }
}

#[test]
fn group_names_must_not_be_blank() {
    assert_eq!(err(&["ywpm", "get-group", ""]), "Group name can't be empty");
    assert_eq!(err(&["ywpm", "get-group", " \t"]), "Group name can't contain only whitespaces");
}

#[test]
fn options_refused_by_the_action() {
    assert_eq!(err(&["ywpm", "list", "-m", "cover"]), "Could not set '-m' option for action 'list'");
    assert_eq!(
        err(&["ywpm", "remove", "/a", "-m", "cover", "-r", "2"]),
        "Could not set '-m', or '-r' options for action 'remove'"
    );
    assert_eq!(err(&["ywpm", "add", "/a", "-d", "1h"]), "Could not set '-d' option for action 'add'");
    assert_eq!(err(&["ywpm", "list", "-v"]), "Could not set '--display-id' option for action 'list'");
    assert_eq!(
        err(&["ywpm", "list", "--display-id", "1"]),
        "Could not set '--display-id' option for action 'list'"
    );
}

#[test]
fn option_values() {
    assert_eq!(err(&["ywpm", "add", "/a", "-m"]), "Missing value for option '-m'");
    assert_eq!(err(&["ywpm", "add", "/a", "-m", "sideways"]), "Invalid value for option '-m': 'sideways'");
    assert_eq!(
        err(&["ywpm", "add", "/a", "-r", "70000"]),
        "Invalid value for option '-r': '70000'. Expected integer from 1 to 65 535"
    );
    assert_eq!(
        err(&["ywpm", "find-non-fitting", "--display-id", "-1"]),
        "Invalid value for option '--display-id': '-1'. Expected integer from 0 to 4 294 967 295"
    );
    assert_eq!(
        err(&["ywpm", "find-non-fitting", "-v", "-v"]),
        "More then one '-v' option specfied"
    );
}

#[test]
fn find_non_fitting_options() {
    match parse(&["ywpm", "find-non-fitting", "/a", "--display-id=7", "--verbose"]) {
        Ok(Action::FindNonFittingWallpapers { paths, display_id, is_verbose }) => {
            assert_eq!(paths, args(&["/a"]));
            assert_eq!(display_id, Some(7));
            assert!(is_verbose);
        }
        _ => panic!("expected find-non-fitting"),
    }
}

#[test]
fn double_dash_ends_options() {
    match parse(&["ywpm", "add", "--", "-m"]) {
        Ok(Action::AddNodes { paths, settings }) => {
            assert_eq!(paths, args(&["-m"]));
            assert!(settings.is_none());
        }
        _ => panic!("expected add"),
    }
}

#[test]
fn socket_option_is_kept_even_on_error() {
    let mut socket = Some("/old".to_string());
    let r = parse_args_at(&args(&["ywpm", "--socket", "/s1", "--socket=/s2", "fly"]), NOW, false, &mut socket);
    assert!(r.is_err());
    assert_eq!(socket, Some("/s2".to_string()));
    let mut untouched = Some("/old".to_string());
    let _ = parse_args_at(&args(&["ywpm", "list"]), NOW, false, &mut untouched);
    assert_eq!(untouched, Some("/old".to_string()));
    let mut s = None;
    assert!(matches!(parse_args(&args(&["ywpm", "list"]), false, &mut s), Ok(Action::GetNodeList)));
}

#[test]
fn helpers_of_the_parser() {
    let opts = args(&["-a", "-b", "-c"]);
    assert_eq!(format_options(&opts), "'-a', '-b', or '-c' options");
    assert_eq!(parse_u16("-r", "+12", false).ok(), Some(12));
    assert!(parse_u16("-r", "", false).is_err());
    assert_eq!(parse_u32("--display-id", "4294967295", false).ok(), Some(u32::MAX));
    assert!(parse_display_mode("-m", "stretch right bottom", false).is_ok());
    let list = args(&["ywpm", "x"]);
    let mut value = None;
    let mut next = 2;
    assert_eq!(
        require_opt_value("-m", &mut value, &list, &mut next, true).err().unwrap().message(),
        "Требуется значение для опции '-m'"
    );
    let mut value = Some("v".to_string());
    let mut next = 1;
    assert_eq!(require_opt_value("-m", &mut value, &list, &mut next, false).ok(), Some("v".to_string()));
    assert_eq!(next, 1);
    assert_eq!(
        require_exactly_one("set", args(&["a", "b"]), MissingArgument::Path, false).err().unwrap().message(),
        "Unknown argument 'b' for action 'set'"
    );
}

#[test]
fn unique_paths_keep_first_occurrences() {
    let v = args(&["/b", "/a", "/b", "/c", "/a"]);
    assert_eq!(unique_paths(&v), args(&["/b", "/a", "/c"]));
}

#[test]
fn building_an_action_by_hand() {
    let mut a = ArgParseAction::new();
    a.add_arg("add".to_string());
    a.add_arg("/x".to_string());
    a.add_setting("-r".to_string(), Ok(ywpm::parse_action::SettingOption::RecursiveLevel(4))).unwrap();
    match a.as_action_at("ywpm", 0, false) {
        Ok(Action::AddNodes { paths, settings }) => {
            assert_eq!(paths, args(&["/x"]));
            assert_eq!(settings, Settings { mode: None, recursive_level: Some(4) });
        }
        _ => panic!("expected add"),
    }
}

#[test]
fn recursive_level_lies_in_documented_range() {
    let v = args(&["ywpm", "set-group", "g", "-r", "0"]);
    let mut socket = None;
    assert!(parse_args(&v, false, &mut socket).is_err());
    assert_eq!(
        err(&["ywpm", "set-group", "g", "-r", "0"]),
        "Invalid value for option '-r': '0'. Expected integer from 1 to 65 535"
    );
    assert_eq!(parse_recursive_level("-r", "1", false).ok(), Some(1));
    assert_eq!(parse_recursive_level("-r", "65535", false).ok(), Some(65535));
    assert!(parse_recursive_level("-r", "65536", false).is_err());
    assert!(parse_recursive_level("--recursive-level", "+0", false).is_err());
    match parse(&["ywpm", "set-group", "g", "-r", "1"]) {
        Ok(Action::SetGroup { settings, .. }) => assert_eq!(settings.recursive_level, Some(1)),
        _ => panic!("expected set-group"),
    }
}

#[test]
fn words_name_the_action_then_fill_its_arguments() {
    let mut a = ArgParseAction::new();
    for w in ["add", "/a", "/b", "/c"] {
        a.add_arg(w.to_string());
    }
    assert_eq!(a.name, Some("add".to_string()));
    assert_eq!(a.args, args(&["/a", "/b", "/c"]));
    assert!(a.settings_options.is_empty());
    assert!(a.period_options.is_empty());
    assert_eq!(a.settings.mode, None);
    assert_eq!(a.settings.recursive_level, None);
    assert!(a.unique_option_names.is_empty());
    assert!(a.unique_options.is_empty());
}

#[test]
fn reset_and_restore_actions() {
    assert!(matches!(parse(&["ywpm", "reset"]), Ok(Action::ResetWallpaper)));
    assert!(matches!(parse(&["ywpm", "restore"]), Ok(Action::RestoreWallpaper)));
    assert!(parse(&["ywpm", "reset", "/a"]).is_err());
    assert!(parse(&["ywpm", "restore", "-m", "cover"]).is_err());
    assert!(Action::ResetWallpaper.needs_config_update());
    assert!(!Action::RestoreWallpaper.needs_config_update());
}
