use ywpm::display_mode::{AlignX, AlignY, DisplayMode, FitMode};
use ywpm::node::{Settings, TimePeriod, WallpaperNode};
use ywpm::state::{State, WallpaperGroup};
use ywpm::time_period::ParsedTimePeriod;

fn strings(v: &[&str]) -> Vec<String> {
    v.iter().map(|s| s.to_string()).collect()
}

fn paths_of(s: &State) -> Vec<String> {
    s.nodes.iter().map(|n| n.path.clone()).collect()
}

fn contain() -> DisplayMode {
    DisplayMode::new_with_fields(FitMode::Contain, AlignX::Center, AlignY::Center)
}

#[test]
fn empty_lists() {
    let s = State::new();
    assert_eq!(s.get_wallpaper_list(), "No wallpapers are found");
    assert_eq!(s.get_group_list(false), "No groups are found");
    assert_eq!(s.get_group_list(true), "Ни одна группа не найдена");
    assert_eq!(s.get_timeout(0), None);
}

#[test]
fn add_nodes_with_settings() {
    let mut s = State::new();
    let settings = Settings { mode: Some(contain()), recursive_level: Some(3) };
    let restart = s.add_nodes(&strings(&["/w", "/x.png"]), &settings, ParsedTimePeriod::NotSpecified);
    assert!(restart.is_none());
    assert_eq!(s.get_wallpaper_list(), "Wallpapers:\n/w\n/x.png");
    assert_eq!(s.nodes[0].mode, contain());
    assert_eq!(s.nodes[1].recursive_level, 3);
    // Adding again keeps one node per path.
    s.add_nodes(&strings(&["/w"]), &Settings::new(), ParsedTimePeriod::NotSpecified);
    assert_eq!(paths_of(&s), strings(&["/w", "/x.png"]));
    assert_eq!(s.nodes[0].mode, contain());
}

#[test]
fn adding_under_the_current_wallpaper_restarts_it() {
    let mut s = State::new();
    s.set_current(Some("/w/a.png".to_string()));
    let restart = s.add_nodes(&strings(&["/w/a.png"]), &Settings { mode: Some(contain()), recursive_level: None }, ParsedTimePeriod::NotSpecified);
    let w = restart.unwrap();
    assert_eq!(w.path, "/w/a.png");
    assert_eq!(w.mode, contain());
    let mut t = State::new();
    t.set_current(Some("/w/a.png".to_string()));
    assert!(t.add_nodes(&strings(&["/w"]), &Settings::new(), ParsedTimePeriod::NotSpecified).is_none());
}

#[test]
fn remove_forgets_paths_everywhere() {
    let mut s = State::new();
    s.new_group("g".to_string(), &strings(&["/a", "/b"]));
    s.set_current(Some("/a".to_string()));
    let stop = s.remove_nodes(&strings(&["/a", "/zzz"]));
    assert!(stop);
    assert_eq!(s.current_wallpaper_path, None);
    assert_eq!(paths_of(&s), strings(&["/b"]));
    assert_eq!(s.groups[0].nodes, strings(&["/b"]));
    assert!(!s.remove_nodes(&strings(&["/b"])));
    assert!(s.nodes.is_empty());
    assert!(s.groups[0].nodes.is_empty());
}

#[test]
fn clear_empties_everything() {
    let mut s = State::new();
    s.new_group("g".to_string(), &strings(&["/a"]));
    s.set_current(Some("/a".to_string()));
    s.clear_nodes();
    assert!(s.nodes.is_empty() && s.groups.is_empty() && s.current_wallpaper_path.is_none());
}

#[test]
fn groups_collect_paths_once() {
    let mut s = State::new();
    s.new_group("g".to_string(), &strings(&["/a", "/b", "/a"]));
    s.add_to_group("g".to_string(), &strings(&["/b", "/c"]));
    s.new_group("h".to_string(), &Vec::new());
    assert_eq!(s.groups[0].nodes, strings(&["/a", "/b", "/c"]));
    assert_eq!(paths_of(&s), strings(&["/a", "/b", "/c"]));
    assert_eq!(s.get_group_list(false), "Groups: ['g', 'h']");
    assert_eq!(s.get_group_list(true), "Группы: ['g', 'h']");
    let info = s.get_group_info("g", false).ok().unwrap();
    assert_eq!(info.nodes, strings(&["/a", "/b", "/c"]));
    assert_eq!(
        s.get_group_info("nope", false).err().unwrap().message(),
        "Group 'nope' not found"
    );
    assert_eq!(
        s.get_group_info("nope", true).err().unwrap().message(),
        "Группа 'nope' не найдена"
    );
}

#[test]
fn group_edits() {
    let mut s = State::new();
    s.new_group("g".to_string(), &strings(&["/a", "/b", "/c"]));
    s.remove_from_group("g", &strings(&["/b", "/x"]), false).ok().unwrap();
    assert_eq!(s.groups[0].nodes, strings(&["/a", "/c"]));
    assert_eq!(paths_of(&s), strings(&["/a", "/b", "/c"]));
    assert!(s.remove_from_group("x", &strings(&["/a"]), false).is_err());
    s.clear_group("g", false).ok().unwrap();
    assert!(s.groups[0].nodes.is_empty());
    assert!(s.clear_group("x", false).is_err());
    s.remove_group("g");
    assert!(s.groups.is_empty());
    s.remove_group("g");
    assert!(s.group_names.is_empty());
}

#[test]
fn closest_node_is_the_longest_prefix() {
    let mut s = State::new();
    s.add_nodes(&strings(&["/w", "/w/sub", "/x"]), &Settings::new(), ParsedTimePeriod::NotSpecified);
    assert_eq!(s.find_closest_node("/w/sub/a.png"), Some(1));
    assert_eq!(s.find_closest_node("/w/a.png"), Some(0));
    assert_eq!(s.find_closest_node("/y"), None);
}

#[test]
fn timeout_until_next_period() {
    let mut s = State::new();
    s.update_node("/a", &Settings::new(), ParsedTimePeriod::Period(TimePeriod::new(5_000, 9_000)));
    s.update_node("/b", &Settings::new(), ParsedTimePeriod::Period(TimePeriod::new(3_000, 4_000)));
    s.update_node("/c", &Settings::new(), ParsedTimePeriod::Period(TimePeriod::new(1_000, 2_000)));
    assert_eq!(s.get_timeout(2_000), Some(1_000));
    assert_eq!(s.get_timeout(3_000), Some(2_000));
    assert_eq!(s.get_timeout(5_000), None);
    s.update_node("/d", &Settings::new(), ParsedTimePeriod::Period(TimePeriod::new(i64::MAX - 1, i64::MAX)));
    assert_eq!(s.get_timeout(5_000), Some(i32::MAX));
}

#[test]
fn expired_periods_are_cleared() {
    let mut s = State::new();
    s.update_node("/a", &Settings::new(), ParsedTimePeriod::Period(TimePeriod::new(0, 10)));
    s.update_node("/b", &Settings::new(), ParsedTimePeriod::Period(TimePeriod::new(0, 100)));
    s.new_group("g".to_string(), &strings(&["/a"]));
    s.groups[0].period = Some(TimePeriod::new(0, 10));
    s.clear_expired_peroids(10);
    assert_eq!(s.nodes[0].period, None);
    assert_eq!(s.nodes[1].period, Some(TimePeriod::new(0, 100)));
    assert_eq!(s.groups[0].period, None);
}

#[test]
fn actual_nodes_prefer_current_periods() {
    let mut s = State::new();
    s.update_node("/a", &Settings::new(), ParsedTimePeriod::NotSpecified);
    s.update_node("/b", &Settings::new(), ParsedTimePeriod::Period(TimePeriod::new(0, 100)));
    s.new_group("g".to_string(), &strings(&["/c", "/b"]));
    s.groups[0].period = Some(TimePeriod::new(50, 60));
    let at = |t: i64| -> Vec<String> { s.find_actual_nodes(t).iter().map(|n| n.path.clone()).collect() };
    assert_eq!(at(10), strings(&["/b"]));
    assert_eq!(at(55), strings(&["/b", "/c"]));
    assert_eq!(at(200), strings(&["/a", "/b", "/c"]));
    assert_eq!(s.set_random_wallpaper(55).len(), 2);
}

#[test]
fn update_node_applies_period_options() {
    let mut s = State::new();
    let p = TimePeriod::new(1, 2);
    s.update_node("/a", &Settings::new(), ParsedTimePeriod::Period(p));
    assert_eq!(s.nodes[0].period, Some(p));
    s.update_node("/a", &Settings::new(), ParsedTimePeriod::NotSpecified);
    assert_eq!(s.nodes[0].period, Some(p));
    s.update_node("/a", &Settings::new(), ParsedTimePeriod::Reset);
    assert_eq!(s.nodes[0].period, None);
    assert_eq!(s.period_of("/a"), None);
    assert_eq!(s.period_of("/zz"), None);
}

#[test]
fn configuration_roundtrip() {
    let mut s = State::new();
    s.add_nodes(&strings(&["/a", "/b"]), &Settings { mode: Some(contain()), recursive_level: Some(2) }, ParsedTimePeriod::NotSpecified);
    s.new_group("g".to_string(), &strings(&["/b"]));
    s.set_current(Some("/a".to_string()));
    let back = State::from_dto(s.as_dto());
    assert_eq!(back.current_wallpaper_path, s.current_wallpaper_path);
    assert_eq!(paths_of(&back), paths_of(&s));
    assert_eq!(back.nodes[1].mode, contain());
    assert_eq!(back.group_names, s.group_names);
    assert_eq!(back.groups[0].nodes, s.groups[0].nodes);
}

#[test]
fn configuration_read_is_cleaned() {
    let mut dto = State::new().as_dto();
    dto.nodes.push(WallpaperNode::new("/a".to_string(), DisplayMode::new(), 1, None));
    dto.nodes.push(WallpaperNode::new("/a".to_string(), contain(), 5, None));
    dto.group_names.push("g".to_string());
    dto.groups.push(WallpaperGroup { nodes: strings(&["/a", "/missing", "/a"]), period: None });
    let s = State::from_dto(dto);
    assert_eq!(s.nodes.len(), 1);
    assert_eq!(s.nodes[0].recursive_level, 5);
    assert_eq!(s.groups[0].nodes, strings(&["/a"]));
}

#[test]
fn group_methods() {
    let mut g = WallpaperGroup::new();
    g.add("/a".to_string());
    g.add("/a".to_string());
    g.add_all(&strings(&["/b", "/a", "/c"]));
    assert_eq!(g.nodes(), &strings(&["/a", "/b", "/c"]));
    g.remove("/b");
    assert_eq!(g.as_dto().nodes, strings(&["/a", "/c"]));
    g.clear();
    assert!(g.nodes().is_empty());
}
