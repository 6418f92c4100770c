use ywpm::display_mode::{AlignX, AlignY, DisplayMode, FitMode};
use ywpm::node::{Settings, TimePeriod, Wallpaper, WallpaperNode};
use ywpm::state::State;
use ywpm::time_period::ParsedTimePeriod;
use ywpm::wallpaper::{
    ext_matches, group_set_message, pick_random_wallpaper, reset, restore, scheduled_group_message,
    scheduled_wallpaper_message, wallpaper_set_message, PathScan, ShowPlan, WalkEntry,
};
use ywpm::warning::Warning;

fn strings(v: &[&str]) -> Vec<String> {
    v.iter().map(|s| s.to_string()).collect()
}

fn right() -> DisplayMode {
    DisplayMode::new_with_fields(FitMode::Cover, AlignX::Right, AlignY::Center)
}

#[test]
fn wallpaper_extensions() {
    assert!(ext_matches("/a/b.png"));
    assert!(ext_matches("x.tar.webm"));
    assert!(ext_matches("/a/..jpg"));
    assert!(!ext_matches("/a/.jpg"));
    assert!(!ext_matches("/a/b.PNG"));
    assert!(!ext_matches("/a.png/b"));
    assert!(!ext_matches("/a/png"));
    assert!(!ext_matches("/a/b.txt"));
    assert!(!ext_matches(".."));
}

#[test]
fn child_wallpapers_from_scans() {
    let mut s = State::new();
    s.add_nodes(&strings(&["/w"]), &Settings::new(), ParsedTimePeriod::NotSpecified);
    s.add_nodes(&strings(&["/w/sub"]), &Settings { mode: Some(right()), recursive_level: None }, ParsedTimePeriod::NotSpecified);
    let nodes = vec![
        s.nodes[0].duplicate(),
        WallpaperNode::new("/single.jpg".to_string(), right(), 1, None),
        WallpaperNode::new("/gone".to_string(), DisplayMode::new(), 1, None),
    ];
    let scans = vec![
        PathScan::Dir(vec![
            WalkEntry::NotFile,
            WalkEntry::File { path: "/w/a.png".to_string(), accessible: Ok(()) },
            WalkEntry::File { path: "/w/notes.txt".to_string(), accessible: Ok(()) },
            WalkEntry::File { path: "/w/sub/b.mp4".to_string(), accessible: Ok(()) },
            WalkEntry::File { path: "/w/locked.gif".to_string(), accessible: Err("denied".to_string()) },
            WalkEntry::IoError("loop".to_string()),
            WalkEntry::WalkError("deep".to_string()),
            WalkEntry::File { path: "/w/a.png".to_string(), accessible: Ok(()) },
        ]),
        PathScan::File { accessible: Ok(()) },
        PathScan::MetadataError("no such file".to_string()),
    ];
    let (ws, warning) = s.find_all_child_wallpapers(&nodes, &scans);
    let got: Vec<(String, DisplayMode)> = ws.iter().map(|w| (w.path.clone(), w.mode)).collect();
    assert_eq!(
        got,
        vec![
            ("/w/a.png".to_string(), DisplayMode::new()),
            ("/w/sub/b.mp4".to_string(), right()),
            ("/single.jpg".to_string(), right()),
        ]
    );
    assert_eq!(
        warning.message(),
        "Warning: couldn't open file: denied: '/w/locked.gif'\n\
         Warning: I/O error: loop: '/w'\n\
         Warning: Walkdir error: deep\n\
         Warning: couldn't get file metadata: no such file: '/gone'\n"
    );
}

#[test]
fn random_pick_stays_in_range() {
    let ws = vec![
        Wallpaper::new("/a".to_string(), DisplayMode::new()),
        Wallpaper::new("/b".to_string(), DisplayMode::new()),
        Wallpaper::new("/c".to_string(), DisplayMode::new()),
    ];
    for _ in 0..50 {
        let i = pick_random_wallpaper(&ws, false).ok().unwrap();
        assert!(i < 3);
    }
    let one = vec![Wallpaper::new("/a".to_string(), DisplayMode::new())];
    assert_eq!(pick_random_wallpaper(&one, false).ok(), Some(0));
    assert_eq!(
        pick_random_wallpaper(&Vec::new(), false).err().unwrap().message(),
        "Can't set random wallpaper because there are no valid paths"
    );
}

#[test]
fn answers_of_setting() {
    let w = Warning::from_message("Warning: x: 'y'\n".to_string());
    assert_eq!(wallpaper_set_message(&w, "/a.png", false), "Warning: x: 'y'\nWallpaper set: '/a.png'");
    assert_eq!(group_set_message(&Warning::new(), "/a.png", true), "Установлена группа: '/a.png'");
    assert_eq!(
        scheduled_wallpaper_message("P", "/a.png", false),
        "The wallpaper is scheduled for the P: '/a.png'"
    );
    assert_eq!(
        scheduled_group_message("g", "P", false),
        "The 'g' wallpaper group is scheduled for the P"
    );
}

#[test]
fn set_wallpaper_now_or_later() {
    let mut s = State::new();
    match s.set_wallpaper("/a.png", &Settings::new(), ParsedTimePeriod::NotSpecified, 0) {
        ShowPlan::Show(v) => assert_eq!(v[0].path, "/a.png"),
        _ => panic!("expected to show"),
    }
    let later = TimePeriod::new(100, 200);
    match s.set_wallpaper("/a.png", &Settings::new(), ParsedTimePeriod::Period(later), 0) {
        ShowPlan::Scheduled(p) => assert_eq!(p, later),
        _ => panic!("expected to wait"),
    }
    assert_eq!(s.nodes[0].period, Some(later));
}

#[test]
fn set_group_now_or_later() {
    let mut s = State::new();
    s.new_group("g".to_string(), &strings(&["/a", "/b"]));
    let settings = Settings { mode: Some(right()), recursive_level: None };
    match s.set_group("g", &settings, ParsedTimePeriod::NotSpecified, 0, false).ok().unwrap() {
        ShowPlan::Show(v) => assert_eq!(v.len(), 2),
        _ => panic!("expected to show"),
    }
    assert_eq!(s.nodes[0].mode, right());
    let later = TimePeriod::new(10, 20);
    match s.set_group("g", &Settings::new(), ParsedTimePeriod::Period(later), 0, false).ok().unwrap() {
        ShowPlan::Scheduled(p) => assert_eq!(p, later),
        _ => panic!("expected to wait"),
    }
    assert_eq!(
        s.set_group("x", &Settings::new(), ParsedTimePeriod::Reset, 0, false).err().unwrap().message(),
        "Group 'x' not found"
    );
}

#[test]
fn restore_uses_closest_settings() {
    let mut s = State::new();
    assert!(s.restore_wallpaper().is_none());
    s.add_nodes(&strings(&["/w"]), &Settings { mode: Some(right()), recursive_level: Some(4) }, ParsedTimePeriod::NotSpecified);
    s.set_current(Some("/w/a.png".to_string()));
    let n = s.restore_wallpaper().unwrap();
    assert_eq!(n.path, "/w/a.png");
    assert_eq!(n.mode, right());
    assert_eq!(s.nodes.len(), 1);
    s.set_current(Some("/other.png".to_string()));
    let n = s.restore_wallpaper().unwrap();
    assert_eq!(n.mode, DisplayMode::new());
    assert_eq!(s.nodes.len(), 2);
}

#[test]
fn current_wallpaper() {
    let mut s = State::new();
    assert_eq!(s.get_current(false).err().unwrap().message(), "No wallpaper is set");
    assert_eq!(s.get_current(true).err().unwrap().message(), "Обои не установлены");
    s.set_current(Some("/a".to_string()));
    assert_eq!(s.get_current(false).ok(), Some("/a".to_string()));
    assert_eq!(s.get_current_wallpaper_path(), &Some("/a".to_string()));
}

#[test]
fn non_fitting_nodes_adds_given_paths() {
    let mut s = State::new();
    s.add_nodes(&strings(&["/a"]), &Settings::new(), ParsedTimePeriod::NotSpecified);
    assert_eq!(s.non_fitting_nodes(&Vec::new()).len(), 1);
    let v = s.non_fitting_nodes(&strings(&["/b"]));
    assert_eq!(v[0].path, "/b");
    assert_eq!(s.nodes.len(), 2);
}

#[test]
fn reset_forgets_the_current_wallpaper_only() {
    let mut s = State::new();
    s.add_nodes(&strings(&["/w"]), &Settings::new(), ParsedTimePeriod::NotSpecified);
    s.set_current(Some("/w/a.png".to_string()));
    reset(&mut s);
    assert_eq!(s.get_current_wallpaper_path(), &None);
    assert_eq!(s.nodes.len(), 1);
    assert_eq!(s.nodes[0].path, "/w");
    reset(&mut s);
    assert_eq!(s.get_current_wallpaper_path(), &None);
}

#[test]
fn restore_is_refused_while_a_wallpaper_is_shown() {
    let mut s = State::new();
    s.set_current(Some("/w/a.png".to_string()));
    assert_eq!(restore(&mut s, true, false).err().unwrap().message(), "Wallpaper already restored");
    assert_eq!(restore(&mut s, true, true).err().unwrap().message(), "Обои уже восстановлены");
    assert_eq!(s.nodes.len(), 0);
    let n = restore(&mut s, false, false).ok().unwrap().unwrap();
    assert_eq!(n.path, "/w/a.png");
    assert_eq!(n.mode, DisplayMode::new());
    let mut empty = State::new();
    assert!(restore(&mut empty, false, false).ok().unwrap().is_none());
}
