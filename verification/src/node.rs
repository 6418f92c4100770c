//! The entries of the wallpaper database: time periods, files and folders
//! with their settings, and the wallpapers found in them.

use vstd::prelude::*;

use crate::display_mode::{DisplayMode, default_mode};

verus! {

/// A span of time from `since` (included) to `until` (excluded), in
/// milliseconds since 1970-01-01 00:00 of the local wall clock.
#[derive(Clone, Copy, Debug, PartialEq, Eq, Hash, Structural)]
pub struct TimePeriod {
    pub since: i64,
    pub until: i64,
}

/// `dt` lies in `p`.
pub open spec fn in_bounds(p: TimePeriod, dt: int) -> bool {
    p.since <= dt < p.until
}

/// `p` has ended by `now`.
pub open spec fn expired(p: TimePeriod, now: int) -> bool {
    p.until <= now
}

/// No period is set, or the one that is set holds `now`.
pub open spec fn none_or_in_bounds(p: Option<TimePeriod>, now: int) -> bool {
    match p {
        None => true,
        Some(p) => in_bounds(p, now),
    }
}

/// A period is set and holds `dt`.
pub open spec fn some_and_in_bounds(p: Option<TimePeriod>, dt: int) -> bool {
    match p {
        None => false,
        Some(p) => in_bounds(p, dt),
    }
}

impl TimePeriod {
    /// The period from `since` to `until`.
    pub fn new(since: i64, until: i64) -> (p: Self)
        ensures
            p == (TimePeriod { since, until }),
    {
        TimePeriod { since, until }
    }

    /// Whether `dt` lies in the period.
    pub fn is_datetime_in_bounds(&self, dt: i64) -> (b: bool)
        ensures
            b == in_bounds(*self, dt as int),
    {
        self.since <= dt && dt < self.until
    }

    /// Whether the period has ended by `now`.
    pub fn is_expired(&self, now: i64) -> (b: bool)
        ensures
            b == expired(*self, now as int),
    {
        self.until <= now
    }

    /// Whether no period is set, or the one that is set holds `now`.
    pub fn is_none_or_now(period: &Option<TimePeriod>, now: i64) -> (b: bool)
        ensures
            b == none_or_in_bounds(*period, now as int),
    {
        match period {
            None => true,
            Some(p) => p.is_datetime_in_bounds(now),
        }
    }

    /// Whether a period is set and holds `dt`.
    pub fn is_some_and_datetime_in_bounds(period: &Option<TimePeriod>, dt: i64) -> (b: bool)
        ensures
            b == some_and_in_bounds(*period, dt as int),
    {
        match period {
            None => false,
            Some(p) => p.is_datetime_in_bounds(dt),
        }
    }
}

/// The recursion level of a folder when none is set.
pub open spec fn default_level() -> u16 {
    1
}

/// The recursion level of a folder when none is set: 1.
pub fn default_recursive_level() -> (l: u16)
    ensures
        l == default_level(),
{
    1
}

/// Whether `level` is the default recursion level.
pub fn is_default_recursive_level(level: &u16) -> (b: bool)
    ensures
        b == (*level == default_level()),
{
    *level == 1
}

/// A file or folder of the database with its settings.
pub struct WallpaperNode {
    pub path: String,
    pub mode: DisplayMode,
    pub recursive_level: u16,
    pub period: Option<TimePeriod>,
}

/// What a node holds, as plain values.
pub struct NodeView {
    pub path: Seq<char>,
    pub mode: DisplayMode,
    pub recursive_level: u16,
    pub period: Option<TimePeriod>,
}

impl View for WallpaperNode {
    type V = NodeView;

    open spec fn view(&self) -> NodeView {
        NodeView {
            path: self.path@,
            mode: self.mode,
            recursive_level: self.recursive_level,
            period: self.period,
        }
    }
}

/// A node at `path` with default settings and no period.
pub open spec fn fresh_node(path: Seq<char>) -> NodeView {
    NodeView { path, mode: default_mode(), recursive_level: default_level(), period: None }
}

impl WallpaperNode {
    /// A node with the given settings.
    pub fn new(path: String, mode: DisplayMode, recursive_level: u16, period: Option<TimePeriod>) -> (n: Self)
        ensures
            n@ == (NodeView { path: path@, mode, recursive_level, period }),
    {
        WallpaperNode { path, mode, recursive_level, period }
    }

    /// The node's path.
    pub fn path(&self) -> (p: &String)
        ensures
            p@ == self.path@,
    {
        &self.path
    }

    /// A node at `path` with this node's settings.
    pub fn with_path(&self, path: String) -> (n: Self)
        ensures
            n@ == (NodeView { path: path@, ..self@ }),
    {
        WallpaperNode {
            path,
            mode: self.mode,
            recursive_level: self.recursive_level,
            period: self.period,
        }
    }

    /// A copy of this node.
    pub fn duplicate(&self) -> (n: Self)
        ensures
            n@ == self@,
    {
        WallpaperNode {
            path: self.path.clone(),
            mode: self.mode,
            recursive_level: self.recursive_level,
            period: self.period,
        }
    }
}

/// The settings that an action sets on nodes; each one is optional.
#[derive(Clone, Copy, Debug, PartialEq, Eq, Structural)]
pub struct Settings {
    pub mode: Option<DisplayMode>,
    pub recursive_level: Option<u16>,
}

/// `n` with the settings of `s` that are set.
pub open spec fn apply_settings(s: Settings, n: NodeView) -> NodeView {
    NodeView {
        mode: match s.mode {
            Some(m) => m,
            None => n.mode,
        },
        recursive_level: match s.recursive_level {
            Some(l) => l,
            None => n.recursive_level,
        },
        ..n
    }
}

impl Settings {
    /// No setting set.
    pub fn new() -> (s: Self)
        ensures
            s == (Settings { mode: None, recursive_level: None }),
    {
        Settings { mode: None, recursive_level: None }
    }

    /// Whether some setting is set.
    pub fn is_some(&self) -> (b: bool)
        ensures
            b == (self.mode is Some || self.recursive_level is Some),
    {
        self.mode.is_some() || self.recursive_level.is_some()
    }

    /// Whether no setting is set.
    pub fn is_none(&self) -> (b: bool)
        ensures
            b == (self.mode is None && self.recursive_level is None),
    {
        !self.is_some()
    }

    /// Sets on `node` the settings that are set here.
    pub fn update_node(&self, node: &mut WallpaperNode)
        ensures
            final(node)@ == apply_settings(*self, old(node)@),
    {
        if let Some(mode) = self.mode {
            node.mode = mode;
        }
        if let Some(level) = self.recursive_level {
            node.recursive_level = level;
        }
    }
}

/// A wallpaper file and the mode it is shown in.
pub struct Wallpaper {
    pub path: String,
    pub mode: DisplayMode,
}

/// A wallpaper as plain values.
pub struct WallpaperView {
    pub path: Seq<char>,
    pub mode: DisplayMode,
}

impl View for Wallpaper {
    type V = WallpaperView;

    open spec fn view(&self) -> WallpaperView {
        WallpaperView { path: self.path@, mode: self.mode }
    }
}

impl Wallpaper {
    /// A wallpaper at `path` shown in `mode`.
    pub fn new(path: String, mode: DisplayMode) -> (w: Self)
        ensures
            w.path@ == path@,
            w.mode == mode,
    {
        Wallpaper { path, mode }
    }

    /// The wallpaper of a file node.
    pub fn from_node(node: &WallpaperNode) -> (w: Self)
        ensures
            w.path@ == node.path@,
            w.mode == node.mode,
    {
        Wallpaper { path: node.path.clone(), mode: node.mode }
    }

    /// The file's path.
    pub fn path(&self) -> (p: &String)
        ensures
            p@ == self.path@,
    {
        &self.path
    }

    /// The display mode.
    pub fn mode(&self) -> (m: &DisplayMode)
        ensures
            *m == self.mode,
    {
        &self.mode
    }
}

} // verus!
