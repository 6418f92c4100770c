//! The actions a user can ask of the daemon.

use vstd::prelude::*;

use crate::node::Settings;
use crate::text::views;
use crate::time_period::ParsedTimePeriod;

verus! {

/// An action, with its arguments.
pub enum Action {
    Help,
    Version,
    GetCurrentWallpaper,
    SetWallpaper { path: String, settings: Settings, period: ParsedTimePeriod },
    SetRandowWallpaper,
    ResetWallpaper,
    RestoreWallpaper,
    GetNodeList,
    AddNodes { paths: Vec<String>, settings: Settings },
    RemoveNodes { paths: Vec<String> },
    ClearNodes,
    GetGroupList,
    GetGroup { name: String },
    NewGroup { name: String, paths: Vec<String> },
    SetGroup { name: String, settings: Settings, period: ParsedTimePeriod },
    AddToGroup { name: String, paths: Vec<String> },
    RemoveFromGroup { name: String, paths: Vec<String> },
    ClearGroup { name: String },
    RemoveGroup { name: String },
    FindNonFittingWallpapers { paths: Vec<String>, display_id: Option<u32>, is_verbose: bool },
}

/// An action with its arguments as plain values.
pub enum ActionView {
    Help,
    Version,
    GetCurrentWallpaper,
    SetWallpaper { path: Seq<char>, settings: Settings, period: ParsedTimePeriod },
    SetRandowWallpaper,
    ResetWallpaper,
    RestoreWallpaper,
    GetNodeList,
    AddNodes { paths: Seq<Seq<char>>, settings: Settings },
    RemoveNodes { paths: Seq<Seq<char>> },
    ClearNodes,
    GetGroupList,
    GetGroup { name: Seq<char> },
    NewGroup { name: Seq<char>, paths: Seq<Seq<char>> },
    SetGroup { name: Seq<char>, settings: Settings, period: ParsedTimePeriod },
    AddToGroup { name: Seq<char>, paths: Seq<Seq<char>> },
    RemoveFromGroup { name: Seq<char>, paths: Seq<Seq<char>> },
    ClearGroup { name: Seq<char> },
    RemoveGroup { name: Seq<char> },
    FindNonFittingWallpapers { paths: Seq<Seq<char>>, display_id: Option<u32>, is_verbose: bool },
}

impl View for Action {
    type V = ActionView;

    open spec fn view(&self) -> ActionView {
        match self {
            Action::Help => ActionView::Help,
            Action::Version => ActionView::Version,
            Action::GetCurrentWallpaper => ActionView::GetCurrentWallpaper,
            Action::SetWallpaper { path, settings, period } => ActionView::SetWallpaper {
                path: path@,
                settings: *settings,
                period: *period,
            },
            Action::SetRandowWallpaper => ActionView::SetRandowWallpaper,
            Action::ResetWallpaper => ActionView::ResetWallpaper,
            Action::RestoreWallpaper => ActionView::RestoreWallpaper,
            Action::GetNodeList => ActionView::GetNodeList,
            Action::AddNodes { paths, settings } => ActionView::AddNodes {
                paths: views(paths@),
                settings: *settings,
            },
            Action::RemoveNodes { paths } => ActionView::RemoveNodes { paths: views(paths@) },
            Action::ClearNodes => ActionView::ClearNodes,
            Action::GetGroupList => ActionView::GetGroupList,
            Action::GetGroup { name } => ActionView::GetGroup { name: name@ },
            Action::NewGroup { name, paths } => ActionView::NewGroup {
                name: name@,
                paths: views(paths@),
            },
            Action::SetGroup { name, settings, period } => ActionView::SetGroup {
                name: name@,
                settings: *settings,
                period: *period,
            },
            Action::AddToGroup { name, paths } => ActionView::AddToGroup {
                name: name@,
                paths: views(paths@),
            },
            Action::RemoveFromGroup { name, paths } => ActionView::RemoveFromGroup {
                name: name@,
                paths: views(paths@),
            },
            Action::ClearGroup { name } => ActionView::ClearGroup { name: name@ },
            Action::RemoveGroup { name } => ActionView::RemoveGroup { name: name@ },
            Action::FindNonFittingWallpapers {
                paths,
                display_id,
                is_verbose,
            } => ActionView::FindNonFittingWallpapers {
                paths: views(paths@),
                display_id: *display_id,
                is_verbose: *is_verbose,
            },
        }
    }
}

/// The actions after which the database is written back to disk: those that
/// change it.
pub open spec fn changes_database(a: ActionView) -> bool {
    match a {
        ActionView::SetWallpaper { .. } | ActionView::SetRandowWallpaper
        | ActionView::ResetWallpaper | ActionView::AddNodes {
            ..
        } | ActionView::RemoveNodes { .. } | ActionView::ClearNodes | ActionView::NewGroup {
            ..
        } | ActionView::SetGroup { .. } | ActionView::AddToGroup { .. }
        | ActionView::RemoveFromGroup { .. } | ActionView::ClearGroup { .. }
        | ActionView::RemoveGroup { .. } | ActionView::FindNonFittingWallpapers { .. } => true,
        _ => false,
    }
}

impl Action {
    /// Whether the database must be written back after the action.
    pub fn needs_config_update(&self) -> (b: bool)
        ensures
            b == changes_database(self@),
    {
        match self {
            Action::SetWallpaper { .. } | Action::SetRandowWallpaper | Action::ResetWallpaper
            | Action::AddNodes { .. }
            | Action::RemoveNodes { .. } | Action::ClearNodes | Action::NewGroup { .. }
            | Action::SetGroup { .. } | Action::AddToGroup { .. } | Action::RemoveFromGroup {
                ..
            } | Action::ClearGroup { .. } | Action::RemoveGroup { .. }
            | Action::FindNonFittingWallpapers { .. } => true,
            _ => false,
        }
    }
}

} // verus!
