//! Wallpaper manager core: the wire protocol between the client and the
//! daemon, command-line parsing, display modes, time periods and the
//! daemon's wallpaper database.

pub mod text;
pub mod warning;
pub mod outcome;
pub mod wire;
pub mod arg_error;
pub mod display_mode;
pub mod resolution;
pub mod node;
pub mod duration;
pub mod clock;
pub mod time_period;
pub mod action;
pub mod parse_action;
pub mod arg_parser;
pub mod state;
pub mod wallpaper;
pub mod non_fitting;
pub mod daemon;
pub mod backend;
