//! The decisions of the daemon's event loop and of the client's questions;
//! the waiting, the sockets and the terminal are the caller's.

use vstd::prelude::*;
use vstd::string::*;

use crate::action::{Action, ActionView};
use crate::clock::{lowercase, str_eq, to_lowercase};
use crate::outcome::localized;
use crate::text::{trim, trim_string};

verus! {

/// What waiting on the listener and on the signals gave.
#[derive(Clone, Copy, Debug, PartialEq, Eq, Structural)]
pub enum PollOutcome {
    /// The timeout passed with no event.
    TimedOut,
    /// Some descriptor is ready: the listener (a client waits), the signal
    /// descriptor (a shutdown signal came), or both.
    Ready { client: bool, signal: bool },
    /// The wait was interrupted.
    Interrupted,
    /// The wait failed.
    Failed,
}

/// What the loop does next.
#[derive(Clone, Copy, Debug, PartialEq, Eq, Structural)]
pub struct LoopStep {
    /// Show a new random wallpaper: a period may have begun.
    pub set_random: bool,
    /// Accept the waiting client and answer it.
    pub serve_client: bool,
    /// Clear the ended periods, write the database, stop the backend and
    /// leave the loop.
    pub shut_down: bool,
    /// Leave the loop with the wait's error.
    pub fail: bool,
}

/// The step that follows a wait's outcome: the client is served before a
/// shutdown signal is handled; an interrupted wait is simply waited again.
pub open spec fn loop_step_spec(o: PollOutcome) -> LoopStep {
    match o {
        PollOutcome::TimedOut => LoopStep { set_random: true, serve_client: false, shut_down: false, fail: false },
        PollOutcome::Ready { client, signal } => LoopStep {
            set_random: false,
            serve_client: client,
            shut_down: signal,
            fail: false,
        },
        PollOutcome::Interrupted => LoopStep {
            set_random: false,
            serve_client: false,
            shut_down: false,
            fail: false,
        },
        PollOutcome::Failed => LoopStep { set_random: false, serve_client: false, shut_down: false, fail: true },
    }
}

/// The step that follows a wait's outcome.
pub fn next_loop_step(o: PollOutcome) -> (s: LoopStep)
    ensures
        s == loop_step_spec(o),
{
    match o {
        PollOutcome::TimedOut => LoopStep { set_random: true, serve_client: false, shut_down: false, fail: false },
        PollOutcome::Ready { client, signal } => LoopStep {
            set_random: false,
            serve_client: client,
            shut_down: signal,
            fail: false,
        },
        PollOutcome::Interrupted => LoopStep {
            set_random: false,
            serve_client: false,
            shut_down: false,
            fail: false,
        },
        PollOutcome::Failed => LoopStep { set_random: false, serve_client: false, shut_down: false, fail: true },
    }
}

/// The question the client asks before an action that removes data, in
/// English and in Russian; `None` for the other actions.
pub open spec fn confirmation_spec(a: ActionView) -> Option<(Seq<char>, Seq<char>)> {
    match a {
        ActionView::RemoveNodes { .. } | ActionView::RemoveFromGroup { .. } => Some(
            (
                "Do you really want to remove wallpapers from database?"@,
                "Вы действительно хотите удалить обои из базы данных?"@,
            ),
        ),
        ActionView::RemoveGroup { .. } => Some(
            (
                "Do you really want to remove group from database?"@,
                "Вы действительно хотите удалить группу из базы данных?"@,
            ),
        ),
        ActionView::ClearNodes => Some(
            (
                "Do you really want to remove all data from database?"@,
                "Вы действительно хотите удалить все данные из базы данных?"@,
            ),
        ),
        ActionView::ClearGroup { .. } => Some(
            (
                "Do you really want to remove all group's data?"@,
                "Вы действительно хотите удалить все данные группы?"@,
            ),
        ),
        _ => None,
    }
}

/// The question to ask before the action, in the user's language; `None`
/// when the action needs no confirmation.
pub fn confirmation_question(a: &Action, is_ru: bool) -> (q: Option<String>)
    ensures
        match confirmation_spec(a@) {
            Some((en, ru)) => q matches Some(s) && s@ == localized(is_ru, en, ru),
            None => q is None,
        },
{
    let pair: Option<(&str, &str)> = match a {
        Action::RemoveNodes { .. } | Action::RemoveFromGroup { .. } => Some(
            (
                "Do you really want to remove wallpapers from database?",
                "Вы действительно хотите удалить обои из базы данных?",
            ),
        ),
        Action::RemoveGroup { .. } => Some(
            (
                "Do you really want to remove group from database?",
                "Вы действительно хотите удалить группу из базы данных?",
            ),
        ),
        Action::ClearNodes => Some(
            (
                "Do you really want to remove all data from database?",
                "Вы действительно хотите удалить все данные из базы данных?",
            ),
        ),
        Action::ClearGroup { .. } => Some(
            (
                "Do you really want to remove all group's data?",
                "Вы действительно хотите удалить все данные группы?",
            ),
        ),
        _ => None,
    };
    match pair {
        Some((en, ru)) => Some(
            if is_ru {
                String::from_str(ru)
            } else {
                String::from_str(en)
            },
        ),
        None => None,
    }
}

/// What an answer to a question means.
#[derive(Clone, Copy, Debug, PartialEq, Eq, Structural)]
pub enum Answer {
    Yes,
    No,
    /// Neither: the question is asked again.
    Unclear,
}

/// The meaning of a line typed in answer: `y` or `yes`, `n` or `no`, in any
/// case and with surrounding whitespace.
pub open spec fn answer_spec(line: Seq<char>) -> Answer {
    let t = lowercase(trim(line));
    if t == "y"@ || t == "yes"@ {
        Answer::Yes
    } else if t == "n"@ || t == "no"@ {
        Answer::No
    } else {
        Answer::Unclear
    }
}

/// The meaning of a line typed in answer.
pub fn read_answer(line: &str) -> (a: Answer)
    ensures
        a == answer_spec(line@),
{
    let trimmed = trim_string(line);
    let t = to_lowercase(trimmed.as_str());
    if str_eq(t.as_str(), "y") || str_eq(t.as_str(), "yes") {
        Answer::Yes
    } else if str_eq(t.as_str(), "n") || str_eq(t.as_str(), "no") {
        Answer::No
    } else {
        Answer::Unclear
    }
}

} // verus!
