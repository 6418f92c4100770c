//! What an action answers: a success with a message and a warning, or an
//! error with a message.

use vstd::prelude::*;
use vstd::string::*;

use crate::text::append_str;
use crate::warning::Warning;

verus! {

/// `en` or `ru`, depending on the user's language.
pub open spec fn localized(is_ru: bool, en: Seq<char>, ru: Seq<char>) -> Seq<char> {
    if is_ru {
        ru
    } else {
        en
    }
}

/// A failed action, with the message shown to the user.
#[derive(Debug)]
pub struct ActionPerformError {
    pub message: String,
}

/// An error as it reaches the code that reports it: either an action error
/// already, or any other error given by its rendered text.
pub enum BoxedError {
    ActionPerform(ActionPerformError),
    Other(String),
}

impl ActionPerformError {
    /// An error with `message`.
    pub fn new(message: String) -> (e: Self)
        ensures
            e.message@ == message@,
    {
        ActionPerformError { message }
    }

    /// Turns any error into an action error: an action error is kept as it is,
    /// any other error becomes one that holds its text.
    pub fn from_boxed(error: BoxedError) -> (e: Self)
        ensures
            e.message@ == (match error {
                BoxedError::ActionPerform(inner) => inner.message@,
                BoxedError::Other(text) => text@,
            }),
    {
        match error {
            BoxedError::ActionPerform(inner) => inner,
            BoxedError::Other(text) => ActionPerformError::new(text),
        }
    }

    /// The error's message.
    pub fn message(&self) -> (m: &String)
        ensures
            m@ == self.message@,
    {
        &self.message
    }

    /// The text shown to the user.
    pub fn to_display_string(&self) -> (s: String)
        ensures
            s@ == self.message@,
    {
        self.message.clone()
    }
}

/// A successful action: its message and the warnings it collected.
#[derive(Debug)]
pub struct ActionSuccess {
    pub message: String,
    pub warning: Warning,
}

/// The result of an action.
pub type ActionResult = Result<ActionSuccess, ActionPerformError>;

/// A line break when `s` is not empty and does not end with one.
pub open spec fn ln_if_needed(s: Seq<char>) -> Seq<char> {
    if s.len() > 0 && s.last() != '\n' {
        "\n"@
    } else {
        Seq::empty()
    }
}

/// `"\n"` when `s` is not empty and does not end with a line break, else `""`.
pub fn get_ln_if_needed(s: &str) -> (r: &'static str)
    ensures
        r@ == ln_if_needed(s@),
{
    let cs = crate::text::chars_of(s);
    if cs.len() > 0 && cs[cs.len() - 1] != '\n' {
        proof {
            reveal_strlit("\n");
        }
        "\n"
    } else {
        proof {
            reveal_strlit("");
        }
        ""
    }
}

/// How a success is shown: the message and the warning, each ended by a
/// line break when it is not empty.
pub open spec fn success_display(message: Seq<char>, warning: Seq<char>) -> Seq<char> {
    message + ln_if_needed(message) + warning + ln_if_needed(warning)
}

impl ActionSuccess {
    /// A success with no message and no warning.
    pub fn new() -> (s: Self)
        ensures
            s.message@ == Seq::<char>::empty(),
            s.warning.message@ == Seq::<char>::empty(),
    {
        ActionSuccess { message: String::new(), warning: Warning::new() }
    }

    /// A success with `message` and no warning.
    pub fn with_message(message: String) -> (s: Self)
        ensures
            s.message@ == message@,
            s.warning.message@ == Seq::<char>::empty(),
    {
        ActionSuccess { message, warning: Warning::new() }
    }

    /// A success with `warning` and no message.
    pub fn with_warning(warning: Warning) -> (s: Self)
        ensures
            s.message@ == Seq::<char>::empty(),
            s.warning.message@ == warning.message@,
    {
        ActionSuccess { message: String::new(), warning }
    }

    /// The text shown to the user.
    pub fn to_display_string(&self) -> (s: String)
        ensures
            s@ == success_display(self.message@, self.warning.message@),
    {
        let mut s = self.message.clone();
        append_str(&mut s, get_ln_if_needed(self.message.as_str()));
        append_str(&mut s, self.warning.message());
        append_str(&mut s, get_ln_if_needed(self.warning.message()));
        s
    }
}

/// The error of an empty package on the socket.
pub struct EmptyPackageError;

impl EmptyPackageError {
    /// The text shown to the user.
    pub fn to_display_string(&self) -> (s: String)
        ensures
            s@ == "Recieved package with zero size"@,
    {
        String::from_str("Recieved package with zero size")
    }
}

} // verus!
