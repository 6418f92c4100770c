//! Warnings collected while an action runs; they are reported to the user
//! next to the action's result.

use vstd::prelude::*;

use crate::text::append_str;

verus! {

/// An accumulated warning text.
#[derive(Debug)]
pub struct Warning {
    pub message: String,
}

/// `"Warning: {message}: {err}: '{path}'\n"`.
pub open spec fn msg_error_path_line(message: Seq<char>, err: Seq<char>, path: Seq<char>) -> Seq<
    char,
> {
    "Warning: "@ + message + ": "@ + err + ": '"@ + path + "'\n"@
}

/// `"Warning: {message}: '{path}'\n"`.
pub open spec fn msg_path_line(message: Seq<char>, path: Seq<char>) -> Seq<char> {
    "Warning: "@ + message + ": '"@ + path + "'\n"@
}

/// `"Warning: {message}: {err}\n"`.
pub open spec fn msg_error_line(message: Seq<char>, err: Seq<char>) -> Seq<char> {
    "Warning: "@ + message + ": "@ + err + "\n"@
}

impl Warning {
    /// An empty warning.
    pub fn new() -> (w: Self)
        ensures
            w.message@ == Seq::<char>::empty(),
    {
        Warning { message: String::new() }
    }

    /// A warning holding `message`.
    pub fn from_message(message: String) -> (w: Self)
        ensures
            w.message@ == message@,
    {
        Warning { message }
    }

    /// The text collected so far.
    pub fn message(&self) -> (m: &str)
        ensures
            m@ == self.message@,
    {
        self.message.as_str()
    }

    /// Appends `message` as it is.
    pub fn append(&mut self, message: &str)
        ensures
            final(self).message@ == old(self).message@ + message@,
    {
        append_str(&mut self.message, message);
    }

    /// Appends `message` and a line break.
    pub fn append_ln(&mut self, message: &str)
        ensures
            final(self).message@ == old(self).message@ + message@ + "\n"@,
    {
        append_str(&mut self.message, message);
        append_str(&mut self.message, "\n");
    }

    /// Appends a line naming a message, an error and a path.
    pub fn append_msg_error_path(&mut self, message: &str, err: &str, path: &str)
        ensures
            final(self).message@ == old(self).message@ + msg_error_path_line(
                message@,
                err@,
                path@,
            ),
    {
        let ghost m0 = self.message@;
        append_str(&mut self.message, "Warning: ");
        append_str(&mut self.message, message);
        append_str(&mut self.message, ": ");
        append_str(&mut self.message, err);
        append_str(&mut self.message, ": '");
        append_str(&mut self.message, path);
        append_str(&mut self.message, "'\n");
        assert(self.message@ == m0 + msg_error_path_line(message@, err@, path@));
    }

    /// Appends a line naming a message and a path.
    pub fn append_msg_path(&mut self, message: &str, path: &str)
        ensures
            final(self).message@ == old(self).message@ + msg_path_line(message@, path@),
    {
        let ghost m0 = self.message@;
        append_str(&mut self.message, "Warning: ");
        append_str(&mut self.message, message);
        append_str(&mut self.message, ": '");
        append_str(&mut self.message, path);
        append_str(&mut self.message, "'\n");
        assert(self.message@ == m0 + msg_path_line(message@, path@));
    }

    /// Appends a line naming a message and an error.
    pub fn append_msg_error(&mut self, message: &str, err: &str)
        ensures
            final(self).message@ == old(self).message@ + msg_error_line(message@, err@),
    {
        let ghost m0 = self.message@;
        append_str(&mut self.message, "Warning: ");
        append_str(&mut self.message, message);
        append_str(&mut self.message, ": ");
        append_str(&mut self.message, err);
        append_str(&mut self.message, "\n");
        assert(self.message@ == m0 + msg_error_line(message@, err@));
    }

    /// The text as it is shown to the user.
    pub fn to_display_string(&self) -> (s: String)
        ensures
            s@ == self.message@,
    {
        self.message.clone()
    }
}

impl From<String> for Warning {
    fn from(message: String) -> (w: Self) {
        Warning { message }
    }
}

impl vstd::std_specs::convert::FromSpecImpl<String> for Warning {
    open spec fn obeys_from_spec() -> bool {
        true
    }

    open spec fn from_spec(message: String) -> Self {
        Warning { message }
    }
}

} // verus!
