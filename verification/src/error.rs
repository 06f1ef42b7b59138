//! The two ways an operation of the bridge fails: an error with a message,
//! which is handed to the guest as a value, and a trap, which aborts the
//! guest's call.

use vstd::prelude::*;
use vstd::string::*;
use crate::text::{debug_quoted, debug_text, join3};

verus! {

/// The error that an operation reports to the guest in-band. There is one
/// kind only, and it carries a message for a human reader.
pub enum Error {
    ErrorWithDescription(String),
}

impl View for Error {
    type V = Seq<char>;

    /// The message.
    open spec fn view(&self) -> Seq<char> {
        match self {
            Error::ErrorWithDescription(description) => description@,
        }
    }
}

impl Clone for Error {
    fn clone(&self) -> (copy: Self)
        ensures
            copy == *self,
    {
        match self {
            Error::ErrorWithDescription(description) => Error::ErrorWithDescription(
                description.clone(),
            ),
        }
    }
}

impl Error {
    /// An error with the message `description`.
    pub fn new(description: &str) -> (error: Error)
        ensures
            error@ == description@,
    {
        Error::ErrorWithDescription(String::from_str(description))
    }

    /// The message.
    pub fn description(&self) -> (text: &str)
        ensures
            text@ == self@,
    {
        match self {
            Error::ErrorWithDescription(description) => description.as_str(),
        }
    }

    /// The debug form of an error whose message has the quoted form `quoted`.
    pub open spec fn debug_form(quoted: Seq<char>) -> Seq<char> {
        "Error::ErrorWithDescription("@ + quoted + ")"@
    }

    /// Wraps the quoted form of a message in the variant's name.
    pub fn debug_frame(quoted: &str) -> (text: String)
        ensures
            text@ == Self::debug_form(quoted@),
    {
        join3("Error::ErrorWithDescription(", quoted, ")")
    }

    /// The error written for a developer: the variant's name with the quoted
    /// message in parentheses.
    pub fn debug_string(&self) -> (text: String)
        ensures
            text@ == Self::debug_form(debug_text(self@)),
    {
        let quoted = debug_quoted(self.description());
        Self::debug_frame(quoted.as_str())
    }
}

/// A fault that aborts the guest's call instead of being returned to it.
#[derive(Clone, Copy, Debug, PartialEq, Eq, Structural)]
pub enum Trap {
    /// The handle was never issued or has been dropped.
    UnknownHandle,
    /// A pointer and a length reach outside the guest's memory.
    OutOfBounds,
    /// Bytes that were to be read as a string are not UTF-8.
    InvalidUtf8,
}

impl Trap {
    /// The text the trap is reported with.
    pub open spec fn text(self) -> Seq<char> {
        match self {
            Trap::UnknownHandle => "invalid handle index"@,
            Trap::OutOfBounds => "pointer out of bounds"@,
            Trap::InvalidUtf8 => "invalid utf-8"@,
        }
    }

    /// The text the trap is reported with.
    pub fn message(&self) -> (text: &'static str)
        ensures
            text@ == self.text(),
    {
        match self {
            Trap::UnknownHandle => "invalid handle index",
            Trap::OutOfBounds => "pointer out of bounds",
            Trap::InvalidUtf8 => "invalid utf-8",
        }
    }
}

} // verus!
