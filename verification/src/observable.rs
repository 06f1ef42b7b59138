//! What a guest asks to watch.

use vstd::prelude::*;
use vstd::string::*;
use crate::text::{debug_quoted, debug_text};

verus! {

/// An observable as specifications see it: the resource descriptor and the
/// key, as text.
pub type ObservableView = (Seq<char>, Seq<char>);

/// A description of what changed that the caller wants to watch: a resource
/// descriptor and a key within it. It borrows both for the length of one
/// registration call; whoever keeps the registration copies them.
#[derive(Clone, Copy)]
pub struct Observable<'a> {
    pub rd: &'a str,
    pub key: &'a str,
}

impl<'a> View for Observable<'a> {
    type V = ObservableView;

    open spec fn view(&self) -> ObservableView {
        (self.rd@, self.key@)
    }
}

impl<'a> Observable<'a> {
    /// The debug form of an observable whose two fields have the quoted
    /// forms `rd` and `key`.
    pub open spec fn debug_form(rd: Seq<char>, key: Seq<char>) -> Seq<char> {
        "Observable { rd: "@ + rd + ", key: "@ + key + " }"@
    }

    /// Writes the struct's name and field names around the quoted forms of
    /// the two fields.
    pub fn debug_frame(rd: &str, key: &str) -> (text: String)
        ensures
            text@ == Self::debug_form(rd@, key@),
    {
        let mut text = String::from_str("Observable { rd: ");
        text.append(rd);
        text.append(", key: ");
        text.append(key);
        text.append(" }");
        text
    }

    /// The observable written for a developer: the struct's name and both
    /// fields, each quoted.
    pub fn debug_string(&self) -> (text: String)
        ensures
            text@ == Self::debug_form(debug_text(self.rd@), debug_text(self.key@)),
    {
        let rd = debug_quoted(self.rd);
        let key = debug_quoted(self.key);
        Self::debug_frame(rd.as_str(), key.as_str())
    }
}

} // verus!
