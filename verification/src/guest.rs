//! What runs at the two ends of a delivery: the guest's handler of events
//! and the host's plain `exec` service. Both compute the text that their
//! caller prints.

use vstd::prelude::*;
use vstd::string::*;
use crate::text::join3;

verus! {

/// The guest's handler of delivered events.
pub struct EventHandler {}

impl EventHandler {
    /// What the handler returns for the event labelled `event`.
    pub open spec fn handled(event: Seq<char>) -> Seq<char> {
        "this event "@ + event + " has been handled"@
    }

    /// Handles one delivered event: returns the text that says so, which
    /// is also what the guest prints.
    pub fn event_handler(event: String) -> (result: String)
        ensures
            result@ == Self::handled(event@),
    {
        join3("this event ", event.as_str(), " has been handled")
    }
}

/// A host service without state that does nothing but announce itself.
#[derive(Default)]
pub struct ExecHost {}

impl ExecHost {
    /// The line that the host prints when the guest calls it.
    pub fn exec(&mut self) -> (line: &'static str)
        ensures
            line@ == "executing in the host..."@,
    {
        "executing in the host..."
    }
}

} // verus!
