use vstd::prelude::*;
use vstd::string::StringExecFns;

verus! {

/// The free-text content of a diary entry. May be empty, never absent.
#[derive(Debug)]
pub struct Event {
    pub instruct: String,
}

impl Event {
    /// Builds an event from its text.
    pub fn new(instruct: &str) -> (e: Event)
        ensures
            e.instruct@ == instruct@,
    {
        Event { instruct: String::from_str(instruct) }
    }

    /// A copy of this event.
    pub fn duplicate(&self) -> (e: Event)
        ensures
            e.instruct@ == self.instruct@,
    {
        Event { instruct: self.instruct.clone() }
    }
}

impl Default for Event {
    /// The empty entry text.
    fn default() -> (e: Event)
        ensures
            e.instruct@ == Seq::<char>::empty(),
    {
        Event { instruct: String::new() }
    }
}

} // verus!
