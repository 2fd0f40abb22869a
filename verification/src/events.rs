//! Events that carry no type of their own: a name and an optional payload.
use vstd::prelude::*;

verus! {

/// An ad-hoc event, named at run time.
#[derive(Debug, Clone)]
pub struct GenericEvent {
    pub name: String,
    pub payload: Option<String>,
}

impl GenericEvent {
    /// The name the event is dispatched under.
    pub fn event_name(&self) -> (r: &str)
        ensures
            r@ == self.name@,
    {
        self.name.as_str()
    }
}

} // verus!
