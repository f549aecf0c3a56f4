//! The HTTP event collector input, as a configurable filter.

use vstd::prelude::*;
use crate::processor::ConfigurableFilter;

verus! {

/// An input that receives events posted in the HTTP event collector format.
pub struct SplunkServer {
    name: String,
}

impl SplunkServer {
    /// The name it was created with.
    pub closed spec fn name(&self) -> Seq<char> {
        self.name@
    }

    pub fn new(name: String) -> (r: SplunkServer)
        ensures
            r.name() == name@,
    {
        SplunkServer { name }
    }
}

impl ConfigurableFilter for SplunkServer {
    fn human_name(&self) -> &str {
        self.name.as_str()
    }

    fn mandatory_fields(&self) -> Vec<&str> {
        Vec::new()
    }
}

} // verus!
