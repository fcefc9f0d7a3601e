//! Names of the HTML templates that the server renders.

use vstd::prelude::*;

verus! {

/// A page template known to the server.
#[derive(Debug, Clone, Copy, PartialEq, Eq, Structural)]
pub enum Template {
    /// The index page that lists the configured feeds.
    Index,
}

impl Template {
    /// The name under which the template is registered with the renderer.
    pub open spec fn name(self) -> Seq<char> {
        match self {
            Template::Index => "index"@,
        }
    }

    /// Returns the registered name of the template.
    pub fn as_str(&self) -> (r: &'static str)
        ensures
            r@ == self.name(),
    {
        match self {
            Template::Index => "index",
        }
    }
}

} // verus!
