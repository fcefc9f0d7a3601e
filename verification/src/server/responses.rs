//! Answers that are no pages.

use vstd::prelude::*;
use vstd::string::*;

verus! {

/// The HTTP status that tells a client it may not do what it asked.
pub const FORBIDDEN: u16 = 403;

/// The HTTP status that tells a client that answering its request failed.
pub const INTERNAL_SERVER_ERROR: u16 = 500;

/// The HTTP status of a page that could be made.
pub const OK: u16 = 200;

/// The HTTP status that answers a request for a page: that of a failure
/// wherever making the page failed, whatever the failure.
pub fn convert_errors<T, E>(made: &Result<T, E>) -> (r: u16)
    ensures
        r == (if made is Ok {
            OK
        } else {
            INTERNAL_SERVER_ERROR
        }),
{
    match made {
        Ok(_) => OK,
        Err(_) => INTERNAL_SERVER_ERROR,
    }
}

/// The answer to a request to update a feed that is disabled.
#[derive(Debug, Clone)]
pub struct FeedCannotBeUpdated {
    pub name: String,
}

impl FeedCannotBeUpdated {
    /// The text of the answer.
    pub open spec fn spec_message(self) -> Seq<char> {
        "Updates for the feed `"@ + self.name@ + "` were disabled in the config"@
    }

    /// The HTTP status of the answer.
    pub fn status(&self) -> (r: u16)
        ensures
            r == FORBIDDEN,
    {
        FORBIDDEN
    }

    /// The text of the answer.
    pub fn message(&self) -> (r: String)
        ensures
            r@ == self.spec_message(),
    {
        let mut text = String::from_str("Updates for the feed `");
        text.append(self.name.as_str());
        text.append("` were disabled in the config");
        text
    }
}

} // verus!
