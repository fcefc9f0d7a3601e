//! Absolute URLs.
//!
//! Parsing and reference resolution are done by the `url` crate, as re-exported by
//! `reqwest`. The library keeps a URL as the text that crate serializes it to, so
//! that contracts can speak of it as a sequence of characters.

use vstd::prelude::*;

verus! {

/// The serialization of the URL that `Url::parse` of the `url` crate reads from
/// `input`, or `None` where it reports a parse error.
pub uninterp spec fn url_parse(input: Seq<char>) -> Option<Seq<char>>;

/// The serialization of the URL that `Url::join` of the `url` crate gives for
/// `reference` on the URL that `base` parses to, or `None` where either step
/// reports a parse error.
pub uninterp spec fn url_join(base: Seq<char>, reference: Seq<char>) -> Option<Seq<char>>;

/// An absolute URL, held in its serialized form.
#[derive(Debug)]
pub struct Url {
    text: String,
}

impl View for Url {
    type V = Seq<char>;

    closed spec fn view(&self) -> Seq<char> {
        self.text@
    }
}

/// Calls `reqwest::Url::parse` (the `url` crate's `Url::parse`) and hands back the
/// serialization of the parsed URL. The contract gives that outcome its name, and
/// says that the serialization of a URL parses to itself again.
#[verifier::external_body]
fn parse_text(input: &str) -> (r: Option<String>)
    ensures
        r is Some <==> url_parse(input@) is Some,
        r matches Some(s) ==> url_parse(input@) == Some(s@),
        r matches Some(s) ==> url_parse(s@) == Some(s@),
{
    reqwest::Url::parse(input).ok().map(String::from)
}

/// Calls `Url::join` of the `url` crate on the URL parsed from `base` and hands back
/// the serialization of the result. The contract gives that outcome its name, and
/// says that the serialization of a URL parses to itself again.
#[verifier::external_body]
fn join_text(base: &str, reference: &str) -> (r: Option<String>)
    ensures
        r is Some <==> url_join(base@, reference@) is Some,
        r matches Some(s) ==> url_join(base@, reference@) == Some(s@),
        r matches Some(s) ==> url_parse(s@) == Some(s@),
{
    reqwest::Url::parse(base).ok()?.join(reference).ok().map(String::from)
}

/// Whether a text is the serialization of a URL: it parses to itself.
pub open spec fn reads_back(text: Seq<char>) -> bool {
    url_parse(text) == Some(text)
}

impl Url {
    #[verifier::type_invariant]
    spec fn serialized(self) -> bool {
        reads_back(self.text@)
    }

    /// Parses an absolute URL. Succeeds exactly where the `url` crate accepts
    /// `input`, and then holds the serialization that the crate gives.
    pub fn parse(input: &str) -> (r: Option<Url>)
        ensures
            r is Some <==> url_parse(input@) is Some,
            r matches Some(u) ==> url_parse(input@) == Some(u@),
            r matches Some(u) ==> reads_back(u@),
    {
        match parse_text(input) {
            Some(text) => Some(Url { text }),
            None => None,
        }
    }

    /// Resolves `reference` against this URL. Succeeds exactly where the `url`
    /// crate can resolve it, and then holds the serialization of the result.
    pub fn join(&self, reference: &str) -> (r: Option<Url>)
        ensures
            r is Some <==> url_join(self@, reference@) is Some,
            r matches Some(u) ==> url_join(self@, reference@) == Some(u@),
            r matches Some(u) ==> reads_back(u@),
    {
        match join_text(self.text.as_str(), reference) {
            Some(text) => Some(Url { text }),
            None => None,
        }
    }

    /// The serialized URL.
    pub fn as_str(&self) -> (r: &str)
        ensures
            r@ == self@,
            reads_back(r@),
    {
        proof {
            use_type_invariant(self);
        }
        self.text.as_str()
    }

    /// A copy of this URL.
    pub fn duplicate(&self) -> (r: Url)
        ensures
            r@ == self@,
    {
        proof {
            use_type_invariant(self);
        }
        Url { text: self.text.clone() }
    }
}

} // verus!
