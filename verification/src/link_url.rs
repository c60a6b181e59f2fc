//! URLs, with the parts that links are told by.

use crate::base64url::is_symbol;
use crate::text::{opt_str, opt_text};
use vstd::prelude::*;

verus! {

/// The parts of a URL.
#[verifier::ext_equal]
pub struct UrlView {
    pub serialization: Seq<char>,
    pub scheme: Seq<char>,
    pub host: Option<Seq<char>>,
    pub fragment: Option<Seq<char>>,
}

/// A parsed URL.
#[derive(Clone, Debug, PartialEq, Eq)]
pub struct Url {
    serialization: String,
    scheme: String,
    host: Option<String>,
    fragment: Option<String>,
}

impl View for Url {
    type V = UrlView;

    closed spec fn view(&self) -> UrlView {
        UrlView {
            serialization: self.serialization@,
            scheme: self.scheme@,
            host: opt_text(self.host),
            fragment: opt_text(self.fragment),
        }
    }
}

/// The parts of the URL that the `url` crate parses a text to, if it does.
pub uninterp spec fn url_parts(text: Seq<char>) -> Option<UrlView>;

/// Whether a fragment holds base64 symbols and slashes only.
pub open spec fn is_plain_fragment(fragment: Seq<char>) -> bool {
    forall|i: int|
        0 <= i < fragment.len() ==> is_symbol(#[trigger] fragment[i]) || fragment[i] == '/'
}

/// The parts of `https://signal.me/#` with a fragment behind it.
pub open spec fn signal_me(fragment: Seq<char>) -> UrlView {
    UrlView {
        serialization: "https://signal.me/#"@ + fragment,
        scheme: "https"@,
        host: Some("signal.me"@),
        fragment: Some(fragment),
    }
}

/// The parts of a URL, taken as its text, scheme, host and fragment.
pub open spec fn parts_view(
    parts: Option<(String, String, Option<String>, Option<String>)>,
) -> Option<UrlView> {
    match parts {
        Some((serialization, scheme, host, fragment)) => Some(
            UrlView {
                serialization: serialization@,
                scheme: scheme@,
                host: opt_text(host),
                fragment: opt_text(fragment),
            },
        ),
        None => None,
    }
}

/// `url::Url::parse`, and `as_str`, `scheme`, `host_str` and `fragment` of what it
/// returns: whether a text is a URL, and with which parts, depends on the text
/// alone. Of `https://signal.me/#` and a fragment of base64 symbols and slashes,
/// nothing is changed.
#[verifier::external_body]
fn url_parse(text: &str) -> (parts: Option<(String, String, Option<String>, Option<String>)>)
    ensures
        parts_view(parts) == url_parts(text@),
        forall|fragment: Seq<char>|
            is_plain_fragment(fragment) && text@ == #[trigger] signal_me(fragment).serialization
                ==> parts_view(parts) == Some(signal_me(fragment)),
{
    let url = url::Url::parse(text).ok()?;
    let host = url.host_str().map(|host| host.to_owned());
    let fragment = url.fragment().map(|fragment| fragment.to_owned());
    Some((url.as_str().to_owned(), url.scheme().to_owned(), host, fragment))
}

impl Url {
    /// Parses an absolute URL.
    pub fn parse(text: &str) -> (url: Option<Url>)
        ensures
            match url {
                Some(url) => url_parts(text@) == Some(url@),
                None => url_parts(text@) is None,
            },
            forall|fragment: Seq<char>|
                is_plain_fragment(fragment) && text@ == #[trigger] signal_me(fragment).serialization
                    ==> (url matches Some(url) && url@ == signal_me(fragment)),
    {
        match url_parse(text) {
            Some((serialization, scheme, host, fragment)) => Some(
                Url { serialization, scheme, host, fragment },
            ),
            None => None,
        }
    }

    /// The URL as text.
    pub fn as_str(&self) -> (text: &str)
        ensures
            text@ == self@.serialization,
    {
        self.serialization.as_str()
    }

    pub fn scheme(&self) -> (scheme: &str)
        ensures
            scheme@ == self@.scheme,
    {
        self.scheme.as_str()
    }

    pub fn host_str(&self) -> (host: Option<&str>)
        ensures
            opt_str(host) == self@.host,
    {
        match &self.host {
            Some(host) => Some(host.as_str()),
            None => None,
        }
    }

    pub fn fragment(&self) -> (fragment: Option<&str>)
        ensures
            opt_str(fragment) == self@.fragment,
    {
        match &self.fragment {
            Some(fragment) => Some(fragment.as_str()),
            None => None,
        }
    }
}

} // verus!
