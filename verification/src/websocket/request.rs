//! What a request to the service asks for.

use vstd::prelude::*;

verus! {

/// The method of a request.
#[derive(Clone, Copy, Debug, PartialEq, Eq, Structural)]
pub enum Method {
    Get,
    Put,
    Delete,
}

/// The method of a request and its path.
#[derive(Clone, Debug, PartialEq, Eq)]
pub struct Request {
    pub method: Method,
    pub path: String,
}

/// The method of a request and its path.
#[verifier::ext_equal]
pub struct RequestView {
    pub method: Method,
    pub path: Seq<char>,
}

impl View for Request {
    type V = RequestView;

    open spec fn view(&self) -> RequestView {
        RequestView { method: self.method, path: self.path@ }
    }
}

/// The request with this method and this path.
pub open spec fn asks(method: Method, path: Seq<char>) -> RequestView {
    RequestView { method, path }
}

/// The status that says that there is nothing at a path.
pub const NOT_FOUND: u16 = 404;

} // verus!
