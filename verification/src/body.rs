//! The router's HTTP body wrapper around the transport crate's body
//! type.  The streaming accessors live with the I/O shell; the library
//! holds the type and its plain constructors.

use vstd::prelude::*;

verus! {

/// Relies on `hyper::Body` being declared here so that it can stand in
/// the wrapper's field and signatures; the value is opaque.
#[verifier::external_type_specification]
#[verifier::external_body]
pub struct ExBody(hyper::Body);

/// Relies on `hyper::Body::empty`: a body with no data frames.
pub assume_specification[ hyper::Body::empty ]() -> hyper::Body;

/// The router's HTTP body.
pub struct RouterBody {
    pub body: hyper::Body,
}

impl RouterBody {
    /// An empty body.
    pub fn empty() -> Self {
        RouterBody { body: hyper::Body::empty() }
    }

    /// The wrapped transport body.
    pub fn into_inner(self) -> (r: hyper::Body)
        ensures
            r == self.body,
    {
        self.body
    }
}

} // verus!
