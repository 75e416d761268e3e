//! Plain carriers for what the HTTP layer hands over with a redirect
//! request: the request headers and the client's socket address. The
//! extraction from the live request happens outside this crate.

use vstd::prelude::*;

verus! {

/// The headers of an incoming request, as name and value pairs in
/// arrival order; names are expected not to repeat.
pub struct RequestHeaders {
    pub headers: Vec<(String, String)>,
}

/// The client's socket address, already rendered as text.
pub struct RequestSocketAddr {
    pub socket_addr: String,
}

} // verus!
