//! Plain request and response values as the router consumes and produces
//! them: a method, a path, a body and headers. The transport that parses
//! requests off the wire and writes responses back lives outside this crate.

use vstd::prelude::*;

verus! {

/// An HTTP request method.
#[derive(Clone, Copy, PartialEq, Eq, Structural, Debug)]
pub enum HttpMethod {
    Get,
    Post,
    Put,
    Delete,
    Head,
    Options,
    Patch,
}

/// An already-parsed HTTP request, as the transport hands it to the router.
pub struct Request {
    pub method: HttpMethod,
    /// The request path, as bytes (string comparison in matching is
    /// byte-for-byte, so bytes carry exactly what matching reads).
    pub path: Vec<u8>,
    pub headers: Vec<(Vec<u8>, Vec<u8>)>,
    pub body: Vec<u8>,
}

/// An HTTP response, as the router produces it for the transport.
pub struct Response {
    pub status: u16,
    pub headers: Vec<(Vec<u8>, Vec<u8>)>,
    pub body: Vec<u8>,
}

/// The bytes of the fixed not-found body.
pub open spec fn not_found_body() -> Seq<u8> {
    "Not Found"@.map_values(|c: char| c as u8)
}

/// The fixed response returned when no route matches: status 404 with a
/// non-empty plain-text body.
pub fn not_found_response() -> (r: Response)
    ensures
        r.status == 404,
        r.body@ == not_found_body(),
        r.body@.len() > 0,
        r.headers@.len() == 0,
{
    let s = "Not Found";
    proof {
        reveal_strlit("Not Found");
        assert(vstd::utf8::is_ascii_chars(s@));
        vstd::utf8::is_ascii_chars_encode_utf8(s@);
    }
    let bytes = s.as_bytes();
    let body = vstd::slice::slice_to_vec(bytes);
    proof {
        assert(body@ =~= not_found_body());
    }
    Response { status: 404, headers: Vec::new(), body }
}

} // verus!
