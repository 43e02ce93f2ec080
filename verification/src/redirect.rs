//! Redirect responses.

use vstd::prelude::*;
use vstd::utf8::encode_utf8;
use crate::text::utf8_bytes;
use crate::headers::{InvalidHeader, valid_header_value, without_named};
use crate::response::{Response, IntoResponse};

verus! {

/// A redirect to `location` with a redirect status.
#[derive(Debug, Clone)]
pub struct Redirect {
    status: u16,
    location: String,
}

impl Redirect {
    pub closed spec fn spec_status(&self) -> u16 {
        self.status
    }

    pub closed spec fn spec_location(&self) -> Seq<char> {
        self.location@
    }

    /// `307 Temporary Redirect`.
    pub fn temporary(location: String) -> (r: Redirect)
        ensures
            r.spec_status() == 307,
            r.spec_location() == location@,
    {
        Redirect { status: 307, location }
    }

    /// `308 Permanent Redirect`.
    pub fn permanent(location: String) -> (r: Redirect)
        ensures
            r.spec_status() == 308,
            r.spec_location() == location@,
    {
        Redirect { status: 308, location }
    }

    /// `303 See Other`.
    pub fn see_other(location: String) -> (r: Redirect)
        ensures
            r.spec_status() == 303,
            r.spec_location() == location@,
    {
        Redirect { status: 303, location }
    }

    /// `302 Found`.
    pub fn found(location: String) -> (r: Redirect)
        ensures
            r.spec_status() == 302,
            r.spec_location() == location@,
    {
        Redirect { status: 302, location }
    }
}

impl IntoResponse for Redirect {
    open spec fn response_for(self, r: Response) -> bool {
        &&& (valid_header_value(encode_utf8(self.spec_location())) ==> r.spec_status() == self.spec_status()
                    && r.spec_headers() == seq![("Location"@, encode_utf8(self.spec_location()))]
                    && r.spec_body().spec_buffered() == Some(Seq::<u8>::empty()))
        &&& (!valid_header_value(encode_utf8(self.spec_location())) ==> r.spec_status() == 500
                    && r.spec_body().spec_buffered() == Some(encode_utf8("invalid HTTP header value"@)))
    }

    /// The status with a `Location` header; a location that cannot be a
    /// header value gives a `500` instead.
    fn into_response(self) -> (r: Response)
        ensures
            valid_header_value(encode_utf8(self.spec_location())) ==> r.spec_status() == self.spec_status()
                && r.spec_headers() == seq![("Location"@, encode_utf8(self.spec_location()))]
                && r.spec_body().spec_buffered() == Some(Seq::<u8>::empty()),
            !valid_header_value(encode_utf8(self.spec_location())) ==> r.spec_status() == 500
                && r.spec_body().spec_buffered() == Some(encode_utf8("invalid HTTP header value"@)),
    {
        let mut response = Response::new(self.status);
        proof {
            reveal_strlit("Location");
        }
        let outcome = response.headers().set("Location".to_owned(), utf8_bytes(self.location.as_str()));
        match outcome {
            Err(error) => error.into_response(),
            Ok(()) => {
                assert(without_named(Seq::empty(), "Location"@, 0) =~= Seq::empty());
                response
            },
        }
    }
}

impl IntoResponse for InvalidHeader {
    open spec fn response_for(self, r: Response) -> bool {
        &&& (r.spec_status() == 500)
        &&& (r.spec_headers() == Response::typed("text/plain; charset=utf-8"@))
        &&& (self.is_name_error() ==> r.spec_body().spec_buffered() == Some(encode_utf8("invalid HTTP header name"@)))
        &&& (!self.is_name_error() ==> r.spec_body().spec_buffered() == Some(encode_utf8("invalid HTTP header value"@)))
    }

    /// A `500` plain-text response with the reason.
    fn into_response(self) -> (r: Response)
        ensures
            r.spec_status() == 500,
            r.spec_headers() == Response::typed("text/plain; charset=utf-8"@),
            self.is_name_error() ==> r.spec_body().spec_buffered() == Some(encode_utf8("invalid HTTP header name"@)),
            !self.is_name_error() ==> r.spec_body().spec_buffered() == Some(encode_utf8("invalid HTTP header value"@)),
    {
        Response::error(500, self.message().to_owned())
    }
}

} // verus!
