//! Responses: a status, headers, and a buffered or streamed body.

use vstd::prelude::*;
use vstd::utf8::{encode_utf8, valid_utf8, decode_utf8};
use crate::text::{utf8_bytes, decimal, decimal_text, string_of};
use crate::headers::{Headers, HeaderEntries, InvalidHeader, without_named, first_named, valid_header_name, valid_header_value};
use crate::cookie::Cookie;
use crate::error::{Error, PendingError, error_json};
use crate::schemaval::{ValidationErrors, ValidationIssue};
use crate::websocket::WebSocketPlan;

verus! {

/// A response body: bytes held in memory, a stream the serving layer
/// produces (known here by its handle), or the plan of a WebSocket upgrade.
#[derive(Debug)]
pub enum ResponseBody {
    Buffered(Vec<u8>),
    Streaming(u64),
    WebSocket(WebSocketPlan),
}

impl ResponseBody {
    pub open spec fn spec_buffered(&self) -> Option<Seq<u8>> {
        match self {
            ResponseBody::Buffered(b) => Some(b@),
            _ => None,
        }
    }

    /// The bytes of a buffered body.
    pub fn buffered(&self) -> (r: Option<&[u8]>)
        ensures
            match self.spec_buffered() {
                Some(b) => r matches Some(s) && s@ == b,
                None => r is None,
            },
    {
        match self {
            ResponseBody::Buffered(b) => Some(b.as_slice()),
            _ => None,
        }
    }

    pub fn is_streaming(&self) -> (r: bool)
        ensures
            r == (self is Streaming),
    {
        match self {
            ResponseBody::Streaming(_) => true,
            _ => false,
        }
    }
}

/// A response under construction.
#[derive(Debug)]
pub struct Response {
    status: u16,
    headers: Headers,
    body: ResponseBody,
    pending: Option<PendingError>,
}


impl Response {
    pub closed spec fn spec_status(&self) -> u16 {
        self.status
    }

    pub closed spec fn spec_headers(&self) -> HeaderEntries {
        self.headers.entries()
    }

    pub closed spec fn spec_body(&self) -> &ResponseBody {
        &self.body
    }

    pub closed spec fn spec_pending(&self) -> Option<PendingError> {
        self.pending
    }

    /// The headers of a response made with only a content type.
    pub open spec fn typed(content_type: Seq<char>) -> HeaderEntries {
        seq![("Content-Type"@, encode_utf8(content_type))]
    }

    /// Whether this is the JSON rendering of `error` with these issues.
    pub open spec fn is_json_error(&self, error: &Error, issues: Seq<ValidationIssue>) -> bool {
        &&& self.spec_status() == error.spec_status()
        &&& self.spec_headers() == Response::typed("application/json"@)
        &&& self.spec_body().spec_buffered() == Some(encode_utf8(error_json(error.spec_code(), error.spec_message(), issues)))
        &&& self.spec_pending() is None
    }

    /// A response with no headers and an empty body.
    pub fn new(status: u16) -> (r: Response)
        ensures
            r.spec_status() == status,
            r.spec_headers().len() == 0,
            r.spec_body().spec_buffered() == Some(Seq::<u8>::empty()),
            r.spec_pending() is None,
    {
        Response { status, headers: Headers::new(), body: ResponseBody::Buffered(Vec::new()), pending: None }
    }

    /// `204 No Content`.
    pub fn empty() -> (r: Response)
        ensures
            r.spec_status() == 204,
            r.spec_headers().len() == 0,
            r.spec_body().spec_buffered() == Some(Seq::<u8>::empty()),
            r.spec_pending() is None,
    {
        Self::new(204)
    }

    /// A plain-text response.
    pub fn text(status: u16, text: String) -> (r: Response)
        ensures
            r.spec_status() == status,
            r.spec_headers() == Response::typed("text/plain; charset=utf-8"@),
            r.spec_body().spec_buffered() == Some(encode_utf8(text@)),
            r.spec_pending() is None,
    {
        let mut response = Response {
            status,
            headers: Headers::new(),
            body: ResponseBody::Buffered(utf8_bytes(text.as_str())),
            pending: None,
        };
        response.headers.set_unchecked("Content-Type".to_owned(), utf8_bytes("text/plain; charset=utf-8"));
        assert(without_named(Seq::empty(), "Content-Type"@, 0) =~= Seq::empty());
        response
    }

    /// A response of raw bytes.
    pub fn bytes(status: u16, bytes: Vec<u8>) -> (r: Response)
        ensures
            r.spec_status() == status,
            r.spec_headers() == Response::typed("application/octet-stream"@),
            r.spec_body().spec_buffered() == Some(bytes@),
            r.spec_pending() is None,
    {
        let mut response = Response { status, headers: Headers::new(), body: ResponseBody::Buffered(bytes), pending: None };
        response.headers.set_unchecked("Content-Type".to_owned(), utf8_bytes("application/octet-stream"));
        assert(without_named(Seq::empty(), "Content-Type"@, 0) =~= Seq::empty());
        response
    }

    /// A streamed response whose stream the serving layer knows as `stream`.
    pub fn stream(status: u16, stream: u64) -> (r: Response)
        ensures
            r.spec_status() == status,
            r.spec_headers().len() == 0,
            r.spec_body() == ResponseBody::Streaming(stream),
            r.spec_pending() is None,
    {
        Response { status, headers: Headers::new(), body: ResponseBody::Streaming(stream), pending: None }
    }

    /// `101 Switching Protocols` for a WebSocket upgrade, naming the chosen
    /// subprotocol, if any.
    pub fn websocket(plan: WebSocketPlan) -> (r: Response)
        ensures
            r.spec_status() == 101,
            r.spec_headers() == match plan.spec_selected() {
                Some(p) => seq![("Sec-WebSocket-Protocol"@, encode_utf8(p))],
                None => Seq::empty(),
            },
            r.spec_body() == ResponseBody::WebSocket(plan),
            r.spec_pending() is None,
    {
        let protocol = match plan.selected_protocol() {
            Some(p) => Some(utf8_bytes(p)),
            None => None,
        };
        let mut response = Response { status: 101, headers: Headers::new(), body: ResponseBody::WebSocket(plan), pending: None };
        if let Some(p) = protocol {
            response.headers.set_unchecked("Sec-WebSocket-Protocol".to_owned(), p);
            assert(without_named(Seq::empty(), "Sec-WebSocket-Protocol"@, 0) =~= Seq::empty());
        }
        response
    }

    /// A plain-text error response.
    pub fn error(status: u16, message: String) -> (r: Response)
        ensures
            r.spec_status() == status,
            r.spec_headers() == Response::typed("text/plain; charset=utf-8"@),
            r.spec_body().spec_buffered() == Some(encode_utf8(message@)),
            r.spec_pending() is None,
    {
        Self::text(status, message)
    }

    /// A response standing for `error` until the router renders it.
    pub fn pending_error(error: Error) -> (r: Response)
        ensures
            r.spec_status() == error.spec_status(),
            r.spec_headers().len() == 0,
            r.spec_body().spec_buffered() == Some(Seq::<u8>::empty()),
            r.spec_pending() matches Some(p) && p.spec_error() == error && p.spec_validation() is None,
    {
        let status = error.status();
        let mut response = Self::new(status);
        response.pending = Some(PendingError::new(error));
        response
    }

    /// A response standing for a validation failure until the router renders it.
    pub fn pending_validation(error: Error, validation: ValidationErrors) -> (r: Response)
        ensures
            r.spec_status() == error.spec_status(),
            r.spec_headers().len() == 0,
            r.spec_body().spec_buffered() == Some(Seq::<u8>::empty()),
            r.spec_pending() matches Some(p) && p.spec_error() == error && p.spec_validation() == Some(validation),
    {
        let status = error.status();
        let mut response = Self::new(status);
        response.pending = Some(PendingError::validation(error, validation));
        response
    }

    /// Takes the error waiting to be rendered, if any.
    pub fn take_error(&mut self) -> (r: Option<PendingError>)
        ensures
            r == old(self).spec_pending(),
            final(self).spec_pending() is None,
            final(self).spec_status() == old(self).spec_status(),
            final(self).spec_headers() == old(self).spec_headers(),
            final(self).spec_body() == old(self).spec_body(),
    {
        self.pending.take()
    }

    pub fn status(&self) -> (r: u16)
        ensures
            r == self.spec_status(),
    {
        self.status
    }

    /// The text of the first `Content-Type` header, when it is UTF-8.
    pub fn content_type(&self) -> (r: Option<&str>)
        ensures
            match first_named(self.spec_headers(), "content-type"@, 0) {
                Some(i) => if valid_utf8(self.spec_headers()[i].1) {
                    r matches Some(t) && t@ == decode_utf8(self.spec_headers()[i].1)
                } else {
                    r is None
                },
                None => r is None,
            },
    {
        match self.headers.get("content-type") {
            Some(v) => crate::text::str_from_utf8(v),
            None => None,
        }
    }

    /// The buffered body, or nothing for a streamed one.
    pub fn body(&self) -> (r: &[u8])
        ensures
            r@ == match self.spec_body().spec_buffered() {
                Some(b) => b,
                None => Seq::<u8>::empty(),
            },
    {
        match &self.body {
            ResponseBody::Buffered(b) => b.as_slice(),
            _ => &[],
        }
    }

    pub fn is_streaming(&self) -> (r: bool)
        ensures
            r == (self.spec_body() is Streaming),
    {
        self.body.is_streaming()
    }

    /// The header collection, to change in place.
    pub fn headers(&mut self) -> (r: &mut Headers)
        ensures
            r.entries() == old(self).spec_headers(),
            final(self).spec_headers() == final(r).entries(),
            final(self).spec_status() == old(self).spec_status(),
            final(self).spec_body() == old(self).spec_body(),
            final(self).spec_pending() == old(self).spec_pending(),
    {
        &mut self.headers
    }

    /// Adds a `Set-Cookie` header for `cookie`.
    pub fn set_cookie(&mut self, cookie: Cookie) -> (r: Result<(), InvalidHeader>)
        ensures
            r is Ok <==> valid_header_value(encode_utf8(cookie.text())),
            r is Ok ==> final(self).spec_headers() == old(self).spec_headers().push(("Set-Cookie"@, encode_utf8(cookie.text()))),
            r is Err ==> final(self).spec_headers() == old(self).spec_headers(),
            final(self).spec_status() == old(self).spec_status(),
            final(self).spec_body() == old(self).spec_body(),
            final(self).spec_pending() == old(self).spec_pending(),
    {
        proof {
            reveal_strlit("Set-Cookie");
            assert(valid_header_name("Set-Cookie"@));
        }
        let value = cookie.header_value();
        self.headers.append("Set-Cookie".to_owned(), utf8_bytes(value.as_str()))
    }

    /// Replaces every header named `name` by one, without checking it.
    pub fn set_header(&mut self, name: String, value: Vec<u8>)
        ensures
            final(self).spec_headers() == without_named(old(self).spec_headers(), name@, old(self).spec_headers().len() as int).push(
                (name@, value@)),
            final(self).spec_status() == old(self).spec_status(),
            final(self).spec_body() == old(self).spec_body(),
            final(self).spec_pending() == old(self).spec_pending(),
    {
        self.headers.set_unchecked(name, value);
    }

    /// The same response with its buffered body dropped and its length
    /// announced in `Content-Length`; a streamed body is kept.
    pub fn without_body(self) -> (r: Response)
        ensures
            r.spec_status() == self.spec_status(),
            r.spec_pending() == self.spec_pending(),
            match self.spec_body().spec_buffered() {
                Some(b) => r.spec_body().spec_buffered() == Some(Seq::<u8>::empty())
                    && r.spec_headers() == without_named(self.spec_headers(), "Content-Length"@, self.spec_headers().len() as int).push(
                        ("Content-Length"@, encode_utf8(decimal(b.len())))),
                None => r.spec_body() == self.spec_body() && r.spec_headers() == self.spec_headers(),
            },
    {
        let mut response = self;
        let length: Option<usize> = match &response.body {
            ResponseBody::Buffered(b) => Some(b.len()),
            _ => None,
        };
        match length {
            Some(n) => {
                response.body = ResponseBody::Buffered(Vec::new());
                let digits = decimal_text(n as u128);
                let text = string_of(digits.as_slice());
                response.set_header("Content-Length".to_owned(), utf8_bytes(text.as_str()));
            },
            None => {},
        }
        response
    }

    /// Replaces the status.
    pub fn set_status(&mut self, status: u16)
        ensures
            final(self).spec_status() == status,
            final(self).spec_headers() == old(self).spec_headers(),
            final(self).spec_body() == old(self).spec_body(),
            final(self).spec_pending() == old(self).spec_pending(),
    {
        self.status = status;
    }

    /// Takes the headers, leaving none.
    pub fn take_headers(&mut self) -> (r: Headers)
        ensures
            r.entries() == old(self).spec_headers(),
            final(self).spec_headers().len() == 0,
            final(self).spec_status() == old(self).spec_status(),
            final(self).spec_body() == old(self).spec_body(),
            final(self).spec_pending() == old(self).spec_pending(),
    {
        let mut taken = Headers::new();
        std::mem::swap(&mut taken, &mut self.headers);
        taken
    }

    /// Adds every entry of `headers` after the existing ones.
    pub fn merge_headers(&mut self, headers: Headers)
        ensures
            final(self).spec_headers() == old(self).spec_headers() + headers.entries(),
            final(self).spec_status() == old(self).spec_status(),
            final(self).spec_body() == old(self).spec_body(),
            final(self).spec_pending() == old(self).spec_pending(),
    {
        let all = headers.iter();
        let ghost base = self.headers.entries();
        let mut i: usize = 0;
        assert(headers.entries().take(0) =~= Seq::<(Seq<char>, Seq<u8>)>::empty());
        while i < all.len()
            invariant
                all@.len() == headers.entries().len(),
                forall|k: int| 0 <= k < all@.len() ==> (#[trigger] all@[k]).0@ == headers.entries()[k].0 && all@[k].1@ == headers.entries()[k].1,
                i <= all@.len(),
                self.headers.entries() == base + headers.entries().take(i as int),
                self.status == old(self).status,
                self.body == old(self).body,
                self.pending == old(self).pending,
            decreases all@.len() - i,
        {
            let (name, value) = all[i];
            self.headers.append_unchecked(name.to_owned(), vstd::slice::slice_to_vec(value));
            assert(headers.entries().take(i + 1) =~= headers.entries().take(i as int).push(headers.entries()[i as int]));
            i += 1;
        }
        assert(headers.entries().take(headers.entries().len() as int) =~= headers.entries());
    }

    /// The status, headers and body.
    pub fn into_parts(self) -> (r: (u16, Headers, ResponseBody))
        ensures
            r.0 == self.spec_status(),
            r.1.entries() == self.spec_headers(),
            r.2 == *self.spec_body(),
    {
        (self.status, self.headers, self.body)
    }
}

/// Whether `r` is the response standing for the error `status`, `code`,
/// `message` until the router renders it.
pub open spec fn pending_error_response(r: Response, status: u16, code: Seq<char>, message: Seq<char>) -> bool {
    &&& r.spec_status() == status
    &&& r.spec_headers().len() == 0
    &&& r.spec_body().spec_buffered() == Some(Seq::<u8>::empty())
    &&& r.spec_pending() matches Some(p) && p.spec_error().is(status, code, message) && p.spec_validation() is None
}

/// Values a handler returns, turned into responses.
pub trait IntoResponse: Sized {
    /// Whether `r` is the response this value becomes; a type that does not
    /// say accepts any response.
    open spec fn response_for(self, r: Response) -> bool {
        true
    }

    fn into_response(self) -> (r: Response)
        ensures
            self.response_for(r),
    ;
}

impl IntoResponse for Response {
    open spec fn response_for(self, r: Response) -> bool {
        &&& (r == self)
    }

    fn into_response(self) -> (r: Response)
        ensures
            r == self,
    {
        self
    }
}

impl IntoResponse for () {
    open spec fn response_for(self, r: Response) -> bool {
        &&& (r.spec_status() == 204)
        &&& (r.spec_headers().len() == 0)
        &&& (r.spec_body().spec_buffered() == Some(Seq::<u8>::empty()))
    }

    fn into_response(self) -> (r: Response)
        ensures
            r.spec_status() == 204,
            r.spec_headers().len() == 0,
            r.spec_body().spec_buffered() == Some(Seq::<u8>::empty()),
    {
        Response::empty()
    }
}

impl IntoResponse for String {
    open spec fn response_for(self, r: Response) -> bool {
        &&& (r.spec_status() == 200)
        &&& (r.spec_headers() == Response::typed("text/plain; charset=utf-8"@))
        &&& (r.spec_body().spec_buffered() == Some(encode_utf8(self@)))
    }

    fn into_response(self) -> (r: Response)
        ensures
            r.spec_status() == 200,
            r.spec_headers() == Response::typed("text/plain; charset=utf-8"@),
            r.spec_body().spec_buffered() == Some(encode_utf8(self@)),
    {
        Response::text(200, self)
    }
}

impl IntoResponse for &str {
    open spec fn response_for(self, r: Response) -> bool {
        &&& (r.spec_status() == 200)
        &&& (r.spec_headers() == Response::typed("text/plain; charset=utf-8"@))
        &&& (r.spec_body().spec_buffered() == Some(encode_utf8(self@)))
    }

    fn into_response(self) -> (r: Response)
        ensures
            r.spec_status() == 200,
            r.spec_headers() == Response::typed("text/plain; charset=utf-8"@),
            r.spec_body().spec_buffered() == Some(encode_utf8(self@)),
    {
        Response::text(200, self.to_owned())
    }
}

impl IntoResponse for Vec<u8> {
    open spec fn response_for(self, r: Response) -> bool {
        &&& (r.spec_status() == 200)
        &&& (r.spec_headers() == Response::typed("application/octet-stream"@))
        &&& (r.spec_body().spec_buffered() == Some(self@))
    }

    fn into_response(self) -> (r: Response)
        ensures
            r.spec_status() == 200,
            r.spec_headers() == Response::typed("application/octet-stream"@),
            r.spec_body().spec_buffered() == Some(self@),
    {
        Response::bytes(200, self)
    }
}

impl<T: IntoResponse, E: IntoResponse> IntoResponse for Result<T, E> {
    /// The success value's response, or the error's.
    open spec fn response_for(self, r: Response) -> bool {
        match self {
            Ok(value) => value.response_for(r),
            Err(error) => error.response_for(r),
        }
    }

    fn into_response(self) -> (r: Response) {
        match self {
            Ok(value) => value.into_response(),
            Err(error) => error.into_response(),
        }
    }
}

impl IntoResponse for Error {
    open spec fn response_for(self, r: Response) -> bool {
        &&& (r.spec_status() == self.spec_status())
        &&& (r.spec_pending() matches Some(p) && p.spec_error() == self && p.spec_validation() is None)
    }

    fn into_response(self) -> (r: Response)
        ensures
            r.spec_status() == self.spec_status(),
            r.spec_pending() matches Some(p) && p.spec_error() == self && p.spec_validation() is None,
    {
        Response::pending_error(self)
    }
}

impl IntoResponse for ValidationErrors {
    open spec fn response_for(self, r: Response) -> bool {
        &&& (r.spec_status() == 400)
        &&& (r.spec_pending() matches Some(p) && p.spec_error().is(400, "request.validation.invalid"@, "Request validation failed"@)
                    && p.spec_validation() == Some(self))
    }

    /// A `400` validation failure carrying the issues.
    fn into_response(self) -> (r: Response)
        ensures
            r.spec_status() == 400,
            r.spec_pending() matches Some(p) && p.spec_error().is(400, "request.validation.invalid"@, "Request validation failed"@)
                && p.spec_validation() == Some(self),
    {
        let error = Error::new(400, "request.validation.invalid".to_owned(), "Request validation failed".to_owned());
        Response::pending_validation(error, self)
    }
}

} // verus!
