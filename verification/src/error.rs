//! Application errors and their default JSON rendering.

use vstd::prelude::*;
use vstd::utf8::encode_utf8;
use crate::text::{chars_of, string_of, push_str, utf8_bytes};
use crate::schemaval::{ValidationErrors, ValidationIssue};
use crate::response::Response;
use crate::headers::without_named;

verus! {

/// An error answered with a status, a stable code and a message. An internal
/// error also keeps the text of the error that caused it.
#[derive(Debug, Clone)]
pub struct Error {
    status: u16,
    code: String,
    message: String,
    source: Option<String>,
}

impl Error {
    pub closed spec fn spec_status(&self) -> u16 {
        self.status
    }

    pub closed spec fn spec_code(&self) -> Seq<char> {
        self.code@
    }

    pub closed spec fn spec_message(&self) -> Seq<char> {
        self.message@
    }

    pub closed spec fn spec_source(&self) -> Option<Seq<char>> {
        match self.source {
            Some(s) => Some(s@),
            None => None,
        }
    }

    /// Whether the error has exactly this status, code and message, and no source.
    pub open spec fn is(&self, status: u16, code: Seq<char>, message: Seq<char>) -> bool {
        &&& self.spec_status() == status
        &&& self.spec_code() == code
        &&& self.spec_message() == message
        &&& self.spec_source() is None
    }

    pub fn new(status: u16, code: String, message: String) -> (r: Error)
        ensures
            r.is(status, code@, message@),
    {
        Error { status, code, message, source: None }
    }

    pub fn bad_request() -> (r: Error)
        ensures
            r.is(400, "bad_request"@, "Bad Request"@),
    {
        Self::new(400, "bad_request".to_owned(), "Bad Request".to_owned())
    }

    pub fn unauthorized() -> (r: Error)
        ensures
            r.is(401, "unauthorized"@, "Unauthorized"@),
    {
        Self::new(401, "unauthorized".to_owned(), "Unauthorized".to_owned())
    }

    pub fn forbidden() -> (r: Error)
        ensures
            r.is(403, "forbidden"@, "Forbidden"@),
    {
        Self::new(403, "forbidden".to_owned(), "Forbidden".to_owned())
    }

    pub fn not_found() -> (r: Error)
        ensures
            r.is(404, "not_found"@, "Not Found"@),
    {
        Self::new(404, "not_found".to_owned(), "Not Found".to_owned())
    }

    pub fn conflict() -> (r: Error)
        ensures
            r.is(409, "conflict"@, "Conflict"@),
    {
        Self::new(409, "conflict".to_owned(), "Conflict".to_owned())
    }

    pub fn unprocessable_content() -> (r: Error)
        ensures
            r.is(422, "unprocessable_content"@, "Unprocessable Content"@),
    {
        Self::new(422, "unprocessable_content".to_owned(), "Unprocessable Content".to_owned())
    }

    pub fn too_many_requests() -> (r: Error)
        ensures
            r.is(429, "too_many_requests"@, "Too Many Requests"@),
    {
        Self::new(429, "too_many_requests".to_owned(), "Too Many Requests".to_owned())
    }

    /// An internal error caused by an error whose text is `source`; the text
    /// is also the message.
    pub fn internal(source: String) -> (r: Error)
        ensures
            r.spec_status() == 500,
            r.spec_code() == "internal_error"@,
            r.spec_message() == source@,
            r.spec_source() == Some(source@),
    {
        let message = source.clone();
        Error { status: 500, code: "internal_error".to_owned(), message, source: Some(source) }
    }

    /// The same error with another message.
    pub fn with_message(self, message: String) -> (r: Error)
        ensures
            r.spec_status() == self.spec_status(),
            r.spec_code() == self.spec_code(),
            r.spec_message() == message@,
            r.spec_source() == self.spec_source(),
    {
        let mut e = self;
        e.message = message;
        e
    }

    pub fn status(&self) -> (r: u16)
        ensures
            r == self.spec_status(),
    {
        self.status
    }

    pub fn code(&self) -> (r: &str)
        ensures
            r@ == self.spec_code(),
    {
        self.code.as_str()
    }

    pub fn message(&self) -> (r: &str)
        ensures
            r@ == self.spec_message(),
    {
        self.message.as_str()
    }

    /// The error as text: its public message.
    pub fn text(&self) -> (r: String)
        ensures
            r@ == self.spec_message(),
    {
        self.message.clone()
    }

    /// Whether the error was caused by another error.
    pub fn is_internal(&self) -> (r: bool)
        ensures
            r == self.spec_source() is Some,
    {
        self.source.is_some()
    }

    /// The text of the error that caused this one.
    pub fn source(&self) -> (r: Option<&str>)
        ensures
            match self.spec_source() {
                Some(s) => r matches Some(t) && t@ == s,
                None => r is None,
            },
    {
        match &self.source {
            Some(s) => Some(s.as_str()),
            None => None,
        }
    }
}

/// An error waiting to be rendered by the router's error format, with the
/// validation issues that caused it, if any.
#[derive(Debug)]
pub struct PendingError {
    error: Error,
    validation: Option<ValidationErrors>,
}

impl PendingError {
    pub closed spec fn spec_error(&self) -> Error {
        self.error
    }

    pub closed spec fn spec_validation(&self) -> Option<ValidationErrors> {
        self.validation
    }

    pub fn new(error: Error) -> (r: PendingError)
        ensures
            r.spec_error() == error,
            r.spec_validation() is None,
    {
        PendingError { error, validation: None }
    }

    pub fn validation(error: Error, validation: ValidationErrors) -> (r: PendingError)
        ensures
            r.spec_error() == error,
            r.spec_validation() == Some(validation),
    {
        PendingError { error, validation: Some(validation) }
    }

    pub fn into_parts(self) -> (r: (Error, Option<ValidationErrors>))
        ensures
            r.0 == self.spec_error(),
            r.1 == self.spec_validation(),
    {
        (self.error, self.validation)
    }
}

/// Renders errors as responses.
pub trait ErrorFormat {
    /// Whether `r` is how this format renders `error` with the validation
    /// issues `issues` (none for an error without them); a format that does
    /// not say accepts any response.
    open spec fn renders(&self, error: Error, issues: Seq<ValidationIssue>, r: Response) -> bool {
        true
    }

    fn format(&self, error: &Error) -> (r: Response)
        ensures
            self.renders(*error, Seq::empty(), r),
    ;

    /// Renders an error with its validation issues; unless a format says
    /// otherwise, as the error alone.
    fn format_validation(&self, error: &Error, validation: &ValidationErrors) -> (r: Response)
        ensures
            self.renders(*error, validation.spec_issues(), r) || self.renders(*error, Seq::empty(), r),
    {
        self.format(error)
    }
}

/// The default format: a JSON envelope.
#[derive(Debug, Clone, Copy)]
pub struct JsonErrorFormat;

impl ErrorFormat for JsonErrorFormat {
    /// The JSON envelope of the error's code and message and the issues.
    open spec fn renders(&self, error: Error, issues: Seq<ValidationIssue>, r: Response) -> bool {
        r.is_json_error(&error, issues)
    }

    fn format(&self, error: &Error) -> (r: Response)
        ensures
            r.is_json_error(error, Seq::empty()),
    {
        json_response(error, None)
    }

    fn format_validation(&self, error: &Error, validation: &ValidationErrors) -> (r: Response)
        ensures
            r.is_json_error(error, validation.spec_issues()),
    {
        json_response(error, Some(validation))
    }
}

/// The JSON text of one character inside a string literal.
pub open spec fn json_escape_char(c: char) -> Seq<char> {
    if c == '"' {
        seq!['\\', '"']
    } else if c == '\\' {
        seq!['\\', '\\']
    } else if c == '\u{08}' {
        seq!['\\', 'b']
    } else if c == '\u{0c}' {
        seq!['\\', 'f']
    } else if c == '\n' {
        seq!['\\', 'n']
    } else if c == '\r' {
        seq!['\\', 'r']
    } else if c == '\t' {
        seq!['\\', 't']
    } else if c == '\u{2028}' {
        seq!['\\', 'u', '2', '0', '2', '8']
    } else if c == '\u{2029}' {
        seq!['\\', 'u', '2', '0', '2', '9']
    } else if (c as u32) < 0x20 {
        seq!['\\', 'u', '0', '0', hex_digit((c as u32) / 16), hex_digit((c as u32) % 16)]
    } else {
        seq![c]
    }
}

/// The lower-case hexadecimal digit for `d < 16`.
pub open spec fn hex_digit(d: u32) -> char {
    if d < 10 { (('0' as u32) + d) as char } else { (('a' as u32) + d - 10) as char }
}

/// The escaped body of a JSON string literal.
pub open spec fn json_escape(s: Seq<char>) -> Seq<char>
    decreases s.len(),
{
    if s.len() == 0 {
        Seq::empty()
    } else {
        json_escape(s.drop_last()) + json_escape_char(s.last())
    }
}

/// A JSON string literal holding `s`.
pub open spec fn json_string(s: Seq<char>) -> Seq<char> {
    seq!['"'] + json_escape(s) + seq!['"']
}

/// The JSON object of one validation issue.
pub open spec fn issue_json(issue: ValidationIssue) -> Seq<char> {
    "{\"field\":"@ + match issue.spec_field() {
        Some(f) => json_string(f),
        None => "null"@,
    } + ",\"code\":"@ + json_string(issue.spec_code()) + ",\"message\":"@ + json_string(issue.spec_message()) + seq!['}']
}

/// The issues' objects separated by commas.
pub open spec fn issues_json(issues: Seq<ValidationIssue>) -> Seq<char>
    decreases issues.len(),
{
    if issues.len() == 0 {
        Seq::empty()
    } else if issues.len() == 1 {
        issue_json(issues[0])
    } else {
        issues_json(issues.drop_last()) + seq![','] + issue_json(issues.last())
    }
}

/// The JSON envelope of an error and its validation issues.
pub open spec fn error_json(code: Seq<char>, message: Seq<char>, issues: Seq<ValidationIssue>) -> Seq<char> {
    "{\"error\":{\"code\":"@ + json_string(code) + ",\"message\":"@ + json_string(message) + ",\"fields\":["@
        + issues_json(issues) + "]}}"@
}

fn hex_char(d: u32) -> (c: char)
    requires
        d < 16,
    ensures
        c == hex_digit(d),
{
    if d < 10 {
        ((48 + d) as u8) as char
    } else {
        ((87 + d) as u8) as char
    }
}

/// Appends `value` as a JSON string literal.
pub fn write_json_string(out: &mut Vec<char>, value: &str)
    ensures
        final(out)@ == old(out)@ + json_string(value@),
{
    let chars = chars_of(value);
    out.push('"');
    let ghost start = out@;
    let mut i: usize = 0;
    assert(chars@.take(0) =~= Seq::<char>::empty());
    while i < chars.len()
        invariant
            chars@ == value@,
            i <= chars@.len(),
            out@ == start + json_escape(chars@.take(i as int)),
        decreases chars@.len() - i,
    {
        let c = chars[i];
        let ghost before = out@;
        assert(chars@.take(i + 1).drop_last() =~= chars@.take(i as int));
        if c == '"' {
            out.push('\\');
            out.push('"');
        } else if c == '\\' {
            out.push('\\');
            out.push('\\');
        } else if c == '\u{08}' {
            out.push('\\');
            out.push('b');
        } else if c == '\u{0c}' {
            out.push('\\');
            out.push('f');
        } else if c == '\n' {
            out.push('\\');
            out.push('n');
        } else if c == '\r' {
            out.push('\\');
            out.push('r');
        } else if c == '\t' {
            out.push('\\');
            out.push('t');
        } else if c == '\u{2028}' {
            push_str(out, "\\u2028");
            proof {
                reveal_strlit("\\u2028");
            }
        } else if c == '\u{2029}' {
            push_str(out, "\\u2029");
            proof {
                reveal_strlit("\\u2029");
            }
        } else if (c as u32) < 0x20 {
            let n = c as u32;
            out.push('\\');
            out.push('u');
            out.push('0');
            out.push('0');
            out.push(hex_char(n / 16));
            out.push(hex_char(n % 16));
        } else {
            out.push(c);
        }
        assert(out@ =~= before + json_escape_char(c));
        i += 1;
    }
    assert(chars@.take(chars@.len() as int) =~= chars@);
    out.push('"');
}

/// The UTF-8 bytes of the JSON envelope of `error` and the issues.
pub fn encode_error_json(error: &Error, validation: Option<&ValidationErrors>) -> (r: Vec<u8>)
    ensures
        r@ == encode_utf8(error_json(error.spec_code(), error.spec_message(), match validation {
            Some(v) => v.spec_issues(),
            None => Seq::empty(),
        })),
{
    let mut out = chars_of("{\"error\":{\"code\":");
    write_json_string(&mut out, error.code());
    push_str(&mut out, ",\"message\":");
    write_json_string(&mut out, error.message());
    push_str(&mut out, ",\"fields\":[");
    let ghost head = out@;
    let ghost issues = match validation {
        Some(v) => v.spec_issues(),
        None => Seq::<ValidationIssue>::empty(),
    };
    match validation {
        Some(errors) => {
            let list = errors.issues();
            let mut i: usize = 0;
            assert(list@.take(0) =~= Seq::<ValidationIssue>::empty());
            while i < list.len()
                invariant
                    list@ == issues,
                    i <= list@.len(),
                    out@ == head + issues_json(list@.take(i as int)),
                decreases list@.len() - i,
            {
                let ghost before = out@;
                assert(list@.take(i + 1).drop_last() =~= list@.take(i as int));
                if i != 0 {
                    out.push(',');
                }
                let issue = &list[i];
                push_issue(&mut out, issue);
                proof {
                    if i == 0 {
                        assert(list@.take(1) =~= seq![list@[0]]);
                    }
                }
                assert(out@ =~= head + issues_json(list@.take(i + 1)));
                i += 1;
            }
            assert(list@.take(list@.len() as int) =~= list@);
        },
        None => {
            assert(out@ =~= head + issues_json(issues));
        },
    }
    push_str(&mut out, "]}}");
    let text = string_of(out.as_slice());
    utf8_bytes(text.as_str())
}

fn push_issue(out: &mut Vec<char>, issue: &ValidationIssue)
    ensures
        final(out)@ == old(out)@ + issue_json(*issue),
{
    push_str(out, "{\"field\":");
    match issue.field() {
        Some(f) => write_json_string(out, f),
        None => push_str(out, "null"),
    }
    push_str(out, ",\"code\":");
    write_json_string(out, issue.code());
    push_str(out, ",\"message\":");
    write_json_string(out, issue.message());
    out.push('}');
}

/// The JSON response for `error`: its status, a JSON content type, and the
/// envelope as body.
pub fn json_response(error: &Error, validation: Option<&ValidationErrors>) -> (r: Response)
    ensures
        r.is_json_error(error, match validation {
            Some(v) => v.spec_issues(),
            None => Seq::empty(),
        }),
{
    let body = encode_error_json(error, validation);
    let mut response = Response::bytes(error.status(), body);
    let ghost before = response.spec_headers();
    response.set_header("Content-Type".to_owned(), utf8_bytes("application/json"));
    proof {
        crate::headers::lemma_name_equivalence("Content-Type"@, "Content-Type"@, "Content-Type"@);
        assert(without_named(before, "Content-Type"@, 0) =~= Seq::empty());
        assert(without_named(before, "Content-Type"@, 1) =~= Seq::empty());
    }
    response
}

} // verus!
