//! Streaming `multipart/form-data` parsing: the boundary from the content
//! type, field headers, and field content handed out in bounded chunks as
//! bytes arrive.

use vstd::prelude::*;
use vstd::utf8::{valid_utf8, decode_utf8, encode_utf8};
use crate::text::{chars_of, string_of, split_with, split_chars, eq_ignore_case, eq_ignore_ascii_case, str_from_utf8,
    string_from_utf8, utf8_bytes};
use crate::cookie::{trim, trim_chars};
use crate::decode::first_index_of;
use crate::headers::{Headers, HeaderEntries, first_named};
use crate::extract::media_type;
use crate::error::Error;
use crate::response::{Response, IntoResponse};
use crate::stream::StreamError;

verus! {

/// Whether `needle` occurs in `hay` starting at `i`.
pub open spec fn occurs_at(hay: Seq<u8>, needle: Seq<u8>, i: int) -> bool {
    0 <= i && i + needle.len() <= hay.len() && hay.subrange(i, i + needle.len()) == needle
}

/// The first position at or after `i` where `needle` occurs in `hay`.
pub open spec fn first_from(hay: Seq<u8>, needle: Seq<u8>, i: int) -> Option<int>
    decreases hay.len() + 1 - i,
{
    if i < 0 || i + needle.len() > hay.len() {
        None
    } else if occurs_at(hay, needle, i) {
        Some(i)
    } else {
        first_from(hay, needle, i + 1)
    }
}

/// The first position where a non-empty `needle` occurs in `hay`.
pub open spec fn first_occurrence(hay: Seq<u8>, needle: Seq<u8>) -> Option<int> {
    if needle.len() == 0 {
        None
    } else {
        first_from(hay, needle, 0)
    }
}

proof fn lemma_first_from(hay: Seq<u8>, needle: Seq<u8>, i: int)
    requires
        0 <= i,
    ensures
        first_from(hay, needle, i) matches Some(k) ==> i <= k && occurs_at(hay, needle, k) && forall|j: int|
            i <= j < k ==> !occurs_at(hay, needle, j),
        first_from(hay, needle, i) is None ==> forall|j: int| i <= j ==> !occurs_at(hay, needle, j),
    decreases hay.len() + 1 - i,
{
    if i + needle.len() <= hay.len() && !occurs_at(hay, needle, i) {
        lemma_first_from(hay, needle, i + 1);
    }
}

/// Whether `needle` occurs in `hay` at `i`.
fn occurs(hay: &[u8], needle: &[u8], i: usize) -> (r: bool)
    requires
        i + needle@.len() <= hay@.len(),
    ensures
        r == occurs_at(hay@, needle@, i as int),
{
    let n = hay.len();
    let mut k: usize = 0;
    while k < needle.len()
        invariant
            n == hay@.len(),
            i + needle@.len() <= hay@.len(),
            k <= needle@.len(),
            forall|j: int| 0 <= j < k ==> hay@[i + j] == needle@[j],
        decreases needle@.len() - k,
    {
        if hay[i + k] != needle[k] {
            assert(hay@.subrange(i as int, i + needle@.len())[k as int] != needle@[k as int]);
            return false;
        }
        k += 1;
    }
    assert(hay@.subrange(i as int, i + needle@.len()) =~= needle@);
    true
}

/// The first position where `needle` occurs in `hay`; an empty needle is
/// never found.
pub fn find_bytes(hay: &[u8], needle: &[u8]) -> (r: Option<usize>)
    ensures
        r matches Some(i) ==> first_occurrence(hay@, needle@) == Some(i as int),
        r is None ==> first_occurrence(hay@, needle@) is None,
{
    if needle.len() == 0 || needle.len() > hay.len() {
        return None;
    }
    let last = hay.len() - needle.len();
    let mut i: usize = 0;
    while i <= last
        invariant
            last + needle@.len() == hay@.len(),
            last < usize::MAX,
            needle@.len() > 0,
            i <= last + 1,
            first_from(hay@, needle@, 0) == first_from(hay@, needle@, i as int),
        decreases last + 1 - i,
    {
        if occurs(hay, needle, i) {
            return Some(i);
        }
        i += 1;
    }
    None
}

/// Whether `s` begins with `prefix`.
pub fn starts_with(s: &[u8], prefix: &[u8]) -> (r: bool)
    ensures
        r == (prefix@.len() <= s@.len() && s@.take(prefix@.len() as int) == prefix@),
{
    if prefix.len() > s.len() {
        return false;
    }
    let r = occurs(s, prefix, 0);
    assert(s@.subrange(0, prefix@.len() as int) == s@.take(prefix@.len() as int));
    r
}

/// The position of the first `\r\n` at or after `i`.
pub open spec fn first_crlf(t: Seq<char>, i: int) -> Option<int>
    decreases t.len() - i,
{
    if i < 0 || i + 1 >= t.len() {
        None
    } else if t[i] == '\r' && t[i + 1] == '\n' {
        Some(i)
    } else {
        first_crlf(t, i + 1)
    }
}

proof fn lemma_first_crlf(t: Seq<char>, i: int)
    requires
        0 <= i,
    ensures
        first_crlf(t, i) matches Some(k) ==> i <= k && k + 1 < t.len(),
    decreases t.len() - i,
{
    if i + 1 < t.len() && !(t[i] == '\r' && t[i + 1] == '\n') {
        lemma_first_crlf(t, i + 1);
    }
}

/// The lines of `t`, split at each `\r\n`.
pub open spec fn crlf_lines(t: Seq<char>) -> Seq<Seq<char>>
    decreases t.len(),
{
    match first_crlf(t, 0) {
        Some(i) => if 0 <= i && i + 2 <= t.len() {
            seq![t.take(i)] + crlf_lines(t.skip(i + 2))
        } else {
            seq![t]
        },
        None => seq![t],
    }
}

/// The header a line of a part's header block gives: the trimmed text
/// before its first `:` and the trimmed text after it.
pub open spec fn header_line(line: Seq<char>) -> Option<(Seq<char>, Seq<u8>)> {
    match first_index_of(line, ':', 0) {
        Some(c) => Some((trim(line.take(c)), encode_utf8(trim(line.skip(c + 1))))),
        None => None,
    }
}

/// Whether every line of a header block has a `:`.
pub open spec fn all_header_lines(lines: Seq<Seq<char>>) -> bool {
    forall|i: int| 0 <= i < lines.len() ==> (#[trigger] header_line(lines[i])) is Some
}

/// The headers of a header block whose lines all have a `:`.
pub open spec fn header_block(lines: Seq<Seq<char>>) -> HeaderEntries {
    lines.map_values(|l: Seq<char>| header_line(l)->0)
}

/// The position of the first `c` in `s` at or after `from`.
fn index_of(s: &[char], c: char, from: usize) -> (r: Option<usize>)
    ensures
        match r {
            Some(k) => first_index_of(s@, c, from as int) == Some(k as int),
            None => first_index_of(s@, c, from as int) is None,
        },
    decreases s@.len() - from,
{
    if from >= s.len() {
        return None;
    }
    if s[from] == c {
        return Some(from);
    }
    index_of(s, c, from + 1)
}

proof fn lemma_first_index(s: Seq<char>, c: char, from: int)
    requires
        0 <= from,
    ensures
        first_index_of(s, c, from) matches Some(i) ==> from <= i < s.len() && s[i] == c,
    decreases s.len() - from,
{
    if from < s.len() && s[from] != c {
        lemma_first_index(s, c, from + 1);
    }
}

/// The lines of a header block, split at each `\r\n`.
fn split_lines(t: &[char]) -> (r: Vec<Vec<char>>)
    ensures
        r@.map_values(|l: Vec<char>| l@) == crlf_lines(t@),
    decreases t@.len(),
{
    let mut out: Vec<Vec<char>> = Vec::new();
    let mut start: usize = 0;
    let mut i: usize = 0;
    while i < t.len() && i + 1 < t.len() && !(t[i] == '\r' && t[i + 1] == '\n')
        invariant
            start == 0,
            i <= t@.len(),
            first_crlf(t@, 0) == first_crlf(t@, i as int),
        decreases t@.len() - i,
    {
        i += 1;
    }
    if i < t.len() && i + 1 < t.len() {
        let head = vstd::slice::slice_subrange(t, 0, i);
        let rest = vstd::slice::slice_subrange(t, i + 2, t.len());
        let tail = split_lines(rest);
        out.push(vstd::slice::slice_to_vec(head));
        let mut k: usize = 0;
        let ghost tv = tail@.map_values(|l: Vec<char>| l@);
        while k < tail.len()
            invariant
                k <= tail@.len(),
                tv == tail@.map_values(|l: Vec<char>| l@),
                out@.map_values(|l: Vec<char>| l@) == seq![t@.take(i as int)] + tv.take(k as int),
            decreases tail@.len() - k,
        {
            out.push(crate::text::copy_chars(tail[k].as_slice()));
            assert(tv.take(k + 1) =~= tv.take(k as int).push(tv[k as int]));
            assert(out@.map_values(|l: Vec<char>| l@) =~= (seq![t@.take(i as int)] + tv.take(k as int)).push(tv[k as int]));
            k += 1;
        }
        assert(tv.take(tv.len() as int) =~= tv);
        assert(rest@ =~= t@.skip(i + 2));
        assert(head@ =~= t@.take(i as int));
        out
    } else {
        assert(first_crlf(t@, i as int) is None);
        out.push(vstd::slice::slice_to_vec(t));
        assert(out@.map_values(|l: Vec<char>| l@) =~= seq![t@]);
        out
    }
}


/// Why a multipart body could not be read.
#[derive(Debug)]
pub enum MultipartError {
    /// The request is not `multipart/form-data`.
    ContentType,
    /// The boundary parameter is missing, empty, or longer than 70 bytes.
    Boundary,
    /// The body does not follow the multipart framing.
    Malformed,
    /// Reading the body failed.
    Stream(StreamError),
    /// A field read as text is not UTF-8; the message says where.
    Text(String),
}

impl IntoResponse for MultipartError {
    open spec fn response_for(self, r: Response) -> bool {
        &&& (match self {
                    MultipartError::ContentType => crate::response::pending_error_response(r, 415,
                        "request.content_type.unsupported"@, "expected multipart/form-data request body"@),
                    MultipartError::Boundary => crate::response::pending_error_response(r, 400,
                        "request.multipart.invalid_boundary"@, "multipart boundary is missing or invalid"@),
                    MultipartError::Malformed => crate::response::pending_error_response(r, 400,
                        "request.multipart.invalid"@, "multipart request body is malformed"@),
                    MultipartError::Stream(e) => r.spec_status() == e.spec_status()
                        && r.spec_headers() == Response::typed("text/plain; charset=utf-8"@)
                        && r.spec_body().spec_buffered() == Some(encode_utf8(e.spec_message())),
                    MultipartError::Text(m) => crate::response::pending_error_response(r, 400,
                        "request.multipart.invalid_text"@, m@),
                })
    }

    /// `415` for the content type, `400` for the boundary, the framing and
    /// text, each as a pending error; a stream failure as its own response.
    fn into_response(self) -> (r: Response)
        ensures
            match self {
                MultipartError::ContentType => crate::response::pending_error_response(r, 415,
                    "request.content_type.unsupported"@, "expected multipart/form-data request body"@),
                MultipartError::Boundary => crate::response::pending_error_response(r, 400,
                    "request.multipart.invalid_boundary"@, "multipart boundary is missing or invalid"@),
                MultipartError::Malformed => crate::response::pending_error_response(r, 400,
                    "request.multipart.invalid"@, "multipart request body is malformed"@),
                MultipartError::Stream(e) => r.spec_status() == e.spec_status()
                    && r.spec_headers() == Response::typed("text/plain; charset=utf-8"@)
                    && r.spec_body().spec_buffered() == Some(encode_utf8(e.spec_message())),
                MultipartError::Text(m) => crate::response::pending_error_response(r, 400,
                    "request.multipart.invalid_text"@, m@),
            },
    {
        match self {
            MultipartError::ContentType => Response::pending_error(Error::new(
                415,
                "request.content_type.unsupported".to_owned(),
                "expected multipart/form-data request body".to_owned(),
            )),
            MultipartError::Boundary => Response::pending_error(Error::new(
                400,
                "request.multipart.invalid_boundary".to_owned(),
                "multipart boundary is missing or invalid".to_owned(),
            )),
            MultipartError::Malformed => Response::pending_error(Error::new(
                400,
                "request.multipart.invalid".to_owned(),
                "multipart request body is malformed".to_owned(),
            )),
            MultipartError::Stream(error) => error.into_response(),
            MultipartError::Text(message) => Response::pending_error(Error::new(
                400,
                "request.multipart.invalid_text".to_owned(),
                message,
            )),
        }
    }
}

/// Parses the header block of a part: UTF-8 text whose `\r\n`-separated
/// lines each hold a `:` between a name and a value.
pub fn parse_headers(bytes: &[u8]) -> (r: Result<Headers, MultipartError>)
    ensures
        match r {
            Ok(h) => valid_utf8(bytes@) && all_header_lines(crlf_lines(decode_utf8(bytes@))) && h.entries() == header_block(
                crlf_lines(decode_utf8(bytes@)),
            ),
            Err(e) => e is Malformed && !(valid_utf8(bytes@) && all_header_lines(crlf_lines(decode_utf8(bytes@)))),
        },
{
    let text = match str_from_utf8(bytes) {
        Some(t) => t,
        None => {
            return Err(MultipartError::Malformed);
        },
    };
    let chars = chars_of(text);
    let lines = split_lines(chars.as_slice());
    let ghost ls = lines@.map_values(|l: Vec<char>| l@);
    let mut headers = Headers::new();
    let mut i: usize = 0;
    while i < lines.len()
        invariant
            i <= lines@.len(),
            ls == lines@.map_values(|l: Vec<char>| l@),
            ls == crlf_lines(decode_utf8(bytes@)),
            valid_utf8(bytes@),
            forall|k: int| 0 <= k < i ==> (#[trigger] header_line(ls[k])) is Some,
            headers.entries() == header_block(ls.take(i as int)),
        decreases lines@.len() - i,
    {
        let line = lines[i].as_slice();
        assert(line@ == ls[i as int]);
        let colon = match index_of(line, ':', 0) {
            Some(c) => c,
            None => {
                assert(header_line(ls[i as int]) is None);
                assert(!all_header_lines(ls));
                return Err(MultipartError::Malformed);
            },
        };
        proof {
            lemma_first_index(line@, ':', 0);
            assert(first_index_of(line@, ':', 0) == Some(colon as int));
        }
        assert(colon < line.len());
        let name = trim_chars(vstd::slice::slice_subrange(line, 0, colon));
        let value = trim_chars(vstd::slice::slice_subrange(line, colon + 1, line.len()));
        let value_text = string_of(value.as_slice());
        headers.append_unchecked(string_of(name.as_slice()), utf8_bytes(value_text.as_str()));
        proof {
            assert(line@.subrange(0, colon as int) =~= line@.take(colon as int));
            assert(line@.subrange(colon + 1, line@.len() as int) =~= line@.skip(colon + 1));
            assert(header_block(ls.take(i + 1)) =~= header_block(ls.take(i as int)).push(header_line(ls[i as int])->0));
        }
        i += 1;
    }
    proof {
        assert(ls.take(ls.len() as int) =~= ls);
    }
    Ok(headers)
}

/// The index just past the leading `"` characters of `s` from `i`.
pub open spec fn quote_lead(s: Seq<char>, i: int) -> int
    decreases s.len() - i,
{
    if i < 0 || i >= s.len() || s[i] != '"' {
        i
    } else {
        quote_lead(s, i + 1)
    }
}

/// The end of `s` before `j` once trailing `"` characters are dropped.
pub open spec fn quote_trail(s: Seq<char>, lo: int, j: int) -> int
    decreases j - lo,
{
    if j <= lo || j > s.len() || s[j - 1] != '"' {
        j
    } else {
        quote_trail(s, lo, j - 1)
    }
}

/// `s` without leading and trailing `"` characters.
pub open spec fn trim_quotes(s: Seq<char>) -> Seq<char> {
    let a = quote_lead(s, 0);
    if a >= s.len() {
        Seq::empty()
    } else {
        s.subrange(a, quote_trail(s, a, s.len() as int))
    }
}

proof fn lemma_quote_lead(s: Seq<char>, i: int)
    requires
        0 <= i <= s.len(),
    ensures
        i <= quote_lead(s, i) <= s.len(),
    decreases s.len() - i,
{
    if i < s.len() && s[i] == '"' {
        lemma_quote_lead(s, i + 1);
    }
}

proof fn lemma_quote_trail(s: Seq<char>, lo: int, j: int)
    requires
        0 <= lo <= j <= s.len(),
    ensures
        lo <= quote_trail(s, lo, j) <= j,
    decreases j - lo,
{
    if j > lo && s[j - 1] == '"' {
        lemma_quote_trail(s, lo, j - 1);
    }
}

/// `s` without leading and trailing `"` characters.
pub fn trim_quote_chars(s: &[char]) -> (r: Vec<char>)
    ensures
        r@ == trim_quotes(s@),
{
    let mut a: usize = 0;
    while a < s.len() && s[a] == '"'
        invariant
            a <= s@.len(),
            quote_lead(s@, 0) == quote_lead(s@, a as int),
        decreases s@.len() - a,
    {
        a += 1;
    }
    if a >= s.len() {
        return Vec::new();
    }
    let mut b: usize = s.len();
    while b > a && s[b - 1] == '"'
        invariant
            a <= b <= s@.len(),
            quote_trail(s@, a as int, s@.len() as int) == quote_trail(s@, a as int, b as int),
        decreases b,
    {
        b -= 1;
    }
    crate::text::copy_chars(vstd::slice::slice_subrange(s, a, b))
}

/// The value of the first parameter of `params` whose trimmed name matches
/// `expected` regardless of case: the text after its first `=`, trimmed and
/// without surrounding quotes.
pub open spec fn parameter_value(params: Seq<Seq<char>>, expected: Seq<char>) -> Option<Seq<char>>
    decreases params.len(),
{
    if params.len() == 0 {
        None
    } else {
        let t = trim(params[0]);
        match first_index_of(t, '=', 0) {
            Some(e) => if eq_ignore_case(trim(t.take(e)), expected) {
                Some(trim_quotes(trim(t.skip(e + 1))))
            } else {
                parameter_value(params.drop_first(), expected)
            },
            None => parameter_value(params.drop_first(), expected),
        }
    }
}

/// The value of the parameter `expected` among the `;`-separated
/// parameters of `parts` from index `from` on.
fn find_parameter(parts: &Vec<Vec<char>>, from: usize, expected: &str) -> (r: Option<Vec<char>>)
    requires
        from <= parts@.len(),
    ensures
        match r {
            Some(v) => parameter_value(parts@.map_values(|p: Vec<char>| p@).skip(from as int), expected@) == Some(v@),
            None => parameter_value(parts@.map_values(|p: Vec<char>| p@).skip(from as int), expected@) is None,
        },
    decreases parts@.len() - from,
{
    let ghost ps = parts@.map_values(|p: Vec<char>| p@).skip(from as int);
    if from >= parts.len() {
        return None;
    }
    assert(ps[0] == parts@[from as int]@);
    assert(ps.drop_first() =~= parts@.map_values(|p: Vec<char>| p@).skip(from + 1));
    let t = trim_chars(parts[from].as_slice());
    match index_of(t.as_slice(), '=', 0) {
        Some(e) => {
            proof {
                lemma_first_index(t@, '=', 0);
            }
            let name = trim_chars(vstd::slice::slice_subrange(t.as_slice(), 0, e));
            let name_text = string_of(name.as_slice());
            assert(t@.subrange(0, e as int) =~= t@.take(e as int));
            if eq_ignore_ascii_case(name_text.as_str(), expected) {
                let value = trim_chars(vstd::slice::slice_subrange(t.as_slice(), e + 1, t.len()));
                assert(t@.subrange(e + 1, t@.len() as int) =~= t@.skip(e + 1));
                Some(trim_quote_chars(value.as_slice()))
            } else {
                find_parameter(parts, from + 1, expected)
            }
        },
        None => find_parameter(parts, from + 1, expected),
    }
}

/// The parameter `expected` of a `Content-Disposition` value: after the
/// first `;`-separated part, the first parameter whose trimmed name matches
/// regardless of case, trimmed and without surrounding quotes.
pub fn disposition_parameter(value: &str, expected: &str) -> (r: Option<String>)
    ensures
        match parameter_value(split_with(value@, ';').drop_first(), expected@) {
            Some(v) => r matches Some(s) && s@ == v,
            None => r is None,
        },
{
    let chars = chars_of(value);
    let parts = split_chars(chars.as_slice(), ';');
    proof {
        crate::text::lemma_split_nonempty(value@, ';');
        assert(parts@.map_values(|p: Vec<char>| p@).skip(1) =~= split_with(value@, ';').drop_first());
    }
    match find_parameter(&parts, 1, expected) {
        Some(v) => Some(string_of(v.as_slice())),
        None => None,
    }
}

/// The boundary of a `multipart/form-data` content type: the first
/// `boundary` parameter, which must be non-empty and at most 70 bytes.
pub open spec fn boundary_of(content_type: Option<Seq<char>>) -> Result<Seq<u8>, ()> {
    match content_type {
        None => Err(()),
        Some(t) => if !eq_ignore_case(media_type(t), "multipart/form-data"@) {
            Err(())
        } else {
            match parameter_value(split_with(t, ';').drop_first(), "boundary"@) {
                Some(v) => if v.len() > 0 && encode_utf8(v).len() <= 70 {
                    Ok(encode_utf8(v))
                } else {
                    Err(())
                },
                None => Err(()),
            }
        },
    }
}

/// The boundary of a request body from its content type.
pub fn multipart_boundary(content_type: Option<&str>) -> (r: Result<Vec<u8>, MultipartError>)
    ensures
        match content_type {
            None => r matches Err(MultipartError::ContentType),
            Some(t) => if !eq_ignore_case(media_type(t@), "multipart/form-data"@) {
                r matches Err(MultipartError::ContentType)
            } else {
                match boundary_of(Some(t@)) {
                    Ok(b) => r matches Ok(v) && v@ == b,
                    Err(()) => r matches Err(MultipartError::Boundary),
                }
            },
        },
{
    let text = match content_type {
        Some(t) => t,
        None => {
            return Err(MultipartError::ContentType);
        },
    };
    let chars = chars_of(text);
    let parts = split_chars(chars.as_slice(), ';');
    proof {
        crate::text::lemma_split_nonempty(text@, ';');
    }
    let media = trim_chars(parts[0].as_slice());
    let media_text = string_of(media.as_slice());
    if !eq_ignore_ascii_case(media_text.as_str(), "multipart/form-data") {
        return Err(MultipartError::ContentType);
    }
    proof {
        assert(parts@.map_values(|p: Vec<char>| p@).skip(1) =~= split_with(text@, ';').drop_first());
    }
    match find_parameter(&parts, 1, "boundary") {
        Some(v) => {
            let value = string_of(v.as_slice());
            let bytes = utf8_bytes(value.as_str());
            if v.len() > 0 && bytes.len() <= 70 {
                Ok(bytes)
            } else {
                Err(MultipartError::Boundary)
            }
        },
        None => Err(MultipartError::Boundary),
    }
}

/// The message of `std::str::from_utf8`'s error for `bytes`, which are not
/// UTF-8.
pub uninterp spec fn utf8_error_text(bytes: Seq<u8>) -> Seq<char>;

/// `std::str::from_utf8`'s error, as its message, for bytes that are not
/// UTF-8.
#[verifier::external_body]
fn utf8_error_message(bytes: &[u8]) -> (r: String)
    requires
        !valid_utf8(bytes@),
    ensures
        r@ == utf8_error_text(bytes@),
{
    std::str::from_utf8(bytes).unwrap_err().to_string()
}

/// A field's content as text.
pub fn field_text(bytes: Vec<u8>) -> (r: Result<String, MultipartError>)
    ensures
        valid_utf8(bytes@) ==> (r matches Ok(s) && s@ == decode_utf8(bytes@)),
        !valid_utf8(bytes@) ==> (r matches Err(MultipartError::Text(m)) && m@ == utf8_error_text(bytes@)),
{
    let message = if str_from_utf8(bytes.as_slice()).is_none() {
        Some(utf8_error_message(bytes.as_slice()))
    } else {
        None
    };
    match message {
        Some(m) => Err(MultipartError::Text(m)),
        None => match string_from_utf8(bytes) {
            Some(s) => Ok(s),
            None => Err(MultipartError::Malformed),
        },
    }
}


/// A part of a multipart body: its headers, and the `name`, `filename` and
/// content type they give.
#[derive(Debug)]
pub struct MultipartField {
    headers: Headers,
    name: Option<String>,
    file_name: Option<String>,
    content_type: Option<String>,
}

/// The text of the first header named `name`, when it is UTF-8.
pub open spec fn header_text(entries: HeaderEntries, name: Seq<char>) -> Option<Seq<char>> {
    match first_named(entries, name, 0) {
        Some(i) => if valid_utf8(entries[i].1) {
            Some(decode_utf8(entries[i].1))
        } else {
            None
        },
        None => None,
    }
}

/// A `Content-Disposition` parameter of a part with these headers.
pub open spec fn disposition_of(entries: HeaderEntries, expected: Seq<char>) -> Option<Seq<char>> {
    match header_text(entries, "content-disposition"@) {
        Some(d) => parameter_value(split_with(d, ';').drop_first(), expected),
        None => None,
    }
}

fn header_str<'a>(headers: &'a Headers, name: &str) -> (r: Option<&'a str>)
    ensures
        match header_text(headers.entries(), name@) {
            Some(t) => r matches Some(s) && s@ == t,
            None => r is None,
        },
{
    match headers.get(name) {
        Some(v) => str_from_utf8(v),
        None => None,
    }
}

impl MultipartField {
    pub closed spec fn spec_headers(&self) -> HeaderEntries {
        self.headers.entries()
    }

    pub closed spec fn spec_name(&self) -> Option<Seq<char>> {
        match self.name {
            Some(n) => Some(n@),
            None => None,
        }
    }

    pub closed spec fn spec_file_name(&self) -> Option<Seq<char>> {
        match self.file_name {
            Some(n) => Some(n@),
            None => None,
        }
    }

    pub closed spec fn spec_content_type(&self) -> Option<Seq<char>> {
        match self.content_type {
            Some(n) => Some(n@),
            None => None,
        }
    }

    /// The part described by `headers`.
    pub fn from_headers(headers: Headers) -> (r: MultipartField)
        ensures
            r.spec_headers() == headers.entries(),
            r.spec_name() == disposition_of(headers.entries(), "name"@),
            r.spec_file_name() == disposition_of(headers.entries(), "filename"@),
            r.spec_content_type() == header_text(headers.entries(), "content-type"@),
    {
        let (name, file_name) = match header_str(&headers, "content-disposition") {
            Some(d) => (disposition_parameter(d, "name"), disposition_parameter(d, "filename")),
            None => (None, None),
        };
        let content_type = match header_str(&headers, "content-type") {
            Some(t) => Some(t.to_owned()),
            None => None,
        };
        MultipartField { headers, name, file_name, content_type }
    }

    pub fn headers(&self) -> (r: &Headers)
        ensures
            r.entries() == self.spec_headers(),
    {
        &self.headers
    }

    pub fn name(&self) -> (r: Option<&str>)
        ensures
            match self.spec_name() {
                Some(n) => r matches Some(s) && s@ == n,
                None => r is None,
            },
    {
        match &self.name {
            Some(n) => Some(n.as_str()),
            None => None,
        }
    }

    pub fn file_name(&self) -> (r: Option<&str>)
        ensures
            match self.spec_file_name() {
                Some(n) => r matches Some(s) && s@ == n,
                None => r is None,
            },
    {
        match &self.file_name {
            Some(n) => Some(n.as_str()),
            None => None,
        }
    }

    pub fn content_type(&self) -> (r: Option<&str>)
        ensures
            match self.spec_content_type() {
                Some(n) => r matches Some(s) && s@ == n,
                None => r is None,
            },
    {
        match &self.content_type {
            Some(n) => Some(n.as_str()),
            None => None,
        }
    }
}

/// The largest header block a part may have, in bytes.
pub const MAX_HEADER_BLOCK: usize = 65536;

/// A multipart body being read: the delimiter (`\r\n--` and the
/// boundary), the bytes received and not yet consumed, and where the
/// reader stands: before the first boundary, between a boundary and what
/// follows it, inside a header block, inside a field, or finished.
pub struct Multipart {
    delimiter: Vec<u8>,
    buffer: Vec<u8>,
    started: bool,
    awaiting_headers: bool,
    field_open: bool,
    done: bool,
}

/// What reading the next part gives.
pub enum FieldStep {
    /// More bytes are needed to go on.
    NeedMore,
    /// The next part.
    Field(MultipartField),
    /// No more parts.
    End,
    /// The body is not a valid multipart body; reading stops.
    Failed(MultipartError),
}

/// What reading the open field's content gives.
pub enum ChunkStep {
    /// More bytes are needed to go on.
    NeedMore,
    /// The next piece of the content.
    Chunk(Vec<u8>),
    /// The field has no more content.
    End,
}

/// What reading a fixed piece of framing gives.
pub enum Progress {
    NeedMore,
    Ready,
    Malformed,
}

/// What follows a boundary.
pub enum Separator {
    NeedMore,
    /// `--`: the body ends.
    Last,
    /// `\r\n`: a part follows.
    Next,
    Malformed,
}

/// What reading a part's header block gives.
pub enum HeaderStep {
    NeedMore,
    Headers(Headers),
    Malformed,
}

impl Multipart {
    pub closed spec fn spec_delimiter(&self) -> Seq<u8> {
        self.delimiter@
    }

    pub closed spec fn spec_buffer(&self) -> Seq<u8> {
        self.buffer@
    }

    pub closed spec fn spec_started(&self) -> bool {
        self.started
    }

    pub closed spec fn spec_awaiting_headers(&self) -> bool {
        self.awaiting_headers
    }

    pub closed spec fn spec_field_open(&self) -> bool {
        self.field_open
    }

    pub closed spec fn spec_done(&self) -> bool {
        self.done
    }

    /// The delimiter holds `\r\n--` and a non-empty boundary.
    pub open spec fn wf(&self) -> bool {
        self.spec_delimiter().len() >= 5
    }

    /// Where this reader stands.
    pub open spec fn state(&self) -> ReadState {
        ReadState {
            buffer: self.spec_buffer(),
            started: self.spec_started(),
            awaiting_headers: self.spec_awaiting_headers(),
            field_open: self.spec_field_open(),
            done: self.spec_done(),
        }
    }

    /// Whether only the buffer changed from `old`.
    pub open spec fn same_position(&self, old: &Multipart) -> bool {
        &&& self.spec_delimiter() == old.spec_delimiter()
        &&& self.spec_started() == old.spec_started()
        &&& self.spec_awaiting_headers() == old.spec_awaiting_headers()
        &&& self.spec_field_open() == old.spec_field_open()
        &&& self.spec_done() == old.spec_done()
    }

    /// A reader for a body with boundary `boundary`.
    pub fn new(boundary: &[u8]) -> (r: Multipart)
        requires
            boundary@.len() >= 1,
        ensures
            r.wf(),
            r.spec_delimiter() == seq![13u8, 10u8, 45u8, 45u8] + boundary@,
            r.spec_buffer().len() == 0,
            !r.spec_started() && !r.spec_awaiting_headers() && !r.spec_field_open() && !r.spec_done(),
    {
        let mut delimiter: Vec<u8> = vec![13u8, 10u8, 45u8, 45u8];
        let mut i: usize = 0;
        while i < boundary.len()
            invariant
                i <= boundary@.len(),
                delimiter@ == seq![13u8, 10u8, 45u8, 45u8] + boundary@.take(i as int),
            decreases boundary@.len() - i,
        {
            delimiter.push(boundary[i]);
            assert(boundary@.take(i + 1) =~= boundary@.take(i as int).push(boundary@[i as int]));
            i += 1;
        }
        assert(boundary@.take(boundary@.len() as int) =~= boundary@);
        Multipart { delimiter, buffer: Vec::new(), started: false, awaiting_headers: false, field_open: false, done: false }
    }

    /// A reader for a request body with this content type.
    pub fn from_content_type(content_type: Option<&str>) -> (r: Result<Multipart, MultipartError>)
        ensures
            match content_type {
                None => r matches Err(MultipartError::ContentType),
                Some(t) => if !eq_ignore_case(media_type(t@), "multipart/form-data"@) {
                    r matches Err(MultipartError::ContentType)
                } else {
                    match boundary_of(Some(t@)) {
                        Ok(b) => r matches Ok(p) && p.wf() && p.spec_delimiter() == seq![13u8, 10u8, 45u8, 45u8] + b
                            && p.spec_buffer().len() == 0 && !p.spec_started() && !p.spec_field_open() && !p.spec_done()
                            && !p.spec_awaiting_headers(),
                        Err(()) => r matches Err(MultipartError::Boundary),
                    }
                },
            },
    {
        match multipart_boundary(content_type) {
            Ok(b) => Ok(Multipart::new(b.as_slice())),
            Err(e) => Err(e),
        }
    }

    /// Adds received bytes.
    pub fn feed(&mut self, chunk: &[u8])
        ensures
            final(self).spec_buffer() == old(self).spec_buffer() + chunk@,
            final(self).same_position(old(self)),
    {
        let mut i: usize = 0;
        let ghost base = self.buffer@;
        while i < chunk.len()
            invariant
                i <= chunk@.len(),
                self.buffer@ == base + chunk@.take(i as int),
                self.delimiter == old(self).delimiter,
                self.started == old(self).started,
                self.awaiting_headers == old(self).awaiting_headers,
                self.field_open == old(self).field_open,
                self.done == old(self).done,
            decreases chunk@.len() - i,
        {
            self.buffer.push(chunk[i]);
            assert(chunk@.take(i + 1) =~= chunk@.take(i as int).push(chunk@[i as int]));
            i += 1;
        }
        assert(chunk@.take(chunk@.len() as int) =~= chunk@);
    }

    /// Stops reading: the body ended early or could not be read.
    pub fn fail(&mut self)
        ensures
            final(self).spec_done(),
            !final(self).spec_field_open(),
            final(self).spec_buffer() == old(self).spec_buffer(),
            final(self).spec_delimiter() == old(self).spec_delimiter(),
    {
        self.done = true;
        self.field_open = false;
    }

    /// Drops the first `n` buffered bytes.
    fn consume(&mut self, n: usize)
        requires
            n <= old(self).spec_buffer().len(),
        ensures
            final(self).spec_buffer() == old(self).spec_buffer().skip(n as int),
            final(self).same_position(old(self)),
            is_rest_of(final(self).spec_buffer(), old(self).spec_buffer()),
    {
        let mut rest: Vec<u8> = Vec::new();
        let mut i: usize = n;
        while i < self.buffer.len()
            invariant
                n <= i <= self.buffer@.len(),
                self.buffer@ == old(self).buffer@,
                rest@ == self.buffer@.subrange(n as int, i as int),
            decreases self.buffer@.len() - i,
        {
            rest.push(self.buffer[i]);
            assert(self.buffer@.subrange(n as int, i + 1) =~= self.buffer@.subrange(n as int, i as int).push(self.buffer@[i as int]));
            i += 1;
        }
        assert(rest@ =~= old(self).buffer@.skip(n as int));
        self.buffer = rest;
        assert(old(self).buffer@.skip(old(self).buffer@.len() - self.buffer@.len()) =~= self.buffer@);
    }

    /// The first `n` buffered bytes.
    fn front(&self, n: usize) -> (r: Vec<u8>)
        requires
            n <= self.spec_buffer().len(),
        ensures
            r@ == self.spec_buffer().take(n as int),
    {
        let r = vstd::slice::slice_to_vec(vstd::slice::slice_subrange(self.buffer.as_slice(), 0, n));
        assert(self.buffer@.subrange(0, n as int) =~= self.buffer@.take(n as int));
        r
    }

    /// Reads the next piece of the open field's content: the bytes before
    /// the delimiter when it has arrived (closing the field), otherwise all
    /// but the last bytes that could still begin a delimiter.
    pub fn next_chunk(&mut self) -> (r: ChunkStep)
        requires
            old(self).wf(),
        ensures
            final(self).wf(),
            final(self).spec_delimiter() == old(self).spec_delimiter(),
            final(self).spec_started() == old(self).spec_started(),
            final(self).spec_awaiting_headers() == old(self).spec_awaiting_headers(),
            final(self).spec_done() == old(self).spec_done(),
            ({
                let b = old(self).spec_buffer();
                let d = old(self).spec_delimiter();
                let keep = d.len() - 1;
                if !old(self).spec_field_open() {
                    r is End && final(self).spec_buffer() == b && !final(self).spec_field_open()
                } else {
                    match first_occurrence(b, d) {
                        Some(i) => {
                            &&& final(self).spec_buffer() == b.skip(i + d.len())
                            &&& !final(self).spec_field_open()
                            &&& if i == 0 {
                                r is End
                            } else {
                                r matches ChunkStep::Chunk(c) && c@ == b.take(i)
                            }
                        },
                        None => if b.len() > keep {
                            &&& r matches ChunkStep::Chunk(c) && c@ == b.take(b.len() - keep)
                            &&& final(self).spec_buffer() == b.skip(b.len() - keep)
                            &&& final(self).spec_field_open()
                        } else {
                            r is NeedMore && final(self).spec_buffer() == b && final(self).spec_field_open()
                        },
                    }
                }
            }),
            r matches ChunkStep::Chunk(c) ==> c@.len() > 0,
            final(self).spec_field_open() ==> (r matches ChunkStep::Chunk(c) ==> forall|f: Seq<u8>, j: int|
                0 <= j < c@.len() ==> !occurs_at(old(self).spec_buffer() + f, old(self).spec_delimiter(), j)),
    {
        if !self.field_open {
            return ChunkStep::End;
        }
        let n = self.delimiter.len();
        match find_bytes(self.buffer.as_slice(), self.delimiter.as_slice()) {
            Some(i) => {
                proof {
                    lemma_first_from(self.buffer@, self.delimiter@, 0);
                    assert(occurs_at(self.buffer@, self.delimiter@, i as int));
                }
                assert(i + n <= self.buffer.len());
                let bytes = self.front(i);
                self.consume(i + n);
                self.field_open = false;
                if i == 0 {
                    ChunkStep::End
                } else {
                    ChunkStep::Chunk(bytes)
                }
            },
            None => {
                let keep = n - 1;
                if self.buffer.len() > keep {
                    let available = self.buffer.len() - keep;
                    let bytes = self.front(available);
                    proof {
                        let b = old(self).buffer@;
                        let d = old(self).delimiter@;
                        lemma_first_from(b, d, 0);
                        assert forall|f: Seq<u8>, j: int| 0 <= j < available implies !occurs_at(b + f, d, j) by {
                            assert(j + d.len() <= b.len());
                            assert(!occurs_at(b, d, j));
                            assert((b + f).subrange(j, j + d.len()) =~= b.subrange(j, j + d.len()));
                        }
                    }
                    self.consume(available);
                    ChunkStep::Chunk(bytes)
                } else {
                    ChunkStep::NeedMore
                }
            },
        }
    }
}


/// Whether `tail` is what remains of `whole` after some bytes were taken
/// from its front.
pub open spec fn is_rest_of(tail: Seq<u8>, whole: Seq<u8>) -> bool {
    tail.len() <= whole.len() && whole.skip(whole.len() - tail.len()) == tail
}

proof fn lemma_rest_self(a: Seq<u8>)
    ensures
        is_rest_of(a, a),
{
    assert(a.skip(0) =~= a);
}

proof fn lemma_rest_of(a: Seq<u8>, b: Seq<u8>, c: Seq<u8>)
    requires
        is_rest_of(b, a),
        is_rest_of(c, b),
    ensures
        is_rest_of(c, a),
{
    assert forall|i: int| 0 <= i < c.len() implies a.skip(a.len() - c.len())[i] == c[i] by {
        assert(c[i] == b.skip(b.len() - c.len())[i]);
        assert(b[b.len() - c.len() + i] == a.skip(a.len() - b.len())[b.len() - c.len() + i]);
    }
    assert(a.skip(a.len() - c.len()) =~= c);
}

/// Where a reader stands, as values: the bytes not yet consumed and the
/// flags of `Multipart`.
pub struct ReadState {
    pub buffer: Seq<u8>,
    pub started: bool,
    pub awaiting_headers: bool,
    pub field_open: bool,
    pub done: bool,
}

/// What reading up to the next part gives, as values: a part by its header
/// entries.
pub enum NextPart {
    NeedMore,
    Field(HeaderEntries),
    End,
    Malformed,
}

/// What reading a header block gives, as values.
pub enum HeaderRead {
    NeedMore,
    Headers(HeaderEntries),
    Malformed,
}

/// Skipping the rest of an open field under delimiter `d`: whether the
/// field closed, and the state after.
pub open spec fn close_step(d: Seq<u8>, s: ReadState) -> (bool, ReadState) {
    if !s.field_open {
        (true, s)
    } else {
        match first_occurrence(s.buffer, d) {
            Some(i) => (true, ReadState { buffer: s.buffer.skip(i + d.len()), field_open: false, ..s }),
            None => (false, ReadState {
                buffer: if s.buffer.len() > d.len() - 1 {
                    s.buffer.skip(s.buffer.len() - (d.len() - 1))
                } else {
                    s.buffer
                },
                ..s
            }),
        }
    }
}

/// Reading the first boundary (the delimiter without its leading `\r\n`).
pub open spec fn preamble_step(d: Seq<u8>, s: ReadState) -> (Progress, ReadState) {
    let first = d.skip(2);
    if s.started {
        (Progress::Ready, s)
    } else if s.buffer.len() < first.len() {
        (Progress::NeedMore, s)
    } else if s.buffer.take(first.len() as int) != first {
        (Progress::Malformed, s)
    } else {
        (Progress::Ready, ReadState { buffer: s.buffer.skip(first.len() as int), started: true, ..s })
    }
}

/// Reading what follows a boundary.
pub open spec fn separator_step(s: ReadState) -> (Separator, ReadState) {
    let b = s.buffer;
    if b.len() < 2 {
        (Separator::NeedMore, s)
    } else if b[0] == 45u8 && b[1] == 45u8 {
        (Separator::Last, ReadState { buffer: b.skip(2), ..s })
    } else if b[0] == 13u8 && b[1] == 10u8 {
        (Separator::Next, ReadState { buffer: b.skip(2), awaiting_headers: true, ..s })
    } else {
        (Separator::Malformed, s)
    }
}

/// Reading a part's header block.
pub open spec fn headers_step(s: ReadState) -> (HeaderRead, ReadState) {
    let b = s.buffer;
    let blank = seq![13u8, 10u8, 13u8, 10u8];
    match first_occurrence(b, blank) {
        None => (if b.len() > MAX_HEADER_BLOCK { HeaderRead::Malformed } else { HeaderRead::NeedMore }, s),
        Some(e) => {
            let block = b.take(e);
            let after = ReadState { buffer: b.skip(e + 4), awaiting_headers: false, ..s };
            if valid_utf8(block) && all_header_lines(crlf_lines(decode_utf8(block))) {
                (HeaderRead::Headers(header_block(crlf_lines(decode_utf8(block)))), after)
            } else {
                (HeaderRead::Malformed, after)
            }
        },
    }
}

/// Reading up to the next part from state `s` under delimiter `d`: skip the
/// rest of an open field, read the first boundary once, read what follows a
/// boundary, then the part's header block. A final boundary or malformed
/// framing finishes the reader.
pub open spec fn next_part(d: Seq<u8>, s: ReadState) -> (NextPart, ReadState) {
    if s.done {
        (NextPart::End, s)
    } else {
        let (closed, s1) = close_step(d, s);
        if !closed {
            (NextPart::NeedMore, s1)
        } else {
            let (p, s2) = preamble_step(d, s1);
            match p {
                Progress::NeedMore => (NextPart::NeedMore, s2),
                Progress::Malformed => (NextPart::Malformed, ReadState { done: true, ..s2 }),
                Progress::Ready => {
                    let (sep, s3) = if s2.awaiting_headers {
                        (Separator::Next, s2)
                    } else {
                        separator_step(s2)
                    };
                    match sep {
                        Separator::NeedMore => (NextPart::NeedMore, s3),
                        Separator::Last => (NextPart::End, ReadState { done: true, ..s3 }),
                        Separator::Malformed => (NextPart::Malformed, ReadState { done: true, ..s3 }),
                        Separator::Next => {
                            let (h, s4) = headers_step(s3);
                            match h {
                                HeaderRead::NeedMore => (NextPart::NeedMore, s4),
                                HeaderRead::Malformed => (NextPart::Malformed, ReadState { done: true, ..s4 }),
                                HeaderRead::Headers(entries) => (NextPart::Field(entries), ReadState {
                                    field_open: true,
                                    ..s4
                                }),
                            }
                        },
                    }
                },
            }
        }
    }
}

impl Multipart {
    /// Skips what remains of the open field, through its closing delimiter
    /// once that has arrived.
    pub fn close_field(&mut self) -> (closed: bool)
        requires
            old(self).wf(),
        ensures
            final(self).wf(),
            is_rest_of(final(self).spec_buffer(), old(self).spec_buffer()),
            final(self).spec_delimiter() == old(self).spec_delimiter(),
            final(self).spec_started() == old(self).spec_started(),
            final(self).spec_awaiting_headers() == old(self).spec_awaiting_headers(),
            final(self).spec_done() == old(self).spec_done(),
            ({
                let b = old(self).spec_buffer();
                let d = old(self).spec_delimiter();
                if !old(self).spec_field_open() {
                    closed && final(self).spec_buffer() == b && !final(self).spec_field_open()
                } else {
                    match first_occurrence(b, d) {
                        Some(i) => closed && final(self).spec_buffer() == b.skip(i + d.len()) && !final(self).spec_field_open(),
                        None => !closed && final(self).spec_field_open() && final(self).spec_buffer() == if b.len() > d.len() - 1 {
                            b.skip(b.len() - (d.len() - 1))
                        } else {
                            b
                        },
                    }
                }
            }),
    {
        proof {
            lemma_rest_self(self.buffer@);
        }
        if !self.field_open {
            return true;
        }
        let n = self.delimiter.len();
        match find_bytes(self.buffer.as_slice(), self.delimiter.as_slice()) {
            Some(i) => {
                proof {
                    lemma_first_from(self.buffer@, self.delimiter@, 0);
                    assert(occurs_at(self.buffer@, self.delimiter@, i as int));
                }
                assert(i + n <= self.buffer.len());
                self.consume(i + n);
                self.field_open = false;
                true
            },
            None => {
                let keep = n - 1;
                if self.buffer.len() > keep {
                    let available = self.buffer.len() - keep;
                    self.consume(available);
                }
                false
            },
        }
    }

    /// Reads the first boundary, `--` and the boundary, at the start of the
    /// body.
    pub fn read_preamble(&mut self) -> (r: Progress)
        requires
            old(self).wf(),
        ensures
            final(self).wf(),
            is_rest_of(final(self).spec_buffer(), old(self).spec_buffer()),
            final(self).spec_delimiter() == old(self).spec_delimiter(),
            final(self).spec_awaiting_headers() == old(self).spec_awaiting_headers(),
            final(self).spec_field_open() == old(self).spec_field_open(),
            final(self).spec_done() == old(self).spec_done(),
            ({
                let b = old(self).spec_buffer();
                let first = old(self).spec_delimiter().skip(2);
                if old(self).spec_started() {
                    r is Ready && final(self).spec_buffer() == b && final(self).spec_started()
                } else if b.len() < first.len() {
                    r is NeedMore && final(self).spec_buffer() == b && !final(self).spec_started()
                } else if b.take(first.len() as int) != first {
                    r is Malformed && final(self).spec_buffer() == b && !final(self).spec_started()
                } else {
                    r is Ready && final(self).spec_buffer() == b.skip(first.len() as int) && final(self).spec_started()
                }
            }),
    {
        proof {
            lemma_rest_self(self.buffer@);
        }
        if self.started {
            return Progress::Ready;
        }
        let need = self.delimiter.len() - 2;
        if self.buffer.len() < need {
            return Progress::NeedMore;
        }
        let first = vstd::slice::slice_subrange(self.delimiter.as_slice(), 2, self.delimiter.len());
        assert(first@ =~= self.delimiter@.skip(2));
        if !starts_with(self.buffer.as_slice(), first) {
            return Progress::Malformed;
        }
        self.consume(need);
        self.started = true;
        Progress::Ready
    }

    /// Reads what follows a boundary: `--` ends the body, `\r\n` opens a
    /// part's header block.
    pub fn read_separator(&mut self) -> (r: Separator)
        requires
            old(self).wf(),
        ensures
            final(self).wf(),
            is_rest_of(final(self).spec_buffer(), old(self).spec_buffer()),
            final(self).spec_delimiter() == old(self).spec_delimiter(),
            final(self).spec_started() == old(self).spec_started(),
            final(self).spec_field_open() == old(self).spec_field_open(),
            final(self).spec_done() == old(self).spec_done(),
            ({
                let b = old(self).spec_buffer();
                if b.len() < 2 {
                    r is NeedMore && final(self).spec_buffer() == b && final(self).spec_awaiting_headers()
                        == old(self).spec_awaiting_headers()
                } else if b[0] == 45u8 && b[1] == 45u8 {
                    r is Last && final(self).spec_buffer() == b.skip(2) && final(self).spec_awaiting_headers()
                        == old(self).spec_awaiting_headers()
                } else if b[0] == 13u8 && b[1] == 10u8 {
                    r is Next && final(self).spec_buffer() == b.skip(2) && final(self).spec_awaiting_headers()
                } else {
                    r is Malformed && final(self).spec_buffer() == b && final(self).spec_awaiting_headers()
                        == old(self).spec_awaiting_headers()
                }
            }),
    {
        proof {
            lemma_rest_self(self.buffer@);
        }
        if self.buffer.len() < 2 {
            return Separator::NeedMore;
        }
        if self.buffer[0] == 45u8 && self.buffer[1] == 45u8 {
            self.consume(2);
            return Separator::Last;
        }
        if self.buffer[0] == 13u8 && self.buffer[1] == 10u8 {
            self.consume(2);
            self.awaiting_headers = true;
            return Separator::Next;
        }
        Separator::Malformed
    }

    /// Reads a part's header block, up to the blank line that ends it.
    pub fn read_headers(&mut self) -> (r: HeaderStep)
        requires
            old(self).wf(),
        ensures
            final(self).wf(),
            is_rest_of(final(self).spec_buffer(), old(self).spec_buffer()),
            final(self).spec_delimiter() == old(self).spec_delimiter(),
            final(self).spec_started() == old(self).spec_started(),
            final(self).spec_field_open() == old(self).spec_field_open(),
            final(self).spec_done() == old(self).spec_done(),
            ({
                let b = old(self).spec_buffer();
                let blank = seq![13u8, 10u8, 13u8, 10u8];
                match first_occurrence(b, blank) {
                    None => final(self).spec_buffer() == b && final(self).spec_awaiting_headers() == old(self).spec_awaiting_headers()
                        && if b.len() > MAX_HEADER_BLOCK {
                        r is Malformed
                    } else {
                        r is NeedMore
                    },
                    Some(e) => {
                        let block = b.take(e);
                        &&& final(self).spec_buffer() == b.skip(e + 4)
                        &&& !final(self).spec_awaiting_headers()
                        &&& if valid_utf8(block) && all_header_lines(crlf_lines(decode_utf8(block))) {
                            r matches HeaderStep::Headers(h) && h.entries() == header_block(crlf_lines(decode_utf8(block)))
                        } else {
                            r is Malformed
                        }
                    },
                }
            }),
    {
        proof {
            lemma_rest_self(self.buffer@);
        }
        let blank: [u8; 4] = [13u8, 10u8, 13u8, 10u8];
        assert(blank@ =~= seq![13u8, 10u8, 13u8, 10u8]);
        match find_bytes(self.buffer.as_slice(), blank.as_slice()) {
            None => {
                if self.buffer.len() > MAX_HEADER_BLOCK {
                    HeaderStep::Malformed
                } else {
                    HeaderStep::NeedMore
                }
            },
            Some(e) => {
                proof {
                    lemma_first_from(self.buffer@, blank@, 0);
                    assert(occurs_at(self.buffer@, blank@, e as int));
                }
                assert(e + 4 <= self.buffer.len());
                let block = self.front(e);
                self.consume(e + 4);
                self.awaiting_headers = false;
                match parse_headers(block.as_slice()) {
                    Ok(h) => HeaderStep::Headers(h),
                    Err(_) => HeaderStep::Malformed,
                }
            },
        }
    }

    /// Reads up to the next part: skips what remains of an open field, then
    /// reads the boundary framing and the part's headers. Reading stops
    /// (`End` from then on) at the final boundary or at malformed framing.
    pub fn next_field(&mut self) -> (r: FieldStep)
        requires
            old(self).wf(),
        ensures
            final(self).wf(),
            final(self).spec_delimiter() == old(self).spec_delimiter(),
            is_rest_of(final(self).spec_buffer(), old(self).spec_buffer()),
            old(self).spec_done() ==> r is End && final(self).spec_buffer() == old(self).spec_buffer() && final(self).spec_done(),
            r matches FieldStep::Field(_) ==> final(self).spec_field_open() && !final(self).spec_done()
                && !final(self).spec_awaiting_headers() && final(self).spec_started(),
            r is End ==> final(self).spec_done(),
            r matches FieldStep::Failed(e) ==> e is Malformed && final(self).spec_done(),
            r is NeedMore ==> !final(self).spec_done(),
            !old(self).spec_done() && old(self).spec_field_open() && first_occurrence(old(self).spec_buffer(), old(self).spec_delimiter())
                is None ==> r is NeedMore && final(self).spec_field_open(),
            ({
                let (part, after) = next_part(old(self).spec_delimiter(), old(self).state());
                &&& final(self).state() == after
                &&& match part {
                    NextPart::NeedMore => r is NeedMore,
                    NextPart::End => r is End,
                    NextPart::Malformed => r matches FieldStep::Failed(e) && e is Malformed,
                    NextPart::Field(entries) => r matches FieldStep::Field(f) && f.spec_headers() == entries
                        && f.spec_name() == disposition_of(entries, "name"@)
                        && f.spec_file_name() == disposition_of(entries, "filename"@)
                        && f.spec_content_type() == header_text(entries, "content-type"@),
                }
            }),
    {
        if self.done {
            assert(self.buffer@.skip(0) =~= self.buffer@);
            return FieldStep::End;
        }
        let ghost start = self.buffer@;
        assert(start.skip(0) =~= start);
        if self.field_open {
            if !self.close_field() {
                return FieldStep::NeedMore;
            }
        }
        let ghost after_close = self.buffer@;
        if !self.started {
            match self.read_preamble() {
                Progress::NeedMore => {
                    proof { lemma_rest_of(start, after_close, self.buffer@); }
                    return FieldStep::NeedMore;
                },
                Progress::Malformed => {
                    self.done = true;
                    proof { lemma_rest_of(start, after_close, self.buffer@); }
                    return FieldStep::Failed(MultipartError::Malformed);
                },
                Progress::Ready => {},
            }
            proof { lemma_rest_of(start, after_close, self.buffer@); }
        }
        let ghost after_preamble = self.buffer@;
        if !self.awaiting_headers {
            match self.read_separator() {
                Separator::NeedMore => {
                    proof { lemma_rest_of(start, after_preamble, self.buffer@); }
                    return FieldStep::NeedMore;
                },
                Separator::Last => {
                    self.done = true;
                    proof { lemma_rest_of(start, after_preamble, self.buffer@); }
                    return FieldStep::End;
                },
                Separator::Malformed => {
                    self.done = true;
                    proof { lemma_rest_of(start, after_preamble, self.buffer@); }
                    return FieldStep::Failed(MultipartError::Malformed);
                },
                Separator::Next => {},
            }
            proof { lemma_rest_of(start, after_preamble, self.buffer@); }
        }
        let ghost before_headers = self.buffer@;
        let step = self.read_headers();
        proof { lemma_rest_of(start, before_headers, self.buffer@); }
        match step {
            HeaderStep::NeedMore => FieldStep::NeedMore,
            HeaderStep::Malformed => {
                self.done = true;
                FieldStep::Failed(MultipartError::Malformed)
            },
            HeaderStep::Headers(h) => {
                self.field_open = true;
                FieldStep::Field(MultipartField::from_headers(h))
            },
        }
    }
}

} // verus!
