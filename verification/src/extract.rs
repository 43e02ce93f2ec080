//! What handlers extract from a request: path, query and header values,
//! bodies, and the errors each extraction answers with.

use vstd::prelude::*;
use vstd::utf8::{encode_utf8, valid_utf8, decode_utf8};
use std::marker::PhantomData;
use std::sync::Arc;
use serde_json::Error as ParseError;
use crate::text::{chars_of, string_of, utf8_bytes, split_with, split_chars, eq_ignore_case, eq_ignore_ascii_case};
use crate::headers::{Headers, HeaderEntries, entries_view, first_named};
use crate::cookie::{trim, trim_chars};
use crate::decode::{FieldValues, Schema, first_index_of, issue_is, schema_policy};
use crate::schemaval::{DecodeOptions, UnknownFields, ValidationErrors, ValidationIssue, ValidationRule};
use crate::response::{Response, IntoResponse};

verus! {

/// The value of a hexadecimal digit.
pub open spec fn hex_value(b: u8) -> Option<u8> {
    if 48 <= b && b <= 57 {
        Some((b - 48) as u8)
    } else if 97 <= b && b <= 102 {
        Some((b - 87) as u8)
    } else if 65 <= b && b <= 70 {
        Some((b - 55) as u8)
    } else {
        None
    }
}

pub fn hex(byte: u8) -> (r: Option<u8>)
    ensures
        r == hex_value(byte),
{
    if 48 <= byte && byte <= 57 {
        Some(byte - 48)
    } else if 97 <= byte && byte <= 102 {
        Some(byte - 87)
    } else if 65 <= byte && byte <= 70 {
        Some(byte - 55)
    } else {
        None
    }
}

/// The ASCII hex digit for `i` (below 16), lower case or upper case.
pub open spec fn hex_char(i: int, lower: bool) -> u8 {
    if i < 10 {
        (48 + i) as u8
    } else if lower {
        (97 + i - 10) as u8
    } else {
        (65 + i - 10) as u8
    }
}

/// Hex digits carry their value, in either letter case, and nothing else is
/// a hex digit.
pub proof fn law_hex_digits(b: u8, i: int, lower: bool)
    ensures
        0 <= i < 16 ==> hex_value(hex_char(i, lower)) == Some(i as u8),
        hex_value(b) is Some <==> (48 <= b <= 57 || 65 <= b <= 70 || 97 <= b <= 102),
{
}

/// An escape `%xy` stands for the byte `16 * x + y`, whatever the letter
/// case of its digits, and decoding goes on after it.
pub proof fn law_escape_decodes(i: int, j: int, lower_i: bool, lower_j: bool, rest: Seq<u8>, plus_as_space: bool)
    requires
        0 <= i < 16,
        0 <= j < 16,
    ensures
        url_decode(seq![37u8, hex_char(i, lower_i), hex_char(j, lower_j)] + rest, plus_as_space) == match url_decode(
            rest,
            plus_as_space,
        ) {
            Some(r) => Some(seq![(16 * i + j) as u8] + r),
            None => None,
        },
{
    let s = seq![37u8, hex_char(i, lower_i), hex_char(j, lower_j)] + rest;
    law_hex_digits(0, i, lower_i);
    law_hex_digits(0, j, lower_j);
    assert(s[0] == 37u8 && s[1] == hex_char(i, lower_i) && s[2] == hex_char(j, lower_j));
    assert(s.skip(3) =~= rest);
}

/// A `+` stands for a space where `+` is read as one, and for itself
/// elsewhere; any byte other than `%` and `+` stands for itself.
pub proof fn law_plain_bytes_decode(c: u8, rest: Seq<u8>, plus_as_space: bool)
    requires
        c != 37u8,
    ensures
        url_decode(seq![c] + rest, plus_as_space) == match url_decode(rest, plus_as_space) {
            Some(r) => Some(seq![if c == 43u8 && plus_as_space { 32u8 } else { c }] + r),
            None => None,
        },
{
    assert((seq![c] + rest).skip(1) =~= rest);
}

/// The bytes a URL component denotes: `%XY` escapes decoded, and `+` read as
/// a space when `plus_as_space`; `None` for a `%` without two hex digits.
pub open spec fn url_decode(s: Seq<u8>, plus_as_space: bool) -> Option<Seq<u8>>
    decreases s.len(),
{
    if s.len() == 0 {
        Some(Seq::empty())
    } else if plus_as_space && s[0] == 43u8 {
        match url_decode(s.skip(1), plus_as_space) {
            Some(r) => Some(seq![32u8] + r),
            None => None,
        }
    } else if s[0] == 37u8 {
        if s.len() >= 3 && hex_value(s[1]) is Some && hex_value(s[2]) is Some {
            match url_decode(s.skip(3), plus_as_space) {
                Some(r) => Some(seq![(hex_value(s[1])->0 * 16 + hex_value(s[2])->0) as u8] + r),
                None => None,
            }
        } else {
            None
        }
    } else {
        match url_decode(s.skip(1), plus_as_space) {
            Some(r) => Some(seq![s[0]] + r),
            None => None,
        }
    }
}

/// Decodes a URL component.
pub fn decode_url_component(value: &str, plus_as_space: bool) -> (r: Result<Vec<u8>, ()>)
    ensures
        match url_decode(encode_utf8(value@), plus_as_space) {
            Some(d) => r matches Ok(v) && v@ == d,
            None => r is Err,
        },
{
    let bytes = utf8_bytes(value);
    let ghost s = bytes@;
    let mut decoded: Vec<u8> = Vec::new();
    let mut index: usize = 0;
    assert(s.skip(0) =~= s);
    while index < bytes.len()
        invariant
            s == bytes@,
            s == encode_utf8(value@),
            index <= s.len(),
            match url_decode(s.skip(index as int), plus_as_space) {
                Some(rest) => url_decode(s, plus_as_space) == Some(decoded@ + rest),
                None => url_decode(s, plus_as_space) is None,
            },
        decreases s.len() - index,
    {
        let ghost t = s.skip(index as int);
        let b = bytes[index];
        assert(t[0] == b && t.len() == s.len() - index);
        if plus_as_space && b == 43u8 {
            assert(t.skip(1) =~= s.skip(index + 1));
            decoded.push(32u8);
            index += 1;
            proof {
                if let Some(rest) = url_decode(s.skip(index as int), plus_as_space) {
                    assert(decoded@ + rest =~= old_push(decoded@, rest));
                }
            }
        } else if b == 37u8 {
            if bytes.len() - index < 3 {
                assert(url_decode(t, plus_as_space) is None);
                assert(url_decode(s, plus_as_space) is None);
                return Err(());
            }
            let high = hex(bytes[index + 1]);
            let low = hex(bytes[index + 2]);
            assert(t[1] == bytes@[index + 1] && t[2] == bytes@[index + 2]);
            match (high, low) {
                (Some(h), Some(l)) => {
                    assert(t.skip(3) =~= s.skip(index + 3));
                    assert(h < 16 && l < 16);
                    let v: u8 = h * 16 + l;
                    decoded.push(v);
                    index += 3;
                    proof {
                        if let Some(rest) = url_decode(s.skip(index as int), plus_as_space) {
                            assert(decoded@ + rest =~= old_push(decoded@, rest));
                        }
                    }
                },
                _ => {
                    assert(url_decode(t, plus_as_space) is None);
                    assert(url_decode(s, plus_as_space) is None);
                    return Err(());
                },
            }
        } else {
            assert(t.skip(1) =~= s.skip(index + 1));
            decoded.push(b);
            index += 1;
            proof {
                if let Some(rest) = url_decode(s.skip(index as int), plus_as_space) {
                    assert(decoded@ + rest =~= old_push(decoded@, rest));
                }
            }
        }
    }
    assert(s.skip(index as int) =~= Seq::<u8>::empty());
    assert(decoded@ + Seq::<u8>::empty() =~= decoded@);
    assert(url_decode(s, plus_as_space) == Some(decoded@));
    Ok(decoded)
}

/// `d + rest` seen as one more byte before the rest.
pub open spec fn old_push(d: Seq<u8>, rest: Seq<u8>) -> Seq<u8> {
    d.drop_last() + (seq![d.last()] + rest)
}

pub open spec fn invalid_encoding_message() -> Seq<char> {
    "contains invalid percent encoding"@
}

/// The single issue for a value that is not a valid URL component.
pub fn invalid_encoding(field: Option<&str>) -> (r: ValidationErrors)
    ensures
        r.spec_issues().len() == 1,
        issue_is(r.spec_issues()[0], match field { Some(f) => Some(f@), None => None }, ValidationRule::InvalidEncoding,
            invalid_encoding_message()),
{
    let name = match field {
        Some(f) => Some(f.to_owned()),
        None => None,
    };
    ValidationErrors::from_issue(ValidationIssue::new(name, ValidationRule::InvalidEncoding, "contains invalid percent encoding".to_owned()))
}

/// The values of path parameters, percent-decoded; an invalid value is
/// reported for its parameter.
pub open spec fn path_entries(params: Seq<(Seq<char>, Seq<char>)>) -> Result<HeaderEntries, Seq<char>>
    decreases params.len(),
{
    if params.len() == 0 {
        Ok(Seq::empty())
    } else {
        match path_entries(params.drop_last()) {
            Err(f) => Err(f),
            Ok(es) => match url_decode(encode_utf8(params.last().1), false) {
                Some(v) => Ok(es.push((params.last().0, v))),
                None => Err(params.last().0),
            },
        }
    }
}

pub open spec fn params_view(v: Seq<(String, String)>) -> Seq<(Seq<char>, Seq<char>)> {
    v.map_values(|e: (String, String)| (e.0@, e.1@))
}

/// The path parameters as named values, decoded.
pub fn path_values(params: &[(String, String)]) -> (r: Result<FieldValues, ValidationErrors>)
    ensures
        match path_entries(params_view(params@)) {
            Ok(es) => r matches Ok(v) && v.entries() == es && !v.spec_case_insensitive(),
            Err(f) => r matches Err(e) && e.spec_issues().len() == 1
                && issue_is(e.spec_issues()[0], Some(f), ValidationRule::InvalidEncoding, invalid_encoding_message()),
        },
{
    let ghost pv = params_view(params@);
    let mut entries: Vec<(String, Vec<u8>)> = Vec::new();
    let mut i: usize = 0;
    assert(pv.take(0) =~= Seq::<(Seq<char>, Seq<char>)>::empty());
    assert(entries_view(entries@) =~= Seq::empty());
    while i < params.len()
        invariant
            pv == params_view(params@),
            i <= params@.len(),
            path_entries(pv.take(i as int)) == Ok::<HeaderEntries, Seq<char>>(entries_view(entries@)),
        decreases params@.len() - i,
    {
        assert(pv.take(i + 1).drop_last() =~= pv.take(i as int));
        let (name, value) = (&params[i].0, &params[i].1);
        match decode_url_component(value.as_str(), false) {
            Ok(bytes) => {
                let ghost before = entries_view(entries@);
                entries.push((name.clone(), bytes));
                assert(entries_view(entries@) =~= before.push((name@, bytes@)));
            },
            Err(()) => {
                proof {
                    lemma_path_error_stays(pv, i as int + 1);
                }
                return Err(invalid_encoding(Some(name.as_str())));
            },
        }
        i += 1;
    }
    assert(pv.take(pv.len() as int) =~= pv);
    Ok(FieldValues::new(entries, false))
}

proof fn lemma_path_error_stays(pv: Seq<(Seq<char>, Seq<char>)>, k: int)
    requires
        0 < k <= pv.len(),
        path_entries(pv.take(k)) is Err,
    ensures
        path_entries(pv) == path_entries(pv.take(k)),
    decreases pv.len() - k,
{
    if k < pv.len() {
        assert(pv.take(k + 1).drop_last() =~= pv.take(k));
        lemma_path_error_stays(pv, k + 1);
    } else {
        assert(pv.take(k) =~= pv);
    }
}

/// One `name=value` pair of a query: name and value percent-decoded with
/// `+` as space, the name also UTF-8; an invalid name is reported without a
/// field, an invalid value for its name.
pub open spec fn pair_entry(pair: Seq<char>) -> Result<(Seq<char>, Seq<u8>), Option<Seq<char>>> {
    let (name, value) = match first_index_of(pair, '=', 0) {
        Some(k) => (pair.take(k), pair.skip(k + 1)),
        None => (pair, Seq::<char>::empty()),
    };
    match url_decode(encode_utf8(name), true) {
        None => Err(None),
        Some(nb) => if !valid_utf8(nb) {
            Err(None)
        } else {
            match url_decode(encode_utf8(value), true) {
                None => Err(Some(decode_utf8(nb))),
                Some(vb) => Ok((decode_utf8(nb), vb)),
            }
        },
    }
}

/// The entries of the non-empty pairs, or the first failure.
pub open spec fn query_entries(pairs: Seq<Seq<char>>) -> Result<HeaderEntries, Option<Seq<char>>>
    decreases pairs.len(),
{
    if pairs.len() == 0 {
        Ok(Seq::empty())
    } else {
        match query_entries(pairs.drop_last()) {
            Err(f) => Err(f),
            Ok(es) => if pairs.last().len() == 0 {
                Ok(es)
            } else {
                match pair_entry(pairs.last()) {
                    Ok(e) => Ok(es.push(e)),
                    Err(f) => Err(f),
                }
            },
        }
    }
}

proof fn lemma_query_error_stays(pv: Seq<Seq<char>>, k: int)
    requires
        0 < k <= pv.len(),
        query_entries(pv.take(k)) is Err,
    ensures
        query_entries(pv) == query_entries(pv.take(k)),
    decreases pv.len() - k,
{
    if k < pv.len() {
        assert(pv.take(k + 1).drop_last() =~= pv.take(k));
        lemma_query_error_stays(pv, k + 1);
    } else {
        assert(pv.take(k) =~= pv);
    }
}


fn decode_pair(pair: &[char]) -> (r: Result<(String, Vec<u8>), Option<String>>)
    ensures
        match pair_entry(pair@) {
            Ok(e) => r matches Ok(x) && x.0@ == e.0 && x.1@ == e.1,
            Err(f) => r matches Err(g) && match f { Some(n) => g matches Some(m) && m@ == n, None => g is None },
        },
{
    let mut k: usize = 0;
    while k < pair.len() && pair[k] != '='
        invariant
            k <= pair@.len(),
            first_index_of(pair@, '=', 0) == first_index_of(pair@, '=', k as int),
        decreases pair@.len() - k,
    {
        k += 1;
    }
    let mut name: Vec<char> = Vec::new();
    let mut value: Vec<char> = Vec::new();
    let mut j: usize = 0;
    while j < pair.len()
        invariant
            k <= pair@.len(),
            j <= pair@.len(),
            name@ == pair@.take(if j < k { j as int } else { k as int }),
            value@ == (if j <= k { Seq::<char>::empty() } else { pair@.subrange(k + 1, j as int) }),
        decreases pair@.len() - j,
    {
        if j < k {
            name.push(pair[j]);
        } else if j > k {
            value.push(pair[j]);
        }
        j += 1;
        assert(name@ =~= pair@.take(if j < k { j as int } else { k as int }));
        assert(value@ =~= (if j <= k { Seq::<char>::empty() } else { pair@.subrange(k + 1, j as int) }));
    }
    proof {
        if k < pair@.len() {
            assert(pair@.subrange(k + 1, pair@.len() as int) =~= pair@.skip(k + 1));
        } else {
            assert(pair@.take(k as int) =~= pair@);
        }
    }
    let name_text = string_of(name.as_slice());
    let name_bytes = match decode_url_component(name_text.as_str(), true) {
        Ok(b) => b,
        Err(()) => return Err(None),
    };
    let decoded_name = match crate::text::string_from_utf8(name_bytes) {
        Some(n) => n,
        None => return Err(None),
    };
    let value_text = string_of(value.as_slice());
    match decode_url_component(value_text.as_str(), true) {
        Ok(v) => Ok((decoded_name, v)),
        Err(()) => Err(Some(decoded_name)),
    }
}

/// The pairs of a query string (or form body) as named values.
pub fn query_values(query: Option<&str>) -> (r: Result<FieldValues, ValidationErrors>)
    ensures
        match query {
            None => r matches Ok(v) && v.entries().len() == 0 && !v.spec_case_insensitive(),
            Some(q) => match query_entries(split_with(q@, '&')) {
                Ok(es) => r matches Ok(v) && v.entries() == es && !v.spec_case_insensitive(),
                Err(f) => r matches Err(e) && e.spec_issues().len() == 1
                    && issue_is(e.spec_issues()[0], f, ValidationRule::InvalidEncoding, invalid_encoding_message()),
            },
        },
{
    let mut entries: Vec<(String, Vec<u8>)> = Vec::new();
    let q = match query {
        Some(q) => q,
        None => return Ok(FieldValues::new(entries, false)),
    };
    let chars = chars_of(q);
    let pairs = split_chars(chars.as_slice(), '&');
    let ghost sp = split_with(q@, '&');
    let mut i: usize = 0;
    assert(sp.take(0) =~= Seq::<Seq<char>>::empty());
    assert(entries_view(entries@) =~= Seq::empty());
    while i < pairs.len()
        invariant
            query == Some(q),
            sp == split_with(q@, '&'),
            pairs@.len() == sp.len(),
            forall|j: int| 0 <= j < pairs@.len() ==> (#[trigger] pairs@[j])@ == sp[j],
            i <= pairs@.len(),
            query_entries(sp.take(i as int)) == Ok::<HeaderEntries, Option<Seq<char>>>(entries_view(entries@)),
        decreases pairs@.len() - i,
    {
        assert(sp.take(i + 1).drop_last() =~= sp.take(i as int));
        assert(sp.take(i + 1).last() == sp[i as int]);
        if pairs[i].len() > 0 {
            match decode_pair(pairs[i].as_slice()) {
                Ok(e) => {
                    let ghost before = entries_view(entries@);
                    let ghost ev = (e.0@, e.1@);
                    entries.push(e);
                    assert(entries_view(entries@) =~= before.push(ev));
                },
                Err(f) => {
                    proof {
                        lemma_query_error_stays(sp, i as int + 1);
                        assert(query_entries(sp.take(i + 1)) is Err);
                        assert(query_entries(sp) == query_entries(sp.take(i + 1)));
                    }
                    return match f {
                        Some(n) => Err(invalid_encoding(Some(n.as_str()))),
                        None => Err(invalid_encoding(None)),
                    };
                },
            }
        }
        i += 1;
    }
    assert(sp.take(sp.len() as int) =~= sp);
    Ok(FieldValues::new(entries, false))
}

/// The headers as named values, names compared without ASCII case.
pub fn header_values(headers: &Headers) -> (r: FieldValues)
    ensures
        r.entries() == headers.entries(),
        r.spec_case_insensitive(),
{
    let view = headers.iter();
    let mut entries: Vec<(String, Vec<u8>)> = Vec::new();
    let mut i: usize = 0;
    assert(entries_view(entries@) =~= headers.entries().take(0));
    while i < view.len()
        invariant
            view@.len() == headers.entries().len(),
            forall|k: int| 0 <= k < view@.len() ==> (#[trigger] view@[k]).0@ == headers.entries()[k].0 && view@[k].1@ == headers.entries()[k].1,
            i <= view@.len(),
            entries_view(entries@) == headers.entries().take(i as int),
        decreases view@.len() - i,
    {
        let ghost before = entries_view(entries@);
        let (name, value) = view[i];
        entries.push((name.to_owned(), vstd::slice::slice_to_vec(value)));
        assert(view@[i as int].0@ == headers.entries()[i as int].0 && view@[i as int].1@ == headers.entries()[i as int].1);
        assert(headers.entries().take(i + 1) =~= headers.entries().take(i as int).push(headers.entries()[i as int]));
        assert(entries_view(entries@) =~= headers.entries().take(i + 1));
        i += 1;
    }
    assert(headers.entries().take(headers.entries().len() as int) =~= headers.entries());
    FieldValues::new(entries, true)
}


/// The text of the first `Content-Type` header, when it is UTF-8.
pub open spec fn content_type_text(entries: HeaderEntries) -> Option<Seq<char>> {
    match first_named(entries, "content-type"@, 0) {
        Some(i) => if valid_utf8(entries[i].1) { Some(decode_utf8(entries[i].1)) } else { None },
        None => None,
    }
}

pub fn content_type(headers: &Headers) -> (r: Option<&str>)
    ensures
        match content_type_text(headers.entries()) {
            Some(t) => r matches Some(s) && s@ == t,
            None => r is None,
        },
{
    match headers.get("content-type") {
        Some(v) => crate::text::str_from_utf8(v),
        None => None,
    }
}

/// The media type of a content type: before any `;`, trimmed.
pub open spec fn media_type(content_type: Seq<char>) -> Seq<char> {
    trim(split_with(content_type, ';')[0])
}

fn media_type_of(value: &str) -> (r: Vec<char>)
    ensures
        r@ == media_type(value@),
{
    let chars = chars_of(value);
    let pieces = split_chars(chars.as_slice(), ';');
    proof {
        crate::text::lemma_split_nonempty(value@, ';');
    }
    trim_chars(pieces[0].as_slice())
}

/// Whether the request's media type is `expected`, compared without ASCII case.
pub fn content_type_is(headers: &Headers, expected: &str) -> (r: bool)
    ensures
        r == match content_type_text(headers.entries()) {
            Some(t) => eq_ignore_case(media_type(t), expected@),
            None => false,
        },
{
    match content_type(headers) {
        Some(v) => {
            let m = media_type_of(v);
            let text = string_of(m.as_slice());
            eq_ignore_ascii_case(text.as_str(), expected)
        },
        None => false,
    }
}

/// Whether the request carries JSON: `application/json`, or a media type
/// ending in `+json`.
pub fn json_content_type(headers: &Headers) -> (r: bool)
    ensures
        r == match content_type_text(headers.entries()) {
            Some(t) => eq_ignore_case(media_type(t), "application/json"@) || media_type(t).len() >= 5
                && media_type(t).skip(media_type(t).len() - 5) == "+json"@,
            None => false,
        },
{
    if content_type_is(headers, "application/json") {
        return true;
    }
    match content_type(headers) {
        Some(v) => {
            let m = media_type_of(v);
            ends_with_json(m.as_slice())
        },
        None => false,
    }
}

fn ends_with_json(m: &[char]) -> (r: bool)
    ensures
        r == (m@.len() >= 5 && m@.skip(m@.len() - 5) == "+json"@),
{
    let suffix = chars_of("+json");
    proof {
        reveal_strlit("+json");
    }
    if m.len() < 5 {
        return false;
    }
    let n = m.len();
    let start = n - 5;
    let mut k: usize = 0;
    while k < 5
        invariant
            n == m@.len(),
            suffix@ == "+json"@,
            suffix@.len() == 5,
            m@.len() >= 5,
            start as int + 5 == m@.len(),
            k <= 5,
            forall|j: int| 0 <= j < k ==> m@[start + j] == suffix@[j],
        decreases 5 - k,
    {
        if m[start + k] != suffix[k] {
            assert(m@.skip(start as int)[k as int] != "+json"@[k as int]);
            return false;
        }
        k += 1;
    }
    assert(m@.skip(start as int) =~= "+json"@);
    true
}

/// The options a schema is decoded with: its own policy, else `default`.
pub fn schema_options(override_fields: Option<UnknownFields>, default: UnknownFields) -> (r: DecodeOptions)
    ensures
        r.spec_unknown_fields() == match override_fields {
            Some(u) => u,
            None => default,
        },
{
    match override_fields {
        Some(u) => DecodeOptions::new(u),
        None => DecodeOptions::new(default),
    }
}

/// Application state shared with every handler.
pub struct State<T>(pub Arc<T>);

/// A value the request was extended with.
pub struct Extension<T>(pub T);

/// Information about the connection the request came over.
pub struct ConnectInfo<T>(pub T);

/// The state a handler asked for was never added.
#[derive(Debug)]
pub struct MissingState<T>(pub PhantomData<T>);

/// The extension a handler asked for is not on the request.
#[derive(Debug)]
pub struct MissingExtension<T>(pub PhantomData<T>);

/// The connection information a handler asked for is not available.
#[derive(Debug)]
pub struct MissingConnectInfo<T>(pub PhantomData<T>);

impl<T> IntoResponse for MissingState<T> {
    open spec fn response_for(self, r: Response) -> bool {
        &&& (r.spec_status() == 500)
        &&& (r.spec_body().spec_buffered() == Some(encode_utf8("application state is unavailable"@)))
    }

    fn into_response(self) -> (r: Response)
        ensures
            r.spec_status() == 500,
            r.spec_body().spec_buffered() == Some(encode_utf8("application state is unavailable"@)),
    {
        Response::error(500, "application state is unavailable".to_owned())
    }
}

impl<T> IntoResponse for MissingExtension<T> {
    open spec fn response_for(self, r: Response) -> bool {
        &&& (r.spec_status() == 500)
        &&& (r.spec_body().spec_buffered() == Some(encode_utf8("request extension is unavailable"@)))
    }

    fn into_response(self) -> (r: Response)
        ensures
            r.spec_status() == 500,
            r.spec_body().spec_buffered() == Some(encode_utf8("request extension is unavailable"@)),
    {
        Response::error(500, "request extension is unavailable".to_owned())
    }
}

impl<T> IntoResponse for MissingConnectInfo<T> {
    open spec fn response_for(self, r: Response) -> bool {
        &&& (r.spec_status() == 500)
        &&& (r.spec_body().spec_buffered() == Some(encode_utf8("connection information is unavailable"@)))
    }

    fn into_response(self) -> (r: Response)
        ensures
            r.spec_status() == 500,
            r.spec_body().spec_buffered() == Some(encode_utf8("connection information is unavailable"@)),
    {
        Response::error(500, "connection information is unavailable".to_owned())
    }
}

/// The raw request body.
pub struct Bytes(pub Vec<u8>);

/// The request body as text.
pub struct Text(pub String);

/// The request body is not UTF-8.
#[derive(Debug, Clone, Copy, PartialEq, Eq)]
pub struct TextError;

impl IntoResponse for TextError {
    open spec fn response_for(self, r: Response) -> bool {
        &&& (r.spec_status() == 400)
        &&& (r.spec_body().spec_buffered() == Some(encode_utf8("request body must be valid UTF-8"@)))
    }

    fn into_response(self) -> (r: Response)
        ensures
            r.spec_status() == 400,
            r.spec_body().spec_buffered() == Some(encode_utf8("request body must be valid UTF-8"@)),
    {
        Response::error(400, "request body must be valid UTF-8".to_owned())
    }
}

impl Text {
    /// The body as text, when it is UTF-8.
    pub fn from_body(body: &[u8]) -> (r: Result<Text, TextError>)
        ensures
            r is Ok <==> valid_utf8(body@),
            r matches Ok(t) ==> t.0@ == decode_utf8(body@),
    {
        match crate::text::string_from_utf8(vstd::slice::slice_to_vec(body)) {
            Some(s) => Ok(Text(s)),
            None => Err(TextError),
        }
    }
}

/// A form body decoded into a schema.
pub struct Form<T>(pub T);

/// Why a form body was refused.
#[derive(Debug)]
pub enum FormError {
    ContentType,
    Encoding,
    Validation(ValidationErrors),
}

impl IntoResponse for FormError {
    open spec fn response_for(self, r: Response) -> bool {
        &&& (self is ContentType ==> r.spec_status() == 415 && r.spec_body().spec_buffered() == Some(
                    encode_utf8("expected application/x-www-form-urlencoded request body"@)))
        &&& (self is Encoding ==> r.spec_status() == 400 && r.spec_body().spec_buffered() == Some(
                    encode_utf8("form body must be valid UTF-8"@)))
        &&& (self is Validation ==> r.spec_status() == 400 && r.spec_pending() is Some)
    }

    fn into_response(self) -> (r: Response)
        ensures
            self is ContentType ==> r.spec_status() == 415 && r.spec_body().spec_buffered() == Some(
                encode_utf8("expected application/x-www-form-urlencoded request body"@)),
            self is Encoding ==> r.spec_status() == 400 && r.spec_body().spec_buffered() == Some(
                encode_utf8("form body must be valid UTF-8"@)),
            self is Validation ==> r.spec_status() == 400 && r.spec_pending() is Some,
    {
        match self {
            FormError::ContentType => Response::error(415, "expected application/x-www-form-urlencoded request body".to_owned()),
            FormError::Encoding => Response::error(400, "form body must be valid UTF-8".to_owned()),
            FormError::Validation(errors) => errors.into_response(),
        }
    }
}

impl<T: Schema> Form<T> {
    /// Decodes a form body: the content type must be
    /// `application/x-www-form-urlencoded` and the body UTF-8; unknown
    /// fields are rejected unless the schema says otherwise.
    pub fn extract(headers: &Headers, body: &[u8]) -> (r: Result<Form<T>, FormError>)
        ensures
            !content_type_is_spec(headers.entries(), "application/x-www-form-urlencoded"@) ==> r matches Err(FormError::ContentType),
            content_type_is_spec(headers.entries(), "application/x-www-form-urlencoded"@) && !valid_utf8(body@)
                ==> r matches Err(FormError::Encoding),
            content_type_is_spec(headers.entries(), "application/x-www-form-urlencoded"@) && valid_utf8(body@)
                && query_entries(split_with(decode_utf8(body@), '&')) is Err ==> r matches Err(FormError::Validation(_)),
            content_type_is_spec(headers.entries(), "application/x-www-form-urlencoded"@) && valid_utf8(body@) ==> match query_entries(
                split_with(decode_utf8(body@), '&'),
            ) {
                Err(f) => r matches Err(FormError::Validation(e)) && e.spec_issues().len() == 1
                    && issue_is(e.spec_issues()[0], f, ValidationRule::InvalidEncoding, invalid_encoding_message()),
                Ok(es) => exists|options: DecodeOptions, d: Result<T, ValidationErrors>| #[trigger] T::decode_result(es, false,
                    options, d) && options.spec_unknown_fields() == schema_policy(T::UNKNOWN_FIELDS, UnknownFields::Reject)
                    && match d {
                    Ok(v) => r matches Ok(Form(w)) && w == v,
                    Err(e) => r matches Err(FormError::Validation(e2)) && e2 == e,
                },
            },
    {
        if !content_type_is(headers, "application/x-www-form-urlencoded") {
            return Err(FormError::ContentType);
        }
        let text = match crate::text::str_from_utf8(body) {
            Some(t) => t,
            None => return Err(FormError::Encoding),
        };
        let values = match query_values(Some(text)) {
            Ok(v) => v,
            Err(e) => return Err(FormError::Validation(e)),
        };
        let options = schema_options(T::UNKNOWN_FIELDS, UnknownFields::Reject);
        let outcome = T::decode(&values, options);
        let ghost d = outcome;
        assert(T::decode_result(query_entries(split_with(decode_utf8(body@), '&'))->Ok_0, false, options, d));
        match outcome {
            Ok(v) => Ok(Form(v)),
            Err(e) => Err(FormError::Validation(e)),
        }
    }
}

pub open spec fn content_type_is_spec(entries: HeaderEntries, expected: Seq<char>) -> bool {
    match content_type_text(entries) {
        Some(t) => eq_ignore_case(media_type(t), expected),
        None => false,
    }
}

/// The entries of a query string, or the name whose value is not valid
/// percent-encoding; no query has no entries.
pub open spec fn query_source(query: Option<&str>) -> Result<HeaderEntries, Option<Seq<char>>> {
    match query {
        None => Ok(Seq::empty()),
        Some(q) => query_entries(split_with(q@, '&')),
    }
}

/// Path parameters decoded into a schema.
pub struct Path<T>(pub T);

/// Query parameters decoded into a schema.
pub struct Query<T>(pub T);

/// Request headers decoded into a schema.
pub struct Header<T>(pub T);

/// The path parameters did not decode.
#[derive(Debug)]
pub struct PathError(pub ValidationErrors);

/// The query parameters did not decode.
#[derive(Debug)]
pub struct QueryError(pub ValidationErrors);

/// The headers did not decode.
#[derive(Debug)]
pub struct HeaderError(pub ValidationErrors);

impl IntoResponse for PathError {
    open spec fn response_for(self, r: Response) -> bool {
        &&& (r.spec_status() == 400)
        &&& (r.spec_pending() matches Some(p) && p.spec_validation() == Some(self.0))
    }

    fn into_response(self) -> (r: Response)
        ensures
            r.spec_status() == 400,
            r.spec_pending() matches Some(p) && p.spec_validation() == Some(self.0),
    {
        self.0.into_response()
    }
}

impl IntoResponse for QueryError {
    open spec fn response_for(self, r: Response) -> bool {
        &&& (r.spec_status() == 400)
        &&& (r.spec_pending() matches Some(p) && p.spec_validation() == Some(self.0))
    }

    fn into_response(self) -> (r: Response)
        ensures
            r.spec_status() == 400,
            r.spec_pending() matches Some(p) && p.spec_validation() == Some(self.0),
    {
        self.0.into_response()
    }
}

impl IntoResponse for HeaderError {
    open spec fn response_for(self, r: Response) -> bool {
        &&& (r.spec_status() == 400)
        &&& (r.spec_pending() matches Some(p) && p.spec_validation() == Some(self.0))
    }

    fn into_response(self) -> (r: Response)
        ensures
            r.spec_status() == 400,
            r.spec_pending() matches Some(p) && p.spec_validation() == Some(self.0),
    {
        self.0.into_response()
    }
}

impl<T: Schema> Path<T> {
    /// Decodes the route's captured parameters; unknown fields are rejected
    /// unless the schema says otherwise.
    pub fn extract(params: &[(String, String)]) -> (r: Result<Path<T>, PathError>)
        ensures
            match path_entries(params_view(params@)) {
                Err(f) => r matches Err(PathError(e)) && e.spec_issues().len() == 1
                    && issue_is(e.spec_issues()[0], Some(f), ValidationRule::InvalidEncoding, invalid_encoding_message()),
                Ok(es) => exists|options: DecodeOptions, d: Result<T, ValidationErrors>| #[trigger] T::decode_result(es, false,
                    options, d) && options.spec_unknown_fields() == schema_policy(T::UNKNOWN_FIELDS, UnknownFields::Reject)
                    && match d {
                    Ok(v) => r matches Ok(Path(w)) && w == v,
                    Err(e) => r matches Err(PathError(e2)) && e2 == e,
                },
            },
    {
        let values = match path_values(params) {
            Ok(v) => v,
            Err(e) => return Err(PathError(e)),
        };
        let options = schema_options(T::UNKNOWN_FIELDS, UnknownFields::Reject);
        let outcome = T::decode(&values, options);
        assert(T::decode_result(values.entries(), false, options, outcome));
        match outcome {
            Ok(v) => Ok(Path(v)),
            Err(e) => Err(PathError(e)),
        }
    }
}

impl<T: Schema> Query<T> {
    /// Decodes the query string; unknown fields are ignored unless the
    /// schema says otherwise.
    pub fn extract(query: Option<&str>) -> (r: Result<Query<T>, QueryError>)
        ensures
            match query_source(query) {
                Err(f) => r matches Err(QueryError(e)) && e.spec_issues().len() == 1
                    && issue_is(e.spec_issues()[0], f, ValidationRule::InvalidEncoding, invalid_encoding_message()),
                Ok(es) => exists|options: DecodeOptions, d: Result<T, ValidationErrors>| #[trigger] T::decode_result(es, false,
                    options, d) && options.spec_unknown_fields() == schema_policy(T::UNKNOWN_FIELDS, UnknownFields::Ignore)
                    && match d {
                    Ok(v) => r matches Ok(Query(w)) && w == v,
                    Err(e) => r matches Err(QueryError(e2)) && e2 == e,
                },
            },
    {
        let values = match query_values(query) {
            Ok(v) => v,
            Err(e) => return Err(QueryError(e)),
        };
        let options = schema_options(T::UNKNOWN_FIELDS, UnknownFields::Ignore);
        let outcome = T::decode(&values, options);
        assert(query is None ==> values.entries() =~= Seq::<(Seq<char>, Seq<u8>)>::empty());
        assert(query_source(query) == Ok::<HeaderEntries, Option<Seq<char>>>(values.entries()));
        assert(T::decode_result(values.entries(), false, options, outcome));
        let ghost d = outcome;
        let result = match outcome {
            Ok(v) => Ok(Query(v)),
            Err(e) => Err(QueryError(e)),
        };
        assert(match d {
            Ok(v) => result matches Ok(Query(w)) && w == v,
            Err(e) => result matches Err(QueryError(e2)) && e2 == e,
        });
        assert(T::decode_result(query_source(query)->Ok_0, false, options, d));
        result
    }
}

impl<T: Schema> Header<T> {
    /// Decodes the headers; unknown fields are ignored unless the schema says
    /// otherwise.
    pub fn extract(headers: &Headers) -> (r: Result<Header<T>, HeaderError>)
        ensures
            exists|options: DecodeOptions, d: Result<T, ValidationErrors>| #[trigger] T::decode_result(headers.entries(), true,
                options, d) && options.spec_unknown_fields() == schema_policy(T::UNKNOWN_FIELDS, UnknownFields::Ignore)
                && match d {
                Ok(v) => r matches Ok(Header(w)) && w == v,
                Err(e) => r matches Err(HeaderError(e2)) && e2 == e,
            },
    {
        let values = header_values(headers);
        let options = schema_options(T::UNKNOWN_FIELDS, UnknownFields::Ignore);
        let outcome = T::decode(&values, options);
        assert(T::decode_result(values.entries(), true, options, outcome));
        match outcome {
            Ok(v) => Ok(Header(v)),
            Err(e) => Err(HeaderError(e)),
        }
    }
}

/// A JSON body, or a JSON response.
pub struct Json<T>(pub T);

#[verifier::external_type_specification]
#[verifier::external_body]
pub struct ExParseError(ParseError);

/// The text of a `serde_json` error, as its `Display` implementation writes it.
///
/// What the text says is not stated: it is the parser's own wording.
#[verifier::external_body]
fn json_error_message(error: &ParseError) -> String {
    error.to_string()
}

/// Why a JSON body was refused: the content type, or the parser's error.
#[derive(Debug)]
pub enum JsonError {
    ContentType,
    Deserialize(ParseError),
}

impl IntoResponse for JsonError {
    open spec fn response_for(self, r: Response) -> bool {
        &&& (self is ContentType ==> r.spec_status() == 415 && r.spec_body().spec_buffered() == Some(
                    encode_utf8("expected application/json request body"@)))
        &&& (self is Deserialize ==> r.spec_status() == 400 && exists|m: Seq<char>| #[trigger] encode_utf8(m)
            == r.spec_body().spec_buffered()->0 && r.spec_body().spec_buffered() is Some)
        &&& (r.spec_headers() == Response::typed("text/plain; charset=utf-8"@))
        &&& (r.spec_pending() is None)
    }

    /// `415` for the content type; `400` with the parser's message otherwise;
    /// both as plain text.
    fn into_response(self) -> (r: Response)
        ensures
            self is ContentType ==> r.spec_status() == 415 && r.spec_body().spec_buffered() == Some(
                encode_utf8("expected application/json request body"@)),
            self is Deserialize ==> r.spec_status() == 400 && exists|m: Seq<char>| #[trigger] encode_utf8(m)
                == r.spec_body().spec_buffered()->0 && r.spec_body().spec_buffered() is Some,
            r.spec_headers() == Response::typed("text/plain; charset=utf-8"@),
            r.spec_pending() is None,
    {
        match self {
            JsonError::ContentType => Response::error(415, "expected application/json request body".to_owned()),
            JsonError::Deserialize(error) => {
                let message = json_error_message(&error);
                let r = Response::error(400, message);
                assert(encode_utf8(message@) == r.spec_body().spec_buffered()->0);
                r
            },
        }
    }
}

/// The refusal when a request carries no Cloudflare Workers context, that is,
/// when it did not come through the Workers adapter.
#[derive(Debug)]
pub struct WorkerContextError;

impl IntoResponse for WorkerContextError {
    open spec fn response_for(self, r: Response) -> bool {
        &&& (r.spec_status() == 500)
        &&& (r.spec_headers() == Response::typed("text/plain; charset=utf-8"@))
        &&& (r.spec_body().spec_buffered() == Some(encode_utf8("Cloudflare worker context is unavailable"@)))
        &&& (r.spec_pending() is None)
    }

    /// `500` with a plain-text explanation.
    fn into_response(self) -> (r: Response)
        ensures
            r.spec_status() == 500,
            r.spec_headers() == Response::typed("text/plain; charset=utf-8"@),
            r.spec_body().spec_buffered() == Some(encode_utf8("Cloudflare worker context is unavailable"@)),
            r.spec_pending() is None,
    {
        Response::text(500, "Cloudflare worker context is unavailable".to_owned())
    }
}

} // verus!
