//! HTTP request methods.

use vstd::prelude::*;
use crate::text::{chars_of, chars_equal, string_of};
use crate::headers::is_tchar;

verus! {

/// An HTTP method: one of the nine standard methods, or any other name kept
/// as given.
#[allow(non_camel_case_types)]
#[derive(Debug, Clone, PartialEq, Eq)]
pub enum Method {
    CONNECT,
    DELETE,
    GET,
    HEAD,
    OPTIONS,
    PATCH,
    POST,
    PUT,
    TRACE,
    Other(String),
}

pub open spec fn standard_method_name(k: int) -> Seq<char> {
    if k == 0 {
        seq!['C', 'O', 'N', 'N', 'E', 'C', 'T']
    } else if k == 1 {
        seq!['D', 'E', 'L', 'E', 'T', 'E']
    } else if k == 2 {
        seq!['G', 'E', 'T']
    } else if k == 3 {
        seq!['H', 'E', 'A', 'D']
    } else if k == 4 {
        seq!['O', 'P', 'T', 'I', 'O', 'N', 'S']
    } else if k == 5 {
        seq!['P', 'A', 'T', 'C', 'H']
    } else if k == 6 {
        seq!['P', 'O', 'S', 'T']
    } else if k == 7 {
        seq!['P', 'U', 'T']
    } else {
        seq!['T', 'R', 'A', 'C', 'E']
    }
}

/// The constant whose name is `standard_method_name(k)`.
pub open spec fn standard_method(k: int) -> Method {
    if k == 0 {
        Method::CONNECT
    } else if k == 1 {
        Method::DELETE
    } else if k == 2 {
        Method::GET
    } else if k == 3 {
        Method::HEAD
    } else if k == 4 {
        Method::OPTIONS
    } else if k == 5 {
        Method::PATCH
    } else if k == 6 {
        Method::POST
    } else if k == 7 {
        Method::PUT
    } else {
        Method::TRACE
    }
}

/// Whether `name` is one of the nine methods with a constant.
pub open spec fn is_standard_name(name: Seq<char>) -> bool {
    exists|k: int| 0 <= k < 9 && #[trigger] standard_method_name(k) == name
}

impl Method {
    /// The method's name.
    pub closed spec fn name(&self) -> Seq<char> {
        match self {
            Method::CONNECT => standard_method_name(0),
            Method::DELETE => standard_method_name(1),
            Method::GET => standard_method_name(2),
            Method::HEAD => standard_method_name(3),
            Method::OPTIONS => standard_method_name(4),
            Method::PATCH => standard_method_name(5),
            Method::POST => standard_method_name(6),
            Method::PUT => standard_method_name(7),
            Method::TRACE => standard_method_name(8),
            Method::Other(s) => s@,
        }
    }

    /// Whether the method is one of the nine with a constant, rather than a
    /// custom name.
    pub closed spec fn is_standard(&self) -> bool {
        !(self is Other)
    }

    /// Names of the constants.
    pub proof fn lemma_constant_names()
        ensures
            Method::CONNECT.name() == standard_method_name(0),
            Method::DELETE.name() == standard_method_name(1),
            Method::GET.name() == standard_method_name(2),
            Method::HEAD.name() == standard_method_name(3),
            Method::OPTIONS.name() == standard_method_name(4),
            Method::PATCH.name() == standard_method_name(5),
            Method::POST.name() == standard_method_name(6),
            Method::PUT.name() == standard_method_name(7),
            Method::TRACE.name() == standard_method_name(8),
            Method::GET.is_standard(),
    {
    }

    /// The method named `value`: a constant for the nine standard names,
    /// otherwise a custom method with exactly that name.
    pub fn new(value: &str) -> (m: Method)
        ensures
            m.name() == value@,
            m.is_standard() == is_standard_name(value@),
            forall|k: int| 0 <= k < 9 && value@ == #[trigger] standard_method_name(k) ==> m == standard_method(k),
    {
        let v = chars_of(value);
        let s = v.as_slice();
        let m = if chars_equal(s, &['C', 'O', 'N', 'N', 'E', 'C', 'T']) {
            Method::CONNECT
        } else if chars_equal(s, &['D', 'E', 'L', 'E', 'T', 'E']) {
            Method::DELETE
        } else if chars_equal(s, &['G', 'E', 'T']) {
            Method::GET
        } else if chars_equal(s, &['H', 'E', 'A', 'D']) {
            Method::HEAD
        } else if chars_equal(s, &['O', 'P', 'T', 'I', 'O', 'N', 'S']) {
            Method::OPTIONS
        } else if chars_equal(s, &['P', 'A', 'T', 'C', 'H']) {
            Method::PATCH
        } else if chars_equal(s, &['P', 'O', 'S', 'T']) {
            Method::POST
        } else if chars_equal(s, &['P', 'U', 'T']) {
            Method::PUT
        } else if chars_equal(s, &['T', 'R', 'A', 'C', 'E']) {
            Method::TRACE
        } else {
            proof {
                assert forall|k: int| 0 <= k < 9 implies #[trigger] standard_method_name(k) != value@ by {}
            }
            Method::Other(string_of(s))
        };
        proof {
            Method::lemma_standard(m);
            assert forall|k: int| 0 <= k < 9 && value@ == #[trigger] standard_method_name(k) implies m == standard_method(k) by {
                if k == 0 {} else if k == 1 {} else if k == 2 {} else if k == 3 {} else if k == 4 {}
                else if k == 5 {} else if k == 6 {} else if k == 7 {} else {}
            }
        }
        m
    }

    proof fn lemma_standard(m: Method)
        ensures
            m.is_standard() ==> is_standard_name(m.name()),
    {
        match m {
            Method::CONNECT => { assert(standard_method_name(0) == m.name()); },
            Method::DELETE => { assert(standard_method_name(1) == m.name()); },
            Method::GET => { assert(standard_method_name(2) == m.name()); },
            Method::HEAD => { assert(standard_method_name(3) == m.name()); },
            Method::OPTIONS => { assert(standard_method_name(4) == m.name()); },
            Method::PATCH => { assert(standard_method_name(5) == m.name()); },
            Method::POST => { assert(standard_method_name(6) == m.name()); },
            Method::PUT => { assert(standard_method_name(7) == m.name()); },
            Method::TRACE => { assert(standard_method_name(8) == m.name()); },
            Method::Other(_) => {},
        }
    }

    /// The method's name.
    pub fn as_str(&self) -> (s: &str)
        ensures
            s@ == self.name(),
    {
        proof {
            reveal_strlit("CONNECT");
            reveal_strlit("DELETE");
            reveal_strlit("GET");
            reveal_strlit("HEAD");
            reveal_strlit("OPTIONS");
            reveal_strlit("PATCH");
            reveal_strlit("POST");
            reveal_strlit("PUT");
            reveal_strlit("TRACE");
        }
        match self {
            Method::CONNECT => "CONNECT",
            Method::DELETE => "DELETE",
            Method::GET => "GET",
            Method::HEAD => "HEAD",
            Method::OPTIONS => "OPTIONS",
            Method::PATCH => "PATCH",
            Method::POST => "POST",
            Method::PUT => "PUT",
            Method::TRACE => "TRACE",
            Method::Other(method) => method.as_str(),
        }
    }

    /// The method's name as characters.
    pub fn name_chars(&self) -> (v: Vec<char>)
        ensures
            v@ == self.name(),
    {
        chars_of(self.as_str())
    }

    /// Whether two methods have the same name.
    pub fn same_as(&self, other: &Method) -> (r: bool)
        ensures
            r == (self.name() == other.name()),
    {
        let a = self.name_chars();
        let b = other.name_chars();
        chars_equal(a.as_slice(), b.as_slice())
    }

    /// A copy of this method.
    pub fn copy(&self) -> (m: Method)
        ensures
            m.name() == self.name(),
            m.is_standard() == self.is_standard(),
    {
        match self {
            Method::Other(s) => Method::Other(s.clone()),
            Method::CONNECT => Method::CONNECT,
            Method::DELETE => Method::DELETE,
            Method::GET => Method::GET,
            Method::HEAD => Method::HEAD,
            Method::OPTIONS => Method::OPTIONS,
            Method::PATCH => Method::PATCH,
            Method::POST => Method::POST,
            Method::PUT => Method::PUT,
            Method::TRACE => Method::TRACE,
        }
    }
}


/// A method name that is not an HTTP token.
#[derive(Debug, Clone, Copy, PartialEq, Eq)]
pub struct InvalidMethod;

/// Whether `bytes` are an HTTP token: non-empty, made of ASCII letters,
/// digits, and ``!#$%&'*+-.^_`|~``.
pub open spec fn method_token(bytes: Seq<u8>) -> bool {
    bytes.len() > 0 && forall|i: int| 0 <= i < bytes.len() ==> is_tchar(#[trigger] bytes[i] as char)
}

/// The characters of ASCII bytes.
pub open spec fn ascii_chars(bytes: Seq<u8>) -> Seq<char> {
    bytes.map_values(|b: u8| b as char)
}

fn tchar_byte(b: u8) -> (r: bool)
    ensures
        r == is_tchar(b as char),
{
    (b >= 97 && b <= 122) || (b >= 65 && b <= 90) || (b >= 48 && b <= 57) || b == 33 || b == 35 || b == 36 || b == 37
        || b == 38 || b == 39 || b == 42 || b == 43 || b == 45 || b == 46 || b == 94 || b == 95 || b == 96 || b == 124
        || b == 126
}

impl Method {
    /// The method named by `bytes`, which must be an HTTP token; names are
    /// case-sensitive.
    pub fn from_bytes(bytes: &[u8]) -> (r: Result<Method, InvalidMethod>)
        ensures
            r is Ok <==> method_token(bytes@),
            r matches Ok(m) ==> m.name() == ascii_chars(bytes@) && m.is_standard() == is_standard_name(ascii_chars(bytes@)),
    {
        if bytes.len() == 0 {
            return Err(InvalidMethod);
        }
        let mut chars: Vec<char> = Vec::new();
        let mut i: usize = 0;
        while i < bytes.len()
            invariant
                i <= bytes@.len(),
                forall|k: int| 0 <= k < i ==> is_tchar(#[trigger] bytes@[k] as char),
                chars@ == ascii_chars(bytes@.take(i as int)),
            decreases bytes@.len() - i,
        {
            if !tchar_byte(bytes[i]) {
                return Err(InvalidMethod);
            }
            chars.push(bytes[i] as char);
            assert(ascii_chars(bytes@.take(i + 1)) =~= ascii_chars(bytes@.take(i as int)).push(bytes@[i as int] as char));
            i += 1;
        }
        assert(bytes@.take(bytes@.len() as int) =~= bytes@);
        let name = string_of(chars.as_slice());
        Ok(Method::new(name.as_str()))
    }
}

} // verus!
