//! Cookies: `Set-Cookie` values to send and `Cookie` headers received.

use vstd::prelude::*;
use vstd::utf8::{valid_utf8, decode_utf8};
use crate::text::{chars_of, string_of, push_str, push_all, signed_decimal, signed_decimal_text, split_with, split_chars, chars_equal};
use crate::headers::{Headers, values_named};
use crate::decode::first_index_of;

verus! {

/// The `SameSite` attribute of a cookie.
#[derive(Debug, Clone, Copy, PartialEq, Eq, Structural)]
pub enum SameSite {
    Strict,
    Lax,
    Unrestricted,
}

pub open spec fn same_site_text(s: SameSite) -> Seq<char> {
    match s {
        SameSite::Strict => "Strict"@,
        SameSite::Lax => "Lax"@,
        SameSite::Unrestricted => "None"@,
    }
}

/// The `SameSite` attribute names the policy set, as `Set-Cookie` spells it:
/// `Strict` exactly for a strict policy, `Lax` exactly for a lax one, `None`
/// exactly for an unrestricted one; so the attribute tells which was set.
pub proof fn law_same_site_names_its_policy(a: SameSite, b: SameSite)
    ensures
        same_site_text(a) == "Strict"@ <==> a is Strict,
        same_site_text(a) == "Lax"@ <==> a is Lax,
        same_site_text(a) == "None"@ <==> a is Unrestricted,
        same_site_text(a) == same_site_text(b) ==> a == b,
{
    reveal_strlit("Strict");
    reveal_strlit("Lax");
    reveal_strlit("None");
    assert("Strict"@ != "Lax"@ && "Strict"@ != "None"@ && "Lax"@ != "None"@) by {
        assert("Strict"@.len() != "Lax"@.len());
        assert("Strict"@.len() != "None"@.len());
        assert("Lax"@.len() != "None"@.len());
    }
}

impl SameSite {
    pub fn as_str(self) -> (r: &'static str)
        ensures
            r@ == same_site_text(self),
    {
        match self {
            SameSite::Strict => "Strict",
            SameSite::Lax => "Lax",
            SameSite::Unrestricted => "None",
        }
    }
}

/// A cookie to send, with its attributes.
#[derive(Debug, Clone, PartialEq, Eq)]
pub struct Cookie {
    name: String,
    value: String,
    path: Option<String>,
    domain: Option<String>,
    max_age: Option<i64>,
    same_site: Option<SameSite>,
    http_only: bool,
    secure: bool,
}

/// The attribute `label` with `value`, or nothing.
pub open spec fn attribute(label: Seq<char>, value: Option<Seq<char>>) -> Seq<char> {
    match value {
        Some(v) => label + v,
        None => Seq::empty(),
    }
}

/// The `Set-Cookie` value of a cookie with these parts.
pub open spec fn cookie_text(
    name: Seq<char>,
    value: Seq<char>,
    path: Option<Seq<char>>,
    domain: Option<Seq<char>>,
    max_age: Option<i64>,
    same_site: Option<SameSite>,
    http_only: bool,
    secure: bool,
) -> Seq<char> {
    name + seq!['='] + value
        + attribute("; Path="@, path)
        + attribute("; Domain="@, domain)
        + attribute("; Max-Age="@, match max_age { Some(n) => Some(signed_decimal(n as int)), None => None })
        + attribute("; SameSite="@, match same_site { Some(s) => Some(same_site_text(s)), None => None })
        + (if http_only { "; HttpOnly"@ } else { Seq::empty() })
        + (if secure { "; Secure"@ } else { Seq::empty() })
}

fn opt_text(o: &Option<String>) -> (r: Option<&str>)
    ensures
        match o {
            Some(s) => r matches Some(t) && t@ == s@,
            None => r is None,
        },
{
    match o {
        Some(s) => Some(s.as_str()),
        None => None,
    }
}

impl Cookie {
    pub closed spec fn spec_name(&self) -> Seq<char> {
        self.name@
    }

    pub closed spec fn spec_value(&self) -> Seq<char> {
        self.value@
    }

    pub closed spec fn spec_path(&self) -> Option<Seq<char>> {
        match self.path { Some(p) => Some(p@), None => None }
    }

    pub closed spec fn spec_domain(&self) -> Option<Seq<char>> {
        match self.domain { Some(p) => Some(p@), None => None }
    }

    pub closed spec fn spec_max_age(&self) -> Option<i64> {
        self.max_age
    }

    pub closed spec fn spec_same_site(&self) -> Option<SameSite> {
        self.same_site
    }

    pub closed spec fn spec_http_only(&self) -> bool {
        self.http_only
    }

    pub closed spec fn spec_secure(&self) -> bool {
        self.secure
    }

    /// The cookie's `Set-Cookie` value.
    pub open spec fn text(&self) -> Seq<char> {
        cookie_text(self.spec_name(), self.spec_value(), self.spec_path(), self.spec_domain(), self.spec_max_age(),
            self.spec_same_site(), self.spec_http_only(), self.spec_secure())
    }

    /// Whether `other` has the same parts as `self` except those listed.
    pub open spec fn same_but(&self, other: &Cookie, path: bool, domain: bool, max_age: bool, same_site: bool, http_only: bool, secure: bool) -> bool {
        &&& self.spec_name() == other.spec_name()
        &&& self.spec_value() == other.spec_value()
        &&& (!path ==> self.spec_path() == other.spec_path())
        &&& (!domain ==> self.spec_domain() == other.spec_domain())
        &&& (!max_age ==> self.spec_max_age() == other.spec_max_age())
        &&& (!same_site ==> self.spec_same_site() == other.spec_same_site())
        &&& (!http_only ==> self.spec_http_only() == other.spec_http_only())
        &&& (!secure ==> self.spec_secure() == other.spec_secure())
    }

    /// A cookie with no attributes.
    pub fn new(name: String, value: String) -> (r: Cookie)
        ensures
            r.spec_name() == name@,
            r.spec_value() == value@,
            r.spec_path() is None,
            r.spec_domain() is None,
            r.spec_max_age() is None,
            r.spec_same_site() is None,
            !r.spec_http_only(),
            !r.spec_secure(),
    {
        Cookie { name, value, path: None, domain: None, max_age: None, same_site: None, http_only: false, secure: false }
    }

    pub fn name(&self) -> (r: &str)
        ensures
            r@ == self.spec_name(),
    {
        self.name.as_str()
    }

    pub fn value(&self) -> (r: &str)
        ensures
            r@ == self.spec_value(),
    {
        self.value.as_str()
    }

    pub fn path(self, path: String) -> (r: Cookie)
        ensures
            r.spec_path() == Some(path@),
            r.same_but(&self, true, false, false, false, false, false),
    {
        let mut c = self;
        c.path = Some(path);
        c
    }

    pub fn domain(self, domain: String) -> (r: Cookie)
        ensures
            r.spec_domain() == Some(domain@),
            r.same_but(&self, false, true, false, false, false, false),
    {
        let mut c = self;
        c.domain = Some(domain);
        c
    }

    pub fn max_age(self, seconds: i64) -> (r: Cookie)
        ensures
            r.spec_max_age() == Some(seconds),
            r.same_but(&self, false, false, true, false, false, false),
    {
        let mut c = self;
        c.max_age = Some(seconds);
        c
    }

    pub fn same_site(self, same_site: SameSite) -> (r: Cookie)
        ensures
            r.spec_same_site() == Some(same_site),
            r.same_but(&self, false, false, false, true, false, false),
    {
        let mut c = self;
        c.same_site = Some(same_site);
        c
    }

    pub fn http_only(self, enabled: bool) -> (r: Cookie)
        ensures
            r.spec_http_only() == enabled,
            r.same_but(&self, false, false, false, false, true, false),
    {
        let mut c = self;
        c.http_only = enabled;
        c
    }

    pub fn secure(self, enabled: bool) -> (r: Cookie)
        ensures
            r.spec_secure() == enabled,
            r.same_but(&self, false, false, false, false, false, true),
    {
        let mut c = self;
        c.secure = enabled;
        c
    }

    /// The `Set-Cookie` header value: `name=value` and the attributes set.
    #[verifier::rlimit(40)]
    pub fn header_value(&self) -> (r: String)
        ensures
            r@ == self.text(),
    {
        let mut out = chars_of(self.name.as_str());
        out.push('=');
        push_str(&mut out, self.value.as_str());
        let ghost s0 = out@;
        let path = match &self.path { Some(p) => Some(chars_of(p.as_str())), None => None };
        assert(opt_chars(path) == self.spec_path());
        push_attribute(&mut out, "; Path=", &path);
        let ghost s1 = out@;
        let domain = match &self.domain { Some(p) => Some(chars_of(p.as_str())), None => None };
        assert(opt_chars(domain) == self.spec_domain());
        push_attribute(&mut out, "; Domain=", &domain);
        let ghost s2 = out@;
        let max_age = match self.max_age { Some(n) => Some(signed_decimal_text(n as i128)), None => None };
        assert(opt_chars(max_age) == match self.spec_max_age() { Some(n) => Some(signed_decimal(n as int)), None => None });
        push_attribute(&mut out, "; Max-Age=", &max_age);
        let ghost s3 = out@;
        let same_site = match self.same_site { Some(v) => Some(chars_of(v.as_str())), None => None };
        assert(opt_chars(same_site) == match self.spec_same_site() { Some(v) => Some(same_site_text(v)), None => None });
        push_attribute(&mut out, "; SameSite=", &same_site);
        let ghost s4 = out@;
        if self.http_only {
            push_str(&mut out, "; HttpOnly");
        } else {
            assert(out@ =~= s4 + Seq::<char>::empty());
        }
        let ghost s5 = out@;
        if self.secure {
            push_str(&mut out, "; Secure");
        } else {
            assert(out@ =~= s5 + Seq::<char>::empty());
        }
        assert(s0 == self.spec_name() + seq!['='] + self.spec_value());
        string_of(out.as_slice())
    }
}

pub open spec fn opt_chars(o: Option<Vec<char>>) -> Option<Seq<char>> {
    match o {
        Some(v) => Some(v@),
        None => None,
    }
}

fn push_attribute(out: &mut Vec<char>, label: &str, value: &Option<Vec<char>>)
    ensures
        final(out)@ == old(out)@ + attribute(label@, opt_chars(*value)),
{
    match value {
        Some(v) => {
            push_str(out, label);
            push_all(out, v.as_slice());
        },
        None => {
            assert(old(out)@ + Seq::<char>::empty() =~= old(out)@);
        },
    }
}

/// Characters that `str::trim` removes: those with the Unicode
/// `White_Space` property.
pub open spec fn is_space(c: char) -> bool {
    ||| c == ' '
    ||| ('\t' <= c && c <= '\r')
    ||| c == '\u{85}'
    ||| c == '\u{a0}'
    ||| c == '\u{1680}'
    ||| ('\u{2000}' <= c && c <= '\u{200a}')
    ||| c == '\u{2028}'
    ||| c == '\u{2029}'
    ||| c == '\u{202f}'
    ||| c == '\u{205f}'
    ||| c == '\u{3000}'
}

fn space_char(c: char) -> (r: bool)
    ensures
        r == is_space(c),
{
    c == ' ' || ('\t' <= c && c <= '\r') || c == '\u{85}' || c == '\u{a0}' || c == '\u{1680}'
        || ('\u{2000}' <= c && c <= '\u{200a}') || c == '\u{2028}' || c == '\u{2029}' || c == '\u{202f}'
        || c == '\u{205f}' || c == '\u{3000}'
}

/// The number of leading white-space characters of `s` from `i`.
pub open spec fn lead_end(s: Seq<char>, i: int) -> int
    decreases s.len() - i,
{
    if i >= s.len() || i < 0 || !is_space(s[i]) {
        i
    } else {
        lead_end(s, i + 1)
    }
}

/// The end of `s` once trailing white space before `j` is dropped.
pub open spec fn trail_end(s: Seq<char>, j: int) -> int
    decreases j,
{
    if j <= 0 || j > s.len() || !is_space(s[j - 1]) {
        j
    } else {
        trail_end(s, j - 1)
    }
}

/// `s` without leading and trailing white space.
pub open spec fn trim(s: Seq<char>) -> Seq<char> {
    let a = lead_end(s, 0);
    if a >= s.len() {
        Seq::empty()
    } else {
        s.subrange(a, trail_end(s, s.len() as int))
    }
}

proof fn lemma_lead_end(s: Seq<char>, i: int)
    requires
        0 <= i <= s.len(),
    ensures
        i <= lead_end(s, i) <= s.len(),
        lead_end(s, i) < s.len() ==> !is_space(s[lead_end(s, i)]),
    decreases s.len() - i,
{
    if i < s.len() && is_space(s[i]) {
        lemma_lead_end(s, i + 1);
    }
}

proof fn lemma_trail_end(s: Seq<char>, j: int, lo: int)
    requires
        0 <= lo < j <= s.len(),
        !is_space(s[lo]),
    ensures
        lo < trail_end(s, j) <= j,
    decreases j,
{
    if is_space(s[j - 1]) {
        lemma_trail_end(s, j - 1, lo);
    }
}

/// `s` without leading and trailing white space.
pub fn trim_chars(s: &[char]) -> (r: Vec<char>)
    ensures
        r@ == trim(s@),
{
    let mut a: usize = 0;
    while a < s.len() && space_char(s[a])
        invariant
            a <= s@.len(),
            lead_end(s@, 0) == lead_end(s@, a as int),
        decreases s@.len() - a,
    {
        a += 1;
    }
    if a >= s.len() {
        return Vec::new();
    }
    let mut b: usize = s.len();
    proof {
        lemma_trail_end(s@, s@.len() as int, a as int);
    }
    while b > a + 1 && space_char(s[b - 1])
        invariant
            a < b <= s@.len(),
            !is_space(s@[a as int]),
            trail_end(s@, s@.len() as int) == trail_end(s@, b as int),
        decreases b,
    {
        b -= 1;
    }
    let mut out: Vec<char> = Vec::new();
    let mut k: usize = a;
    while k < b
        invariant
            a <= k <= b <= s@.len(),
            out@ == s@.subrange(a as int, k as int),
        decreases b - k,
    {
        out.push(s[k]);
        k += 1;
        assert(out@ =~= s@.subrange(a as int, k as int));
    }
    out
}

/// `s` with each non-overlapping `a b`, scanned from the front, replaced by `c`.
pub open spec fn replace_pair(s: Seq<char>, a: char, b: char, c: char) -> Seq<char>
    decreases s.len(),
{
    if s.len() == 0 {
        s
    } else if s.len() >= 2 && s[0] == a && s[1] == b {
        seq![c] + replace_pair(s.skip(2), a, b, c)
    } else {
        seq![s[0]] + replace_pair(s.skip(1), a, b, c)
    }
}

fn replace_pair_chars(s: &[char], a: char, b: char, c: char) -> (r: Vec<char>)
    ensures
        r@ == replace_pair(s@, a, b, c),
{
    let mut out: Vec<char> = Vec::new();
    let mut i: usize = 0;
    assert(s@.skip(0) =~= s@);
    while i < s.len()
        invariant
            i <= s@.len(),
            out@ + replace_pair(s@.skip(i as int), a, b, c) == replace_pair(s@, a, b, c),
        decreases s@.len() - i,
    {
        let ghost rest = s@.skip(i as int);
        if i + 1 < s.len() && s[i] == a && s[i + 1] == b {
            out.push(c);
            assert(rest.skip(2) =~= s@.skip(i + 2));
            i += 2;
        } else {
            out.push(s[i]);
            assert(rest.skip(1) =~= s@.skip(i + 1));
            i += 1;
        }
    }
    assert(s@.skip(i as int) =~= Seq::<char>::empty());
    out
}

/// A cookie value with surrounding quotes removed and `\"`, `\\` unescaped.
pub open spec fn unquote(v: Seq<char>) -> Seq<char> {
    let inner = if v.len() >= 2 && v[0] == '"' && v[v.len() - 1] == '"' { v.subrange(1, v.len() - 1) } else { v };
    replace_pair(replace_pair(inner, '\\', '"', '"'), '\\', '\\', '\\')
}

pub fn unquote_chars(v: &[char]) -> (r: Vec<char>)
    ensures
        r@ == unquote(v@),
{
    let mut inner: Vec<char> = Vec::new();
    if v.len() >= 2 && v[0] == '"' && v[v.len() - 1] == '"' {
        let mut k: usize = 1;
        while k < v.len() - 1
            invariant
                v@.len() >= 2,
                1 <= k <= v@.len() - 1,
                inner@ == v@.subrange(1, k as int),
            decreases v@.len() - k,
        {
            inner.push(v[k]);
            k += 1;
            assert(inner@ =~= v@.subrange(1, k as int));
        }
    } else {
        let mut k: usize = 0;
        while k < v.len()
            invariant
                k <= v@.len(),
                inner@ == v@.take(k as int),
            decreases v@.len() - k,
        {
            inner.push(v[k]);
            k += 1;
            assert(inner@ =~= v@.take(k as int));
        }
        assert(v@.take(v@.len() as int) =~= v@);
    }
    let once = replace_pair_chars(inner.as_slice(), '\\', '"', '"');
    replace_pair_chars(once.as_slice(), '\\', '\\', '\\')
}

/// The cookie named in one `;`-separated piece: trimmed, split at the first
/// `=`, with a non-empty name.
pub open spec fn cookie_pair(piece: Seq<char>) -> Option<(Seq<char>, Seq<char>)> {
    let t = trim(piece);
    match first_index_of(t, '=', 0) {
        Some(k) => if k > 0 { Some((t.take(k), unquote(t.skip(k + 1)))) } else { None },
        None => None,
    }
}

proof fn lemma_first_index_at(s: Seq<char>, c: char, from: int, k: int)
    requires
        0 <= from <= k < s.len(),
        s[k] == c,
        forall|j: int| from <= j < k ==> s[j] != c,
    ensures
        first_index_of(s, c, from) == Some(k),
    decreases k - from,
{
    if from < k {
        lemma_first_index_at(s, c, from + 1, k);
    }
}

proof fn lemma_replace_pair_absent(s: Seq<char>, a: char, b: char, c: char)
    requires
        forall|i: int| 0 <= i < s.len() ==> s[i] != a,
    ensures
        replace_pair(s, a, b, c) == s,
    decreases s.len(),
{
    if s.len() > 0 {
        lemma_replace_pair_absent(s.skip(1), a, b, c);
        assert(seq![s[0]] + s.skip(1) =~= s);
    }
}

/// A piece `name=value` reads back as that cookie when the name is not
/// empty and holds no `=`, the piece has no white space at its ends, and the
/// value holds no quote or backslash.
pub proof fn law_cookie_pair_reads_back(name: Seq<char>, value: Seq<char>)
    requires
        name.len() > 0,
        forall|i: int| 0 <= i < name.len() ==> name[i] != '=',
        !is_space(name[0]),
        value.len() > 0 ==> !is_space(value.last()),
        forall|i: int| 0 <= i < value.len() ==> value[i] != '"' && value[i] != '\\',
    ensures
        cookie_pair(name + seq!['='] + value) == Some((name, value)),
{
    let piece = name + seq!['='] + value;
    let n = name.len() as int;
    assert(piece[0] == name[0]);
    assert(lead_end(piece, 0) == 0);
    if value.len() > 0 {
        assert(piece[piece.len() - 1] == value.last());
    } else {
        assert(piece[piece.len() - 1] == '=');
    }
    assert(trail_end(piece, piece.len() as int) == piece.len());
    assert(trim(piece) =~= piece);
    assert forall|j: int| 0 <= j < n implies piece[j] != '=' by {
        assert(piece[j] == name[j]);
    }
    lemma_first_index_at(piece, '=', 0, n);
    assert(piece.take(n) =~= name);
    assert(piece.skip(n + 1) =~= value);
    if value.len() >= 2 {
        assert(value[0] != '"');
    }
    lemma_replace_pair_absent(value, '\\', '"', '"');
    lemma_replace_pair_absent(value, '\\', '\\', '\\');
}

/// The cookies of the pieces, in order.
pub open spec fn cookies_of_pieces(pieces: Seq<Seq<char>>) -> Seq<(Seq<char>, Seq<char>)>
    decreases pieces.len(),
{
    if pieces.len() == 0 {
        Seq::empty()
    } else {
        let prev = cookies_of_pieces(pieces.drop_last());
        match cookie_pair(pieces.last()) {
            Some(p) => prev.push(p),
            None => prev,
        }
    }
}

/// The cookies of `Cookie` header values, in order; values that are not
/// UTF-8 contribute none.
pub open spec fn cookies_of_values(values: Seq<Seq<u8>>) -> Seq<(Seq<char>, Seq<char>)>
    decreases values.len(),
{
    if values.len() == 0 {
        Seq::empty()
    } else {
        let v = values.last();
        cookies_of_values(values.drop_last()) + if valid_utf8(v) {
            cookies_of_pieces(split_with(decode_utf8(v), ';'))
        } else {
            Seq::empty()
        }
    }
}


fn pair_of_piece(piece: &[char]) -> (r: Option<(String, String)>)
    ensures
        match cookie_pair(piece@) {
            Some(p) => r matches Some(q) && q.0@ == p.0 && q.1@ == p.1,
            None => r is None,
        },
{
    let t = trim_chars(piece);
    let mut k: usize = 0;
    while k < t.len() && t[k] != '='
        invariant
            k <= t@.len(),
            first_index_of(t@, '=', 0) == first_index_of(t@, '=', k as int),
        decreases t@.len() - k,
    {
        k += 1;
    }
    if k == t.len() || k == 0 {
        return None;
    }
    let mut name: Vec<char> = Vec::new();
    let mut value: Vec<char> = Vec::new();
    let mut j: usize = 0;
    while j < t.len()
        invariant
            k < t@.len(),
            j <= t@.len(),
            name@ == t@.take(if j < k { j as int } else { k as int }),
            value@ == (if j <= k { Seq::<char>::empty() } else { t@.subrange(k + 1, j as int) }),
        decreases t@.len() - j,
    {
        if j < k {
            name.push(t[j]);
        } else if j > k {
            value.push(t[j]);
        }
        j += 1;
        assert(name@ =~= t@.take(if j < k { j as int } else { k as int }));
        assert(value@ =~= (if j <= k { Seq::<char>::empty() } else { t@.subrange(k + 1, j as int) }));
    }
    assert(t@.subrange(k + 1, t@.len() as int) =~= t@.skip(k + 1));
    let unquoted = unquote_chars(value.as_slice());
    Some((string_of(name.as_slice()), string_of(unquoted.as_slice())))
}

/// The cookies a request carries, in header and then piece order.
#[derive(Debug, Default, Clone, PartialEq, Eq)]
pub struct Cookies {
    entries: Vec<(String, String)>,
}

pub open spec fn pairs_view(v: Seq<(String, String)>) -> Seq<(Seq<char>, Seq<char>)> {
    v.map_values(|e: (String, String)| (e.0@, e.1@))
}

/// The first pair at or after `from` named `name`.
pub open spec fn first_cookie(entries: Seq<(Seq<char>, Seq<char>)>, name: Seq<char>, from: int) -> Option<int>
    decreases entries.len() - from,
{
    if from < 0 || from >= entries.len() {
        None
    } else if entries[from].0 == name {
        Some(from)
    } else {
        first_cookie(entries, name, from + 1)
    }
}

/// The values of the pairs among the first `n` named `name`.
pub open spec fn cookie_values(entries: Seq<(Seq<char>, Seq<char>)>, name: Seq<char>, n: int) -> Seq<Seq<char>>
    decreases n,
{
    if n <= 0 {
        Seq::empty()
    } else if entries[n - 1].0 == name {
        cookie_values(entries, name, n - 1).push(entries[n - 1].1)
    } else {
        cookie_values(entries, name, n - 1)
    }
}

impl Cookies {
    pub closed spec fn entries(&self) -> Seq<(Seq<char>, Seq<char>)> {
        pairs_view(self.entries@)
    }

    /// The value of the first cookie named `name`.
    pub fn get(&self, name: &str) -> (r: Option<&str>)
        ensures
            match first_cookie(self.entries(), name@, 0) {
                Some(i) => r matches Some(v) && v@ == self.entries()[i].1,
                None => r is None,
            },
    {
        let ghost es = self.entries();
        let target = chars_of(name);
        let mut i: usize = 0;
        while i < self.entries.len()
            invariant
                es == self.entries(),
                target@ == name@,
                i <= self.entries@.len(),
                first_cookie(es, name@, 0) == first_cookie(es, name@, i as int),
            decreases self.entries@.len() - i,
        {
            let actual = chars_of(self.entries[i].0.as_str());
            if chars_equal(actual.as_slice(), target.as_slice()) {
                return Some(self.entries[i].1.as_str());
            }
            i += 1;
        }
        None
    }

    /// The values of every cookie named `name`, in order.
    pub fn get_all(&self, name: &str) -> (r: Vec<&str>)
        ensures
            r@.map_values(|v: &str| v@) == cookie_values(self.entries(), name@, self.entries().len() as int),
    {
        let ghost es = self.entries();
        let target = chars_of(name);
        let mut out: Vec<&str> = Vec::new();
        let mut i: usize = 0;
        assert(out@.map_values(|v: &str| v@) =~= Seq::<Seq<char>>::empty());
        while i < self.entries.len()
            invariant
                es == self.entries(),
                target@ == name@,
                i <= self.entries@.len(),
                out@.map_values(|v: &str| v@) == cookie_values(es, name@, i as int),
            decreases self.entries@.len() - i,
        {
            let ghost before = out@.map_values(|v: &str| v@);
            let actual = chars_of(self.entries[i].0.as_str());
            if chars_equal(actual.as_slice(), target.as_slice()) {
                out.push(self.entries[i].1.as_str());
                assert(out@.map_values(|v: &str| v@) =~= before.push(es[i as int].1));
            }
            i += 1;
        }
        out
    }

    /// Every cookie, in order.
    pub fn iter(&self) -> (r: Vec<(&str, &str)>)
        ensures
            r@.len() == self.entries().len(),
            forall|i: int| 0 <= i < r@.len() ==> (#[trigger] r@[i]).0@ == self.entries()[i].0 && r@[i].1@ == self.entries()[i].1,
    {
        let mut out: Vec<(&str, &str)> = Vec::new();
        let mut i: usize = 0;
        while i < self.entries.len()
            invariant
                i <= self.entries@.len(),
                out@.len() == i,
                forall|k: int| 0 <= k < i ==> (#[trigger] out@[k]).0@ == self.entries()[k].0 && out@[k].1@ == self.entries()[k].1,
            decreases self.entries@.len() - i,
        {
            out.push((self.entries[i].0.as_str(), self.entries[i].1.as_str()));
            i += 1;
        }
        out
    }

    pub fn len(&self) -> (n: usize)
        ensures
            n == self.entries().len(),
    {
        self.entries.len()
    }

    pub fn is_empty(&self) -> (b: bool)
        ensures
            b == (self.entries().len() == 0),
    {
        self.entries.len() == 0
    }

    /// Reads the cookies of every `Cookie` header, in order.
    pub fn from_headers(headers: &Headers) -> (r: Cookies)
        ensures
            r.entries() == cookies_of_values(values_named(headers.entries(), "cookie"@, headers.entries().len() as int)),
    {
        let values = headers.get_all("cookie");
        let ghost vs = values@.map_values(|v: Vec<u8>| v@);
        let mut entries: Vec<(String, String)> = Vec::new();
        let mut i: usize = 0;
        assert(vs.take(0) =~= Seq::<Seq<u8>>::empty());
        while i < values.len()
            invariant
                vs == values@.map_values(|v: Vec<u8>| v@),
                i <= values@.len(),
                pairs_view(entries@) == cookies_of_values(vs.take(i as int)),
            decreases values@.len() - i,
        {
            let ghost before = pairs_view(entries@);
            assert(vs.take(i + 1).drop_last() =~= vs.take(i as int));
            match crate::text::str_from_utf8(values[i].as_slice()) {
                Some(text) => {
                    let chars = chars_of(text);
                    let pieces = split_chars(chars.as_slice(), ';');
                    let ghost sp = split_with(chars@, ';');
                    let mut k: usize = 0;
                    assert(sp.take(0) =~= Seq::<Seq<char>>::empty());
                    while k < pieces.len()
                        invariant
                            sp == split_with(chars@, ';'),
                            pieces@.len() == sp.len(),
                            forall|j: int| 0 <= j < pieces@.len() ==> (#[trigger] pieces@[j])@ == sp[j],
                            k <= pieces@.len(),
                            pairs_view(entries@) == before + cookies_of_pieces(sp.take(k as int)),
                        decreases pieces@.len() - k,
                    {
                        let ghost cur = pairs_view(entries@);
                        assert(sp.take(k + 1).drop_last() =~= sp.take(k as int));
                        match pair_of_piece(pieces[k].as_slice()) {
                            Some(p) => {
                                entries.push(p);
                                assert(pairs_view(entries@) =~= cur.push((p.0@, p.1@)));
                            },
                            None => {},
                        }
                        k += 1;
                    }
                    assert(sp.take(sp.len() as int) =~= sp);
                },
                None => {
                    assert(pairs_view(entries@) =~= before + Seq::<(Seq<char>, Seq<char>)>::empty());
                },
            }
            i += 1;
        }
        assert(vs.take(vs.len() as int) =~= vs);
        Cookies { entries }
    }
}

} // verus!
