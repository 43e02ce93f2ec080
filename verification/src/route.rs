//! Route patterns: parsing, matching a request path, precedence between
//! patterns, and their OpenAPI spelling.

use vstd::prelude::*;
use crate::text::{split_with, split_chars, join_with, string_of, contains_char, contains_text, copy_chars};

verus! {

/// One segment of a route pattern.
#[derive(Debug, Clone)]
pub enum RouteSegment {
    Static(Vec<char>),
    Parameter(Vec<char>),
    Wildcard(Vec<char>),
}

/// Why a route pattern was refused.
#[derive(Debug, Clone, PartialEq, Eq)]
pub enum RouteError {
    NoLeadingSlash,
    QueryOrFragment,
    TrailingSlash,
    EmptySegment,
    EmptyParameterName,
    InvalidParameterName(String),
    DuplicateParameter(String),
    WildcardNotLast,
    DynamicPrefix,
}

/// A parsed route pattern such as `/users/:id` or `/assets/*path`.
#[derive(Debug, Clone)]
pub struct RoutePath {
    source: Vec<char>,
    segments: Vec<RouteSegment>,
}

/// Precedence of one pattern over another.
#[derive(Debug, Clone, Copy, PartialEq, Eq)]
pub enum Precedence {
    Lower,
    Same,
    Higher,
}

/// The text of a segment (its literal or its parameter name).
pub open spec fn segment_text(s: RouteSegment) -> Seq<char> {
    match s {
        RouteSegment::Static(t) => t@,
        RouteSegment::Parameter(t) => t@,
        RouteSegment::Wildcard(t) => t@,
    }
}

/// The pieces of a request path: `/` has none, otherwise the text after the
/// leading `/` split at each `/`.
pub open spec fn path_pieces(p: Seq<char>) -> Seq<Seq<char>> {
    if p == seq!['/'] {
        Seq::<Seq<char>>::empty()
    } else if p.len() > 0 && p[0] == '/' {
        split_with(p.drop_first(), '/')
    } else {
        split_with(p, '/')
    }
}

pub open spec fn is_name_char(c: char) -> bool {
    ('a' <= c && c <= 'z') || ('A' <= c && c <= 'Z') || ('0' <= c && c <= '9') || c == '_'
}

pub open spec fn valid_name_chars(n: Seq<char>) -> bool {
    forall|i: int| 0 <= i < n.len() ==> is_name_char(#[trigger] n[i])
}

/// Whether `s` holds `//`.
pub open spec fn has_empty_segment(s: Seq<char>) -> bool {
    exists|i: int| 0 <= i < s.len() - 1 && #[trigger] s[i] == '/' && s[i + 1] == '/'
}

pub open spec fn is_param_piece(p: Seq<char>) -> bool {
    p.len() > 0 && p[0] == ':'
}

pub open spec fn is_wild_piece(p: Seq<char>) -> bool {
    p.len() > 0 && p[0] == '*'
}

/// Error code of the segments from `i` on, given the names already declared
/// (0: none; 5: empty name; 6: invalid name; 7: duplicate; 8: wildcard not
/// last).
pub open spec fn segments_error(pieces: Seq<Seq<char>>, i: int, names: Seq<Seq<char>>) -> (int, Seq<char>)
    decreases pieces.len() - i,
{
    if i < 0 || i >= pieces.len() {
        (0, Seq::<char>::empty())
    } else {
        let p = pieces[i];
        if is_param_piece(p) || is_wild_piece(p) {
            let name = p.drop_first();
            if name.len() == 0 {
                (5, name)
            } else if !valid_name_chars(name) {
                (6, name)
            } else if names.contains(name) {
                (7, name)
            } else if is_wild_piece(p) && i + 1 != pieces.len() {
                (8, Seq::<char>::empty())
            } else {
                segments_error(pieces, i + 1, names.push(name))
            }
        } else {
            segments_error(pieces, i + 1, names)
        }
    }
}

/// Error code of a whole pattern (0 when it is valid), with the offending
/// parameter name where there is one.
pub open spec fn route_error(src: Seq<char>) -> (int, Seq<char>) {
    if !(src.len() > 0 && src[0] == '/') {
        (1, Seq::<char>::empty())
    } else if src.contains('?') || src.contains('#') {
        (2, Seq::<char>::empty())
    } else if src.len() > 1 && src.last() == '/' {
        (3, Seq::<char>::empty())
    } else if has_empty_segment(src) {
        (4, Seq::<char>::empty())
    } else {
        segments_error(path_pieces(src), 0, Seq::<Seq<char>>::empty())
    }
}

pub open spec fn valid_route(src: Seq<char>) -> bool {
    route_error(src).0 == 0
}

/// The segment a piece of a valid pattern becomes.
pub open spec fn segment_for(s: RouteSegment, piece: Seq<char>) -> bool {
    if is_param_piece(piece) {
        s is Parameter && segment_text(s) == piece.drop_first()
    } else if is_wild_piece(piece) {
        s is Wildcard && segment_text(s) == piece.drop_first()
    } else {
        s is Static && segment_text(s) == piece
    }
}

pub open spec fn error_code(e: RouteError) -> int {
    match e {
        RouteError::NoLeadingSlash => 1,
        RouteError::QueryOrFragment => 2,
        RouteError::TrailingSlash => 3,
        RouteError::EmptySegment => 4,
        RouteError::EmptyParameterName => 5,
        RouteError::InvalidParameterName(_) => 6,
        RouteError::DuplicateParameter(_) => 7,
        RouteError::WildcardNotLast => 8,
        RouteError::DynamicPrefix => 9,
    }
}

pub open spec fn error_name(e: RouteError) -> Seq<char> {
    match e {
        RouteError::InvalidParameterName(n) => n@,
        RouteError::DuplicateParameter(n) => n@,
        _ => Seq::<char>::empty(),
    }
}

impl RoutePath {
    pub closed spec fn spec_source(&self) -> Seq<char> {
        self.source@
    }

    pub closed spec fn spec_segments(&self) -> Seq<RouteSegment> {
        self.segments@
    }

    /// A pattern is well formed when its segments are those of its source.
    pub open spec fn wf(&self) -> bool {
        &&& valid_route(self.spec_source())
        &&& self.spec_segments().len() == path_pieces(self.spec_source()).len()
        &&& forall|i: int| 0 <= i < self.spec_segments().len() ==> segment_for(
            #[trigger] self.spec_segments()[i],
            path_pieces(self.spec_source())[i],
        )
    }

    /// The pattern's source text.
    pub fn source(&self) -> (s: String)
        ensures
            s@ == self.spec_source(),
    {
        string_of(self.source.as_slice())
    }

    /// The pattern's source text as characters.
    pub fn source_chars(&self) -> (s: Vec<char>)
        ensures
            s@ == self.spec_source(),
    {
        copy_chars(self.source.as_slice())
    }

    /// The pattern's segments.
    pub fn segments(&self) -> (s: &Vec<RouteSegment>)
        ensures
            s@ == self.spec_segments(),
    {
        &self.segments
    }
}


/// The pieces of a request path.
pub fn path_segments(path: &[char]) -> (pieces: Vec<Vec<char>>)
    ensures
        pieces@.len() == path_pieces(path@).len(),
        forall|i: int| 0 <= i < pieces@.len() ==> (#[trigger] pieces@[i])@ == path_pieces(path@)[i],
{
    if path.len() == 1 && path[0] == '/' {
        assert(path@ == seq!['/']);
        return Vec::new();
    }
    if path.len() > 0 && path[0] == '/' {
        assert(path@ != seq!['/']);
        let mut rest: Vec<char> = Vec::new();
        let mut i: usize = 1;
        while i < path.len()
            invariant
                1 <= i <= path.len(),
                rest@ == path@.subrange(1, i as int),
            decreases path.len() - i,
        {
            rest.push(path[i]);
            i += 1;
            assert(rest@ == path@.subrange(1, i as int));
        }
        assert(rest@ == path@.drop_first());
        split_chars(rest.as_slice(), '/')
    } else {
        assert(path@ != seq!['/']);
        split_chars(path, '/')
    }
}

fn has_double_slash(s: &[char]) -> (r: bool)
    ensures
        r == has_empty_segment(s@),
{
    let mut i: usize = 1;
    while i < s.len()
        invariant
            1 <= i,
            forall|j: int| 0 <= j < i - 1 && j < s.len() - 1 ==> !(#[trigger] s@[j] == '/' && s@[j + 1] == '/'),
        decreases s.len() - i,
    {
        if s[i - 1] == '/' && s[i] == '/' {
            assert(s@[i - 1] == '/' && s@[(i - 1) + 1] == '/');
            return true;
        }
        i += 1;
    }
    false
}

fn valid_parameter_chars(name: &[char]) -> (r: bool)
    ensures
        r == valid_name_chars(name@),
{
    let mut i: usize = 0;
    while i < name.len()
        invariant
            i <= name.len(),
            forall|j: int| 0 <= j < i ==> is_name_char(#[trigger] name@[j]),
        decreases name.len() - i,
    {
        let c = name[i];
        if !(('a' <= c && c <= 'z') || ('A' <= c && c <= 'Z') || ('0' <= c && c <= '9') || c == '_') {
            return false;
        }
        i += 1;
    }
    true
}

fn drop_first_char(s: &[char]) -> (r: Vec<char>)
    requires
        s@.len() > 0,
    ensures
        r@ == s@.drop_first(),
{
    let mut r: Vec<char> = Vec::new();
    let mut i: usize = 1;
    while i < s.len()
        invariant
            1 <= i <= s.len(),
            r@ == s@.subrange(1, i as int),
        decreases s.len() - i,
    {
        r.push(s[i]);
        i += 1;
        assert(r@ == s@.subrange(1, i as int));
    }
    r
}

impl RoutePath {
    /// Parses a route pattern.
    pub fn parse(source: &[char]) -> (r: Result<RoutePath, RouteError>)
        ensures
            r is Ok <==> valid_route(source@),
            r matches Ok(p) ==> p.wf() && p.spec_source() == source@,
            r matches Err(e) ==> error_code(e) == route_error(source@).0 && error_name(e)
                == route_error(source@).1,
    {
        if !(source.len() > 0 && source[0] == '/') {
            return Err(RouteError::NoLeadingSlash);
        }
        if contains_char(source, '?') || contains_char(source, '#') {
            return Err(RouteError::QueryOrFragment);
        }
        if source.len() > 1 && source[source.len() - 1] == '/' {
            return Err(RouteError::TrailingSlash);
        }
        if has_double_slash(source) {
            return Err(RouteError::EmptySegment);
        }
        let pieces = path_segments(source);
        let ghost spieces = path_pieces(source@);
        let mut names: Vec<Vec<char>> = Vec::new();
        let mut segments: Vec<RouteSegment> = Vec::new();
        let mut i: usize = 0;
        assert(names@.map_values(|v: Vec<char>| v@) =~= Seq::<Seq<char>>::empty());
        while i < pieces.len()
            invariant
                pieces@.len() == spieces.len(),
                forall|k: int| 0 <= k < pieces@.len() ==> (#[trigger] pieces@[k])@ == spieces[k],
                spieces == path_pieces(source@),
                route_error(source@) == segments_error(spieces, 0, Seq::<Seq<char>>::empty()),
                i <= pieces.len(),
                segments_error(spieces, 0, Seq::<Seq<char>>::empty()) == segments_error(
                    spieces,
                    i as int,
                    names@.map_values(|v: Vec<char>| v@),
                ),
                segments@.len() == i,
                forall|k: int| 0 <= k < i ==> segment_for(#[trigger] segments@[k], spieces[k]),
            decreases pieces.len() - i,
        {
            let piece = &pieces[i];
            let ghost nview = names@.map_values(|v: Vec<char>| v@);
            assert(piece@ == spieces[i as int]);
            if piece.len() > 0 && (piece[0] == ':' || piece[0] == '*') {
                let wild = piece[0] == '*';
                let name = drop_first_char(piece.as_slice());
                if name.len() == 0 {
                    return Err(RouteError::EmptyParameterName);
                }
                if !valid_parameter_chars(name.as_slice()) {
                    return Err(RouteError::InvalidParameterName(string_of(name.as_slice())));
                }
                if contains_text(&names, name.as_slice()) {
                    return Err(RouteError::DuplicateParameter(string_of(name.as_slice())));
                }
                if wild && i + 1 != pieces.len() {
                    return Err(RouteError::WildcardNotLast);
                }
                names.push(copy_chars(name.as_slice()));
                assert(names@.map_values(|v: Vec<char>| v@) == nview.push(name@));
                if wild {
                    segments.push(RouteSegment::Wildcard(name));
                } else {
                    segments.push(RouteSegment::Parameter(name));
                }
            } else {
                segments.push(RouteSegment::Static(copy_chars(piece.as_slice())));
            }
            i += 1;
        }
        Ok(RoutePath { source: copy_chars(source), segments })
    }
}


/// Captured parameters: name and raw value.
pub type Captures = Seq<(Seq<char>, Seq<char>)>;

/// Matches the segments from `k` on against the pieces from `idx` on.
pub open spec fn match_from(segs: Seq<RouteSegment>, k: int, actual: Seq<Seq<char>>, idx: int) -> Option<Captures>
    decreases segs.len() - k,
{
    if k < 0 || k >= segs.len() {
        if idx == actual.len() { Some(Seq::empty()) } else { None }
    } else {
        match segs[k] {
            RouteSegment::Static(e) => {
                if 0 <= idx < actual.len() && actual[idx] == e@ {
                    match_from(segs, k + 1, actual, idx + 1)
                } else {
                    None
                }
            },
            RouteSegment::Parameter(n) => {
                if 0 <= idx < actual.len() && actual[idx].len() > 0 {
                    match match_from(segs, k + 1, actual, idx + 1) {
                        Some(rest) => Some(seq![(n@, actual[idx])] + rest),
                        None => None,
                    }
                } else {
                    None
                }
            },
            RouteSegment::Wildcard(n) => {
                if 0 <= idx <= actual.len() {
                    Some(seq![(n@, join_with(actual.subrange(idx, actual.len() as int), '/'))])
                } else {
                    None
                }
            },
        }
    }
}

/// What a pattern captures from a request path, if it matches.
pub open spec fn spec_captures(p: RoutePath, path: Seq<char>) -> Option<Captures> {
    match_from(p.spec_segments(), 0, path_pieces(path), 0)
}

pub open spec fn prepend_captures(c: Captures, r: Option<Captures>) -> Option<Captures> {
    match r {
        Some(rest) => Some(c + rest),
        None => None,
    }
}

pub open spec fn captures_view(v: Seq<(Vec<char>, Vec<char>)>) -> Captures {
    v.map_values(|e: (Vec<char>, Vec<char>)| (e.0@, e.1@))
}

/// Joins `parts[from..]` with `/`.
pub fn join_from(parts: &Vec<Vec<char>>, from: usize) -> (r: Vec<char>)
    requires
        from <= parts@.len(),
    ensures
        r@ == join_with(parts@.map_values(|v: Vec<char>| v@).subrange(from as int, parts@.len() as int), '/'),
{
    let ghost views = parts@.map_values(|v: Vec<char>| v@);
    let mut out: Vec<char> = Vec::new();
    let mut i: usize = from;
    while i < parts.len()
        invariant
            from <= i <= parts@.len(),
            views == parts@.map_values(|v: Vec<char>| v@),
            out@ == join_with(views.subrange(from as int, i as int), '/'),
        decreases parts.len() - i,
    {
        let ghost before = views.subrange(from as int, i as int);
        if i > from {
            out.push('/');
        }
        crate::text::push_all(&mut out, parts[i].as_slice());
        i += 1;
        proof {
            let now = views.subrange(from as int, i as int);
            assert(now.drop_last() == before);
            assert(now.last() == parts@[i - 1]@);
            if before.len() == 0 {
                assert(out@ == now[0]);
            }
        }
    }
    out
}

impl RoutePath {
    /// The parameters this pattern captures from `path`, or `None` when it
    /// does not match.
    pub fn captures(&self, path: &[char]) -> (r: Option<Vec<(Vec<char>, Vec<char>)>>)
        ensures
            r is Some <==> spec_captures(*self, path@) is Some,
            r matches Some(v) ==> captures_view(v@) == spec_captures(*self, path@)->0,
    {
        let actual = path_segments(path);
        let ghost av = actual@.map_values(|v: Vec<char>| v@);
        assert(av =~= path_pieces(path@));
        let mut captured: Vec<(Vec<char>, Vec<char>)> = Vec::new();
        let mut index: usize = 0;
        let mut k: usize = 0;
        assert(captures_view(captured@) =~= Seq::<(Seq<char>, Seq<char>)>::empty());
        while k < self.segments.len()
            invariant
                av == actual@.map_values(|v: Vec<char>| v@),
                av == path_pieces(path@),
                k <= self.segments@.len(),
                index <= actual@.len(),
                spec_captures(*self, path@) == prepend_captures(
                    captures_view(captured@),
                    match_from(self.segments@, k as int, av, index as int),
                ),
            decreases self.segments@.len() - k,
        {
            let ghost before = captures_view(captured@);
            match &self.segments[k] {
                RouteSegment::Static(expected) => {
                    if index >= actual.len() || !crate::text::chars_equal(actual[index].as_slice(), expected.as_slice()) {
                        return None;
                    }
                    index += 1;
                },
                RouteSegment::Parameter(name) => {
                    if index >= actual.len() || actual[index].len() == 0 {
                        return None;
                    }
                    captured.push((copy_chars(name.as_slice()), copy_chars(actual[index].as_slice())));
                    proof {
                        assert(captures_view(captured@) == before + seq![(name@, av[index as int])]);
                        let rest = match_from(self.segments@, k + 1, av, index + 1);
                        if rest is Some {
                            assert(before + (seq![(name@, av[index as int])] + rest->0) == (before + seq![(name@, av[index as int])]) + rest->0);
                        }
                    }
                    index += 1;
                },
                RouteSegment::Wildcard(name) => {
                    let value = join_from(&actual, index);
                    captured.push((copy_chars(name.as_slice()), value));
                    assert(captures_view(captured@) == before + seq![(name@, join_with(av.subrange(index as int, av.len() as int), '/'))]);
                    return Some(captured);
                },
            }
            k += 1;
        }
        if index == actual.len() {
            assert(captures_view(captured@) + Seq::<(Seq<char>, Seq<char>)>::empty() == captures_view(captured@));
            Some(captured)
        } else {
            None
        }
    }
}


/// Priority of a segment: literals before parameters before wildcards; the
/// end of a pattern ranks above all three.
pub open spec fn priority(segs: Seq<RouteSegment>, i: int) -> int {
    if 0 <= i < segs.len() {
        match segs[i] {
            RouteSegment::Static(_) => 2,
            RouteSegment::Parameter(_) => 1,
            RouteSegment::Wildcard(_) => 0,
        }
    } else {
        3
    }
}

/// Compares priorities position by position from `i` up to `n`.
pub open spec fn compare_from(a: Seq<RouteSegment>, b: Seq<RouteSegment>, i: int, n: int) -> Precedence
    decreases n - i,
{
    if i >= n {
        Precedence::Same
    } else if priority(a, i) < priority(b, i) {
        Precedence::Lower
    } else if priority(a, i) > priority(b, i) {
        Precedence::Higher
    } else {
        compare_from(a, b, i + 1, n)
    }
}

pub open spec fn max_len(a: Seq<RouteSegment>, b: Seq<RouteSegment>) -> int {
    if a.len() >= b.len() { a.len() as int } else { b.len() as int }
}

/// Left-to-right precedence of pattern `a` over pattern `b`.
pub open spec fn precedence(a: Seq<RouteSegment>, b: Seq<RouteSegment>) -> Precedence {
    compare_from(a, b, 0, max_len(a, b))
}

pub open spec fn flip(p: Precedence) -> Precedence {
    match p {
        Precedence::Lower => Precedence::Higher,
        Precedence::Same => Precedence::Same,
        Precedence::Higher => Precedence::Lower,
    }
}

proof fn lemma_compare_extend(a: Seq<RouteSegment>, b: Seq<RouteSegment>, i: int, n: int, m: int)
    requires
        0 <= i,
        max_len(a, b) <= n <= m,
    ensures
        compare_from(a, b, i, n) == compare_from(a, b, i, m),
    decreases m - i,
{
    if i < m {
        lemma_compare_extend(a, b, i + 1, n, m);
        if i >= n {
            assert(priority(a, i) == 3 && priority(b, i) == 3);
            lemma_compare_same_tail(a, b, i + 1, m);
        }
    }
}

proof fn lemma_compare_same_tail(a: Seq<RouteSegment>, b: Seq<RouteSegment>, i: int, m: int)
    requires
        i >= max_len(a, b),
    ensures
        compare_from(a, b, i, m) == Precedence::Same,
    decreases m - i,
{
    if i < m {
        lemma_compare_same_tail(a, b, i + 1, m);
    }
}

proof fn lemma_compare_order(a: Seq<RouteSegment>, b: Seq<RouteSegment>, c: Seq<RouteSegment>, i: int, n: int)
    ensures
        compare_from(a, b, i, n) == flip(compare_from(b, a, i, n)),
        compare_from(a, b, i, n) != Precedence::Lower && compare_from(b, c, i, n) != Precedence::Lower
            ==> compare_from(a, c, i, n) != Precedence::Lower,
        compare_from(a, b, i, n) == Precedence::Higher && compare_from(b, c, i, n) != Precedence::Lower
            ==> compare_from(a, c, i, n) == Precedence::Higher,
        compare_from(a, b, i, n) != Precedence::Lower && compare_from(b, c, i, n) == Precedence::Higher
            ==> compare_from(a, c, i, n) == Precedence::Higher,
        compare_from(a, b, i, n) == Precedence::Same && compare_from(b, c, i, n) == Precedence::Same
            ==> compare_from(a, c, i, n) == Precedence::Same,
    decreases n - i,
{
    if i < n {
        lemma_compare_order(a, b, c, i + 1, n);
    }
}

pub open spec fn max3(a: Seq<RouteSegment>, b: Seq<RouteSegment>, c: Seq<RouteSegment>) -> int {
    let m = max_len(a, b);
    if m >= c.len() { m } else { c.len() as int }
}

/// Precedence between patterns is a total preorder: it is antisymmetric and
/// transitive, strictly so where one step is strict.
pub proof fn lemma_precedence_order(a: Seq<RouteSegment>, b: Seq<RouteSegment>, c: Seq<RouteSegment>)
    ensures
        precedence(a, b) == flip(precedence(b, a)),
        precedence(a, b) != Precedence::Lower && precedence(b, c) != Precedence::Lower
            ==> precedence(a, c) != Precedence::Lower,
        precedence(a, b) == Precedence::Higher && precedence(b, c) != Precedence::Lower
            ==> precedence(a, c) == Precedence::Higher,
        precedence(a, b) != Precedence::Lower && precedence(b, c) == Precedence::Higher
            ==> precedence(a, c) == Precedence::Higher,
        precedence(a, b) == Precedence::Same && precedence(b, c) == Precedence::Same
            ==> precedence(a, c) == Precedence::Same,
{
    let n = max3(a, b, c);
    lemma_compare_extend(a, b, 0, max_len(a, b), n);
    lemma_compare_extend(b, a, 0, max_len(b, a), n);
    lemma_compare_extend(b, c, 0, max_len(b, c), n);
    lemma_compare_extend(a, c, 0, max_len(a, c), n);
    lemma_compare_order(a, b, c, 0, n);
}

/// Whether two segments are of the same kind: both literals, both
/// parameters, or both wildcards.
pub open spec fn same_kind(x: RouteSegment, y: RouteSegment) -> bool {
    ||| (x is Static && y is Static)
    ||| (x is Parameter && y is Parameter)
    ||| (x is Wildcard && y is Wildcard)
}

proof fn lemma_compare_skip_same_kinds(a: Seq<RouteSegment>, b: Seq<RouteSegment>, i: int, k: int, n: int)
    requires
        0 <= i <= k <= n,
        k <= a.len(),
        k <= b.len(),
        forall|j: int| 0 <= j < k ==> same_kind(#[trigger] a[j], b[j]),
    ensures
        compare_from(a, b, i, n) == compare_from(a, b, k, n),
    decreases k - i,
{
    if i < k {
        assert(same_kind(a[i], b[i]));
        lemma_compare_skip_same_kinds(a, b, i + 1, k, n);
    }
}

/// Precedence is decided at the first position where two patterns differ in
/// kind: there a literal ranks above a parameter and a wildcard, and a
/// parameter above a wildcard, whatever follows.
pub proof fn law_precedence_by_kind(a: Seq<RouteSegment>, b: Seq<RouteSegment>, k: int)
    requires
        0 <= k < a.len(),
        k < b.len(),
        forall|j: int| 0 <= j < k ==> same_kind(#[trigger] a[j], b[j]),
    ensures
        a[k] is Static && b[k] is Parameter ==> precedence(a, b) == Precedence::Higher,
        a[k] is Static && b[k] is Wildcard ==> precedence(a, b) == Precedence::Higher,
        a[k] is Parameter && b[k] is Wildcard ==> precedence(a, b) == Precedence::Higher,
        same_kind(a[k], b[k]) ==> precedence(a, b) == compare_from(a, b, k + 1, max_len(a, b)),
{
    lemma_compare_skip_same_kinds(a, b, 0, k, max_len(a, b));
}

/// A pattern that ends where another of the same kinds continues ranks
/// above it, and two patterns of the same kinds all along rank the same.
pub proof fn law_precedence_of_equal_kinds(a: Seq<RouteSegment>, b: Seq<RouteSegment>)
    requires
        a.len() <= b.len(),
        forall|j: int| 0 <= j < a.len() ==> same_kind(#[trigger] a[j], b[j]),
    ensures
        a.len() < b.len() ==> precedence(a, b) == Precedence::Higher,
        a.len() == b.len() ==> precedence(a, b) == Precedence::Same,
{
    lemma_compare_skip_same_kinds(a, b, 0, a.len() as int, max_len(a, b));
    if a.len() < b.len() {
        assert(b[a.len() as int] is Static || b[a.len() as int] is Parameter || b[a.len() as int] is Wildcard);
    }
}

fn segment_priority(segs: &Vec<RouteSegment>, i: usize) -> (p: u8)
    ensures
        p as int == priority(segs@, i as int),
{
    if i < segs.len() {
        match &segs[i] {
            RouteSegment::Static(_) => 2,
            RouteSegment::Parameter(_) => 1,
            RouteSegment::Wildcard(_) => 0,
        }
    } else {
        3
    }
}

/// Whether two segments occupy the same place in equivalent patterns.
pub open spec fn segments_conflict(l: RouteSegment, r: RouteSegment) -> bool {
    match (l, r) {
        (RouteSegment::Static(x), RouteSegment::Static(y)) => x@ == y@,
        (RouteSegment::Parameter(_), RouteSegment::Parameter(_)) => true,
        (RouteSegment::Wildcard(_), RouteSegment::Wildcard(_)) => true,
        _ => false,
    }
}

/// Two patterns are equivalent when they have the same shape and the same
/// literals, whatever their parameter names.
pub open spec fn patterns_conflict(a: Seq<RouteSegment>, b: Seq<RouteSegment>) -> bool {
    a.len() == b.len() && forall|i: int| 0 <= i < a.len() ==> segments_conflict(#[trigger] a[i], b[i])
}

/// Whether a segment occupies the same place as the pattern piece `piece`:
/// a parameter against a parameter, a wildcard against a wildcard, or the
/// same literal.
pub open spec fn piece_conflicts(s: RouteSegment, piece: Seq<char>) -> bool {
    if is_param_piece(piece) {
        s is Parameter
    } else if is_wild_piece(piece) {
        s is Wildcard
    } else {
        s matches RouteSegment::Static(t) && t@ == piece
    }
}

/// Whether the segments `segs` and the pieces of a pattern source have the
/// same shape and literals.
pub open spec fn shape_matches(segs: Seq<RouteSegment>, pieces: Seq<Seq<char>>) -> bool {
    segs.len() == pieces.len() && forall|i: int| 0 <= i < segs.len() ==> piece_conflicts(#[trigger] segs[i], pieces[i])
}

/// For a well-formed pattern, conflicting with it is a matter of its source
/// text alone.
pub proof fn lemma_conflict_by_source(segs: Seq<RouteSegment>, p: RoutePath)
    requires
        p.wf(),
    ensures
        patterns_conflict(segs, p.spec_segments()) == shape_matches(segs, path_pieces(p.spec_source())),
{
    let pieces = path_pieces(p.spec_source());
    if segs.len() == pieces.len() {
        assert forall|i: int| 0 <= i < segs.len() implies segments_conflict(#[trigger] segs[i], p.spec_segments()[i])
            == piece_conflicts(segs[i], pieces[i]) by {
            assert(segment_for(p.spec_segments()[i], pieces[i]));
        }
        if patterns_conflict(segs, p.spec_segments()) {
            assert forall|i: int| 0 <= i < segs.len() implies piece_conflicts(#[trigger] segs[i], pieces[i]) by {
                assert(segments_conflict(segs[i], p.spec_segments()[i]));
            }
        }
        if shape_matches(segs, pieces) {
            assert forall|i: int| 0 <= i < segs.len() implies segments_conflict(#[trigger] segs[i], p.spec_segments()[i]) by {
                assert(piece_conflicts(segs[i], pieces[i]));
            }
        }
    }
}

/// Equivalence of patterns is reflexive and symmetric.
pub proof fn law_conflict_symmetric(a: Seq<RouteSegment>, b: Seq<RouteSegment>)
    ensures
        patterns_conflict(a, a),
        patterns_conflict(a, b) == patterns_conflict(b, a),
{
    assert forall|i: int| 0 <= i < a.len() implies segments_conflict(#[trigger] a[i], a[i]) by {}
    if patterns_conflict(a, b) {
        assert forall|i: int| 0 <= i < b.len() implies segments_conflict(#[trigger] b[i], a[i]) by {
            assert(segments_conflict(a[i], b[i]));
        }
    }
    if patterns_conflict(b, a) {
        assert forall|i: int| 0 <= i < a.len() implies segments_conflict(#[trigger] a[i], b[i]) by {
            assert(segments_conflict(b[i], a[i]));
        }
    }
}

impl RoutePath {
    /// Precedence of this pattern over `other`.
    pub fn specificity(&self, other: &RoutePath) -> (r: Precedence)
        ensures
            r == precedence(self.spec_segments(), other.spec_segments()),
    {
        let maximum = if self.segments.len() >= other.segments.len() {
            self.segments.len()
        } else {
            other.segments.len()
        };
        let mut index: usize = 0;
        while index < maximum
            invariant
                maximum == max_len(self.segments@, other.segments@),
                index <= maximum,
                precedence(self.segments@, other.segments@) == compare_from(
                    self.segments@,
                    other.segments@,
                    index as int,
                    maximum as int,
                ),
            decreases maximum - index,
        {
            let left = segment_priority(&self.segments, index);
            let right = segment_priority(&other.segments, index);
            if left < right {
                return Precedence::Lower;
            }
            if left > right {
                return Precedence::Higher;
            }
            index += 1;
        }
        Precedence::Same
    }

    /// Whether this pattern and `other` would answer the same paths.
    pub fn conflicts_with(&self, other: &RoutePath) -> (r: bool)
        ensures
            r == patterns_conflict(self.spec_segments(), other.spec_segments()),
    {
        if self.segments.len() != other.segments.len() {
            return false;
        }
        let mut i: usize = 0;
        while i < self.segments.len()
            invariant
                self.segments@.len() == other.segments@.len(),
                i <= self.segments@.len(),
                forall|j: int| 0 <= j < i ==> segments_conflict(#[trigger] self.segments@[j], other.segments@[j]),
            decreases self.segments@.len() - i,
        {
            let same = match (&self.segments[i], &other.segments[i]) {
                (RouteSegment::Static(x), RouteSegment::Static(y)) => crate::text::chars_equal(x.as_slice(), y.as_slice()),
                (RouteSegment::Parameter(_), RouteSegment::Parameter(_)) => true,
                (RouteSegment::Wildcard(_), RouteSegment::Wildcard(_)) => true,
                _ => false,
            };
            if !same {
                return false;
            }
            i += 1;
        }
        true
    }

    /// Whether every segment of this pattern is a literal.
    pub fn is_static(&self) -> (r: bool)
        ensures
            r == forall|i: int| 0 <= i < self.spec_segments().len() ==> (#[trigger] self.spec_segments()[i]) is Static,
    {
        let mut i: usize = 0;
        while i < self.segments.len()
            invariant
                i <= self.segments@.len(),
                forall|j: int| 0 <= j < i ==> (#[trigger] self.segments@[j]) is Static,
            decreases self.segments@.len() - i,
        {
            match &self.segments[i] {
                RouteSegment::Static(_) => {},
                _ => { return false; },
            }
            i += 1;
        }
        true
    }
}


/// The OpenAPI spelling of one segment: `/literal` or `/{name}`.
pub open spec fn openapi_piece(seg: RouteSegment) -> Seq<char> {
    match seg {
        RouteSegment::Static(t) => seq!['/'] + t@,
        RouteSegment::Parameter(n) => seq!['/', '{'] + n@ + seq!['}'],
        RouteSegment::Wildcard(n) => seq!['/', '{'] + n@ + seq!['}'],
    }
}

pub open spec fn openapi_prefix(segs: Seq<RouteSegment>, k: int) -> Seq<char>
    decreases k,
{
    if k <= 0 {
        Seq::<char>::empty()
    } else {
        openapi_prefix(segs, k - 1) + openapi_piece(segs[k - 1])
    }
}

pub open spec fn parameter_names(segs: Seq<RouteSegment>, k: int) -> Seq<Seq<char>>
    decreases k,
{
    if k <= 0 {
        Seq::<Seq<char>>::empty()
    } else {
        let prev = parameter_names(segs, k - 1);
        match segs[k - 1] {
            RouteSegment::Static(_) => prev,
            RouteSegment::Parameter(n) => prev.push(n@),
            RouteSegment::Wildcard(n) => prev.push(n@),
        }
    }
}

/// The OpenAPI path of a pattern (`/items/{id}`) and its parameter names.
pub open spec fn spec_openapi_path(segs: Seq<RouteSegment>) -> (Seq<char>, Seq<Seq<char>>) {
    if segs.len() == 0 {
        (seq!['/'], Seq::<Seq<char>>::empty())
    } else {
        (openapi_prefix(segs, segs.len() as int), parameter_names(segs, segs.len() as int))
    }
}

impl RoutePath {
    /// The OpenAPI path template and the names of its parameters.
    pub fn openapi_path(&self) -> (r: (Vec<char>, Vec<Vec<char>>))
        ensures
            r.0@ == spec_openapi_path(self.spec_segments()).0,
            r.1@.map_values(|v: Vec<char>| v@) == spec_openapi_path(self.spec_segments()).1,
    {
        if self.segments.len() == 0 {
            let mut root = Vec::new();
            root.push('/');
            let params: Vec<Vec<char>> = Vec::new();
            assert(root@ == seq!['/']);
            assert(params@.map_values(|v: Vec<char>| v@) =~= Seq::<Seq<char>>::empty());
            return (root, params);
        }
        let mut path: Vec<char> = Vec::new();
        let mut params: Vec<Vec<char>> = Vec::new();
        let mut k: usize = 0;
        assert(params@.map_values(|v: Vec<char>| v@) =~= Seq::<Seq<char>>::empty());
        while k < self.segments.len()
            invariant
                k <= self.segments@.len(),
                path@ == openapi_prefix(self.segments@, k as int),
                params@.map_values(|v: Vec<char>| v@) == parameter_names(self.segments@, k as int),
            decreases self.segments@.len() - k,
        {
            let ghost before = params@.map_values(|v: Vec<char>| v@);
            let ghost pb = path@;
            path.push('/');
            match &self.segments[k] {
                RouteSegment::Static(t) => {
                    crate::text::push_all(&mut path, t.as_slice());
                    assert(path@ == pb + (seq!['/'] + t@));
                },
                RouteSegment::Parameter(n) => {
                    path.push('{');
                    crate::text::push_all(&mut path, n.as_slice());
                    path.push('}');
                    params.push(copy_chars(n.as_slice()));
                    assert(path@ == pb + (seq!['/', '{'] + n@ + seq!['}']));
                    assert(params@.map_values(|v: Vec<char>| v@) == before.push(n@));
                },
                RouteSegment::Wildcard(n) => {
                    path.push('{');
                    crate::text::push_all(&mut path, n.as_slice());
                    path.push('}');
                    params.push(copy_chars(n.as_slice()));
                    assert(path@ == pb + (seq!['/', '{'] + n@ + seq!['}']));
                    assert(params@.map_values(|v: Vec<char>| v@) == before.push(n@));
                },
            }
            k += 1;
        }
        (path, params)
    }
}

/// `prefix` followed by `path`, where an empty or root prefix adds nothing
/// and a root path adds nothing.
pub open spec fn spec_join_paths(prefix: Seq<char>, path: Seq<char>) -> Seq<char> {
    if prefix == seq!['/'] || prefix.len() == 0 {
        path
    } else if path == seq!['/'] {
        prefix
    } else {
        prefix + path
    }
}

/// Joins two prefixes; an empty nested prefix leaves the outer one (a root
/// outer prefix becomes empty).
pub open spec fn spec_join_prefixes(prefix: Seq<char>, nested: Seq<char>) -> Seq<char> {
    if nested.len() == 0 {
        if prefix == seq!['/'] { Seq::<char>::empty() } else { prefix }
    } else {
        spec_join_paths(prefix, nested)
    }
}

/// Mounting twice is mounting once at the joined prefix: a path under
/// `nested` under `prefix` is the path under the joined prefixes.
pub proof fn law_mount_composes(prefix: Seq<char>, nested: Seq<char>, path: Seq<char>)
    ensures
        spec_join_paths(prefix, spec_join_paths(nested, path)) == spec_join_paths(spec_join_prefixes(prefix, nested), path),
{
    let root = seq!['/'];
    if nested.len() == 0 || nested == root {
        if nested == root && !(prefix == root || prefix.len() == 0) {
            assert(spec_join_prefixes(prefix, nested) == prefix);
        }
    } else if prefix == root || prefix.len() == 0 {
    } else {
        assert((prefix + nested).len() > 1);
        assert((prefix + nested) != root);
        if path != root {
            assert(prefix + (nested + path) =~= (prefix + nested) + path);
        }
    }
}

/// Whether `path` lies inside the scope `prefix`.
pub open spec fn spec_prefix_matches(prefix: Seq<char>, path: Seq<char>) -> bool {
    prefix.len() == 0 || path == prefix || (path.len() > prefix.len() && path.take(prefix.len() as int) == prefix
        && path[prefix.len() as int] == '/')
}

fn is_root(s: &[char]) -> (r: bool)
    ensures
        r == (s@ == seq!['/']),
{
    if s.len() == 1 && s[0] == '/' {
        assert(s@ =~= seq!['/']);
        true
    } else {
        false
    }
}

/// Joins a prefix and a path.
pub fn join_paths(prefix: &[char], path: &[char]) -> (r: Vec<char>)
    ensures
        r@ == spec_join_paths(prefix@, path@),
{
    if is_root(prefix) || prefix.len() == 0 {
        copy_chars(path)
    } else if is_root(path) {
        copy_chars(prefix)
    } else {
        let mut r = copy_chars(prefix);
        crate::text::push_all(&mut r, path);
        r
    }
}

/// Joins two prefixes.
pub fn join_prefixes(prefix: &[char], nested: &[char]) -> (r: Vec<char>)
    ensures
        r@ == spec_join_prefixes(prefix@, nested@),
{
    if nested.len() == 0 {
        if is_root(prefix) {
            Vec::new()
        } else {
            copy_chars(prefix)
        }
    } else {
        join_paths(prefix, nested)
    }
}

/// Whether `path` lies inside the scope `prefix`.
pub fn prefix_matches(prefix: &[char], path: &[char]) -> (r: bool)
    ensures
        r == spec_prefix_matches(prefix@, path@),
{
    if prefix.len() == 0 {
        return true;
    }
    if crate::text::chars_equal(prefix, path) {
        return true;
    }
    if path.len() <= prefix.len() {
        return false;
    }
    let mut i: usize = 0;
    while i < prefix.len()
        invariant
            i <= prefix.len() < path.len(),
            forall|j: int| 0 <= j < i ==> prefix@[j] == path@[j],
        decreases prefix.len() - i,
    {
        if prefix[i] != path[i] {
            return false;
        }
        i += 1;
    }
    assert(path@.take(prefix@.len() as int) =~= prefix@);
    path[prefix.len()] == '/'
}

/// A prefix with the root `/` replaced by the empty prefix.
pub fn normalize_prefix(prefix: &[char]) -> (r: Vec<char>)
    ensures
        r@ == (if prefix@ == seq!['/'] { Seq::<char>::empty() } else { prefix@ }),
{
    if is_root(prefix) { Vec::new() } else { copy_chars(prefix) }
}

/// Whether `prefix` is acceptable as a router prefix: empty, `/`, or a valid
/// pattern made only of literals.
pub open spec fn spec_scope_prefix_error(prefix: Seq<char>) -> int {
    if prefix.len() == 0 || prefix == seq!['/'] {
        0
    } else if route_error(prefix).0 != 0 {
        route_error(prefix).0
    } else if exists|i: int| 0 <= i < path_pieces(prefix).len() && (is_param_piece(#[trigger] path_pieces(prefix)[i]) || is_wild_piece(path_pieces(prefix)[i])) {
        9
    } else {
        0
    }
}

/// Checks a router prefix.
pub fn validate_scope_prefix(prefix: &[char]) -> (r: Result<(), RouteError>)
    ensures
        r is Ok <==> spec_scope_prefix_error(prefix@) == 0,
        r matches Err(e) ==> error_code(e) == spec_scope_prefix_error(prefix@),
{
    if prefix.len() == 0 || is_root(prefix) {
        return Ok(());
    }
    let path = match RoutePath::parse(prefix) {
        Ok(path) => path,
        Err(e) => { return Err(e); },
    };
    if !path.is_static() {
        proof {
            let k = choose|i: int| 0 <= i < path.spec_segments().len() && !(path.spec_segments()[i] is Static);
            assert(segment_for(path.spec_segments()[k], path_pieces(prefix@)[k]));
        }
        return Err(RouteError::DynamicPrefix);
    }
    proof {
        assert forall|i: int| 0 <= i < path_pieces(prefix@).len() implies !(is_param_piece(#[trigger] path_pieces(prefix@)[i]) || is_wild_piece(path_pieces(prefix@)[i])) by {
            assert(segment_for(path.spec_segments()[i], path_pieces(prefix@)[i]));
        }
    }
    Ok(())
}

} // verus!
