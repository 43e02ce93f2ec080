//! The route table: registration, conflict detection, and the choice of
//! what answers a request.

use vstd::prelude::*;
use crate::method::{Method, standard_method_name};
use crate::route::{
    RoutePath, Precedence, precedence, spec_captures, captures_view, lemma_precedence_order,
    spec_prefix_matches, prefix_matches, patterns_conflict,
};
use crate::text::chars_equal;
use crate::openapi::{Operation, RouteDescription, spec_openapi_method};
use crate::route::{spec_openapi_path, RouteError, error_code, route_error, valid_route, shape_matches,
    lemma_conflict_by_source, path_pieces, is_param_piece, is_wild_piece, segment_for};

verus! {

/// A middleware attached to a scope or route: `id` names the instance the
/// runtime calls, `kind` its type (what a route may exclude).
#[derive(Debug, Clone, Copy, PartialEq, Eq)]
pub struct MiddlewareEntry {
    pub id: u64,
    pub kind: u64,
}

/// A registered route: its method, its pattern, the handler that answers
/// it, its own middleware, and the inherited middleware kinds it skips.
pub struct RegisteredRoute {
    pub method: Method,
    pub path: RoutePath,
    pub handler: u64,
    pub operation: Operation,
    pub middlewares: Vec<MiddlewareEntry>,
    pub excluded: Vec<u64>,
}

/// A fallback handler for every unmatched path inside `prefix`.
pub struct RegisteredFallback {
    pub prefix: Vec<char>,
    pub handler: u64,
}

/// What answers a request.
pub enum Dispatch {
    /// The route at `route`, with its captured parameters; `head` when a GET
    /// route answers a HEAD request; `allow` when an explicit OPTIONS route
    /// answers.
    Route { route: usize, captures: Vec<(Vec<char>, Vec<char>)>, head: bool, allow: Option<Vec<char>> },
    /// The fallback at the given index.
    Fallback(usize),
    NotFound,
    MethodNotAllowed { allow: Vec<char> },
    Options { allow: Vec<char> },
}

/// The indexes `k < n` satisfying `p`, in increasing order.
pub open spec fn filter_upto(p: spec_fn(int) -> bool, n: int) -> Seq<int>
    decreases n,
{
    if n <= 0 {
        Seq::<int>::empty()
    } else if p(n - 1) {
        filter_upto(p, n - 1).push(n - 1)
    } else {
        filter_upto(p, n - 1)
    }
}

pub proof fn lemma_filter_ext(p: spec_fn(int) -> bool, q: spec_fn(int) -> bool, n: int)
    requires
        forall|k: int| 0 <= k < n ==> #[trigger] p(k) == q(k),
    ensures
        filter_upto(p, n) == filter_upto(q, n),
    decreases n,
{
    if n > 0 {
        lemma_filter_ext(p, q, n - 1);
    }
}

pub proof fn lemma_filter_none(p: spec_fn(int) -> bool, n: int)
    requires
        forall|k: int| 0 <= k < n ==> !#[trigger] p(k),
    ensures
        filter_upto(p, n) == Seq::<int>::empty(),
    decreases n,
{
    if n > 0 {
        lemma_filter_none(p, n - 1);
    }
}

pub proof fn lemma_filter_members(p: spec_fn(int) -> bool, n: int)
    ensures
        forall|i: int| 0 <= i < filter_upto(p, n).len() ==> 0 <= #[trigger] filter_upto(p, n)[i] < n && p(filter_upto(p, n)[i]),
        forall|k: int| 0 <= k < n && #[trigger] p(k) ==> filter_upto(p, n).contains(k),
    decreases n,
{
    if n > 0 {
        lemma_filter_members(p, n - 1);
        let prev = filter_upto(p, n - 1);
        if p(n - 1) {
            assert(filter_upto(p, n)[prev.len() as int] == n - 1);
            assert forall|k: int| 0 <= k < n && #[trigger] p(k) implies filter_upto(p, n).contains(k) by {
                if k < n - 1 {
                    let j = choose|j: int| 0 <= j < prev.len() && prev[j] == k;
                    assert(filter_upto(p, n)[j] == k);
                }
            }
        }
    }
}

impl Dispatcher {
    pub closed spec fn spec_routes(&self) -> Seq<RegisteredRoute> {
        self.routes@
    }

    pub closed spec fn spec_fallbacks(&self) -> Seq<RegisteredFallback> {
        self.fallbacks@
    }

    /// Whether route `k` matches `path`.
    pub open spec fn matching(&self, path: Seq<char>, k: int) -> bool {
        0 <= k < self.spec_routes().len() && spec_captures(self.spec_routes()[k].path, path) is Some
    }

    /// Whether route `k` matches `path` and no matching route among the
    /// first `n` takes precedence over it.
    pub open spec fn maximal_upto(&self, path: Seq<char>, n: int, k: int) -> bool {
        &&& 0 <= k < n
        &&& self.matching(path, k)
        &&& forall|j: int| 0 <= j < n && #[trigger] self.matching(path, j) ==> precedence(
            self.spec_routes()[k].path.spec_segments(),
            self.spec_routes()[j].path.spec_segments(),
        ) != Precedence::Lower
    }

    /// The candidate routes for `path` among the first `n` routes: those that
    /// match with the highest precedence, in registration order.
    pub open spec fn candidates_upto(&self, path: Seq<char>, n: int) -> Seq<int> {
        filter_upto(|k: int| self.maximal_upto(path, n, k), n)
    }

    /// The candidate routes for `path`.
    pub open spec fn candidates(&self, path: Seq<char>) -> Seq<int> {
        self.candidates_upto(path, self.spec_routes().len() as int)
    }
}

/// The routes of a router, its fallbacks, and the scopes of the routers
/// merged into it.
pub struct Dispatcher {
    routes: Vec<RegisteredRoute>,
    fallbacks: Vec<RegisteredFallback>,
    scopes: Vec<Scope>,
}

/// A router scope: its prefix, the middleware and states it applies inside
/// that prefix (each state as its kind and the value's handle), and its body
/// limit.
pub struct Scope {
    pub prefix: Vec<char>,
    pub middlewares: Vec<MiddlewareEntry>,
    pub states: Vec<(u64, u64)>,
    pub body_limit: Option<usize>,
}


pub open spec fn pair_index(e: (usize, Vec<(Vec<char>, Vec<char>)>)) -> int {
    e.0 as int
}

impl Dispatcher {
    proof fn lemma_candidates_step(&self, path: Seq<char>, i: int, best: Option<int>)
        requires
            0 <= i < self.spec_routes().len(),
            best is None <==> (forall|k: int| 0 <= k < i ==> !#[trigger] self.matching(path, k)),
            best matches Some(b) ==> self.maximal_upto(path, i, b),
        ensures
            !self.matching(path, i) ==> self.candidates_upto(path, i + 1) == self.candidates_upto(path, i)
                && (best matches Some(b) ==> self.maximal_upto(path, i + 1, b)),
            self.matching(path, i) && (best is None || precedence(
                self.spec_routes()[i].path.spec_segments(),
                self.spec_routes()[best->0].path.spec_segments(),
            ) == Precedence::Higher) ==> self.candidates_upto(path, i + 1) == seq![i]
                && self.maximal_upto(path, i + 1, i),
            self.matching(path, i) && best is Some && precedence(
                self.spec_routes()[i].path.spec_segments(),
                self.spec_routes()[best->0].path.spec_segments(),
            ) == Precedence::Same ==> self.candidates_upto(path, i + 1) == self.candidates_upto(path, i).push(i)
                && self.maximal_upto(path, i + 1, best->0),
            self.matching(path, i) && best is Some && precedence(
                self.spec_routes()[i].path.spec_segments(),
                self.spec_routes()[best->0].path.spec_segments(),
            ) == Precedence::Lower ==> self.candidates_upto(path, i + 1) == self.candidates_upto(path, i)
                && self.maximal_upto(path, i + 1, best->0),
    {
        let segs = |k: int| self.spec_routes()[k].path.spec_segments();
        let old_p = |k: int| self.maximal_upto(path, i, k);
        let new_p = |k: int| self.maximal_upto(path, i + 1, k);
        let si = segs(i);
        assert(precedence(si, si) == Precedence::Same) by {
            lemma_precedence_order(si, si, si);
        }
        if !self.matching(path, i) {
            assert forall|k: int| 0 <= k < i implies #[trigger] old_p(k) == new_p(k) by {}
            lemma_filter_ext(old_p, new_p, i);
            assert(!new_p(i));
        } else if best is None {
            assert forall|k: int| 0 <= k < i implies !#[trigger] new_p(k) by {
                assert(!self.matching(path, k));
            }
            lemma_filter_none(new_p, i);
            assert(new_p(i));
            assert(filter_upto(new_p, i + 1) == Seq::<int>::empty().push(i));
        } else {
            let b = best->0;
            let sb = segs(b);
            let pib = precedence(si, sb);
            if pib == Precedence::Higher {
                assert forall|k: int| 0 <= k < i implies !#[trigger] new_p(k) by {
                    if self.matching(path, k) {
                        let sk = segs(k);
                        lemma_precedence_order(si, sb, sk);
                        lemma_precedence_order(sk, si, sb);
                        assert(precedence(sk, si) == Precedence::Lower);
                    }
                }
                lemma_filter_none(new_p, i);
                assert forall|j: int| 0 <= j < i + 1 && #[trigger] self.matching(path, j) implies precedence(si, segs(j)) != Precedence::Lower by {
                    if j < i {
                        lemma_precedence_order(si, sb, segs(j));
                    }
                }
                assert(new_p(i));
                assert(filter_upto(new_p, i + 1) == Seq::<int>::empty().push(i));
            } else if pib == Precedence::Same {
                lemma_precedence_order(sb, si, sb);
                assert forall|k: int| 0 <= k < i implies #[trigger] old_p(k) == new_p(k) by {
                    if old_p(k) {
                        let sk = segs(k);
                        lemma_precedence_order(sk, sb, si);
                        lemma_precedence_order(sb, sk, sb);
                    }
                }
                lemma_filter_ext(old_p, new_p, i);
                assert forall|j: int| 0 <= j < i + 1 && #[trigger] self.matching(path, j) implies precedence(si, segs(j)) != Precedence::Lower by {
                    if j < i {
                        lemma_precedence_order(si, sb, segs(j));
                    }
                }
                assert(new_p(i));
                assert(new_p(b));
            } else {
                lemma_precedence_order(sb, si, sb);
                assert forall|k: int| 0 <= k < i implies #[trigger] old_p(k) == new_p(k) by {
                    if old_p(k) {
                        let sk = segs(k);
                        lemma_precedence_order(sk, sb, si);
                        lemma_precedence_order(sb, sk, sb);
                    }
                }
                lemma_filter_ext(old_p, new_p, i);
                assert(!new_p(i));
                assert(new_p(b));
            }
        }
    }

    /// The candidate routes for `path`, with what each captures.
    fn collect_candidates(&self, path: &[char]) -> (r: Vec<(usize, Vec<(Vec<char>, Vec<char>)>)>)
        ensures
            r@.map_values(|e: (usize, Vec<(Vec<char>, Vec<char>)>)| pair_index(e)) == self.candidates(path@),
            forall|i: int| 0 <= i < r@.len() ==> spec_captures(self.spec_routes()[#[trigger] r@[i].0 as int].path, path@)
                == Some(captures_view(r@[i].1@)),
    {
        let mut matched: Vec<(usize, Vec<(Vec<char>, Vec<char>)>)> = Vec::new();
        let mut best: Option<usize> = None;
        let mut i: usize = 0;
        assert(matched@.map_values(|e: (usize, Vec<(Vec<char>, Vec<char>)>)| pair_index(e)) =~= Seq::<int>::empty());
        assert(self.candidates_upto(path@, 0) == Seq::<int>::empty());
        while i < self.routes.len()
            invariant
                i <= self.routes@.len(),
                matched@.map_values(|e: (usize, Vec<(Vec<char>, Vec<char>)>)| pair_index(e)) == self.candidates_upto(path@, i as int),
                forall|k: int| 0 <= k < matched@.len() ==> spec_captures(self.spec_routes()[#[trigger] matched@[k].0 as int].path, path@)
                    == Some(captures_view(matched@[k].1@)),
                best is None <==> (forall|k: int| 0 <= k < i ==> !#[trigger] self.matching(path@, k)),
                best matches Some(b) ==> self.maximal_upto(path@, i as int, b as int),
            decreases self.routes@.len() - i,
        {
            let ghost gbest: Option<int> = match best { Some(b) => Some(b as int), None => None };
            proof {
                self.lemma_candidates_step(path@, i as int, gbest);
            }
            let ghost before = matched@;
            match self.routes[i].path.captures(path) {
                None => {},
                Some(captures) => {
                    let order = match best {
                        None => Precedence::Higher,
                        Some(b) => self.routes[i].path.specificity(&self.routes[b].path),
                    };
                    match order {
                        Precedence::Lower => {},
                        Precedence::Same => {
                            matched.push((i, captures));
                            assert(matched@.map_values(|e: (usize, Vec<(Vec<char>, Vec<char>)>)| pair_index(e))
                                == before.map_values(|e: (usize, Vec<(Vec<char>, Vec<char>)>)| pair_index(e)).push(i as int));
                        },
                        Precedence::Higher => {
                            matched = Vec::new();
                            matched.push((i, captures));
                            best = Some(i);
                            assert(matched@.map_values(|e: (usize, Vec<(Vec<char>, Vec<char>)>)| pair_index(e)) =~= seq![i as int]);
                        },
                    }
                },
            }
            i += 1;
        }
        matched
    }
}


/// `parts` joined with `, `.
pub open spec fn join_comma(parts: Seq<Seq<char>>) -> Seq<char>
    decreases parts.len(),
{
    if parts.len() == 0 {
        Seq::<char>::empty()
    } else if parts.len() == 1 {
        parts[0]
    } else {
        join_comma(parts.drop_last()) + seq![',', ' '] + parts.last()
    }
}

pub open spec fn opt_part(b: bool, name: Seq<char>) -> Seq<Seq<char>> {
    if b { seq![name] } else { Seq::<Seq<char>>::empty() }
}

impl Dispatcher {
    pub open spec fn method_at(&self, k: int) -> Seq<char> {
        self.spec_routes()[k].method.name()
    }

    /// Position in `cands` of the first route with method `name`, searching
    /// from `from`.
    pub open spec fn first_position(&self, cands: Seq<int>, name: Seq<char>, from: int) -> Option<int>
        decreases cands.len() - from,
    {
        if from < 0 || from >= cands.len() {
            None
        } else if self.method_at(cands[from]) == name {
            Some(from)
        } else {
            self.first_position(cands, name, from + 1)
        }
    }

    pub open spec fn has_method(&self, cands: Seq<int>, name: Seq<char>) -> bool {
        self.first_position(cands, name, 0) is Some
    }

    /// The methods listed in `Allow` for these candidates: GET, HEAD (also
    /// when only GET exists), POST, PUT, PATCH, DELETE as registered, and
    /// OPTIONS always.
    pub open spec fn allow_parts(&self, cands: Seq<int>) -> Seq<Seq<char>> {
        let get = self.has_method(cands, standard_method_name(2));
        let head = self.has_method(cands, standard_method_name(3)) || get;
        opt_part(get, standard_method_name(2)) + opt_part(head, standard_method_name(3)) + opt_part(
            self.has_method(cands, standard_method_name(6)),
            standard_method_name(6),
        ) + opt_part(self.has_method(cands, standard_method_name(7)), standard_method_name(7)) + opt_part(
            self.has_method(cands, standard_method_name(5)),
            standard_method_name(5),
        ) + opt_part(self.has_method(cands, standard_method_name(1)), standard_method_name(1)) + seq![
            standard_method_name(4),
        ]
    }

    /// Whether some candidate route in `cands` is registered with method
    /// `name`.
    pub open spec fn routed_with(&self, cands: Seq<int>, name: Seq<char>) -> bool {
        exists|j: int| 0 <= j < cands.len() && #[trigger] self.spec_routes()[cands[j]].method.name() == name
    }

    proof fn lemma_first_position_exists(&self, cands: Seq<int>, name: Seq<char>, from: int)
        requires
            0 <= from,
        ensures
            self.first_position(cands, name, from) is Some <==> exists|j: int| from <= j < cands.len()
                && #[trigger] self.spec_routes()[cands[j]].method.name() == name,
        decreases cands.len() - from,
    {
        if from < cands.len() {
            self.lemma_first_position_exists(cands, name, from + 1);
            if self.first_position(cands, name, from) is Some && self.method_at(cands[from]) == name {
                assert(self.spec_routes()[cands[from]].method.name() == name);
            }
        }
    }

    /// The methods an `Allow` answer lists for the candidate routes `cands`:
    /// each of GET, POST, PUT, PATCH and DELETE exactly when some candidate
    /// is registered with it, HEAD when some candidate is registered with HEAD
    /// or GET, OPTIONS always, and nothing else.
    pub proof fn law_allow_lists_registered_methods(&self, cands: Seq<int>)
        ensures
            self.allow_parts(cands).contains("GET"@) <==> self.routed_with(cands, "GET"@),
            self.allow_parts(cands).contains("HEAD"@) <==> (self.routed_with(cands, "HEAD"@) || self.routed_with(cands, "GET"@)),
            self.allow_parts(cands).contains("POST"@) <==> self.routed_with(cands, "POST"@),
            self.allow_parts(cands).contains("PUT"@) <==> self.routed_with(cands, "PUT"@),
            self.allow_parts(cands).contains("PATCH"@) <==> self.routed_with(cands, "PATCH"@),
            self.allow_parts(cands).contains("DELETE"@) <==> self.routed_with(cands, "DELETE"@),
            self.allow_parts(cands).contains("OPTIONS"@),
            forall|x: Seq<char>| #[trigger] self.allow_parts(cands).contains(x) ==> x == "GET"@ || x == "HEAD"@ || x == "POST"@
                || x == "PUT"@ || x == "PATCH"@ || x == "DELETE"@ || x == "OPTIONS"@,
    {
        reveal_strlit("GET");
        reveal_strlit("HEAD");
        reveal_strlit("POST");
        reveal_strlit("PUT");
        reveal_strlit("PATCH");
        reveal_strlit("DELETE");
        reveal_strlit("OPTIONS");
        let names = seq![standard_method_name(2), standard_method_name(3), standard_method_name(6),
            standard_method_name(7), standard_method_name(5), standard_method_name(1), standard_method_name(4)];
        assert(names[0] == "GET"@ && names[1] == "HEAD"@ && names[2] == "POST"@ && names[3] == "PUT"@);
        assert(names[4] == "PATCH"@ && names[5] == "DELETE"@ && names[6] == "OPTIONS"@);
        let parts = self.allow_parts(cands);
        let get = self.has_method(cands, names[0]);
        let p1 = opt_part(get, names[0]);
        let p2 = opt_part(self.has_method(cands, names[1]) || get, names[1]);
        let p3 = opt_part(self.has_method(cands, names[2]), names[2]);
        let p4 = opt_part(self.has_method(cands, names[3]), names[3]);
        let p5 = opt_part(self.has_method(cands, names[4]), names[4]);
        let p6 = opt_part(self.has_method(cands, names[5]), names[5]);
        let p7 = seq![names[6]];
        assert(parts == p1 + p2 + p3 + p4 + p5 + p6 + p7);
        assert forall|x: Seq<char>| #[trigger] parts.contains(x) <==> ((get && names[0] == x)
            || ((self.has_method(cands, names[1]) || get) && names[1] == x)
            || (self.has_method(cands, names[2]) && names[2] == x) || (self.has_method(cands, names[3]) && names[3] == x)
            || (self.has_method(cands, names[4]) && names[4] == x) || (self.has_method(cands, names[5]) && names[5] == x)
            || x == names[6]) by {
            lemma_concat_contains(p1, p2, x);
            lemma_concat_contains(p1 + p2, p3, x);
            lemma_concat_contains(p1 + p2 + p3, p4, x);
            lemma_concat_contains(p1 + p2 + p3 + p4, p5, x);
            lemma_concat_contains(p1 + p2 + p3 + p4 + p5, p6, x);
            lemma_concat_contains(p1 + p2 + p3 + p4 + p5 + p6, p7, x);
            assert(p7.contains(x) <==> x == names[6]) by {
                if x == names[6] {
                    assert(p7[0] == x);
                }
            }
            lemma_opt_part_contains(get, names[0], x);
            lemma_opt_part_contains(self.has_method(cands, names[1]) || get, names[1], x);
            lemma_opt_part_contains(self.has_method(cands, names[2]), names[2], x);
            lemma_opt_part_contains(self.has_method(cands, names[3]), names[3], x);
            lemma_opt_part_contains(self.has_method(cands, names[4]), names[4], x);
            lemma_opt_part_contains(self.has_method(cands, names[5]), names[5], x);
        }
        self.lemma_first_position_exists(cands, names[0], 0);
        self.lemma_first_position_exists(cands, names[1], 0);
        self.lemma_first_position_exists(cands, names[2], 0);
        self.lemma_first_position_exists(cands, names[3], 0);
        self.lemma_first_position_exists(cands, names[4], 0);
        self.lemma_first_position_exists(cands, names[5], 0);
        assert forall|i: int, j: int| 0 <= i < 7 && 0 <= j < 7 && i != j implies names[i] != names[j] by {
            if names[i] == names[j] {
                assert(names[i].len() == names[j].len());
                assert(names[i][0] == names[j][0]);
                assert(names[i][1] == names[j][1]);
            }
        }
        assert(parts.contains(names[6]));
        assert(self.has_method(cands, names[0]) == self.has_method(cands, "GET"@));
    }

    /// An `Allow` answer lists its methods once each, in the order GET,
    /// HEAD, POST, PUT, PATCH, DELETE, OPTIONS.
    pub proof fn law_allow_order(&self, cands: Seq<int>)
        ensures
            forall|i: int, j: int| 0 <= i < j < self.allow_parts(cands).len() ==> allow_rank(
                #[trigger] self.allow_parts(cands)[i],
            ) < allow_rank(#[trigger] self.allow_parts(cands)[j]),
            forall|i: int| 0 <= i < self.allow_parts(cands).len() ==> allow_rank(#[trigger] self.allow_parts(cands)[i]) < 7,
    {
        reveal_strlit("GET");
        reveal_strlit("HEAD");
        reveal_strlit("POST");
        reveal_strlit("PUT");
        reveal_strlit("PATCH");
        reveal_strlit("DELETE");
        reveal_strlit("OPTIONS");
        let names = seq![standard_method_name(2), standard_method_name(3), standard_method_name(6),
            standard_method_name(7), standard_method_name(5), standard_method_name(1), standard_method_name(4)];
        assert(names[0] == "GET"@ && names[1] == "HEAD"@ && names[2] == "POST"@ && names[3] == "PUT"@);
        assert(names[4] == "PATCH"@ && names[5] == "DELETE"@ && names[6] == "OPTIONS"@);
        assert(allow_rank(names[0]) == 0 && allow_rank(names[1]) == 1 && allow_rank(names[2]) == 2);
        assert(allow_rank(names[3]) == 3 && allow_rank(names[4]) == 4 && allow_rank(names[5]) == 5);
        assert(allow_rank(names[6]) == 6);
        let get = self.has_method(cands, names[0]);
        let p1 = opt_part(get, names[0]);
        let p2 = opt_part(self.has_method(cands, names[1]) || get, names[1]);
        let p3 = opt_part(self.has_method(cands, names[2]), names[2]);
        let p4 = opt_part(self.has_method(cands, names[3]), names[3]);
        let p5 = opt_part(self.has_method(cands, names[4]), names[4]);
        let p6 = opt_part(self.has_method(cands, names[5]), names[5]);
        let p7 = opt_part(true, names[6]);
        assert(self.allow_parts(cands) =~= p1 + p2 + p3 + p4 + p5 + p6 + p7);
        let e = Seq::<Seq<char>>::empty();
        assert(e + p1 =~= p1);
        lemma_ordered_push(e, get, names[0], 0);
        lemma_ordered_push(p1, self.has_method(cands, names[1]) || get, names[1], 1);
        lemma_ordered_push(p1 + p2, self.has_method(cands, names[2]), names[2], 2);
        lemma_ordered_push(p1 + p2 + p3, self.has_method(cands, names[3]), names[3], 3);
        lemma_ordered_push(p1 + p2 + p3 + p4, self.has_method(cands, names[4]), names[4], 4);
        lemma_ordered_push(p1 + p2 + p3 + p4 + p5, self.has_method(cands, names[5]), names[5], 5);
        lemma_ordered_push(p1 + p2 + p3 + p4 + p5 + p6, true, names[6], 6);
    }

    /// The `Allow` header value for these candidates.
    pub open spec fn allow_text(&self, cands: Seq<int>) -> Seq<char> {
        join_comma(self.allow_parts(cands))
    }

    /// Position of the candidate that answers method `name`: for HEAD an
    /// explicit HEAD route, else a GET route; for others the first route of
    /// that method.
    pub open spec fn selected(&self, cands: Seq<int>, name: Seq<char>) -> Option<int> {
        if name == standard_method_name(3) {
            match self.first_position(cands, standard_method_name(3), 0) {
                Some(p) => Some(p),
                None => self.first_position(cands, standard_method_name(2), 0),
            }
        } else {
            self.first_position(cands, name, 0)
        }
    }

    proof fn lemma_first_position_at(&self, cands: Seq<int>, name: Seq<char>, from: int)
        requires
            0 <= from,
        ensures
            self.first_position(cands, name, from) matches Some(p) ==> from <= p < cands.len()
                && self.spec_routes()[cands[p]].method.name() == name
                && forall|q: int| from <= q < p ==> #[trigger] self.spec_routes()[cands[q]].method.name() != name,
        decreases cands.len() - from,
    {
        if from < cands.len() && self.method_at(cands[from]) != name {
            self.lemma_first_position_at(cands, name, from + 1);
        }
    }

    /// The candidate that answers a method is the first one registered with
    /// it; `HEAD` without a route of its own is answered by the first `GET`
    /// route. A method is answered exactly when such a route exists.
    pub proof fn law_selected_answers_method(&self, cands: Seq<int>, name: Seq<char>)
        ensures
            name != "HEAD"@ ==> (self.selected(cands, name) is Some <==> self.routed_with(cands, name)),
            name == "HEAD"@ ==> (self.selected(cands, name) is Some <==> (self.routed_with(cands, "HEAD"@)
                || self.routed_with(cands, "GET"@))),
            self.selected(cands, name) matches Some(p) ==> 0 <= p < cands.len() && {
                let m = self.spec_routes()[cands[p]].method.name();
                let answering = if name == "HEAD"@ && !self.routed_with(cands, "HEAD"@) { "GET"@ } else { name };
                &&& m == answering
                &&& forall|q: int| 0 <= q < p ==> #[trigger] self.spec_routes()[cands[q]].method.name() != answering
            },
    {
        reveal_strlit("HEAD");
        reveal_strlit("GET");
        assert(standard_method_name(3) == "HEAD"@);
        assert(standard_method_name(2) == "GET"@);
        self.lemma_first_position_exists(cands, name, 0);
        self.lemma_first_position_exists(cands, "HEAD"@, 0);
        self.lemma_first_position_exists(cands, "GET"@, 0);
        self.lemma_first_position_at(cands, name, 0);
        self.lemma_first_position_at(cands, "HEAD"@, 0);
        self.lemma_first_position_at(cands, "GET"@, 0);
    }

    pub open spec fn fallback_matches(&self, path: Seq<char>, f: int) -> bool {
        0 <= f < self.spec_fallbacks().len() && spec_prefix_matches(self.spec_fallbacks()[f].prefix@, path)
    }

    /// Fallback `f` has the longest matching prefix (the last such one).
    pub open spec fn best_fallback(&self, path: Seq<char>, f: int) -> bool {
        &&& self.fallback_matches(path, f)
        &&& forall|g: int| #[trigger] self.fallback_matches(path, g) ==> self.spec_fallbacks()[g].prefix@.len()
            < self.spec_fallbacks()[f].prefix@.len() || (self.spec_fallbacks()[g].prefix@.len()
            == self.spec_fallbacks()[f].prefix@.len() && g <= f)
    }

    fn first_position_exec(&self, cands: &Vec<(usize, Vec<(Vec<char>, Vec<char>)>)>, name: &[char]) -> (r: Option<usize>)
        requires
            forall|i: int| 0 <= i < cands@.len() ==> (#[trigger] cands@[i]).0 < self.spec_routes().len(),
        ensures
            match r {
                Some(p) => self.first_position(cands@.map_values(|e: (usize, Vec<(Vec<char>, Vec<char>)>)| pair_index(e)), name@, 0) == Some(p as int),
                None => self.first_position(cands@.map_values(|e: (usize, Vec<(Vec<char>, Vec<char>)>)| pair_index(e)), name@, 0) is None,
            },
            r matches Some(p) ==> p < cands@.len(),
    {
        let ghost c = cands@.map_values(|e: (usize, Vec<(Vec<char>, Vec<char>)>)| pair_index(e));
        let mut p: usize = 0;
        while p < cands.len()
            invariant
                c == cands@.map_values(|e: (usize, Vec<(Vec<char>, Vec<char>)>)| pair_index(e)),
                forall|i: int| 0 <= i < cands@.len() ==> (#[trigger] cands@[i]).0 < self.spec_routes().len(),
                p <= cands@.len(),
                self.first_position(c, name@, 0) == self.first_position(c, name@, p as int),
            decreases cands@.len() - p,
        {
            let k = cands[p].0;
            let m = self.routes[k].method.name_chars();
            if chars_equal(m.as_slice(), name) {
                return Some(p);
            }
            p += 1;
        }
        None
    }

    fn allow_header(&self, cands: &Vec<(usize, Vec<(Vec<char>, Vec<char>)>)>) -> (r: Vec<char>)
        requires
            forall|i: int| 0 <= i < cands@.len() ==> (#[trigger] cands@[i]).0 < self.spec_routes().len(),
        ensures
            r@ == self.allow_text(cands@.map_values(|e: (usize, Vec<(Vec<char>, Vec<char>)>)| pair_index(e))),
    {
        let ghost c = cands@.map_values(|e: (usize, Vec<(Vec<char>, Vec<char>)>)| pair_index(e));
        let get = self.first_position_exec(cands, &['G', 'E', 'T']).is_some();
        let head = self.first_position_exec(cands, &['H', 'E', 'A', 'D']).is_some() || get;
        let post = self.first_position_exec(cands, &['P', 'O', 'S', 'T']).is_some();
        let put = self.first_position_exec(cands, &['P', 'U', 'T']).is_some();
        let patch = self.first_position_exec(cands, &['P', 'A', 'T', 'C', 'H']).is_some();
        let delete = self.first_position_exec(cands, &['D', 'E', 'L', 'E', 'T', 'E']).is_some();
        let mut out: Vec<char> = Vec::new();
        let ghost p0: Seq<Seq<char>> = Seq::empty();
        let Ghost(p1) = append_if(&mut out, get, &['G', 'E', 'T'], Ghost(p0));
        let Ghost(p2) = append_if(&mut out, head, &['H', 'E', 'A', 'D'], Ghost(p1));
        let Ghost(p3) = append_if(&mut out, post, &['P', 'O', 'S', 'T'], Ghost(p2));
        let Ghost(p4) = append_if(&mut out, put, &['P', 'U', 'T'], Ghost(p3));
        let Ghost(p5) = append_if(&mut out, patch, &['P', 'A', 'T', 'C', 'H'], Ghost(p4));
        let Ghost(p6) = append_if(&mut out, delete, &['D', 'E', 'L', 'E', 'T', 'E'], Ghost(p5));
        let Ghost(p7) = append_if(&mut out, true, &['O', 'P', 'T', 'I', 'O', 'N', 'S'], Ghost(p6));
        proof {
            assert(p7 =~= self.allow_parts(c));
        }
        out
    }
}

/// The place of a method in an `Allow` list: GET, HEAD, POST, PUT, PATCH,
/// DELETE, OPTIONS; 7 for any other name.
pub open spec fn allow_rank(x: Seq<char>) -> int {
    if x == "GET"@ {
        0
    } else if x == "HEAD"@ {
        1
    } else if x == "POST"@ {
        2
    } else if x == "PUT"@ {
        3
    } else if x == "PATCH"@ {
        4
    } else if x == "DELETE"@ {
        5
    } else if x == "OPTIONS"@ {
        6
    } else {
        7
    }
}

/// Whether `parts` are in strictly increasing place, all below `r`.
pub open spec fn ordered_below(parts: Seq<Seq<char>>, r: int) -> bool {
    &&& forall|i: int, j: int| 0 <= i < j < parts.len() ==> allow_rank(#[trigger] parts[i]) < allow_rank(#[trigger] parts[j])
    &&& forall|i: int| 0 <= i < parts.len() ==> allow_rank(#[trigger] parts[i]) < r
}

proof fn lemma_ordered_push(a: Seq<Seq<char>>, f: bool, name: Seq<char>, r: int)
    requires
        ordered_below(a, r),
        allow_rank(name) == r,
    ensures
        ordered_below(a + opt_part(f, name), r + 1),
{
    let b = a + opt_part(f, name);
    assert forall|i: int| 0 <= i < b.len() implies allow_rank(#[trigger] b[i]) < r + 1 by {
        if i < a.len() {
            assert(b[i] == a[i]);
        }
    }
    assert forall|i: int, j: int| 0 <= i < j < b.len() implies allow_rank(#[trigger] b[i]) < allow_rank(#[trigger] b[j]) by {
        assert(b[i] == a[i]);
        if j < a.len() {
            assert(b[j] == a[j]);
        }
    }
}

proof fn lemma_concat_contains(a: Seq<Seq<char>>, b: Seq<Seq<char>>, x: Seq<char>)
    ensures
        (a + b).contains(x) <==> a.contains(x) || b.contains(x),
{
    let ab = a + b;
    if ab.contains(x) {
        let j = choose|j: int| 0 <= j < ab.len() && ab[j] == x;
        if j < a.len() {
            assert(a[j] == x);
        } else {
            assert(b[j - a.len()] == x);
        }
    }
    if a.contains(x) {
        let j = choose|j: int| 0 <= j < a.len() && a[j] == x;
        assert(ab[j] == x);
    }
    if b.contains(x) {
        let j = choose|j: int| 0 <= j < b.len() && b[j] == x;
        assert(ab[a.len() + j] == x);
    }
}

proof fn lemma_opt_part_contains(f: bool, name: Seq<char>, x: Seq<char>)
    ensures
        opt_part(f, name).contains(x) <==> f && name == x,
{
    if f {
        assert(opt_part(f, name)[0] == name);
    }
}

/// Appends `name` to a comma-separated list when `cond` holds.
fn append_if(out: &mut Vec<char>, cond: bool, name: &[char], Ghost(parts): Ghost<Seq<Seq<char>>>) -> (r: Ghost<Seq<Seq<char>>>)
    requires
        old(out)@ == join_comma(parts),
        parts.len() == 0 <==> old(out)@.len() == 0,
        forall|i: int| 0 <= i < parts.len() ==> (#[trigger] parts[i]).len() > 0,
        name@.len() > 0,
    ensures
        r@ == parts + opt_part(cond, name@),
        final(out)@ == join_comma(r@),
        r@.len() == 0 <==> final(out)@.len() == 0,
        forall|i: int| 0 <= i < r@.len() ==> (#[trigger] r@[i]).len() > 0,
{
    if cond {
        append_part(out, name, Ghost(parts));
        assert(parts + opt_part(cond, name@) == parts.push(name@));
        Ghost(parts.push(name@))
    } else {
        assert(parts + opt_part(cond, name@) == parts);
        Ghost(parts)
    }
}

/// Appends one name to a comma-separated list.
fn append_part(out: &mut Vec<char>, name: &[char], Ghost(parts): Ghost<Seq<Seq<char>>>)
    requires
        old(out)@ == join_comma(parts),
        parts.len() == 0 <==> old(out)@.len() == 0,
        forall|i: int| 0 <= i < parts.len() ==> (#[trigger] parts[i]).len() > 0,
        name@.len() > 0,
    ensures
        final(out)@ == join_comma(parts.push(name@)),
        final(out)@.len() > 0,
{
    if out.len() > 0 {
        out.push(',');
        out.push(' ');
    }
    crate::text::push_all(out, name);
    proof {
        assert(parts.push(name@).drop_last() == parts);
        if parts.len() == 0 {
            assert(out@ == name@);
        }
    }
}


impl Dispatcher {
    /// Whether `r` is the dispatch decision for a request with method
    /// `method` to `path`.
    pub open spec fn decides(&self, path: Seq<char>, method: Seq<char>, r: Dispatch) -> bool {
        let c = self.candidates(path);
        if c.len() == 0 {
            match r {
                Dispatch::Fallback(f) => self.best_fallback(path, f as int),
                Dispatch::NotFound => forall|g: int| !#[trigger] self.fallback_matches(path, g),
                _ => false,
            }
        } else if method == standard_method_name(4) {
            match self.first_position(c, method, 0) {
                Some(p) => match r {
                    Dispatch::Route { route, captures, head, allow } => route as int == c[p] && !head && (
                    allow matches Some(a) && a@ == self.allow_text(c)) && spec_captures(
                        self.spec_routes()[c[p]].path,
                        path,
                    ) == Some(captures_view(captures@)),
                    _ => false,
                },
                None => r matches Dispatch::Options { allow } && allow@ == self.allow_text(c),
            }
        } else {
            match self.selected(c, method) {
                Some(p) => match r {
                    Dispatch::Route { route, captures, head, allow } => route as int == c[p] && head == (method
                        == standard_method_name(3)) && allow is None && spec_captures(
                        self.spec_routes()[c[p]].path,
                        path,
                    ) == Some(captures_view(captures@)),
                    _ => false,
                },
                None => r matches Dispatch::MethodNotAllowed { allow } && allow@ == self.allow_text(c),
            }
        }
    }

    /// The fallback with the longest prefix that holds `path`.
    pub fn fallback(&self, path: &[char]) -> (r: Option<usize>)
        ensures
            r matches Some(f) ==> self.best_fallback(path@, f as int),
            r is None ==> forall|g: int| !#[trigger] self.fallback_matches(path@, g),
    {
        let mut best: Option<usize> = None;
        let mut i: usize = 0;
        while i < self.fallbacks.len()
            invariant
                i <= self.fallbacks@.len(),
                best is None ==> forall|g: int| 0 <= g < i ==> !#[trigger] self.fallback_matches(path@, g),
                best matches Some(f) ==> f < i && self.fallback_matches(path@, f as int) && forall|g: int|
                    0 <= g < i && #[trigger] self.fallback_matches(path@, g) ==> self.spec_fallbacks()[g].prefix@.len()
                        < self.spec_fallbacks()[f as int].prefix@.len() || (self.spec_fallbacks()[g].prefix@.len()
                        == self.spec_fallbacks()[f as int].prefix@.len() && g <= f),
            decreases self.fallbacks@.len() - i,
        {
            if prefix_matches(self.fallbacks[i].prefix.as_slice(), path) {
                match best {
                    None => { best = Some(i); },
                    Some(f) => {
                        if self.fallbacks[i].prefix.len() >= self.fallbacks[f].prefix.len() {
                            best = Some(i);
                        }
                    },
                }
            }
            i += 1;
        }
        best
    }

    /// Decides what answers a request with `method` to `path`.
    pub fn resolve(&self, path: &[char], method: &Method) -> (r: Dispatch)
        ensures
            self.decides(path@, method.name(), r),
            r matches Dispatch::Route { route, .. } ==> route < self.spec_routes().len(),
            r matches Dispatch::Fallback(f) ==> f < self.spec_fallbacks().len(),
    {
        let mut matched = self.collect_candidates(path);
        let ghost c = matched@.map_values(|e: (usize, Vec<(Vec<char>, Vec<char>)>)| pair_index(e));
        proof {
            lemma_filter_members(|k: int| self.maximal_upto(path@, self.spec_routes().len() as int, k), self.spec_routes().len() as int);
            assert forall|i: int| 0 <= i < matched@.len() implies (#[trigger] matched@[i]).0 < self.spec_routes().len() by {
                assert(c[i] == matched@[i].0);
            }
        }
        if matched.len() == 0 {
            return match self.fallback(path) {
                Some(f) => Dispatch::Fallback(f),
                None => Dispatch::NotFound,
            };
        }
        let allow = self.allow_header(&matched);
        let name = method.name_chars();
        if chars_equal(name.as_slice(), &['O', 'P', 'T', 'I', 'O', 'N', 'S']) {
            match self.first_position_exec(&matched, &['O', 'P', 'T', 'I', 'O', 'N', 'S']) {
                Some(p) => {
                    let (route, captures) = matched.swap_remove(p);
                    assert(c[p as int] == route);
                    return Dispatch::Route { route, captures, head: false, allow: Some(allow) };
                },
                None => {
                    return Dispatch::Options { allow };
                },
            }
        }
        let is_head = chars_equal(name.as_slice(), &['H', 'E', 'A', 'D']);
        let selected = if is_head {
            match self.first_position_exec(&matched, &['H', 'E', 'A', 'D']) {
                Some(p) => Some(p),
                None => self.first_position_exec(&matched, &['G', 'E', 'T']),
            }
        } else {
            self.first_position_exec(&matched, name.as_slice())
        };
        match selected {
            None => Dispatch::MethodNotAllowed { allow },
            Some(p) => {
                let (route, captures) = matched.swap_remove(p);
                assert(c[p as int] == route);
                Dispatch::Route { route, captures, head: is_head, allow: None }
            },
        }
    }
}


impl Scope {
    /// A scope for `prefix` with nothing attached.
    pub fn new(prefix: Vec<char>) -> (s: Scope)
        ensures
            s.prefix@ == prefix@,
            s.middlewares@.len() == 0,
            s.states@.len() == 0,
            s.body_limit is None,
    {
        Scope { prefix, middlewares: Vec::new(), states: Vec::new(), body_limit: None }
    }

    /// Whether `path` lies inside this scope.
    pub fn matches(&self, path: &[char]) -> (r: bool)
        ensures
            r == spec_prefix_matches(self.prefix@, path@),
    {
        prefix_matches(self.prefix.as_slice(), path)
    }

    /// Puts `prefix` in front of this scope's prefix.
    pub fn prepend(&mut self, prefix: &[char])
        ensures
            final(self).prefix@ == crate::route::spec_join_prefixes(prefix@, old(self).prefix@),
            final(self).middlewares@ == old(self).middlewares@,
            final(self).states@ == old(self).states@,
            final(self).body_limit == old(self).body_limit,
    {
        let joined = crate::route::join_prefixes(prefix, self.prefix.as_slice());
        self.prefix = joined;
    }
}

/// Whether some route of `routes` has method `m` and a pattern equivalent to
/// `p`.
pub open spec fn route_conflict(routes: Seq<RegisteredRoute>, m: Seq<char>, p: Seq<crate::route::RouteSegment>) -> bool {
    exists|k: int| 0 <= k < routes.len() && (#[trigger] routes[k]).method.name() == m && patterns_conflict(routes[k].path.spec_segments(), p)
}

impl Dispatcher {
    pub closed spec fn spec_scopes(&self) -> Seq<Scope> {
        self.scopes@
    }

    /// An empty table.
    pub fn new() -> (d: Dispatcher)
        ensures
            d.spec_routes().len() == 0,
            d.spec_fallbacks().len() == 0,
            d.spec_scopes().len() == 0,
    {
        Dispatcher { routes: Vec::new(), fallbacks: Vec::new(), scopes: Vec::new() }
    }

    /// The number of routes.
    pub fn route_count(&self) -> (n: usize)
        ensures
            n == self.spec_routes().len(),
    {
        self.routes.len()
    }

    /// The route at `index`.
    pub fn route(&self, index: usize) -> (r: &RegisteredRoute)
        requires
            index < self.spec_routes().len(),
        ensures
            *r == self.spec_routes()[index as int],
    {
        &self.routes[index]
    }

    /// The fallback at `index`.
    pub fn fallback_at(&self, index: usize) -> (r: &RegisteredFallback)
        requires
            index < self.spec_fallbacks().len(),
        ensures
            *r == self.spec_fallbacks()[index as int],
    {
        &self.fallbacks[index]
    }

    /// The scopes merged into this table.
    pub fn scopes(&self) -> (r: &Vec<Scope>)
        ensures
            r@ == self.spec_scopes(),
    {
        &self.scopes
    }

    /// Whether a route with method `method` and a pattern equivalent to
    /// `path` is already registered.
    pub fn conflicts(&self, method: &Method, path: &RoutePath) -> (r: bool)
        ensures
            r == route_conflict(self.spec_routes(), method.name(), path.spec_segments()),
    {
        let mut k: usize = 0;
        while k < self.routes.len()
            invariant
                k <= self.routes@.len(),
                forall|j: int| 0 <= j < k ==> !((#[trigger] self.routes@[j]).method.name() == method.name()
                    && patterns_conflict(self.routes@[j].path.spec_segments(), path.spec_segments())),
            decreases self.routes@.len() - k,
        {
            if self.routes[k].method.same_as(method) && self.routes[k].path.conflicts_with(path) {
                return true;
            }
            k += 1;
        }
        false
    }

    /// Registers a route; no equivalent route for the same method may exist.
    pub fn register(&mut self, route: RegisteredRoute)
        requires
            !route_conflict(old(self).spec_routes(), route.method.name(), route.path.spec_segments()),
        ensures
            final(self).spec_routes() == old(self).spec_routes().push(route),
            final(self).spec_fallbacks() == old(self).spec_fallbacks(),
            final(self).spec_scopes() == old(self).spec_scopes(),
    {
        self.routes.push(route);
    }

    /// Whether a fallback for exactly `prefix` exists.
    pub fn has_fallback(&self, prefix: &[char]) -> (r: bool)
        ensures
            r == exists|g: int| 0 <= g < self.spec_fallbacks().len() && (#[trigger] self.spec_fallbacks()[g]).prefix@ == prefix@,
    {
        let mut k: usize = 0;
        while k < self.fallbacks.len()
            invariant
                k <= self.fallbacks@.len(),
                forall|j: int| 0 <= j < k ==> (#[trigger] self.fallbacks@[j]).prefix@ != prefix@,
            decreases self.fallbacks@.len() - k,
        {
            if chars_equal(self.fallbacks[k].prefix.as_slice(), prefix) {
                assert(self.spec_fallbacks()[k as int].prefix@ == prefix@);
                return true;
            }
            k += 1;
        }
        false
    }

    /// Adds a fallback for paths inside `prefix`; none may exist for it yet.
    pub fn set_fallback(&mut self, prefix: &[char], handler: u64)
        requires
            forall|g: int| 0 <= g < old(self).spec_fallbacks().len() ==> (#[trigger] old(self).spec_fallbacks()[g]).prefix@ != prefix@,
        ensures
            final(self).spec_fallbacks().len() == old(self).spec_fallbacks().len() + 1,
            final(self).spec_fallbacks().drop_last() == old(self).spec_fallbacks(),
            final(self).spec_fallbacks().last().prefix@ == prefix@,
            final(self).spec_fallbacks().last().handler == handler,
            final(self).spec_routes() == old(self).spec_routes(),
            final(self).spec_scopes() == old(self).spec_scopes(),
    {
        self.fallbacks.push(RegisteredFallback { prefix: crate::text::copy_chars(prefix), handler });
        assert(self.fallbacks@.drop_last() == old(self).fallbacks@);
    }

    /// Adds a child router's scope.
    pub fn add_scope(&mut self, scope: Scope)
        ensures
            final(self).spec_scopes() == old(self).spec_scopes().push(scope),
            final(self).spec_routes() == old(self).spec_routes(),
            final(self).spec_fallbacks() == old(self).spec_fallbacks(),
    {
        self.scopes.push(scope);
    }
}


/// Whether appending `extra` routes one by one to `routes` meets no
/// equivalent route for the same method.
pub open spec fn routes_mergeable(routes: Seq<RegisteredRoute>, extra: Seq<RegisteredRoute>) -> bool {
    forall|k: int| 0 <= k < extra.len() ==> !route_conflict(
        routes + extra.take(k),
        (#[trigger] extra[k]).method.name(),
        extra[k].path.spec_segments(),
    )
}

/// Whether appending `extra` fallbacks one by one meets no fallback with the
/// same prefix.
pub open spec fn fallbacks_mergeable(fallbacks: Seq<RegisteredFallback>, extra: Seq<RegisteredFallback>) -> bool {
    &&& forall|k: int, g: int| 0 <= k < extra.len() && 0 <= g < fallbacks.len() ==> #[trigger] fallbacks[g].prefix@
        != #[trigger] extra[k].prefix@
    &&& forall|j: int, k: int| 0 <= j < k < extra.len() ==> #[trigger] extra[j].prefix@ != #[trigger] extra[k].prefix@
}

impl Dispatcher {
    /// Whether `other` can be merged into this table.
    pub open spec fn mergeable(&self, other: &Dispatcher) -> bool {
        routes_mergeable(self.spec_routes(), other.spec_routes()) && fallbacks_mergeable(
            self.spec_fallbacks(),
            other.spec_fallbacks(),
        )
    }

    /// Checks `mergeable`.
    pub fn can_merge(&self, other: &Dispatcher) -> (r: bool)
        ensures
            r == self.mergeable(other),
    {
        self.can_merge_routes(other) && self.can_merge_fallbacks(other)
    }

    /// Checks the routes half of `mergeable`.
    pub fn can_merge_routes(&self, other: &Dispatcher) -> (r: bool)
        ensures
            r == routes_mergeable(self.spec_routes(), other.spec_routes()),
    {
        let mut ok = true;
        let mut k: usize = 0;
        while k < other.routes.len()
            invariant
                k <= other.routes@.len(),
                ok == forall|j: int| 0 <= j < k ==> !route_conflict(
                    self.routes@ + other.routes@.take(j),
                    (#[trigger] other.routes@[j]).method.name(),
                    other.routes@[j].path.spec_segments(),
                ),
            decreases other.routes@.len() - k,
        {
            let c = self.conflicts(&other.routes[k].method, &other.routes[k].path) || other.conflicts_before(
                k,
                &other.routes[k].method,
                &other.routes[k].path,
            );
            proof {
                let rs = self.routes@ + other.routes@.take(k as int);
                let m = other.routes@[k as int].method.name();
                let sg = other.routes@[k as int].path.spec_segments();
                if route_conflict(rs, m, sg) {
                    let w = choose|w: int| 0 <= w < rs.len() && (#[trigger] rs[w]).method.name() == m && patterns_conflict(rs[w].path.spec_segments(), sg);
                    if w < self.routes@.len() {
                        assert(route_conflict(self.routes@, m, sg));
                    } else {
                        assert(rs[w] == other.routes@[w - self.routes@.len()]);
                        assert(route_conflict(other.routes@.take(k as int), m, sg));
                    }
                }
                if route_conflict(self.routes@, m, sg) {
                    let w = choose|w: int| 0 <= w < self.routes@.len() && (#[trigger] self.routes@[w]).method.name() == m && patterns_conflict(self.routes@[w].path.spec_segments(), sg);
                    assert(rs[w] == self.routes@[w]);
                }
                if route_conflict(other.routes@.take(k as int), m, sg) {
                    let w = choose|w: int| 0 <= w < other.routes@.take(k as int).len() && (#[trigger] other.routes@.take(k as int)[w]).method.name() == m && patterns_conflict(other.routes@.take(k as int)[w].path.spec_segments(), sg);
                    assert(rs[w + self.routes@.len()] == other.routes@[w]);
                }
            }
            if c {
                ok = false;
            }
            k += 1;
        }
        ok
    }

    /// Checks the fallbacks half of `mergeable`.
    pub fn can_merge_fallbacks(&self, other: &Dispatcher) -> (r: bool)
        ensures
            r == fallbacks_mergeable(self.spec_fallbacks(), other.spec_fallbacks()),
    {
        let mut f: usize = 0;
        let mut fok = true;
        while f < other.fallbacks.len()
            invariant
                f <= other.fallbacks@.len(),
                fok == ((forall|kk: int, g: int| 0 <= kk < f && 0 <= g < self.fallbacks@.len() ==> #[trigger] self.fallbacks@[g].prefix@
                    != #[trigger] other.fallbacks@[kk].prefix@) && (forall|j: int, kk: int| 0 <= j < kk < f ==> #[trigger] other.fallbacks@[j].prefix@
                    != #[trigger] other.fallbacks@[kk].prefix@)),
            decreases other.fallbacks@.len() - f,
        {
            let dup = self.has_fallback(other.fallbacks[f].prefix.as_slice()) || other.has_fallback_before(
                f,
                other.fallbacks[f].prefix.as_slice(),
            );
            proof {
                let pf = other.fallbacks@[f as int].prefix@;
                if dup {
                    if exists|g: int| 0 <= g < self.fallbacks@.len() && (#[trigger] self.spec_fallbacks()[g]).prefix@ == pf {
                        let g = choose|g: int| 0 <= g < self.fallbacks@.len() && (#[trigger] self.spec_fallbacks()[g]).prefix@ == pf;
                        assert(self.fallbacks@[g].prefix@ == other.fallbacks@[f as int].prefix@);
                    } else {
                        let g = choose|g: int| 0 <= g < f && (#[trigger] other.spec_fallbacks()[g]).prefix@ == pf;
                        assert(other.fallbacks@[g].prefix@ == other.fallbacks@[f as int].prefix@);
                    }
                } else {
                    assert forall|g: int| 0 <= g < self.fallbacks@.len() implies #[trigger] self.fallbacks@[g].prefix@ != pf by {
                        assert(self.spec_fallbacks()[g] == self.fallbacks@[g]);
                    }
                    assert forall|g: int| 0 <= g < f implies #[trigger] other.fallbacks@[g].prefix@ != pf by {
                        assert(other.spec_fallbacks()[g] == other.fallbacks@[g]);
                    }
                }
            }
            if dup {
                fok = false;
            }
            f += 1;
        }
        proof {
            if fok {
                assert forall|kk: int, g: int| 0 <= kk < other.spec_fallbacks().len() && 0 <= g < self.spec_fallbacks().len()
                    implies #[trigger] self.spec_fallbacks()[g].prefix@ != #[trigger] other.spec_fallbacks()[kk].prefix@ by {
                    assert(self.fallbacks@[g].prefix@ != other.fallbacks@[kk].prefix@);
                }
                assert forall|j: int, kk: int| 0 <= j < kk < other.spec_fallbacks().len()
                    implies #[trigger] other.spec_fallbacks()[j].prefix@ != #[trigger] other.spec_fallbacks()[kk].prefix@ by {
                    assert(other.fallbacks@[j].prefix@ != other.fallbacks@[kk].prefix@);
                }
            } else {
                if exists|kk: int, g: int| 0 <= kk < f && 0 <= g < self.fallbacks@.len() && #[trigger] self.fallbacks@[g].prefix@
                    == #[trigger] other.fallbacks@[kk].prefix@ {
                    let (kk, g) = choose|kk: int, g: int| 0 <= kk < f && 0 <= g < self.fallbacks@.len() && #[trigger] self.fallbacks@[g].prefix@
                        == #[trigger] other.fallbacks@[kk].prefix@;
                    assert(self.spec_fallbacks()[g].prefix@ == other.spec_fallbacks()[kk].prefix@);
                } else {
                    let (j, kk) = choose|j: int, kk: int| 0 <= j < kk < f && #[trigger] other.fallbacks@[j].prefix@
                        == #[trigger] other.fallbacks@[kk].prefix@;
                    assert(other.spec_fallbacks()[j].prefix@ == other.spec_fallbacks()[kk].prefix@);
                }
            }
        }
        fok
    }

    fn conflicts_before(&self, n: usize, method: &Method, path: &RoutePath) -> (r: bool)
        requires
            n <= self.spec_routes().len(),
        ensures
            r == route_conflict(self.spec_routes().take(n as int), method.name(), path.spec_segments()),
    {
        let mut k: usize = 0;
        while k < n
            invariant
                n <= self.routes@.len(),
                k <= n,
                forall|j: int| 0 <= j < k ==> !((#[trigger] self.routes@[j]).method.name() == method.name()
                    && patterns_conflict(self.routes@[j].path.spec_segments(), path.spec_segments())),
            decreases n - k,
        {
            if self.routes[k].method.same_as(method) && self.routes[k].path.conflicts_with(path) {
                assert(self.routes@.take(n as int)[k as int] == self.routes@[k as int]);
                return true;
            }
            k += 1;
        }
        false
    }

    fn has_fallback_before(&self, n: usize, prefix: &[char]) -> (r: bool)
        requires
            n <= self.spec_fallbacks().len(),
        ensures
            r == exists|g: int| 0 <= g < n && (#[trigger] self.spec_fallbacks()[g]).prefix@ == prefix@,
    {
        let mut k: usize = 0;
        while k < n
            invariant
                n <= self.fallbacks@.len(),
                k <= n,
                forall|j: int| 0 <= j < k ==> (#[trigger] self.fallbacks@[j]).prefix@ != prefix@,
            decreases n - k,
        {
            if chars_equal(self.fallbacks[k].prefix.as_slice(), prefix) {
                assert(self.spec_fallbacks()[k as int].prefix@ == prefix@);
                return true;
            }
            k += 1;
        }
        false
    }

    /// Adds the routes, fallbacks, and scopes of `other` after this table's.
    pub fn merge(&mut self, other: Dispatcher)
        requires
            old(self).mergeable(&other),
        ensures
            final(self).spec_routes() == old(self).spec_routes() + other.spec_routes(),
            final(self).spec_fallbacks() == old(self).spec_fallbacks() + other.spec_fallbacks(),
            final(self).spec_scopes() == old(self).spec_scopes() + other.spec_scopes(),
    {
        let mut other = other;
        self.routes.append(&mut other.routes);
        self.fallbacks.append(&mut other.fallbacks);
        self.scopes.append(&mut other.scopes);
    }
}


/// A route moved under a prefix: same method, handler and middleware, with
/// the pattern `prefix` + `path`.
pub open spec fn moved_route(before: RegisteredRoute, after: RegisteredRoute, prefix: Seq<char>) -> bool {
    &&& after.method == before.method
    &&& after.handler == before.handler
    &&& after.operation == before.operation
    &&& after.middlewares == before.middlewares
    &&& after.excluded == before.excluded
    &&& after.path.wf()
    &&& after.path.spec_source() == crate::route::spec_join_paths(prefix, before.path.spec_source())
}

impl Dispatcher {
    /// Whether every route stays a valid pattern under `prefix`.
    pub open spec fn prependable(&self, prefix: Seq<char>) -> bool {
        &&& crate::route::spec_scope_prefix_error(prefix) == 0
        &&& forall|k: int| 0 <= k < self.spec_routes().len() ==> crate::route::valid_route(
            crate::route::spec_join_paths(prefix, (#[trigger] self.spec_routes()[k]).path.spec_source()),
        )
    }

    /// Checks `prependable`.
    pub fn can_prepend(&self, prefix: &[char]) -> (r: bool)
        ensures
            r == self.prependable(prefix@),
    {
        if crate::route::validate_scope_prefix(prefix).is_err() {
            return false;
        }
        let mut k: usize = 0;
        while k < self.routes.len()
            invariant
                k <= self.routes@.len(),
                forall|j: int| 0 <= j < k ==> crate::route::valid_route(
                    crate::route::spec_join_paths(prefix@, (#[trigger] self.routes@[j]).path.spec_source()),
                ),
            decreases self.routes@.len() - k,
        {
            let source = self.routes[k].path.source_chars();
            let joined = crate::route::join_paths(prefix, source.as_slice());
            if RoutePath::parse(joined.as_slice()).is_err() {
                return false;
            }
            k += 1;
        }
        true
    }

    /// Moves every route, fallback, and scope under `prefix`.
    pub fn prepend(&mut self, prefix: &[char])
        requires
            old(self).prependable(prefix@),
        ensures
            final(self).spec_routes().len() == old(self).spec_routes().len(),
            forall|k: int| 0 <= k < final(self).spec_routes().len() ==> moved_route(
                old(self).spec_routes()[k],
                #[trigger] final(self).spec_routes()[k],
                prefix@,
            ),
            final(self).spec_fallbacks().len() == old(self).spec_fallbacks().len(),
            forall|k: int| 0 <= k < final(self).spec_fallbacks().len() ==> (#[trigger] final(self).spec_fallbacks()[k]).handler
                == old(self).spec_fallbacks()[k].handler && final(self).spec_fallbacks()[k].prefix@
                == crate::route::spec_join_prefixes(prefix@, old(self).spec_fallbacks()[k].prefix@),
            final(self).spec_scopes().len() == old(self).spec_scopes().len(),
            forall|k: int| 0 <= k < final(self).spec_scopes().len() ==> (#[trigger] final(self).spec_scopes()[k]).prefix@
                == crate::route::spec_join_prefixes(prefix@, old(self).spec_scopes()[k].prefix@)
                && final(self).spec_scopes()[k].middlewares@ == old(self).spec_scopes()[k].middlewares@
                && final(self).spec_scopes()[k].states@ == old(self).spec_scopes()[k].states@
                && final(self).spec_scopes()[k].body_limit == old(self).spec_scopes()[k].body_limit,
    {
        let ghost orig = self.routes@;
        let mut routes: Vec<RegisteredRoute> = Vec::new();
        std::mem::swap(&mut routes, &mut self.routes);
        let mut reversed: Vec<RegisteredRoute> = Vec::new();
        while routes.len() > 0
            invariant
                orig.len() == routes@.len() + reversed@.len(),
                forall|j: int| 0 <= j < routes@.len() ==> #[trigger] routes@[j] == orig[j],
                forall|j: int| 0 <= j < reversed@.len() ==> moved_route(
                    orig[orig.len() - 1 - j],
                    #[trigger] reversed@[j],
                    prefix@,
                ),
                forall|k: int| 0 <= k < orig.len() ==> crate::route::valid_route(
                    crate::route::spec_join_paths(prefix@, (#[trigger] orig[k]).path.spec_source()),
                ),
            decreases routes@.len(),
        {
            let route = routes.pop().unwrap();
            let source = route.path.source_chars();
            let joined = crate::route::join_paths(prefix, source.as_slice());
            let ghost idx = routes@.len() as int;
            match RoutePath::parse(joined.as_slice()) {
                Ok(path) => {
                    reversed.push(RegisteredRoute {
                        method: route.method,
                        path,
                        handler: route.handler,
                        operation: route.operation,
                        middlewares: route.middlewares,
                        excluded: route.excluded,
                    });
                },
                Err(_) => {
                    assert(false);
                },
            }
        }
        let mut result: Vec<RegisteredRoute> = Vec::new();
        while reversed.len() > 0
            invariant
                orig.len() == reversed@.len() + result@.len(),
                forall|j: int| 0 <= j < reversed@.len() ==> moved_route(
                    orig[orig.len() - 1 - j],
                    #[trigger] reversed@[j],
                    prefix@,
                ),
                forall|j: int| 0 <= j < result@.len() ==> moved_route(orig[j], #[trigger] result@[j], prefix@),
            decreases reversed@.len(),
        {
            let route = reversed.pop().unwrap();
            result.push(route);
        }
        self.routes = result;
        let ghost new_routes = self.routes@;
        let ghost oscopes0 = self.scopes@;
        assert(forall|j: int| 0 <= j < new_routes.len() ==> moved_route(orig[j], #[trigger] new_routes[j], prefix@));
        let mut f: usize = 0;
        let ghost ofalls = self.fallbacks@;
        while f < self.fallbacks.len()
            invariant
                self.routes@ == new_routes,
                self.scopes@ == oscopes0,
                f <= self.fallbacks@.len(),
                self.fallbacks@.len() == ofalls.len(),
                forall|k: int| 0 <= k < f ==> (#[trigger] self.fallbacks@[k]).handler == ofalls[k].handler
                    && self.fallbacks@[k].prefix@ == crate::route::spec_join_prefixes(prefix@, ofalls[k].prefix@),
                forall|k: int| f <= k < self.fallbacks@.len() ==> #[trigger] self.fallbacks@[k] == ofalls[k],
            decreases self.fallbacks@.len() - f,
        {
            let joined = crate::route::join_prefixes(prefix, self.fallbacks[f].prefix.as_slice());
            let handler = self.fallbacks[f].handler;
            self.fallbacks.set(f, RegisteredFallback { prefix: joined, handler });
            f += 1;
        }
        let ghost oscopes = self.scopes@;
        let ghost new_falls = self.fallbacks@;
        let mut scopes: Vec<Scope> = Vec::new();
        std::mem::swap(&mut scopes, &mut self.scopes);
        let mut rev_scopes: Vec<Scope> = Vec::new();
        while scopes.len() > 0
            invariant
                self.routes@ == new_routes,
                self.fallbacks@ == new_falls,
                self.scopes@.len() == 0,
                oscopes.len() == scopes@.len() + rev_scopes@.len(),
                forall|j: int| 0 <= j < scopes@.len() ==> #[trigger] scopes@[j] == oscopes[j],
                forall|j: int| 0 <= j < rev_scopes@.len() ==> (#[trigger] rev_scopes@[j]).prefix@
                    == crate::route::spec_join_prefixes(prefix@, oscopes[oscopes.len() - 1 - j].prefix@)
                    && rev_scopes@[j].middlewares@ == oscopes[oscopes.len() - 1 - j].middlewares@
                    && rev_scopes@[j].states@ == oscopes[oscopes.len() - 1 - j].states@
                    && rev_scopes@[j].body_limit == oscopes[oscopes.len() - 1 - j].body_limit,
            decreases scopes@.len(),
        {
            let mut scope = scopes.pop().unwrap();
            scope.prepend(prefix);
            rev_scopes.push(scope);
        }
        while rev_scopes.len() > 0
            invariant
                self.routes@ == new_routes,
                self.fallbacks@ == new_falls,
                oscopes.len() == rev_scopes@.len() + self.scopes@.len(),
                forall|j: int| 0 <= j < rev_scopes@.len() ==> (#[trigger] rev_scopes@[j]).prefix@
                    == crate::route::spec_join_prefixes(prefix@, oscopes[oscopes.len() - 1 - j].prefix@)
                    && rev_scopes@[j].middlewares@ == oscopes[oscopes.len() - 1 - j].middlewares@
                    && rev_scopes@[j].states@ == oscopes[oscopes.len() - 1 - j].states@
                    && rev_scopes@[j].body_limit == oscopes[oscopes.len() - 1 - j].body_limit,
                forall|j: int| 0 <= j < self.scopes@.len() ==> (#[trigger] self.scopes@[j]).prefix@
                    == crate::route::spec_join_prefixes(prefix@, oscopes[j].prefix@)
                    && self.scopes@[j].middlewares@ == oscopes[j].middlewares@
                    && self.scopes@[j].states@ == oscopes[j].states@
                    && self.scopes@[j].body_limit == oscopes[j].body_limit,
            decreases rev_scopes@.len(),
        {
            let scope = rev_scopes.pop().unwrap();
            self.scopes.push(scope);
        }
    }
}


impl Dispatcher {
    pub open spec fn scope_len(&self, i: int) -> int {
        self.spec_scopes()[i].prefix@.len() as int
    }

    /// Scope `a` comes before scope `b`: shorter prefix first, then
    /// registration order.
    pub open spec fn scope_before(&self, a: int, b: int) -> bool {
        self.scope_len(a) < self.scope_len(b) || (self.scope_len(a) == self.scope_len(b) && a < b)
    }

    /// The scopes holding `path`, outermost (shortest prefix) first.
    pub fn matching_scopes(&self, path: &[char]) -> (r: Vec<usize>)
        ensures
            forall|k: int| 0 <= k < r@.len() ==> (#[trigger] r@[k]) < self.spec_scopes().len() && spec_prefix_matches(
                self.spec_scopes()[r@[k] as int].prefix@,
                path@,
            ),
            forall|i: int| 0 <= i < self.spec_scopes().len() && spec_prefix_matches(#[trigger] self.spec_scopes()[i].prefix@, path@)
                ==> r@.contains(i as usize),
            forall|a: int, b: int| 0 <= a < b < r@.len() ==> self.scope_before(#[trigger] r@[a] as int, #[trigger] r@[b] as int),
    {
        let mut r: Vec<usize> = Vec::new();
        let mut i: usize = 0;
        while i < self.scopes.len()
            invariant
                i <= self.scopes@.len(),
                forall|k: int| 0 <= k < r@.len() ==> (#[trigger] r@[k]) < i && spec_prefix_matches(
                    self.spec_scopes()[r@[k] as int].prefix@,
                    path@,
                ),
                forall|j: int| 0 <= j < i && spec_prefix_matches(#[trigger] self.spec_scopes()[j].prefix@, path@)
                    ==> r@.contains(j as usize),
                forall|a: int, b: int| 0 <= a < b < r@.len() ==> self.scope_before(#[trigger] r@[a] as int, #[trigger] r@[b] as int),
            decreases self.scopes@.len() - i,
        {
            if self.scopes[i].matches(path) {
                let len = self.scopes[i].prefix.len();
                let mut pos: usize = 0;
                while pos < r.len() && self.scopes[r[pos]].prefix.len() <= len
                    invariant
                        pos <= r@.len(),
                        i < self.scopes@.len(),
                        len == self.scope_len(i as int),
                        forall|k: int| 0 <= k < r@.len() ==> (#[trigger] r@[k]) < i,
                        forall|k: int| 0 <= k < pos ==> self.scope_len(#[trigger] r@[k] as int) <= len,
                    decreases r@.len() - pos,
                {
                    pos += 1;
                }
                let ghost before = r@;
                r.insert(pos, i);
                proof {
                    assert forall|a: int, b: int| 0 <= a < b < r@.len() implies self.scope_before(#[trigger] r@[a] as int, #[trigger] r@[b] as int) by {
                        if b < pos {
                            assert(r@[a] == before[a] && r@[b] == before[b]);
                        } else if b == pos {
                            assert(r@[a] == before[a]);
                        } else if a == pos {
                            assert(r@[b] == before[b - 1]);
                            assert(self.scope_len(before[pos as int] as int) > len);
                            if b - 1 > pos {
                                assert(self.scope_before(before[pos as int] as int, before[b - 1] as int));
                            }
                        } else if a < pos {
                            assert(r@[a] == before[a] && r@[b] == before[b - 1]);
                        } else {
                            assert(r@[a] == before[a - 1] && r@[b] == before[b - 1]);
                        }
                    }
                    assert(r@[pos as int] == i);
                    assert forall|j: int| 0 <= j < i + 1 && spec_prefix_matches(#[trigger] self.spec_scopes()[j].prefix@, path@)
                        implies r@.contains(j as usize) by {
                        if j < i {
                            let w = choose|w: int| 0 <= w < before.len() && before[w] == j as usize;
                            if w < pos {
                                assert(r@[w] == j as usize);
                            } else {
                                assert(r@[w + 1] == j as usize);
                            }
                        }
                    }
                    assert forall|k: int| 0 <= k < r@.len() implies (#[trigger] r@[k]) < i + 1 && spec_prefix_matches(
                        self.spec_scopes()[r@[k] as int].prefix@,
                        path@,
                    ) by {
                        if k < pos {
                            assert(r@[k] == before[k]);
                        } else if k > pos {
                            assert(r@[k] == before[k - 1]);
                        }
                    }
                }
            }
            i += 1;
        }
        r
    }
}

/// Why a path cannot be reserved for a built-in endpoint.
#[derive(Debug)]
pub enum ReservedPathError {
    Invalid(RouteError),
    NotStatic,
    Conflict,
}

/// Whether every piece of a pattern source is a literal.
pub open spec fn static_pattern(src: Seq<char>) -> bool {
    forall|i: int| 0 <= i < path_pieces(src).len() ==> !(is_param_piece(#[trigger] path_pieces(src)[i]) || is_wild_piece(
        path_pieces(src)[i],
    ))
}

/// Whether some route of `routes`, of any method, has the shape and literals
/// of the pattern source `src`.
pub open spec fn reserved_conflict(routes: Seq<RegisteredRoute>, src: Seq<char>) -> bool {
    exists|k: int| 0 <= k < routes.len() && shape_matches((#[trigger] routes[k]).path.spec_segments(), path_pieces(src))
}

/// What checking `path` for a built-in endpoint answers, given the routes.
pub open spec fn reserved_path_outcome(routes: Seq<RegisteredRoute>, path: Seq<char>, r: Result<(), ReservedPathError>) -> bool {
    if !valid_route(path) {
        r matches Err(ReservedPathError::Invalid(e)) && error_code(e) == route_error(path).0
    } else if !static_pattern(path) {
        r matches Err(ReservedPathError::NotStatic)
    } else if reserved_conflict(routes, path) {
        r matches Err(ReservedPathError::Conflict)
    } else {
        r is Ok
    }
}

impl Dispatcher {
    /// The indexes of the routes whose method has a field in an OpenAPI
    /// path item, in registration order.
    pub open spec fn documented(&self) -> Seq<int> {
        filter_upto(|k: int| spec_openapi_method(self.spec_routes()[k].method.name()), self.spec_routes().len() as int)
    }

    /// Whether `ds` describes, in registration order, the routes whose
    /// method has a field in an OpenAPI path item.
    pub open spec fn describes(&self, ds: Seq<RouteDescription<'_>>) -> bool {
        &&& ds.len() == self.documented().len()
        &&& forall|j: int| 0 <= j < ds.len() ==> {
            let route = self.spec_routes()[self.documented()[j]];
            &&& (#[trigger] ds[j]).path@ == spec_openapi_path(route.path.spec_segments()).0
            &&& ds[j].path_parameters@.map_values(|v: Vec<char>| v@) == spec_openapi_path(route.path.spec_segments()).1
            &&& ds[j].method@ == route.method.name()
            &&& *ds[j].operation == route.operation
        }
    }

    /// Describes the routes an OpenAPI document lists: those whose method is
    /// an OpenAPI operation, in registration order.
    pub fn openapi_routes(&self) -> (r: Vec<RouteDescription<'_>>)
        ensures
            self.describes(r@),
    {
        let ghost p = |k: int| spec_openapi_method(self.spec_routes()[k].method.name());
        let mut out: Vec<RouteDescription<'_>> = Vec::new();
        let mut k: usize = 0;
        while k < self.routes.len()
            invariant
                k <= self.routes@.len(),
                p == (|k: int| spec_openapi_method(self.spec_routes()[k].method.name())),
                out@.len() == filter_upto(p, k as int).len(),
                forall|j: int| 0 <= j < out@.len() ==> {
                    let route = self.spec_routes()[filter_upto(p, k as int)[j]];
                    &&& (#[trigger] out@[j]).path@ == spec_openapi_path(route.path.spec_segments()).0
                    &&& out@[j].path_parameters@.map_values(|v: Vec<char>| v@) == spec_openapi_path(route.path.spec_segments()).1
                    &&& out@[j].method@ == route.method.name()
                    &&& *out@[j].operation == route.operation
                },
            decreases self.routes@.len() - k,
        {
            let route = &self.routes[k];
            if crate::openapi::is_openapi_method(&route.method) {
                let (path, path_parameters) = route.path.openapi_path();
                let method = crate::text::string_of(route.method.name_chars().as_slice());
                out.push(RouteDescription {
                    path: crate::text::string_of(path.as_slice()),
                    method,
                    path_parameters,
                    operation: &route.operation,
                });
            }
            k += 1;
        }
        out
    }

    /// Checks a path reserved for a built-in endpoint: it must parse, hold
    /// only literals, and conflict with no route of any method.
    pub fn validate_reserved_path(&self, path: &[char]) -> (r: Result<(), ReservedPathError>)
        ensures
            reserved_path_outcome(self.spec_routes(), path@, r),
    {
        let parsed = match RoutePath::parse(path) {
            Ok(p) => p,
            Err(e) => return Err(ReservedPathError::Invalid(e)),
        };
        if !parsed.is_static() {
            proof {
                let i = choose|i: int| 0 <= i < parsed.spec_segments().len() && !(#[trigger] parsed.spec_segments()[i] is Static);
                assert(segment_for(parsed.spec_segments()[i], path_pieces(path@)[i]));
            }
            return Err(ReservedPathError::NotStatic);
        }
        proof {
            assert forall|i: int| 0 <= i < path_pieces(path@).len() implies !(is_param_piece(#[trigger] path_pieces(path@)[i])
                || is_wild_piece(path_pieces(path@)[i])) by {
                assert(segment_for(parsed.spec_segments()[i], path_pieces(path@)[i]));
                assert(parsed.spec_segments()[i] is Static);
            }
        }
        let mut k: usize = 0;
        while k < self.routes.len()
            invariant
                k <= self.routes@.len(),
                parsed.wf(),
                parsed.spec_source() == path@,
                static_pattern(path@),
                forall|j: int| 0 <= j < k ==> !shape_matches((#[trigger] self.routes@[j]).path.spec_segments(), path_pieces(path@)),
            decreases self.routes@.len() - k,
        {
            let c = self.routes[k].path.conflicts_with(&parsed);
            proof {
                lemma_conflict_by_source(self.routes@[k as int].path.spec_segments(), parsed);
            }
            if c {
                assert(self.spec_routes()[k as int] == self.routes@[k as int]);
                assert(shape_matches(self.spec_routes()[k as int].path.spec_segments(), path_pieces(path@)));
                return Err(ReservedPathError::Conflict);
            }
            k += 1;
        }
        proof {
            assert forall|j: int| 0 <= j < self.spec_routes().len() implies !shape_matches(
                (#[trigger] self.spec_routes()[j]).path.spec_segments(),
                path_pieces(path@),
            ) by {
                assert(self.spec_routes()[j] == self.routes@[j]);
            }
        }
        Ok(())
    }

    /// Checks the path of the OpenAPI reference page.
    pub fn validate_openapi_path(&self, path: &[char]) -> (r: Result<(), ReservedPathError>)
        ensures
            reserved_path_outcome(self.spec_routes(), path@, r),
    {
        self.validate_reserved_path(path)
    }
}

} // verus!
