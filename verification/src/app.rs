//! Routers: configuration, route registration, mounting, and what each
//! request is answered with.

use vstd::prelude::*;
use vstd::utf8::{valid_utf8, decode_utf8, encode_utf8};
use crate::text::{chars_of, copy_chars, string_of, str_from_utf8, push_str, push_all, decimal, decimal_text, utf8_bytes};
use crate::headers::{Headers, HeaderEntries, without_named};
use crate::response::Response;
use crate::request::{set_keyed, with_keyed};
use crate::error::{Error, ErrorFormat, JsonErrorFormat, PendingError, error_json};
use crate::schemaval::{ValidationErrors, ValidationIssue};
use crate::method::{Method, standard_method_name};
use crate::route::{
    RoutePath, RouteError, join_paths, normalize_prefix, validate_scope_prefix, spec_join_paths,
    spec_scope_prefix_error, valid_route, error_code, route_error, path_pieces, shape_matches,
    lemma_conflict_by_source, patterns_conflict, spec_join_prefixes, spec_prefix_matches,
};
use crate::dispatch::{
    Dispatcher, Dispatch, Scope, MiddlewareEntry, RegisteredRoute, RegisteredFallback, ReservedPathError, route_conflict,
    moved_route, reserved_path_outcome, routes_mergeable, fallbacks_mergeable,
};
use crate::openapi::{OpenApi, OpenApiDocument, Operation, RouteDescription, document_json, scalar_page_text};

verus! {

/// A router's configuration: its prefix and which error format renders its
/// errors (`None`: the JSON envelope; otherwise the format the serving layer
/// registered under that handle).
#[derive(Debug, Clone)]
pub struct Config {
    prefix: String,
    error_format: Option<u64>,
}

impl Config {
    pub closed spec fn spec_prefix(&self) -> Seq<char> {
        self.prefix@
    }

    pub closed spec fn spec_error_format(&self) -> Option<u64> {
        self.error_format
    }

    /// No prefix, and the JSON error format.
    pub fn new() -> (r: Config)
        ensures
            r.spec_prefix().len() == 0,
            r.spec_error_format() is None,
    {
        Config { prefix: String::new(), error_format: None }
    }

    pub fn prefix(self, prefix: String) -> (r: Config)
        ensures
            r.spec_prefix() == prefix@,
            r.spec_error_format() == self.spec_error_format(),
    {
        let mut c = self;
        c.prefix = prefix;
        c
    }

    pub fn error_format(self, format: u64) -> (r: Config)
        ensures
            r.spec_prefix() == self.spec_prefix(),
            r.spec_error_format() == Some(format),
    {
        let mut c = self;
        c.error_format = Some(format);
        c
    }
}

impl Default for Config {
    fn default() -> (r: Config)
        ensures
            r.spec_prefix().len() == 0,
            r.spec_error_format() is None,
    {
        Config::new()
    }
}

/// A route to register: its method, pattern, handler, documentation, own
/// middleware, and the inherited middleware kinds it skips.
#[derive(Debug)]
pub struct Route {
    path: String,
    method: Method,
    handler: u64,
    operation: Operation,
    middlewares: Vec<MiddlewareEntry>,
    excluded: Vec<u64>,
}

impl Route {
    pub closed spec fn spec_path(&self) -> Seq<char> {
        self.path@
    }

    pub closed spec fn spec_method(&self) -> Method {
        self.method
    }

    pub closed spec fn spec_handler(&self) -> u64 {
        self.handler
    }

    pub closed spec fn spec_operation(&self) -> Operation {
        self.operation
    }

    pub closed spec fn spec_middlewares(&self) -> Seq<MiddlewareEntry> {
        self.middlewares@
    }

    pub closed spec fn spec_excluded(&self) -> Seq<u64> {
        self.excluded@
    }

    /// A route answering `method` on `path` with `handler`, documented by
    /// `operation`.
    pub fn new(method: Method, path: String, handler: u64, operation: Operation) -> (r: Route)
        ensures
            r.spec_method() == method,
            r.spec_path() == path@,
            r.spec_handler() == handler,
            r.spec_operation() == operation,
            r.spec_middlewares().len() == 0,
            r.spec_excluded().len() == 0,
    {
        Route { path, method, handler, operation, middlewares: Vec::new(), excluded: Vec::new() }
    }

    /// Whether `other` is this route with only its documentation changed.
    pub open spec fn same_route(&self, other: &Route) -> bool {
        &&& self.spec_method() == other.spec_method()
        &&& self.spec_path() == other.spec_path()
        &&& self.spec_handler() == other.spec_handler()
        &&& self.spec_middlewares() == other.spec_middlewares()
        &&& self.spec_excluded() == other.spec_excluded()
    }

    pub fn summary(self, summary: String) -> (r: Route)
        ensures
            r.same_route(&self),
            r.spec_operation().spec_summary() == Some(summary@),
            r.spec_operation().same_declarations(&self.spec_operation()),
    {
        let mut route = self;
        route.operation.summary(summary);
        route
    }

    pub fn description(self, description: String) -> (r: Route)
        ensures
            r.same_route(&self),
            r.spec_operation().spec_description() == Some(description@),
            r.spec_operation().same_declarations(&self.spec_operation()),
    {
        let mut route = self;
        route.operation.description(description);
        route
    }

    pub fn tag(self, tag: String) -> (r: Route)
        ensures
            r.same_route(&self),
            r.spec_operation().spec_tags() == self.spec_operation().spec_tags().push(tag@),
            r.spec_operation().same_declarations(&self.spec_operation()),
    {
        let mut route = self;
        route.operation.tag(tag);
        route
    }

    pub fn operation_id(self, operation_id: String) -> (r: Route)
        ensures
            r.same_route(&self),
            r.spec_operation().spec_operation_id() == Some(operation_id@),
            r.spec_operation().same_declarations(&self.spec_operation()),
    {
        let mut route = self;
        route.operation.operation_id(operation_id);
        route
    }

    /// Lets `modifier` change the documentation of this route: it is handed
    /// the route's operation and gives back the one to publish.
    pub fn openapi<F: FnOnce(Operation) -> Operation>(self, modifier: F) -> (r: Route)
        requires
            forall|operation: Operation| #[trigger] modifier.requires((operation,)),
        ensures
            r.same_route(&self),
            modifier.ensures((self.spec_operation(),), r.spec_operation()),
    {
        let Route { path, method, handler, operation, middlewares, excluded } = self;
        let operation = modifier(operation);
        Route { path, method, handler, operation, middlewares, excluded }
    }

    /// Adds middleware that runs for this route only.
    pub fn middleware(self, middleware: MiddlewareEntry) -> (r: Route)
        ensures
            r.spec_middlewares() == self.spec_middlewares().push(middleware),
            r.spec_method() == self.spec_method(),
            r.spec_path() == self.spec_path(),
            r.spec_handler() == self.spec_handler(),
            r.spec_excluded() == self.spec_excluded(),
            r.spec_operation() == self.spec_operation(),
    {
        let mut route = self;
        route.middlewares.push(middleware);
        route
    }

    /// Skips inherited middleware of kind `kind`; each kind is listed once.
    pub fn without_middleware(self, kind: u64) -> (r: Route)
        ensures
            r.spec_excluded() == if self.spec_excluded().contains(kind) {
                self.spec_excluded()
            } else {
                self.spec_excluded().push(kind)
            },
            r.spec_middlewares() == self.spec_middlewares(),
            r.spec_method() == self.spec_method(),
            r.spec_path() == self.spec_path(),
            r.spec_handler() == self.spec_handler(),
            r.spec_operation() == self.spec_operation(),
    {
        let mut route = self;
        let mut k: usize = 0;
        while k < route.excluded.len()
            invariant
                k <= route.excluded@.len(),
                route.excluded@ == self.spec_excluded(),
                route.middlewares@ == self.spec_middlewares(),
                route.method == self.spec_method(),
                route.path@ == self.spec_path(),
                route.handler == self.spec_handler(),
                route.operation == self.spec_operation(),
                forall|j: int| 0 <= j < k ==> route.excluded@[j] != kind,
            decreases route.excluded@.len() - k,
        {
            if route.excluded[k] == kind {
                assert(self.spec_excluded()[k as int] == kind);
                return route;
            }
            k += 1;
        }
        route.excluded.push(kind);
        route
    }
}

/// Routes made from a path: `"/items".GET(handler)`.
#[allow(non_snake_case)]
pub trait RouteMethods {
    fn GET(self, handler: u64) -> Route;

    fn POST(self, handler: u64) -> Route;

    fn PUT(self, handler: u64) -> Route;

    fn PATCH(self, handler: u64) -> Route;

    fn DELETE(self, handler: u64) -> Route;

    fn HEAD(self, handler: u64) -> Route;

    fn OPTIONS(self, handler: u64) -> Route;

    fn CONNECT(self, handler: u64) -> Route;

    fn TRACE(self, handler: u64) -> Route;

    fn on(self, method: Method, handler: u64) -> Route;
}

#[allow(non_snake_case)]
impl RouteMethods for &str {
    fn GET(self, handler: u64) -> (r: Route)
        ensures
            r.spec_method() == Method::GET && r.spec_path() == self@ && r.spec_handler() == handler,
    {
        Route::new(Method::GET, self.to_owned(), handler, Operation::new())
    }

    fn POST(self, handler: u64) -> (r: Route)
        ensures
            r.spec_method() == Method::POST && r.spec_path() == self@ && r.spec_handler() == handler,
    {
        Route::new(Method::POST, self.to_owned(), handler, Operation::new())
    }

    fn PUT(self, handler: u64) -> (r: Route)
        ensures
            r.spec_method() == Method::PUT && r.spec_path() == self@ && r.spec_handler() == handler,
    {
        Route::new(Method::PUT, self.to_owned(), handler, Operation::new())
    }

    fn PATCH(self, handler: u64) -> (r: Route)
        ensures
            r.spec_method() == Method::PATCH && r.spec_path() == self@ && r.spec_handler() == handler,
    {
        Route::new(Method::PATCH, self.to_owned(), handler, Operation::new())
    }

    fn DELETE(self, handler: u64) -> (r: Route)
        ensures
            r.spec_method() == Method::DELETE && r.spec_path() == self@ && r.spec_handler() == handler,
    {
        Route::new(Method::DELETE, self.to_owned(), handler, Operation::new())
    }

    fn HEAD(self, handler: u64) -> (r: Route)
        ensures
            r.spec_method() == Method::HEAD && r.spec_path() == self@ && r.spec_handler() == handler,
    {
        Route::new(Method::HEAD, self.to_owned(), handler, Operation::new())
    }

    fn OPTIONS(self, handler: u64) -> (r: Route)
        ensures
            r.spec_method() == Method::OPTIONS && r.spec_path() == self@ && r.spec_handler() == handler,
    {
        Route::new(Method::OPTIONS, self.to_owned(), handler, Operation::new())
    }

    fn CONNECT(self, handler: u64) -> (r: Route)
        ensures
            r.spec_method() == Method::CONNECT && r.spec_path() == self@ && r.spec_handler() == handler,
    {
        Route::new(Method::CONNECT, self.to_owned(), handler, Operation::new())
    }

    fn TRACE(self, handler: u64) -> (r: Route)
        ensures
            r.spec_method() == Method::TRACE && r.spec_path() == self@ && r.spec_handler() == handler,
    {
        Route::new(Method::TRACE, self.to_owned(), handler, Operation::new())
    }

    fn on(self, method: Method, handler: u64) -> (r: Route)
        ensures
            r.spec_method() == method && r.spec_path() == self@ && r.spec_handler() == handler,
    {
        Route::new(method, self.to_owned(), handler, Operation::new())
    }
}

/// Why routes could not be added to a router.
///
/// Registration never panics: a prefix, route path or page path that breaks
/// the route rules, two equivalent routes for one method, and a second
/// fallback for one prefix all come back as one of these, and no router is
/// built. A program that treats them as fatal stops on them itself.
#[derive(Debug)]
pub enum RegistrationError {
    /// The router prefix or mount point is not a literal path.
    InvalidPrefix(RouteError),
    /// A route pattern does not parse.
    InvalidPath(RouteError),
    /// An equivalent route with the same method exists.
    Conflict,
    /// A fallback for the same prefix exists.
    DuplicateFallback,
    /// The OpenAPI reference path is invalid, dynamic, or taken.
    ReservedPath(ReservedPathError),
}

/// A published OpenAPI document and its reference page.
#[derive(Debug)]
pub struct PublishedOpenApi {
    path: Vec<char>,
    configuration: OpenApi,
    document: OpenApiDocument,
    scalar_page: String,
}

/// Routes, fallbacks and scopes, with the router's own scope and published
/// document.
pub struct Router {
    dispatcher: Dispatcher,
    scope: Scope,
    openapi: Option<PublishedOpenApi>,
    error_format: Option<u64>,
}

/// Something that adds routes to a router. Adding routes leaves the router's
/// own scope, error format and published document as they were.
pub trait Routes {
    /// Whether `after`, with the answer `r`, is what adding these routes to
    /// `before` gives.
    spec fn applied(self, before: Router, after: Router, r: Result<(), RegistrationError>) -> bool;

    fn apply(self, router: &mut Router) -> (r: Result<(), RegistrationError>)
        ensures
            final(router).spec_scope() == old(router).spec_scope(),
            final(router).spec_error_format() == old(router).spec_error_format(),
            final(router).spec_published() == old(router).spec_published(),
            self.applied(*old(router), *final(router), r),
    ;
}

impl Routes for () {
    open spec fn applied(self, before: Router, after: Router, r: Result<(), RegistrationError>) -> bool {
        &&& r is Ok
        &&& after.spec_routes() == before.spec_routes()
        &&& after.spec_fallbacks() == before.spec_fallbacks()
        &&& after.spec_scopes() == before.spec_scopes()
    }

    fn apply(self, router: &mut Router) -> (r: Result<(), RegistrationError>) {
        Ok(())
    }
}

impl Routes for Route {
    open spec fn applied(self, before: Router, after: Router, r: Result<(), RegistrationError>) -> bool {
        route_added(before, self, after, r)
    }

    fn apply(self, router: &mut Router) -> (r: Result<(), RegistrationError>) {
        router.register(self)
    }
}

impl Routes for Router {
    /// The child is mounted under the parent's prefix and, unless mounting
    /// or merging refuses it, its routes, fallbacks and scopes follow the
    /// parent's.
    open spec fn applied(self, before: Router, after: Router, r: Result<(), RegistrationError>) -> bool {
        &&& router_merged(before, self, after, r)
        &&& exists|m: Result<Router, RegistrationError>| #[trigger] mount_result(self, before.spec_scope().prefix@, m)
            && merge_outcome(before, m, after, r)
    }

    fn apply(self, router: &mut Router) -> (r: Result<(), RegistrationError>) {
        router.register_router(self)
    }
}

impl<A: Routes> Routes for (A,) {
    open spec fn applied(self, before: Router, after: Router, r: Result<(), RegistrationError>) -> bool {
        self.0.applied(before, after, r)
    }

    fn apply(self, router: &mut Router) -> (r: Result<(), RegistrationError>) {
        self.0.apply(router)
    }
}

impl<A: Routes, B: Routes> Routes for (A, B) {
    open spec fn applied(self, before: Router, after: Router, r: Result<(), RegistrationError>) -> bool {
        ||| (r is Err && self.0.applied(before, after, r))
        ||| exists|mid: Router, first: Result<(), RegistrationError>| first is Ok && #[trigger] self.0.applied(before, mid, first)
            && (self.1,).applied(mid, after, r)
    }

    fn apply(self, router: &mut Router) -> (r: Result<(), RegistrationError>) {
        let ghost whole = self;
        let ghost before = *router;
        let (a, b) = self;
        let first = a.apply(router);
        match first {
            Ok(()) => {},
            Err(error) => {
                return Err(error);
            },
        }
        let ghost mid = *router;
        let result = (b,).apply(router);
        assert(whole.0.applied(before, mid, first));
        result
    }
}

impl<A: Routes, B: Routes, C: Routes> Routes for (A, B, C) {
    open spec fn applied(self, before: Router, after: Router, r: Result<(), RegistrationError>) -> bool {
        ||| (r is Err && self.0.applied(before, after, r))
        ||| exists|mid: Router, first: Result<(), RegistrationError>| first is Ok && #[trigger] self.0.applied(before, mid, first)
            && (self.1, self.2).applied(mid, after, r)
    }

    fn apply(self, router: &mut Router) -> (r: Result<(), RegistrationError>) {
        let ghost whole = self;
        let ghost before = *router;
        let (a, b, c) = self;
        let first = a.apply(router);
        match first {
            Ok(()) => {},
            Err(error) => {
                return Err(error);
            },
        }
        let ghost mid = *router;
        let result = (b, c).apply(router);
        assert(whole.0.applied(before, mid, first));
        result
    }
}

impl<A: Routes, B: Routes, C: Routes, D: Routes> Routes for (A, B, C, D) {
    open spec fn applied(self, before: Router, after: Router, r: Result<(), RegistrationError>) -> bool {
        ||| (r is Err && self.0.applied(before, after, r))
        ||| exists|mid: Router, first: Result<(), RegistrationError>| first is Ok && #[trigger] self.0.applied(before, mid, first)
            && (self.1, self.2, self.3).applied(mid, after, r)
    }

    fn apply(self, router: &mut Router) -> (r: Result<(), RegistrationError>) {
        let ghost whole = self;
        let ghost before = *router;
        let (a, b, c, d) = self;
        let first = a.apply(router);
        match first {
            Ok(()) => {},
            Err(error) => {
                return Err(error);
            },
        }
        let ghost mid = *router;
        let result = (b, c, d).apply(router);
        assert(whole.0.applied(before, mid, first));
        result
    }
}

impl<A: Routes, B: Routes, C: Routes, D: Routes, E: Routes> Routes for (A, B, C, D, E) {
    open spec fn applied(self, before: Router, after: Router, r: Result<(), RegistrationError>) -> bool {
        ||| (r is Err && self.0.applied(before, after, r))
        ||| exists|mid: Router, first: Result<(), RegistrationError>| first is Ok && #[trigger] self.0.applied(before, mid, first)
            && (self.1, self.2, self.3, self.4).applied(mid, after, r)
    }

    fn apply(self, router: &mut Router) -> (r: Result<(), RegistrationError>) {
        let ghost whole = self;
        let ghost before = *router;
        let (a, b, c, d, e) = self;
        let first = a.apply(router);
        match first {
            Ok(()) => {},
            Err(error) => {
                return Err(error);
            },
        }
        let ghost mid = *router;
        let result = (b, c, d, e).apply(router);
        assert(whole.0.applied(before, mid, first));
        result
    }
}

impl<A: Routes, B: Routes, C: Routes, D: Routes, E: Routes, F: Routes> Routes for (A, B, C, D, E, F) {
    open spec fn applied(self, before: Router, after: Router, r: Result<(), RegistrationError>) -> bool {
        ||| (r is Err && self.0.applied(before, after, r))
        ||| exists|mid: Router, first: Result<(), RegistrationError>| first is Ok && #[trigger] self.0.applied(before, mid, first)
            && (self.1, self.2, self.3, self.4, self.5).applied(mid, after, r)
    }

    fn apply(self, router: &mut Router) -> (r: Result<(), RegistrationError>) {
        let ghost whole = self;
        let ghost before = *router;
        let (a, b, c, d, e, f) = self;
        let first = a.apply(router);
        match first {
            Ok(()) => {},
            Err(error) => {
                return Err(error);
            },
        }
        let ghost mid = *router;
        let result = (b, c, d, e, f).apply(router);
        assert(whole.0.applied(before, mid, first));
        result
    }
}

impl<A: Routes, B: Routes, C: Routes, D: Routes, E: Routes, F: Routes, G: Routes> Routes for (A, B, C, D, E, F, G) {
    open spec fn applied(self, before: Router, after: Router, r: Result<(), RegistrationError>) -> bool {
        ||| (r is Err && self.0.applied(before, after, r))
        ||| exists|mid: Router, first: Result<(), RegistrationError>| first is Ok && #[trigger] self.0.applied(before, mid, first)
            && (self.1, self.2, self.3, self.4, self.5, self.6).applied(mid, after, r)
    }

    fn apply(self, router: &mut Router) -> (r: Result<(), RegistrationError>) {
        let ghost whole = self;
        let ghost before = *router;
        let (a, b, c, d, e, f, g) = self;
        let first = a.apply(router);
        match first {
            Ok(()) => {},
            Err(error) => {
                return Err(error);
            },
        }
        let ghost mid = *router;
        let result = (b, c, d, e, f, g).apply(router);
        assert(whole.0.applied(before, mid, first));
        result
    }
}

impl<A: Routes, B: Routes, C: Routes, D: Routes, E: Routes, F: Routes, G: Routes, H: Routes> Routes for (A, B, C, D, E, F, G, H) {
    open spec fn applied(self, before: Router, after: Router, r: Result<(), RegistrationError>) -> bool {
        ||| (r is Err && self.0.applied(before, after, r))
        ||| exists|mid: Router, first: Result<(), RegistrationError>| first is Ok && #[trigger] self.0.applied(before, mid, first)
            && (self.1, self.2, self.3, self.4, self.5, self.6, self.7).applied(mid, after, r)
    }

    fn apply(self, router: &mut Router) -> (r: Result<(), RegistrationError>) {
        let ghost whole = self;
        let ghost before = *router;
        let (a, b, c, d, e, f, g, h) = self;
        let first = a.apply(router);
        match first {
            Ok(()) => {},
            Err(error) => {
                return Err(error);
            },
        }
        let ghost mid = *router;
        let result = (b, c, d, e, f, g, h).apply(router);
        assert(whole.0.applied(before, mid, first));
        result
    }
}

impl<A: Routes, B: Routes, C: Routes, D: Routes, E: Routes, F: Routes, G: Routes, H: Routes, I: Routes> Routes for (A, B, C, D, E, F, G, H, I) {
    open spec fn applied(self, before: Router, after: Router, r: Result<(), RegistrationError>) -> bool {
        ||| (r is Err && self.0.applied(before, after, r))
        ||| exists|mid: Router, first: Result<(), RegistrationError>| first is Ok && #[trigger] self.0.applied(before, mid, first)
            && (self.1, self.2, self.3, self.4, self.5, self.6, self.7, self.8).applied(mid, after, r)
    }

    fn apply(self, router: &mut Router) -> (r: Result<(), RegistrationError>) {
        let ghost whole = self;
        let ghost before = *router;
        let (a, b, c, d, e, f, g, h, i) = self;
        let first = a.apply(router);
        match first {
            Ok(()) => {},
            Err(error) => {
                return Err(error);
            },
        }
        let ghost mid = *router;
        let result = (b, c, d, e, f, g, h, i).apply(router);
        assert(whole.0.applied(before, mid, first));
        result
    }
}

impl<A: Routes, B: Routes, C: Routes, D: Routes, E: Routes, F: Routes, G: Routes, H: Routes, I: Routes, J: Routes> Routes for (A, B, C, D, E, F, G, H, I, J) {
    open spec fn applied(self, before: Router, after: Router, r: Result<(), RegistrationError>) -> bool {
        ||| (r is Err && self.0.applied(before, after, r))
        ||| exists|mid: Router, first: Result<(), RegistrationError>| first is Ok && #[trigger] self.0.applied(before, mid, first)
            && (self.1, self.2, self.3, self.4, self.5, self.6, self.7, self.8, self.9).applied(mid, after, r)
    }

    fn apply(self, router: &mut Router) -> (r: Result<(), RegistrationError>) {
        let ghost whole = self;
        let ghost before = *router;
        let (a, b, c, d, e, f, g, h, i, j) = self;
        let first = a.apply(router);
        match first {
            Ok(()) => {},
            Err(error) => {
                return Err(error);
            },
        }
        let ghost mid = *router;
        let result = (b, c, d, e, f, g, h, i, j).apply(router);
        assert(whole.0.applied(before, mid, first));
        result
    }
}

impl<A: Routes, B: Routes, C: Routes, D: Routes, E: Routes, F: Routes, G: Routes, H: Routes, I: Routes, J: Routes, K: Routes> Routes for (A, B, C, D, E, F, G, H, I, J, K) {
    open spec fn applied(self, before: Router, after: Router, r: Result<(), RegistrationError>) -> bool {
        ||| (r is Err && self.0.applied(before, after, r))
        ||| exists|mid: Router, first: Result<(), RegistrationError>| first is Ok && #[trigger] self.0.applied(before, mid, first)
            && (self.1, self.2, self.3, self.4, self.5, self.6, self.7, self.8, self.9, self.10).applied(mid, after, r)
    }

    fn apply(self, router: &mut Router) -> (r: Result<(), RegistrationError>) {
        let ghost whole = self;
        let ghost before = *router;
        let (a, b, c, d, e, f, g, h, i, j, k) = self;
        let first = a.apply(router);
        match first {
            Ok(()) => {},
            Err(error) => {
                return Err(error);
            },
        }
        let ghost mid = *router;
        let result = (b, c, d, e, f, g, h, i, j, k).apply(router);
        assert(whole.0.applied(before, mid, first));
        result
    }
}

impl<A: Routes, B: Routes, C: Routes, D: Routes, E: Routes, F: Routes, G: Routes, H: Routes, I: Routes, J: Routes, K: Routes, L: Routes> Routes for (A, B, C, D, E, F, G, H, I, J, K, L) {
    open spec fn applied(self, before: Router, after: Router, r: Result<(), RegistrationError>) -> bool {
        ||| (r is Err && self.0.applied(before, after, r))
        ||| exists|mid: Router, first: Result<(), RegistrationError>| first is Ok && #[trigger] self.0.applied(before, mid, first)
            && (self.1, self.2, self.3, self.4, self.5, self.6, self.7, self.8, self.9, self.10, self.11).applied(mid, after, r)
    }

    fn apply(self, router: &mut Router) -> (r: Result<(), RegistrationError>) {
        let ghost whole = self;
        let ghost before = *router;
        let (a, b, c, d, e, f, g, h, i, j, k, l) = self;
        let first = a.apply(router);
        match first {
            Ok(()) => {},
            Err(error) => {
                return Err(error);
            },
        }
        let ghost mid = *router;
        let result = (b, c, d, e, f, g, h, i, j, k, l).apply(router);
        assert(whole.0.applied(before, mid, first));
        result
    }
}

impl<A: Routes, B: Routes, C: Routes, D: Routes, E: Routes, F: Routes, G: Routes, H: Routes, I: Routes, J: Routes, K: Routes, L: Routes, M: Routes> Routes for (A, B, C, D, E, F, G, H, I, J, K, L, M) {
    open spec fn applied(self, before: Router, after: Router, r: Result<(), RegistrationError>) -> bool {
        ||| (r is Err && self.0.applied(before, after, r))
        ||| exists|mid: Router, first: Result<(), RegistrationError>| first is Ok && #[trigger] self.0.applied(before, mid, first)
            && (self.1, self.2, self.3, self.4, self.5, self.6, self.7, self.8, self.9, self.10, self.11, self.12).applied(mid, after, r)
    }

    fn apply(self, router: &mut Router) -> (r: Result<(), RegistrationError>) {
        let ghost whole = self;
        let ghost before = *router;
        let (a, b, c, d, e, f, g, h, i, j, k, l, m) = self;
        let first = a.apply(router);
        match first {
            Ok(()) => {},
            Err(error) => {
                return Err(error);
            },
        }
        let ghost mid = *router;
        let result = (b, c, d, e, f, g, h, i, j, k, l, m).apply(router);
        assert(whole.0.applied(before, mid, first));
        result
    }
}

impl<A: Routes, B: Routes, C: Routes, D: Routes, E: Routes, F: Routes, G: Routes, H: Routes, I: Routes, J: Routes, K: Routes, L: Routes, M: Routes, N: Routes> Routes for (A, B, C, D, E, F, G, H, I, J, K, L, M, N) {
    open spec fn applied(self, before: Router, after: Router, r: Result<(), RegistrationError>) -> bool {
        ||| (r is Err && self.0.applied(before, after, r))
        ||| exists|mid: Router, first: Result<(), RegistrationError>| first is Ok && #[trigger] self.0.applied(before, mid, first)
            && (self.1, self.2, self.3, self.4, self.5, self.6, self.7, self.8, self.9, self.10, self.11, self.12, self.13).applied(mid, after, r)
    }

    fn apply(self, router: &mut Router) -> (r: Result<(), RegistrationError>) {
        let ghost whole = self;
        let ghost before = *router;
        let (a, b, c, d, e, f, g, h, i, j, k, l, m, n) = self;
        let first = a.apply(router);
        match first {
            Ok(()) => {},
            Err(error) => {
                return Err(error);
            },
        }
        let ghost mid = *router;
        let result = (b, c, d, e, f, g, h, i, j, k, l, m, n).apply(router);
        assert(whole.0.applied(before, mid, first));
        result
    }
}

impl<A: Routes, B: Routes, C: Routes, D: Routes, E: Routes, F: Routes, G: Routes, H: Routes, I: Routes, J: Routes, K: Routes, L: Routes, M: Routes, N: Routes, O: Routes> Routes for (A, B, C, D, E, F, G, H, I, J, K, L, M, N, O) {
    open spec fn applied(self, before: Router, after: Router, r: Result<(), RegistrationError>) -> bool {
        ||| (r is Err && self.0.applied(before, after, r))
        ||| exists|mid: Router, first: Result<(), RegistrationError>| first is Ok && #[trigger] self.0.applied(before, mid, first)
            && (self.1, self.2, self.3, self.4, self.5, self.6, self.7, self.8, self.9, self.10, self.11, self.12, self.13, self.14).applied(mid, after, r)
    }

    fn apply(self, router: &mut Router) -> (r: Result<(), RegistrationError>) {
        let ghost whole = self;
        let ghost before = *router;
        let (a, b, c, d, e, f, g, h, i, j, k, l, m, n, o) = self;
        let first = a.apply(router);
        match first {
            Ok(()) => {},
            Err(error) => {
                return Err(error);
            },
        }
        let ghost mid = *router;
        let result = (b, c, d, e, f, g, h, i, j, k, l, m, n, o).apply(router);
        assert(whole.0.applied(before, mid, first));
        result
    }
}

impl<A: Routes, B: Routes, C: Routes, D: Routes, E: Routes, F: Routes, G: Routes, H: Routes, I: Routes, J: Routes, K: Routes, L: Routes, M: Routes, N: Routes, O: Routes, P: Routes> Routes for (A, B, C, D, E, F, G, H, I, J, K, L, M, N, O, P) {
    open spec fn applied(self, before: Router, after: Router, r: Result<(), RegistrationError>) -> bool {
        ||| (r is Err && self.0.applied(before, after, r))
        ||| exists|mid: Router, first: Result<(), RegistrationError>| first is Ok && #[trigger] self.0.applied(before, mid, first)
            && (self.1, self.2, self.3, self.4, self.5, self.6, self.7, self.8, self.9, self.10, self.11, self.12, self.13, self.14, self.15).applied(mid, after, r)
    }

    fn apply(self, router: &mut Router) -> (r: Result<(), RegistrationError>) {
        let ghost whole = self;
        let ghost before = *router;
        let (a, b, c, d, e, f, g, h, i, j, k, l, m, n, o, p) = self;
        let first = a.apply(router);
        match first {
            Ok(()) => {},
            Err(error) => {
                return Err(error);
            },
        }
        let ghost mid = *router;
        let result = (b, c, d, e, f, g, h, i, j, k, l, m, n, o, p).apply(router);
        assert(whole.0.applied(before, mid, first));
        result
    }
}

/// What mounting `child` under the normalized prefix `prefix` gives: the
/// prefix's refusal, a route that would stop being a valid pattern, or a
/// published page whose moved path is taken; otherwise the child with every
/// route, fallback and scope moved under `prefix` (unchanged for the empty
/// prefix).
pub open spec fn mount_result(child: Router, prefix: Seq<char>, r: Result<Router, RegistrationError>) -> bool {
    &&& spec_scope_prefix_error(prefix) != 0 ==> (r matches Err(RegistrationError::InvalidPrefix(e)) && error_code(e)
        == spec_scope_prefix_error(prefix))
    &&& spec_scope_prefix_error(prefix) == 0 && prefix.len() == 0 ==> r == Ok::<Router, RegistrationError>(child)
    &&& spec_scope_prefix_error(prefix) == 0 && prefix.len() > 0 && !mountable(child.spec_routes(), prefix) ==> (r matches Err(
        RegistrationError::InvalidPath(_),
    ))
    &&& spec_scope_prefix_error(prefix) == 0 && mountable(child.spec_routes(), prefix) && child.spec_published() is None
        ==> r is Ok
    &&& r matches Err(e) ==> (e is InvalidPrefix && spec_scope_prefix_error(prefix) != 0) || (e is InvalidPath
        && !mountable(child.spec_routes(), prefix)) || (e is ReservedPath && child.spec_published() is Some)
    &&& prefix.len() > 0 ==> (r matches Ok(router) ==> {
        &&& all_moved(child.spec_routes(), router.spec_routes(), prefix)
        &&& router.spec_fallbacks().len() == child.spec_fallbacks().len()
        &&& forall|k: int| 0 <= k < router.spec_fallbacks().len() ==> (#[trigger] router.spec_fallbacks()[k]).handler
            == child.spec_fallbacks()[k].handler && router.spec_fallbacks()[k].prefix@ == spec_join_prefixes(
            prefix,
            child.spec_fallbacks()[k].prefix@,
        )
        &&& router.spec_scopes().len() == child.spec_scopes().len()
        &&& forall|k: int| 0 <= k < router.spec_scopes().len() ==> (#[trigger] router.spec_scopes()[k]).prefix@
            == spec_join_prefixes(prefix, child.spec_scopes()[k].prefix@)
            && router.spec_scopes()[k].middlewares@ == child.spec_scopes()[k].middlewares@
            && router.spec_scopes()[k].states@ == child.spec_scopes()[k].states@
            && router.spec_scopes()[k].body_limit == child.spec_scopes()[k].body_limit
        &&& router.spec_scope().prefix@ == spec_join_prefixes(prefix, child.spec_scope().prefix@)
        &&& router.spec_scope().middlewares@ == child.spec_scope().middlewares@
        &&& router.spec_scope().states@ == child.spec_scope().states@
        &&& router.spec_scope().body_limit == child.spec_scope().body_limit
    })
}

/// What merging the outcome `m` of mounting a child into `before` gives:
/// the mount's refusal; a route conflict; a second fallback for a prefix;
/// otherwise the mounted child's routes, fallbacks and scopes after the
/// parent's, its own scope first among its scopes. A refusal changes nothing.
pub open spec fn merge_outcome(before: Router, m: Result<Router, RegistrationError>, after: Router,
    r: Result<(), RegistrationError>) -> bool {
    let unchanged = after.spec_routes() == before.spec_routes() && after.spec_fallbacks() == before.spec_fallbacks()
        && after.spec_scopes() == before.spec_scopes();
    match m {
        Err(e) => r == Err::<(), RegistrationError>(e) && unchanged,
        Ok(moved) => if !routes_mergeable(before.spec_routes(), moved.spec_routes()) {
            r == Err::<(), RegistrationError>(RegistrationError::Conflict) && unchanged
        } else if !fallbacks_mergeable(before.spec_fallbacks(), moved.spec_fallbacks()) {
            r == Err::<(), RegistrationError>(RegistrationError::DuplicateFallback) && unchanged
        } else {
            &&& r is Ok
            &&& after.spec_routes() == before.spec_routes() + moved.spec_routes()
            &&& after.spec_fallbacks() == before.spec_fallbacks() + moved.spec_fallbacks()
            &&& after.spec_scopes() == before.spec_scopes().push(moved.spec_scope()) + moved.spec_scopes()
        },
    }
}

/// Whether every route of `routes` stays a valid pattern under `prefix`.
pub open spec fn mountable(routes: Seq<RegisteredRoute>, prefix: Seq<char>) -> bool {
    forall|k: int| 0 <= k < routes.len() ==> valid_route(spec_join_paths(prefix, (#[trigger] routes[k]).path.spec_source()))
}

/// A normalized prefix: `/` becomes the empty prefix.
pub open spec fn normalized(prefix: Seq<char>) -> Seq<char> {
    if prefix == seq!['/'] { Seq::<char>::empty() } else { prefix }
}

/// Whether some route of `routes` with method `m` has the shape and
/// literals of the pattern source `src`.
pub open spec fn source_conflict(routes: Seq<RegisteredRoute>, m: Seq<char>, src: Seq<char>) -> bool {
    exists|k: int| 0 <= k < routes.len() && (#[trigger] routes[k]).method.name() == m && shape_matches(
        routes[k].path.spec_segments(),
        path_pieces(src),
    )
}

proof fn lemma_route_conflict_by_source(routes: Seq<RegisteredRoute>, m: Seq<char>, p: RoutePath)
    requires
        p.wf(),
    ensures
        route_conflict(routes, m, p.spec_segments()) == source_conflict(routes, m, p.spec_source()),
{
    if route_conflict(routes, m, p.spec_segments()) {
        let k = choose|k: int| 0 <= k < routes.len() && (#[trigger] routes[k]).method.name() == m && patterns_conflict(
            routes[k].path.spec_segments(),
            p.spec_segments(),
        );
        lemma_conflict_by_source(routes[k].path.spec_segments(), p);
    }
    if source_conflict(routes, m, p.spec_source()) {
        let k = choose|k: int| 0 <= k < routes.len() && (#[trigger] routes[k]).method.name() == m && shape_matches(
            routes[k].path.spec_segments(),
            path_pieces(p.spec_source()),
        );
        lemma_conflict_by_source(routes[k].path.spec_segments(), p);
    }
}

/// The route registered from `route` under the pattern source `src`.
pub open spec fn registered_from(rr: RegisteredRoute, route: Route, src: Seq<char>) -> bool {
    &&& rr.method == route.spec_method()
    &&& rr.path.wf()
    &&& rr.path.spec_source() == src
    &&& rr.handler == route.spec_handler()
    &&& rr.operation == route.spec_operation()
    &&& rr.middlewares@ == route.spec_middlewares()
    &&& rr.excluded@ == route.spec_excluded()
}

/// What adding `route` to `before` gives: the routes as `register_outcome`
/// says, with fallbacks and scopes unchanged.
pub open spec fn route_added(before: Router, route: Route, after: Router, r: Result<(), RegistrationError>) -> bool {
    &&& after.spec_fallbacks() == before.spec_fallbacks()
    &&& after.spec_scopes() == before.spec_scopes()
    &&& register_outcome(before.spec_routes(), after.spec_routes(), route, before.route_source(route.spec_path()), r)
}

/// What merging the router `child` into `before` gives: on success the
/// child's routes follow the parent's, moved under the parent's prefix, and
/// the child's scopes follow the parent's with one more for the child
/// itself; on failure the routes are unchanged.
pub open spec fn router_merged(before: Router, child: Router, after: Router, r: Result<(), RegistrationError>) -> bool {
    &&& r is Ok ==> after.spec_routes().len() == before.spec_routes().len() + child.spec_routes().len()
        && after.spec_routes().take(before.spec_routes().len() as int) == before.spec_routes()
        && after.spec_scopes().len() == before.spec_scopes().len() + 1 + child.spec_scopes().len()
    &&& r is Ok && before.spec_scope().prefix@.len() == 0 ==> after.spec_routes() == before.spec_routes()
        + child.spec_routes()
    &&& r is Ok && before.spec_scope().prefix@.len() > 0 ==> all_moved(
        child.spec_routes(),
        after.spec_routes().skip(before.spec_routes().len() as int),
        before.spec_scope().prefix@,
    )
    &&& r is Err ==> after.spec_routes() == before.spec_routes()
}

/// What registering `route` under the pattern source `src` does to the
/// routes `before`, and what it answers.
pub open spec fn register_outcome(
    before: Seq<RegisteredRoute>,
    after: Seq<RegisteredRoute>,
    route: Route,
    src: Seq<char>,
    r: Result<(), RegistrationError>,
) -> bool {
    if !valid_route(src) {
        r matches Err(RegistrationError::InvalidPath(e)) && error_code(e) == route_error(src).0 && after == before
    } else if source_conflict(before, route.spec_method().name(), src) {
        r matches Err(RegistrationError::Conflict) && after == before
    } else {
        &&& r is Ok
        &&& after.len() == before.len() + 1
        &&& after.drop_last() == before
        &&& registered_from(after.last(), route, src)
    }
}

impl Router {
    pub closed spec fn spec_routes(&self) -> Seq<RegisteredRoute> {
        self.dispatcher.spec_routes()
    }

    pub closed spec fn spec_fallbacks(&self) -> Seq<RegisteredFallback> {
        self.dispatcher.spec_fallbacks()
    }

    pub closed spec fn spec_scopes(&self) -> Seq<Scope> {
        self.dispatcher.spec_scopes()
    }

    pub closed spec fn spec_scope(&self) -> Scope {
        self.scope
    }

    pub closed spec fn spec_error_format(&self) -> Option<u64> {
        self.error_format
    }

    pub closed spec fn spec_published(&self) -> Option<PublishedOpenApi> {
        self.openapi
    }

    /// The path of the published reference page, if any.
    pub closed spec fn spec_openapi_path(&self) -> Option<Seq<char>> {
        match self.openapi {
            Some(p) => Some(p.path@),
            None => None,
        }
    }

    /// The title and version of the published document, if any.
    pub closed spec fn spec_openapi_config(&self) -> Option<(Seq<char>, Seq<char>)> {
        match self.openapi {
            Some(p) => Some((p.configuration.spec_title(), p.configuration.spec_version())),
            None => None,
        }
    }

    /// The JSON text of the published document, if any.
    pub closed spec fn spec_openapi_json(&self) -> Option<Seq<char>> {
        match self.openapi {
            Some(p) => Some(p.document.spec_json()),
            None => None,
        }
    }

    /// The published reference page, if any.
    pub closed spec fn spec_reference_page(&self) -> Option<Seq<char>> {
        match self.openapi {
            Some(p) => Some(p.scalar_page@),
            None => None,
        }
    }

    /// Whether the published document, if any, lists this router's routes
    /// as they are now, and its reference page shows that document.
    pub closed spec fn published_current(&self) -> bool {
        match self.openapi {
            Some(p) => {
                &&& valid_route(p.path@)
                &&& exists|ds: Seq<RouteDescription<'_>>| #[trigger] self.dispatcher.describes(ds)
                    && p.document.spec_json() == document_json(p.configuration.spec_title(), p.configuration.spec_version(), ds)
                &&& p.scalar_page@ == scalar_page_text(p.configuration.spec_title(), p.document.spec_json())
            },
            None => true,
        }
    }

    /// The pattern source a route path gets inside this router.
    pub open spec fn route_source(&self, path: Seq<char>) -> Seq<char> {
        spec_join_paths(self.spec_scope().prefix@, path)
    }

    /// A router with `config`'s prefix and error format, holding `routes`.
    /// An invalid prefix, an invalid route path or two equivalent routes for
    /// one method are refused with an error; this never panics.
    pub fn new<R: Routes>(config: Config, routes: R) -> (r: Result<Router, RegistrationError>)
        ensures
            spec_scope_prefix_error(normalized(config.spec_prefix())) != 0 ==> (r matches Err(RegistrationError::InvalidPrefix(e))
                && error_code(e) == spec_scope_prefix_error(normalized(config.spec_prefix()))),
            r matches Ok(router) ==> {
                &&& router.spec_scope().prefix@ == normalized(config.spec_prefix())
                &&& router.spec_scope().middlewares@.len() == 0
                &&& router.spec_scope().states@.len() == 0
                &&& router.spec_scope().body_limit is None
                &&& router.spec_error_format() == config.spec_error_format()
                &&& router.spec_published() is None
            },
            spec_scope_prefix_error(normalized(config.spec_prefix())) == 0 ==> exists|start: Router, after: Router,
                outcome: Result<(), RegistrationError>| {
                &&& #[trigger] routes.applied(start, after, outcome)
                &&& start.spec_routes().len() == 0
                &&& start.spec_fallbacks().len() == 0
                &&& start.spec_scopes().len() == 0
                &&& start.spec_scope().prefix@ == normalized(config.spec_prefix())
                &&& match outcome {
                    Ok(_) => r matches Ok(router) && router == after,
                    Err(e) => r matches Err(e2) && e2 == e,
                }
            },
    {
        let raw = chars_of(config.prefix.as_str());
        let prefix = normalize_prefix(raw.as_slice());
        if let Err(e) = validate_scope_prefix(prefix.as_slice()) {
            return Err(RegistrationError::InvalidPrefix(e));
        }
        let mut router = Router {
            dispatcher: Dispatcher::new(),
            scope: Scope::new(prefix),
            openapi: None,
            error_format: config.error_format,
        };
        let ghost start = router;
        let outcome = routes.apply(&mut router);
        assert(routes.applied(start, router, outcome));
        match outcome {
            Ok(()) => Ok(router),
            Err(e) => Err(e),
        }
    }

    /// Adds `route` under this router's prefix.
    pub fn register(&mut self, route: Route) -> (r: Result<(), RegistrationError>)
        ensures
            final(self).spec_scope() == old(self).spec_scope(),
            final(self).spec_error_format() == old(self).spec_error_format(),
            final(self).spec_published() == old(self).spec_published(),
            final(self).spec_fallbacks() == old(self).spec_fallbacks(),
            final(self).spec_scopes() == old(self).spec_scopes(),
            register_outcome(
                old(self).spec_routes(),
                final(self).spec_routes(),
                route,
                old(self).route_source(route.spec_path()),
                r,
            ),
    {
        let raw = chars_of(route.path.as_str());
        let src = join_paths(self.scope.prefix.as_slice(), raw.as_slice());
        let path = match RoutePath::parse(src.as_slice()) {
            Ok(p) => p,
            Err(e) => {
                return Err(RegistrationError::InvalidPath(e));
            },
        };
        let conflict = self.dispatcher.conflicts(&route.method, &path);
        proof {
            lemma_route_conflict_by_source(self.dispatcher.spec_routes(), route.method.name(), path);
        }
        if conflict {
            return Err(RegistrationError::Conflict);
        }
        let Route { path: _, method, handler, operation, middlewares, excluded } = route;
        self.dispatcher.register(RegisteredRoute { method, path, handler, operation, middlewares, excluded });
        proof {
            assert(self.dispatcher.spec_routes().drop_last() =~= old(self).dispatcher.spec_routes());
        }
        Ok(())
    }
}


/// Whether `after` holds the routes of `before`, each moved under `prefix`.
pub open spec fn all_moved(before: Seq<RegisteredRoute>, after: Seq<RegisteredRoute>, prefix: Seq<char>) -> bool {
    &&& after.len() == before.len()
    &&& forall|k: int| 0 <= k < after.len() ==> moved_route(before[k], #[trigger] after[k], prefix)
}

impl Router {
    /// The first route that would not be a valid pattern under `prefix`,
    /// with the reason.
    fn unmountable(&self, prefix: &[char]) -> (r: Option<RouteError>)
        requires
            spec_scope_prefix_error(prefix@) == 0,
        ensures
            r is None <==> self.dispatcher.prependable(prefix@),
    {
        let n = self.dispatcher.route_count();
        let mut k: usize = 0;
        while k < n
            invariant
                n == self.dispatcher.spec_routes().len(),
                k <= n,
                forall|j: int| 0 <= j < k ==> valid_route(
                    spec_join_paths(prefix@, (#[trigger] self.dispatcher.spec_routes()[j]).path.spec_source()),
                ),
            decreases n - k,
        {
            let source = self.dispatcher.route(k).path.source_chars();
            let joined = join_paths(prefix, source.as_slice());
            if let Err(e) = RoutePath::parse(joined.as_slice()) {
                return Some(e);
            }
            k += 1;
        }
        None
    }

    /// Moves this router, its routes, scopes and published page under the
    /// normalized prefix `prefix`.
    fn mount(self, prefix: Vec<char>) -> (r: Result<Router, RegistrationError>)
        ensures
            spec_scope_prefix_error(prefix@) != 0 ==> (r matches Err(RegistrationError::InvalidPrefix(e)) && error_code(e)
                == spec_scope_prefix_error(prefix@)),
            r matches Ok(router) ==> router.spec_routes().len() == self.spec_routes().len() && router.spec_scopes().len()
                == self.spec_scopes().len(),
            spec_scope_prefix_error(prefix@) == 0 && !self.dispatcher.prependable(prefix@) && prefix@.len() > 0 ==> r matches Err(
                RegistrationError::InvalidPath(_),
            ),
            spec_scope_prefix_error(prefix@) == 0 && mountable(self.spec_routes(), prefix@) && self.spec_published() is None
                ==> r is Ok,
            r matches Err(e) ==> (e is InvalidPrefix && spec_scope_prefix_error(prefix@) != 0) || (e is InvalidPath
                && !mountable(self.spec_routes(), prefix@)) || (e is ReservedPath && self.spec_published() is Some),
            spec_scope_prefix_error(prefix@) == 0 && prefix@.len() == 0 ==> (r matches Ok(router) && router.spec_routes()
                == self.spec_routes() && router.spec_scope() == self.spec_scope() && router.spec_published()
                == self.spec_published() && router.spec_error_format() == self.spec_error_format()),
            mount_result(self, prefix@, r),
            prefix@.len() > 0 ==> (r matches Ok(router) ==> {
                &&& all_moved(self.spec_routes(), router.spec_routes(), prefix@)
                &&& router.spec_scope().prefix@ == spec_join_prefixes(prefix@, self.spec_scope().prefix@)
                &&& router.spec_scope().middlewares@ == self.spec_scope().middlewares@
                &&& router.spec_scope().states@ == self.spec_scope().states@
                &&& router.spec_scope().body_limit == self.spec_scope().body_limit
                &&& router.spec_error_format() == self.spec_error_format()
                &&& router.spec_openapi_path() == match self.spec_openapi_path() {
                    Some(p) => Some(spec_join_paths(prefix@, p)),
                    None => None,
                }
                &&& router.spec_openapi_config() == self.spec_openapi_config()
                &&& router.published_current()
            }),
    {
        if let Err(e) = validate_scope_prefix(prefix.as_slice()) {
            return Err(RegistrationError::InvalidPrefix(e));
        }
        if prefix.len() == 0 {
            return Ok(self);
        }
        assert(self.dispatcher.prependable(prefix@) == mountable(self.spec_routes(), prefix@));
        if let Some(e) = self.unmountable(prefix.as_slice()) {
            return Err(RegistrationError::InvalidPath(e));
        }
        let mut router = self;
        router.dispatcher.prepend(prefix.as_slice());
        router.scope.prepend(prefix.as_slice());
        let published = router.openapi.take();
        match published {
            Some(p) => {
                let PublishedOpenApi { path, configuration, document: _, scalar_page: _ } = p;
                let moved = join_paths(prefix.as_slice(), path.as_slice());
                match router.publish_openapi(moved, configuration) {
                    Ok(()) => {},
                    Err(e) => {
                        return Err(e);
                    },
                }
            },
            None => {},
        }
        Ok(router)
    }

    /// Mounts this router at `prefix` (`/` mounts it where it is). An
    /// invalid prefix is refused with an error; this never panics.
    pub fn at(self, prefix: String) -> (r: Result<Router, RegistrationError>)
        ensures
            spec_scope_prefix_error(normalized(prefix@)) != 0 ==> (r matches Err(RegistrationError::InvalidPrefix(e))
                && error_code(e) == spec_scope_prefix_error(normalized(prefix@))),
            spec_scope_prefix_error(normalized(prefix@)) == 0 && normalized(prefix@).len() == 0 ==> (r matches Ok(router)
                && router.spec_routes() == self.spec_routes() && router.spec_scope() == self.spec_scope()
                && router.spec_published() == self.spec_published() && router.spec_error_format() == self.spec_error_format()),
            spec_scope_prefix_error(normalized(prefix@)) == 0 && normalized(prefix@).len() > 0 && !mountable(
                self.spec_routes(),
                normalized(prefix@),
            ) ==> r matches Err(RegistrationError::InvalidPath(_)),
            spec_scope_prefix_error(normalized(prefix@)) == 0 && mountable(self.spec_routes(), normalized(prefix@))
                && self.spec_published() is None ==> r is Ok,
            r matches Err(e) ==> (e is InvalidPrefix && spec_scope_prefix_error(normalized(prefix@)) != 0) || (e is InvalidPath
                && !mountable(self.spec_routes(), normalized(prefix@))) || (e is ReservedPath && self.spec_published() is Some),
            normalized(prefix@).len() > 0 ==> (r matches Ok(router) ==> {
                &&& all_moved(self.spec_routes(), router.spec_routes(), normalized(prefix@))
                &&& router.spec_scope().prefix@ == spec_join_prefixes(normalized(prefix@), self.spec_scope().prefix@)
                &&& router.spec_error_format() == self.spec_error_format()
                &&& router.spec_openapi_path() == match self.spec_openapi_path() {
                    Some(p) => Some(spec_join_paths(normalized(prefix@), p)),
                    None => None,
                }
            }),
    {
        let raw = chars_of(prefix.as_str());
        let prefix = normalize_prefix(raw.as_slice());
        self.mount(prefix)
    }

    /// Publishes the document of this router's routes at `path`.
    fn publish_openapi(&mut self, path: Vec<char>, configuration: OpenApi) -> (r: Result<(), RegistrationError>)
        ensures
            final(self).spec_routes() == old(self).spec_routes(),
            final(self).spec_fallbacks() == old(self).spec_fallbacks(),
            final(self).spec_scopes() == old(self).spec_scopes(),
            final(self).spec_scope() == old(self).spec_scope(),
            final(self).spec_error_format() == old(self).spec_error_format(),
            match r {
                Ok(()) => reserved_path_outcome(old(self).spec_routes(), path@, Ok(()))
                    && final(self).spec_openapi_path() == Some(path@)
                    && final(self).spec_openapi_config() == Some((configuration.spec_title(), configuration.spec_version()))
                    && final(self).published_current(),
                Err(RegistrationError::ReservedPath(e)) => reserved_path_outcome(old(self).spec_routes(), path@, Err(e))
                    && final(self).spec_published() == old(self).spec_published(),
                _ => false,
            },
    {
        if let Err(e) = self.dispatcher.validate_openapi_path(path.as_slice()) {
            return Err(RegistrationError::ReservedPath(e));
        }
        let routes = self.dispatcher.openapi_routes();
        let ghost ds = routes@;
        let document = configuration.build(routes);
        let scalar_page = configuration.scalar_page(&document);
        self.openapi = Some(PublishedOpenApi { path, configuration, document, scalar_page });
        proof {
            assert(self.dispatcher.describes(ds));
        }
        Ok(())
    }

    /// Publishes the document again for the routes as they are now.
    fn refresh_openapi(&mut self) -> (r: Result<(), RegistrationError>)
        ensures
            final(self).spec_routes() == old(self).spec_routes(),
            final(self).spec_fallbacks() == old(self).spec_fallbacks(),
            final(self).spec_scopes() == old(self).spec_scopes(),
            final(self).spec_scope() == old(self).spec_scope(),
            final(self).spec_error_format() == old(self).spec_error_format(),
            r is Ok ==> final(self).spec_openapi_path() == old(self).spec_openapi_path() && final(self).spec_openapi_config()
                == old(self).spec_openapi_config() && final(self).published_current(),
            old(self).spec_published() is None ==> r is Ok && final(self).spec_published() is None,
            old(self).spec_openapi_path() matches Some(path) ==> match r {
                Ok(()) => reserved_path_outcome(old(self).spec_routes(), path, Ok(())),
                Err(RegistrationError::ReservedPath(e)) => reserved_path_outcome(old(self).spec_routes(), path, Err(e)),
                _ => false,
            },
    {
        let published = self.openapi.take();
        match published {
            Some(p) => {
                let PublishedOpenApi { path, configuration, document: _, scalar_page: _ } = p;
                self.publish_openapi(path, configuration)
            },
            None => Ok(()),
        }
    }

    /// Adds a child router's routes, fallbacks and scope under this
    /// router's prefix.
    pub fn register_router(&mut self, router: Router) -> (r: Result<(), RegistrationError>)
        ensures
            final(self).spec_scope() == old(self).spec_scope(),
            final(self).spec_error_format() == old(self).spec_error_format(),
            final(self).spec_published() == old(self).spec_published(),
            router_merged(*old(self), router, *final(self), r),
            exists|m: Result<Router, RegistrationError>| #[trigger] mount_result(router, old(self).spec_scope().prefix@, m)
                && merge_outcome(*old(self), m, *final(self), r),
    {
        let parent = copy_chars(self.scope.prefix.as_slice());
        let mounted = router.mount(parent);
        let ghost m = mounted;
        assert(mount_result(router, old(self).spec_scope().prefix@, m));
        let child = match mounted {
            Ok(c) => c,
            Err(e) => {
                return Err(e);
            },
        };
        let ghost child_routes = child.dispatcher.spec_routes();
        if !self.dispatcher.can_merge_routes(&child.dispatcher) {
            return Err(RegistrationError::Conflict);
        }
        if !self.dispatcher.can_merge_fallbacks(&child.dispatcher) {
            return Err(RegistrationError::DuplicateFallback);
        }
        let Router { dispatcher, scope, openapi: _, error_format: _ } = child;
        self.dispatcher.add_scope(scope);
        self.dispatcher.merge(dispatcher);
        assert(self.dispatcher.spec_routes().take(old(self).dispatcher.spec_routes().len() as int) =~= old(self).dispatcher.spec_routes());
        assert(self.dispatcher.spec_routes().skip(old(self).dispatcher.spec_routes().len() as int) =~= child_routes);
        Ok(())
    }
}


impl Router {
    /// The same router with the routes of `routes` added, and its published
    /// document brought up to date. An invalid route path, a route
    /// equivalent to one already there, or a child router that cannot be
    /// mounted is refused with an error; this never panics.
    pub fn route<R: Routes>(self, routes: R) -> (r: Result<Router, RegistrationError>)
        ensures
            r matches Ok(router) ==> {
                &&& router.spec_scope() == self.spec_scope()
                &&& router.spec_error_format() == self.spec_error_format()
                &&& router.spec_openapi_path() == self.spec_openapi_path()
                &&& router.spec_openapi_config() == self.spec_openapi_config()
                &&& router.published_current()
            },
            exists|after: Router, outcome: Result<(), RegistrationError>| {
                &&& #[trigger] routes.applied(self, after, outcome)
                &&& match outcome {
                    Ok(_) => match self.spec_openapi_path() {
                        None => r matches Ok(router) && router.spec_published() is None,
                        Some(path) => match r {
                            Ok(_) => reserved_path_outcome(after.spec_routes(), path, Ok(())),
                            Err(RegistrationError::ReservedPath(e)) => reserved_path_outcome(after.spec_routes(), path, Err(e)),
                            _ => false,
                        },
                    },
                    Err(e) => r matches Err(e2) && e2 == e,
                }
                &&& r matches Ok(router) ==> router.spec_routes() == after.spec_routes()
                    && router.spec_fallbacks() == after.spec_fallbacks()
                    && router.spec_scopes() == after.spec_scopes()
            },
    {
        let mut router = self;
        let ghost start = router;
        let outcome = routes.apply(&mut router);
        assert(routes.applied(start, router, outcome));
        if let Err(e) = outcome {
            return Err(e);
        }
        match router.refresh_openapi() {
            Ok(()) => Ok(router),
            Err(e) => Err(e),
        }
    }

    /// Adds a fallback for every unmatched path inside this router's prefix.
    /// A second fallback for the same prefix is refused with an error; this
    /// never panics.
    pub fn fallback(self, handler: u64) -> (r: Result<Router, RegistrationError>)
        ensures
            (exists|g: int| 0 <= g < self.spec_fallbacks().len() && (#[trigger] self.spec_fallbacks()[g]).prefix@
                == self.spec_scope().prefix@) ==> r matches Err(RegistrationError::DuplicateFallback),
            r matches Ok(router) ==> {
                &&& router.spec_fallbacks().len() == self.spec_fallbacks().len() + 1
                &&& router.spec_fallbacks().drop_last() == self.spec_fallbacks()
                &&& router.spec_fallbacks().last().prefix@ == self.spec_scope().prefix@
                &&& router.spec_fallbacks().last().handler == handler
                &&& router.spec_routes() == self.spec_routes()
                &&& router.spec_scope() == self.spec_scope()
                &&& router.spec_openapi_path() == self.spec_openapi_path()
            },
            self.spec_published() is None && !(exists|g: int| 0 <= g < self.spec_fallbacks().len()
                && (#[trigger] self.spec_fallbacks()[g]).prefix@ == self.spec_scope().prefix@) ==> r is Ok,
    {
        let mut router = self;
        if router.dispatcher.has_fallback(router.scope.prefix.as_slice()) {
            proof {
                let g = choose|g: int| 0 <= g < router.dispatcher.spec_fallbacks().len()
                    && (#[trigger] router.dispatcher.spec_fallbacks()[g]).prefix@ == router.scope.prefix@;
                assert(self.spec_fallbacks()[g].prefix@ == self.spec_scope().prefix@);
            }
            return Err(RegistrationError::DuplicateFallback);
        }
        router.dispatcher.set_fallback(router.scope.prefix.as_slice(), handler);
        match router.refresh_openapi() {
            Ok(()) => Ok(router),
            Err(e) => Err(e),
        }
    }

    /// Makes a state value of kind `kind` available inside this router's
    /// prefix, replacing one of the same kind.
    pub fn state(self, kind: u64, value: u64) -> (r: Router)
        ensures
            r.spec_scope().prefix == self.spec_scope().prefix,
            r.spec_scope().middlewares == self.spec_scope().middlewares,
            r.spec_scope().body_limit == self.spec_scope().body_limit,
            r.spec_scope().states@ == with_keyed(self.spec_scope().states@, kind, value),
            r.spec_routes() == self.spec_routes(),
            r.spec_fallbacks() == self.spec_fallbacks(),
            r.spec_scopes() == self.spec_scopes(),
            r.spec_published() == self.spec_published(),
            r.spec_error_format() == self.spec_error_format(),
    {
        let mut router = self;
        set_keyed(&mut router.scope.states, kind, value);
        router
    }

    /// Limits the size of request bodies inside this router's prefix.
    pub fn body_limit(self, limit: usize) -> (r: Router)
        ensures
            r.spec_scope().prefix == self.spec_scope().prefix,
            r.spec_scope().middlewares == self.spec_scope().middlewares,
            r.spec_scope().states == self.spec_scope().states,
            r.spec_scope().body_limit == Some(limit),
            r.spec_routes() == self.spec_routes(),
            r.spec_fallbacks() == self.spec_fallbacks(),
            r.spec_scopes() == self.spec_scopes(),
            r.spec_published() == self.spec_published(),
            r.spec_error_format() == self.spec_error_format(),
    {
        let mut router = self;
        router.scope.body_limit = Some(limit);
        router
    }

    /// Adds middleware that runs for every request inside this router's
    /// prefix.
    pub fn middleware(self, middleware: MiddlewareEntry) -> (r: Router)
        ensures
            r.spec_scope().prefix == self.spec_scope().prefix,
            r.spec_scope().middlewares@ == self.spec_scope().middlewares@.push(middleware),
            r.spec_scope().states == self.spec_scope().states,
            r.spec_scope().body_limit == self.spec_scope().body_limit,
            r.spec_routes() == self.spec_routes(),
            r.spec_fallbacks() == self.spec_fallbacks(),
            r.spec_scopes() == self.spec_scopes(),
            r.spec_published() == self.spec_published(),
            r.spec_error_format() == self.spec_error_format(),
    {
        let mut router = self;
        router.scope.middlewares.push(middleware);
        router
    }

    /// Publishes the OpenAPI document of this router's routes, with its
    /// reference page at `path` under the router's prefix. A page path that
    /// is invalid, not static, or taken by a route is refused with an error;
    /// this never panics.
    pub fn openapi(self, path: String, configuration: OpenApi) -> (r: Result<Router, RegistrationError>)
        ensures
            match r {
                Ok(router) => {
                    &&& reserved_path_outcome(self.spec_routes(), self.route_source(path@), Ok(()))
                    &&& router.spec_openapi_path() == Some(self.route_source(path@))
                    &&& router.spec_openapi_config() == Some((configuration.spec_title(), configuration.spec_version()))
                    &&& router.published_current()
                    &&& router.spec_routes() == self.spec_routes()
                    &&& router.spec_scope() == self.spec_scope()
                },
                Err(RegistrationError::ReservedPath(e)) => reserved_path_outcome(
                    self.spec_routes(),
                    self.route_source(path@),
                    Err(e),
                ),
                _ => false,
            },
    {
        let mut router = self;
        let raw = chars_of(path.as_str());
        let joined = join_paths(router.scope.prefix.as_slice(), raw.as_slice());
        match router.publish_openapi(joined, configuration) {
            Ok(()) => Ok(router),
            Err(e) => Err(e),
        }
    }

    /// The published OpenAPI document, if any.
    pub fn openapi_document(&self) -> (r: Option<&OpenApiDocument>)
        ensures
            match r {
                Some(d) => self.spec_openapi_json() == Some(d.spec_json()),
                None => self.spec_openapi_json() is None,
            },
    {
        match &self.openapi {
            Some(p) => Some(&p.document),
            None => None,
        }
    }

    /// The path of the published reference page, if any.
    pub fn openapi_path(&self) -> (r: Option<&Vec<char>>)
        ensures
            match r {
                Some(p) => self.spec_openapi_path() == Some(p@),
                None => self.spec_openapi_path() is None,
            },
    {
        match &self.openapi {
            Some(p) => Some(&p.path),
            None => None,
        }
    }

    /// The handle of the error format this router renders errors with
    /// (`None`: the JSON envelope).
    pub fn error_format(&self) -> (r: Option<u64>)
        ensures
            r == self.spec_error_format(),
    {
        self.error_format
    }

    /// The route table.
    pub fn dispatcher(&self) -> (r: &Dispatcher)
        ensures
            r.spec_routes() == self.spec_routes(),
            r.spec_fallbacks() == self.spec_fallbacks(),
            r.spec_scopes() == self.spec_scopes(),
    {
        &self.dispatcher
    }

    /// The router's own scope.
    pub fn scope(&self) -> (r: &Scope)
        ensures
            *r == self.spec_scope(),
    {
        &self.scope
    }
}

/// What answers a request: the published reference page, or the route
/// table's decision.
pub enum Terminal {
    OpenApi,
    Dispatch(Dispatch),
}

/// How a request is answered: what answers it, whether the router's own
/// scope and which merged scopes (by index, in the order they apply) hold
/// it, the states and body limit those scopes give, the middleware that
/// runs before the terminal (scope middleware the route does not skip, then
/// the route's own), and whether the body is dropped for `HEAD`.
pub struct RequestPlan {
    pub terminal: Terminal,
    pub own_scope: bool,
    pub scopes: Vec<usize>,
    pub states: Vec<(u64, u64)>,
    pub body_limit: Option<usize>,
    pub middlewares: Vec<MiddlewareEntry>,
    pub head: bool,
}

/// The middleware of `mws` whose kind is not in `excluded`, in order.
pub open spec fn kept(mws: Seq<MiddlewareEntry>, excluded: Seq<u64>) -> Seq<MiddlewareEntry>
    decreases mws.len(),
{
    if mws.len() == 0 {
        mws
    } else {
        let rest = kept(mws.drop_last(), excluded);
        if excluded.contains(mws.last().kind) {
            rest
        } else {
            rest.push(mws.last())
        }
    }
}

/// The middleware of `scopes`, in the order the scopes apply, without the
/// excluded kinds.
pub open spec fn scopes_middlewares(scopes: Seq<Scope>, excluded: Seq<u64>) -> Seq<MiddlewareEntry>
    decreases scopes.len(),
{
    if scopes.len() == 0 {
        Seq::empty()
    } else {
        scopes_middlewares(scopes.drop_last(), excluded) + kept(scopes.last().middlewares@, excluded)
    }
}

/// The states of `scopes`, in the order the scopes apply.
pub open spec fn scopes_states(scopes: Seq<Scope>) -> Seq<(u64, u64)>
    decreases scopes.len(),
{
    if scopes.len() == 0 {
        Seq::empty()
    } else {
        scopes_states(scopes.drop_last()) + scopes.last().states@
    }
}

/// The body limit of the last scope of `scopes` that sets one.
pub open spec fn scopes_body_limit(scopes: Seq<Scope>) -> Option<usize>
    decreases scopes.len(),
{
    if scopes.len() == 0 {
        None
    } else {
        match scopes.last().body_limit {
            Some(l) => Some(l),
            None => scopes_body_limit(scopes.drop_last()),
        }
    }
}

/// The scopes that apply: the router's own when `own`, then the merged ones
/// at the indexes of `order`.
pub open spec fn applied_scopes(own: bool, own_scope: Scope, all: Seq<Scope>, order: Seq<usize>) -> Seq<Scope> {
    let tail = order.map_values(|i: usize| all[i as int]);
    if own {
        seq![own_scope] + tail
    } else {
        tail
    }
}

/// Whether `order` lists the merged scopes holding `path`, each once,
/// outermost (shortest prefix) first and then in registration order.
pub open spec fn matching_order(d: Dispatcher, path: Seq<char>, order: Seq<usize>) -> bool {
    &&& forall|k: int| 0 <= k < order.len() ==> (#[trigger] order[k]) < d.spec_scopes().len() && spec_prefix_matches(
        d.spec_scopes()[order[k] as int].prefix@,
        path,
    )
    &&& forall|i: int| 0 <= i < d.spec_scopes().len() && spec_prefix_matches(#[trigger] d.spec_scopes()[i].prefix@, path)
        ==> order.contains(i as usize)
    &&& forall|a: int, b: int| 0 <= a < b < order.len() ==> d.scope_before(#[trigger] order[a] as int, #[trigger] order[b] as int)
}

/// The inherited middleware kinds the terminal skips.
pub open spec fn terminal_excluded(t: Terminal, routes: Seq<RegisteredRoute>) -> Seq<u64> {
    match t {
        Terminal::Dispatch(Dispatch::Route { route, .. }) => routes[route as int].excluded@,
        _ => Seq::empty(),
    }
}

/// The terminal's own middleware.
pub open spec fn terminal_middlewares(t: Terminal, routes: Seq<RegisteredRoute>) -> Seq<MiddlewareEntry> {
    match t {
        Terminal::Dispatch(Dispatch::Route { route, .. }) => routes[route as int].middlewares@,
        _ => Seq::empty(),
    }
}

fn contains_kind(kinds: &[u64], kind: u64) -> (r: bool)
    ensures
        r == kinds@.contains(kind),
{
    let mut i: usize = 0;
    while i < kinds.len()
        invariant
            i <= kinds@.len(),
            forall|j: int| 0 <= j < i ==> kinds@[j] != kind,
        decreases kinds@.len() - i,
    {
        if kinds[i] == kind {
            assert(kinds@[i as int] == kind);
            return true;
        }
        i += 1;
    }
    false
}

/// Adds what `scope` gives a request: its states, its body limit, and its
/// middleware without the excluded kinds.
fn apply_scope(
    scope: &Scope,
    excluded: &[u64],
    states: &mut Vec<(u64, u64)>,
    body_limit: &mut Option<usize>,
    middlewares: &mut Vec<MiddlewareEntry>,
)
    ensures
        final(states)@ == old(states)@ + scope.states@,
        *final(body_limit) == match scope.body_limit {
            Some(l) => Some(l),
            None => *old(body_limit),
        },
        final(middlewares)@ == old(middlewares)@ + kept(scope.middlewares@, excluded@),
{
    let ghost base = states@;
    let mut i: usize = 0;
    while i < scope.states.len()
        invariant
            i <= scope.states@.len(),
            states@ == base + scope.states@.take(i as int),
        decreases scope.states@.len() - i,
    {
        states.push(scope.states[i]);
        assert(scope.states@.take(i + 1) =~= scope.states@.take(i as int).push(scope.states@[i as int]));
        i += 1;
    }
    assert(scope.states@.take(scope.states@.len() as int) =~= scope.states@);
    if let Some(l) = scope.body_limit {
        *body_limit = Some(l);
    }
    let ghost mbase = middlewares@;
    let mut k: usize = 0;
    assert(kept(scope.middlewares@.take(0), excluded@) =~= Seq::<MiddlewareEntry>::empty());
    while k < scope.middlewares.len()
        invariant
            k <= scope.middlewares@.len(),
            middlewares@ == mbase + kept(scope.middlewares@.take(k as int), excluded@),
        decreases scope.middlewares@.len() - k,
    {
        let m = scope.middlewares[k];
        let skip = contains_kind(excluded, m.kind);
        proof {
            let t = scope.middlewares@.take(k + 1);
            assert(t.drop_last() =~= scope.middlewares@.take(k as int));
            assert(t.last() == m);
        }
        if !skip {
            middlewares.push(m);
        }
        k += 1;
    }
    assert(scope.middlewares@.take(scope.middlewares@.len() as int) =~= scope.middlewares@);
}

impl Router {
    pub closed spec fn spec_dispatcher(&self) -> Dispatcher {
        self.dispatcher
    }

    /// The table a router answers by holds exactly its registered routes,
    /// fallbacks and scopes.
    pub proof fn lemma_dispatcher_holds(&self)
        ensures
            self.spec_dispatcher().spec_routes() == self.spec_routes(),
            self.spec_dispatcher().spec_fallbacks() == self.spec_fallbacks(),
            self.spec_dispatcher().spec_scopes() == self.spec_scopes(),
    {
    }

    /// A published document comes with its path, configuration, JSON and
    /// reference page; when it is current, its JSON describes the routes
    /// the router answers by and its page shows that JSON.
    pub proof fn lemma_published(&self)
        ensures
            self.spec_openapi_path() is Some <==> self.spec_published() is Some,
            self.spec_openapi_config() is Some <==> self.spec_published() is Some,
            self.spec_openapi_json() is Some <==> self.spec_published() is Some,
            self.spec_reference_page() is Some <==> self.spec_published() is Some,
            self.published_current() ==> match (self.spec_openapi_path(), self.spec_openapi_config(),
                self.spec_openapi_json(), self.spec_reference_page()) {
                (Some(path), Some((title, version)), Some(json), Some(page)) => {
                    &&& valid_route(path)
                    &&& exists|ds: Seq<RouteDescription<'_>>| #[trigger] self.spec_dispatcher().describes(ds)
                        && json == document_json(title, version, ds)
                    &&& page == scalar_page_text(title, json)
                },
                _ => true,
            },
    {
        if self.published_current() {
            if let Some(p) = self.openapi {
                let ds = choose|ds: Seq<RouteDescription<'_>>| #[trigger] self.dispatcher.describes(ds)
                    && p.document.spec_json() == document_json(p.configuration.spec_title(), p.configuration.spec_version(), ds);
                assert(self.spec_dispatcher().describes(ds));
            }
        }
    }

    /// How a request with `method` to `path` is answered.
    pub fn plan(&self, method: &Method, path: &[char]) -> (r: RequestPlan)
        ensures
            self.spec_dispatcher().spec_routes() == self.spec_routes(),
            self.spec_dispatcher().spec_fallbacks() == self.spec_fallbacks(),
            self.spec_dispatcher().spec_scopes() == self.spec_scopes(),
            r.head == (method.name() == standard_method_name(3)),
            self.spec_openapi_path() == Some(path@) ==> r.terminal is OpenApi,
            self.spec_openapi_path() != Some(path@) ==> (r.terminal matches Terminal::Dispatch(d)
                && self.spec_dispatcher().decides(path@, method.name(), d)),
            r.own_scope == spec_prefix_matches(self.spec_scope().prefix@, path@),
            matching_order(self.spec_dispatcher(), path@, r.scopes@),
            ({
                let applied = applied_scopes(r.own_scope, self.spec_scope(), self.spec_scopes(), r.scopes@);
                let excluded = terminal_excluded(r.terminal, self.spec_routes());
                &&& r.states@ == scopes_states(applied)
                &&& r.body_limit == scopes_body_limit(applied)
                &&& r.middlewares@ == scopes_middlewares(applied, excluded) + terminal_middlewares(r.terminal, self.spec_routes())
            }),
    {
        proof {
            Method::lemma_constant_names();
        }
        let head = method.same_as(&Method::HEAD);
        let on_page = match &self.openapi {
            Some(p) => crate::text::chars_equal(p.path.as_slice(), path),
            None => false,
        };
        let terminal = if on_page {
            Terminal::OpenApi
        } else {
            Terminal::Dispatch(self.dispatcher.resolve(path, method))
        };
        let empty: Vec<u64> = Vec::new();
        let excluded: &[u64] = match &terminal {
            Terminal::Dispatch(Dispatch::Route { route, .. }) => self.dispatcher.route(*route).excluded.as_slice(),
            _ => empty.as_slice(),
        };
        let own_scope = self.scope.matches(path);
        let order = self.dispatcher.matching_scopes(path);
        let mut states: Vec<(u64, u64)> = Vec::new();
        let mut body_limit: Option<usize> = None;
        let mut middlewares: Vec<MiddlewareEntry> = Vec::new();
        let ghost all = self.dispatcher.spec_scopes();
        let ghost f = |i: usize| all[i as int];
        let ghost mut done: Seq<Scope> = Seq::empty();
        if own_scope {
            apply_scope(&self.scope, excluded, &mut states, &mut body_limit, &mut middlewares);
            proof {
                done = done.push(self.scope);
                assert(done.drop_last() =~= Seq::<Scope>::empty());
                assert(scopes_states(done.drop_last()) =~= Seq::<(u64, u64)>::empty());
                assert(scopes_states(done) =~= states@);
                assert(done.last() == self.scope);
                assert(scopes_body_limit(done.drop_last()) is None);
                assert(scopes_body_limit(done) == body_limit);
                assert(scopes_middlewares(done.drop_last(), excluded@) =~= Seq::<MiddlewareEntry>::empty());
                assert(scopes_middlewares(done, excluded@) =~= middlewares@);
            }
        }
        proof {
            assert(order@.take(0).map_values(f) =~= Seq::<Scope>::empty());
            assert(done =~= applied_scopes(own_scope, self.scope, all, order@.take(0)));
        }
        let scopes = self.dispatcher.scopes();
        let mut j: usize = 0;
        while j < order.len()
            invariant
                j <= order@.len(),
                scopes@ == all,
                f == (|i: usize| all[i as int]),
                forall|k: int| 0 <= k < order@.len() ==> (#[trigger] order@[k]) < all.len(),
                done == applied_scopes(own_scope, self.scope, all, order@.take(j as int)),
                states@ == scopes_states(done),
                body_limit == scopes_body_limit(done),
                middlewares@ == scopes_middlewares(done, excluded@),
            decreases order@.len() - j,
        {
            let scope = &scopes[order[j]];
            apply_scope(scope, excluded, &mut states, &mut body_limit, &mut middlewares);
            proof {
                let next = done.push(*scope);
                assert(next.drop_last() =~= done);
                assert(order@.take(j + 1).map_values(f) =~= order@.take(j as int).map_values(f).push(f(order@[j as int])));
                if own_scope {
                    assert(next =~= applied_scopes(own_scope, self.scope, all, order@.take(j + 1)));
                } else {
                    assert(next =~= applied_scopes(own_scope, self.scope, all, order@.take(j + 1)));
                }
                done = next;
            }
            j += 1;
        }
        proof {
            assert(order@.take(order@.len() as int) =~= order@);
        }
        match &terminal {
            Terminal::Dispatch(Dispatch::Route { route, .. }) => {
                let own = &self.dispatcher.route(*route).middlewares;
                let ghost before = middlewares@;
                let mut k: usize = 0;
                while k < own.len()
                    invariant
                        k <= own@.len(),
                        middlewares@ == before + own@.take(k as int),
                    decreases own@.len() - k,
                {
                    middlewares.push(own[k]);
                    assert(own@.take(k + 1) =~= own@.take(k as int).push(own@[k as int]));
                    k += 1;
                }
                assert(own@.take(own@.len() as int) =~= own@);
            },
            _ => {
                assert(middlewares@ + Seq::<MiddlewareEntry>::empty() =~= middlewares@);
            },
        }
        RequestPlan { terminal, own_scope, scopes: order, states, body_limit, middlewares, head }
    }
}


/// The reason phrase of an error status, or `HTTP Error` for one without.
pub open spec fn status_text(status: u16) -> Seq<char> {
    if status == 400 { "Bad Request"@ }
    else if status == 401 { "Unauthorized"@ }
    else if status == 402 { "Payment Required"@ }
    else if status == 403 { "Forbidden"@ }
    else if status == 404 { "Not Found"@ }
    else if status == 405 { "Method Not Allowed"@ }
    else if status == 406 { "Not Acceptable"@ }
    else if status == 408 { "Request Timeout"@ }
    else if status == 409 { "Conflict"@ }
    else if status == 410 { "Gone"@ }
    else if status == 411 { "Length Required"@ }
    else if status == 412 { "Precondition Failed"@ }
    else if status == 413 { "Payload Too Large"@ }
    else if status == 414 { "URI Too Long"@ }
    else if status == 415 { "Unsupported Media Type"@ }
    else if status == 416 { "Range Not Satisfiable"@ }
    else if status == 417 { "Expectation Failed"@ }
    else if status == 422 { "Unprocessable Content"@ }
    else if status == 426 { "Upgrade Required"@ }
    else if status == 429 { "Too Many Requests"@ }
    else if status == 500 { "Internal Server Error"@ }
    else if status == 501 { "Not Implemented"@ }
    else if status == 502 { "Bad Gateway"@ }
    else if status == 503 { "Service Unavailable"@ }
    else if status == 504 { "Gateway Timeout"@ }
    else if status == 505 { "HTTP Version Not Supported"@ }
    else { "HTTP Error"@ }
}

/// The reason phrase of an error status.
pub fn status_message(status: u16) -> (r: &'static str)
    ensures
        r@ == status_text(status),
{
    match status {
        400 => "Bad Request",
        401 => "Unauthorized",
        402 => "Payment Required",
        403 => "Forbidden",
        404 => "Not Found",
        405 => "Method Not Allowed",
        406 => "Not Acceptable",
        408 => "Request Timeout",
        409 => "Conflict",
        410 => "Gone",
        411 => "Length Required",
        412 => "Precondition Failed",
        413 => "Payload Too Large",
        414 => "URI Too Long",
        415 => "Unsupported Media Type",
        416 => "Range Not Satisfiable",
        417 => "Expectation Failed",
        422 => "Unprocessable Content",
        426 => "Upgrade Required",
        429 => "Too Many Requests",
        500 => "Internal Server Error",
        501 => "Not Implemented",
        502 => "Bad Gateway",
        503 => "Service Unavailable",
        504 => "Gateway Timeout",
        505 => "HTTP Version Not Supported",
        _ => "HTTP Error",
    }
}

/// The bytes of a response's buffered body, or none for a streamed one.
pub open spec fn body_bytes(response: &Response) -> Seq<u8> {
    match response.spec_body().spec_buffered() {
        Some(b) => b,
        None => Seq::<u8>::empty(),
    }
}

/// The message an error response without a pending error is rendered
/// with: its body when that is non-empty text, otherwise the reason phrase.
pub open spec fn error_message_text(status: u16, body: Seq<u8>) -> Seq<char> {
    if valid_utf8(body) && decode_utf8(body).len() > 0 {
        decode_utf8(body)
    } else {
        status_text(status)
    }
}

/// The message of an error response without a pending error.
pub fn response_error_message(response: &Response) -> (r: String)
    ensures
        r@ == error_message_text(response.spec_status(), body_bytes(response)),
{
    let body = response.body();
    match str_from_utf8(body) {
        Some(text) => {
            let chars = chars_of(text);
            if chars.len() > 0 {
                return text.to_owned();
            }
        },
        None => {},
    }
    status_message(response.status()).to_owned()
}

/// Headers without those describing a body's representation.
pub open spec fn without_representation(entries: HeaderEntries) -> HeaderEntries {
    let a = without_named(entries, "Content-Encoding"@, entries.len() as int);
    let b = without_named(a, "Content-Length"@, a.len() as int);
    let c = without_named(b, "Content-Type"@, b.len() as int);
    without_named(c, "Transfer-Encoding"@, c.len() as int)
}

/// Removes the headers that describe a body's representation.
pub fn remove_representation_headers(headers: &mut Headers)
    ensures
        final(headers).entries() == without_representation(old(headers).entries()),
{
    headers.remove("Content-Encoding");
    headers.remove("Content-Length");
    headers.remove("Content-Type");
    headers.remove("Transfer-Encoding");
}

/// The code of an error made from a bare error status: `http.` and the
/// status.
pub open spec fn status_code_text(status: u16) -> Seq<char> {
    "http."@ + decimal(status as nat)
}

/// Takes the error a response is to be rendered with: its pending error,
/// or, for a bare error status (400 to 599), one made from the status and
/// the body's message.
pub fn error_to_render(response: &mut Response) -> (r: Option<PendingError>)
    ensures
        final(response).spec_pending() is None,
        final(response).spec_status() == old(response).spec_status(),
        final(response).spec_headers() == old(response).spec_headers(),
        final(response).spec_body() == old(response).spec_body(),
        old(response).spec_pending() is Some ==> r == old(response).spec_pending(),
        old(response).spec_pending() is None ==> if 400 <= old(response).spec_status() <= 599 {
            r matches Some(p) && p.spec_validation() is None && p.spec_error().is(
                old(response).spec_status(),
                status_code_text(old(response).spec_status()),
                error_message_text(old(response).spec_status(), body_bytes(old(response))),
            ) && p.spec_error().spec_source() is None
        } else {
            r is None
        },
{
    match response.take_error() {
        Some(p) => Some(p),
        None => {
            let status = response.status();
            if 400 <= status && status <= 599 {
                let mut code: Vec<char> = Vec::new();
                push_str(&mut code, "http.");
                let digits = decimal_text(status as u128);
                push_all(&mut code, digits.as_slice());
                proof {
                    reveal_strlit("http.");
                }
                let message = response_error_message(response);
                let error = Error::new(status, string_of(code.as_slice()), message);
                Some(PendingError::new(error))
            } else {
                None
            }
        },
    }
}

/// What finishing the formatted response `formatted` gives under `status`
/// with the response's own `headers` after its own: a formatted response
/// that still holds an error becomes that error's JSON envelope.
pub open spec fn finished_from(formatted: Response, status: u16, headers: HeaderEntries, r: Response) -> bool {
    &&& r.spec_status() == status
    &&& r.spec_pending() is None
    &&& match formatted.spec_pending() {
        None => r.spec_headers() == formatted.spec_headers() + headers && r.spec_body() == formatted.spec_body(),
        Some(p) => r.spec_headers() == Response::typed("application/json"@) + headers
            && r.spec_body().spec_buffered() == Some(encode_utf8(error_json(
            p.spec_error().spec_code(),
            p.spec_error().spec_message(),
            match p.spec_validation() {
                Some(v) => v.spec_issues(),
                None => Seq::empty(),
            },
        ))),
    }
}

/// The issues of an error's validation, if it has any.
pub open spec fn issues_of(validation: Option<ValidationErrors>) -> Option<Seq<ValidationIssue>> {
    match validation {
        Some(v) => Some(v.spec_issues()),
        None => None,
    }
}

/// Whether `formatted` is how `format` renders `error` with `issues`; a
/// format may render an error with issues as the error alone.
pub open spec fn rendered_by<F: ErrorFormat>(format: &F, error: Error, issues: Option<Seq<ValidationIssue>>,
    formatted: Response) -> bool {
    match issues {
        None => format.renders(error, Seq::empty(), formatted),
        Some(i) => format.renders(error, i, formatted) || format.renders(error, Seq::empty(), formatted),
    }
}

/// What rendering the error `response` carries with `format` gives: its
/// pending error, or for a bare error status one made from the status and
/// the body's message, rendered by `format` and finished under the error's
/// status with the response's own headers, less those describing its body;
/// any other response unchanged.
pub open spec fn finalized<F: ErrorFormat>(response: Response, format: &F, r: Response) -> bool {
    let status = response.spec_status();
    let kept = without_representation(response.spec_headers());
    match response.spec_pending() {
        Some(p) => exists|formatted: Response| #[trigger] rendered_by(format, p.spec_error(), issues_of(p.spec_validation()),
            formatted) && finished_from(formatted, p.spec_error().spec_status(), kept, r),
        None => if 400 <= status <= 599 {
            exists|e: Error, formatted: Response| #[trigger] rendered_by(format, e, None, formatted)
                && e.is(status, status_code_text(status), error_message_text(status, body_bytes(&response)))
                && finished_from(formatted, status, kept, r)
        } else {
            same_response(&r, &response)
        },
    }
}

/// What dropping the body of `f` for an answer to `HEAD` gives: a buffered
/// body becomes empty and its length goes to `Content-Length`.
pub open spec fn bodiless(f: Response, r: Response) -> bool {
    &&& r.spec_status() == f.spec_status()
    &&& r.spec_pending() == f.spec_pending()
    &&& match f.spec_body().spec_buffered() {
        Some(b) => r.spec_body().spec_buffered() == Some(Seq::<u8>::empty()) && r.spec_headers() == without_named(
            f.spec_headers(),
            "Content-Length"@,
            f.spec_headers().len() as int,
        ).push(("Content-Length"@, encode_utf8(decimal(b.len())))),
        None => r.spec_body() == f.spec_body() && r.spec_headers() == f.spec_headers(),
    }
}

/// Finishes a formatted error: a formatted response that itself holds an
/// error is replaced by the JSON rendering of that error; the status
/// becomes `status` and `headers` follow the response's own.
pub fn finish_formatted(formatted: Response, status: u16, headers: Headers) -> (r: Response)
    ensures
        finished_from(formatted, status, headers.entries(), r),
        r.spec_status() == status,
        r.spec_pending() is None,
        match formatted.spec_pending() {
            None => r.spec_headers() == formatted.spec_headers() + headers.entries() && r.spec_body() == formatted.spec_body(),
            Some(p) => r.spec_headers() == Response::typed("application/json"@) + headers.entries()
                && r.spec_body().spec_buffered() == Some(encode_utf8(error_json(
                    p.spec_error().spec_code(),
                    p.spec_error().spec_message(),
                    match p.spec_validation() {
                        Some(v) => v.spec_issues(),
                        None => Seq::empty(),
                    },
                ))),
        },
{
    let mut formatted = formatted;
    let mut out = match formatted.take_error() {
        Some(p) => {
            let (error, validation) = p.into_parts();
            match validation {
                Some(v) => JsonErrorFormat.format_validation(&error, &v),
                None => JsonErrorFormat.format(&error),
            }
        },
        None => formatted,
    };
    out.set_status(status);
    out.merge_headers(headers);
    out
}

/// Whether two responses have the same status, headers, body and pending
/// error.
pub open spec fn same_response(a: &Response, b: &Response) -> bool {
    &&& a.spec_status() == b.spec_status()
    &&& a.spec_headers() == b.spec_headers()
    &&& a.spec_body() == b.spec_body()
    &&& a.spec_pending() == b.spec_pending()
}

/// Renders the error a response carries, if any, with `format`: the
/// status stays the error's, and the response's own headers, less those
/// describing its body, follow the formatted ones.
pub fn finalize_error<F: ErrorFormat>(response: Response, format: &F) -> (r: Response)
    ensures
        response.spec_pending() is None && !(400 <= response.spec_status() <= 599) ==> same_response(&r, &response),
        response.spec_pending() matches Some(p) ==> r.spec_status() == p.spec_error().spec_status(),
        response.spec_pending() is None && 400 <= response.spec_status() <= 599 ==> r.spec_status() == response.spec_status(),
        response.spec_pending() is Some || 400 <= response.spec_status() <= 599 ==> {
            let kept = without_representation(response.spec_headers());
            &&& r.spec_pending() is None
            &&& r.spec_headers().len() >= kept.len()
            &&& r.spec_headers().skip(r.spec_headers().len() - kept.len()) == kept
        },
        finalized(response, format, r),
{
    let mut response = response;
    match error_to_render(&mut response) {
        None => response,
        Some(p) => {
            let mut headers = response.take_headers();
            remove_representation_headers(&mut headers);
            let (error, validation) = p.into_parts();
            let status = error.status();
            let formatted = match &validation {
                Some(v) => format.format_validation(&error, v),
                None => format.format(&error),
            };
            assert(rendered_by(format, error, issues_of(validation), formatted));
            let r = finish_formatted(formatted, status, headers);
            assert(r.spec_headers().skip(r.spec_headers().len() - headers.entries().len()) =~= headers.entries());
            r
        },
    }
}

/// Finishes a response: renders its error with `format`, then drops the
/// body of an answer to `HEAD`.
pub fn finish_response<F: ErrorFormat>(response: Response, format: &F, head: bool) -> (r: Response)
    ensures
        !head && response.spec_pending() is None && !(400 <= response.spec_status() <= 599) ==> same_response(&r, &response),
        head ==> r.spec_body().spec_buffered() is None || r.spec_body().spec_buffered() == Some(Seq::<u8>::empty()),
        exists|f: Response| #[trigger] finalized(response, format, f) && if head {
            bodiless(f, r)
        } else {
            r == f
        },
{
    let finished = finalize_error(response, format);
    if head {
        finished.without_body()
    } else {
        finished
    }
}

/// The headers of the reference page: HTML, and the methods it answers.
pub open spec fn reference_headers(base: HeaderEntries) -> HeaderEntries {
    without_named(base, "Allow"@, base.len() as int).push(("Allow"@, encode_utf8("GET, HEAD, OPTIONS"@)))
}

/// The headers of a page typed as HTML.
pub open spec fn html_headers() -> HeaderEntries {
    let base = Response::typed("application/octet-stream"@);
    without_named(base, "Content-Type"@, base.len() as int).push(("Content-Type"@, encode_utf8("text/html; charset=utf-8"@)))
}

impl Router {
    /// The answer of the published reference page to a request with
    /// `method`: the page for `GET` and `HEAD`, no content for `OPTIONS`,
    /// `405` otherwise; always with `Allow: GET, HEAD, OPTIONS`.
    pub fn openapi_reference(&self, method: &Method) -> (r: Option<Response>)
        ensures
            match self.spec_reference_page() {
                None => r is None,
                Some(page) => r matches Some(resp) && {
                    let m = method.name();
                    if m == standard_method_name(2) || m == standard_method_name(3) {
                        &&& resp.spec_status() == 200
                        &&& resp.spec_body().spec_buffered() == Some(encode_utf8(page))
                        &&& resp.spec_headers() == reference_headers(html_headers())
                        &&& resp.spec_pending() is None
                    } else if m == standard_method_name(4) {
                        &&& resp.spec_status() == 204
                        &&& resp.spec_body().spec_buffered() == Some(Seq::<u8>::empty())
                        &&& resp.spec_headers() == reference_headers(Seq::empty())
                        &&& resp.spec_pending() is None
                    } else {
                        &&& resp.spec_status() == 405
                        &&& resp.spec_headers() == reference_headers(Seq::empty())
                        &&& resp.spec_pending() matches Some(p) && p.spec_validation() is None && p.spec_error().is(
                            405,
                            "route.method_not_allowed"@,
                            "Method Not Allowed"@,
                        )
                    }
                },
            },
    {
        proof {
            Method::lemma_constant_names();
        }
        let published = match &self.openapi {
            Some(p) => p,
            None => {
                return None;
            },
        };
        let mut response = if method.same_as(&Method::GET) || method.same_as(&Method::HEAD) {
            let mut page = Response::bytes(200, utf8_bytes(published.scalar_page.as_str()));
            page.set_header("Content-Type".to_owned(), utf8_bytes("text/html; charset=utf-8"));
            page
        } else if method.same_as(&Method::OPTIONS) {
            Response::empty()
        } else {
            Response::pending_error(Error::new(405, "route.method_not_allowed".to_owned(), "Method Not Allowed".to_owned()))
        };
        response.set_header("Allow".to_owned(), utf8_bytes("GET, HEAD, OPTIONS"));
        Some(response)
    }
}


/// The headers of a response made with `base` headers and an `Allow`
/// header listing `allow`.
pub open spec fn with_allow(base: HeaderEntries, allow: Seq<char>) -> HeaderEntries {
    without_named(base, "Allow"@, base.len() as int).push(("Allow"@, encode_utf8(allow)))
}

/// The answer the route table gives by itself: the `route.not_found`
/// error when nothing matches,
/// `405` with the allowed methods, or `204` with them for a generated
/// `OPTIONS`; `None` when a route or fallback handler answers.
pub fn generated_response(dispatch: &Dispatch) -> (r: Option<Response>)
    ensures
        match dispatch {
            Dispatch::NotFound => r matches Some(resp) && crate::response::pending_error_response(resp, 404,
                "route.not_found"@, "Not Found"@),
            Dispatch::MethodNotAllowed { allow } => r matches Some(resp) && resp.spec_status() == 405 && resp.spec_headers()
                == with_allow(Response::typed("text/plain; charset=utf-8"@), allow@) && resp.spec_body().spec_buffered() == Some(
                encode_utf8("Method Not Allowed"@),
            ) && resp.spec_pending() is None,
            Dispatch::Options { allow } => r matches Some(resp) && resp.spec_status() == 204 && resp.spec_headers() == with_allow(
                Seq::empty(),
                allow@,
            ) && resp.spec_body().spec_buffered() == Some(Seq::<u8>::empty()) && resp.spec_pending() is None,
            _ => r is None,
        },
{
    match dispatch {
        Dispatch::NotFound => Some(
            Response::pending_error(Error::new(404, "route.not_found".to_owned(), "Not Found".to_owned())),
        ),
        Dispatch::MethodNotAllowed { allow } => {
            let mut response = Response::text(405, "Method Not Allowed".to_owned());
            let text = string_of(allow.as_slice());
            response.set_header("Allow".to_owned(), utf8_bytes(text.as_str()));
            Some(response)
        },
        Dispatch::Options { allow } => {
            let mut response = Response::empty();
            let text = string_of(allow.as_slice());
            response.set_header("Allow".to_owned(), utf8_bytes(text.as_str()));
            Some(response)
        },
        _ => None,
    }
}

/// A route handler's response as the route table returns it: with the
/// `Allow` header when an explicit `OPTIONS` route answered. (The body of an
/// answer to `HEAD` is dropped once, when the response is finished.)
pub fn route_response(response: Response, allow: Option<&Vec<char>>) -> (r: Response)
    ensures
        r.spec_status() == response.spec_status(),
        r.spec_pending() == response.spec_pending(),
        r.spec_body() == response.spec_body(),
        r.spec_headers() == match allow {
            Some(a) => with_allow(response.spec_headers(), a@),
            None => response.spec_headers(),
        },
{
    let mut response = response;
    if let Some(a) = allow {
        let text = string_of(a.as_slice());
        response.set_header("Allow".to_owned(), utf8_bytes(text.as_str()));
    }
    response
}

} // verus!
