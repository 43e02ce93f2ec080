use serverkit::app::{
    finish_response, generated_response, route_response, Config, RegistrationError, Route, RouteMethods, Router,
    Terminal,
};
use serverkit::dispatch::{Dispatch, MiddlewareEntry};
use serverkit::error::{Error, ErrorFormat, JsonErrorFormat};
use serverkit::method::Method;
use serverkit::openapi::{OpenApi, Operation, ParameterLocation};
use serverkit::response::Response;
use serverkit::schemaval::{SchemaField, SchemaKind, SchemaMetadata};

const HEALTH: u64 = 1;
const FAILURE: u64 = 2;
const RAW_ERROR: u64 = 3;
const ITEM: u64 = 4;
const CREATE: u64 = 5;
const FALLBACK: u64 = 6;
const OK: u64 = 7;

const ITEM_ID: u64 = 40;
const USER: u64 = 41;
const LITERAL: u64 = 42;
const WILDCARD: u64 = 43;
const GET_METHOD: u64 = 44;
const POST_METHOD: u64 = 45;
const PUT_METHOD: u64 = 46;
const PATCH_METHOD: u64 = 47;
const DELETE_METHOD: u64 = 48;
const EXPLICIT_HEAD: u64 = 49;
const EXPLICIT_OPTIONS: u64 = 50;
const NESTED_FALLBACK: u64 = 51;

fn capture(captures: &[(Vec<char>, Vec<char>)], name: &str) -> String {
    captures
        .iter()
        .find(|(key, _)| key.iter().collect::<String>() == name)
        .map(|(_, value)| value.iter().collect())
        .unwrap_or_default()
}

/// What the test handlers answer, given the parameters their route captured.
fn respond_captured(handler: u64, captures: &[(Vec<char>, Vec<char>)]) -> Response {
    match handler {
        ITEM_ID => Response::text(200, capture(captures, "id")),
        USER => Response::text(200, format!("{}:{}", capture(captures, "organization"), capture(captures, "id"))),
        LITERAL => Response::text(200, "literal".to_owned()),
        WILDCARD => Response::text(200, capture(captures, "path")),
        GET_METHOD => Response::text(200, "get".to_owned()),
        POST_METHOD => Response::text(200, "post".to_owned()),
        PUT_METHOD => Response::text(200, "put".to_owned()),
        PATCH_METHOD => Response::text(200, "patch".to_owned()),
        DELETE_METHOD => Response::text(200, "delete".to_owned()),
        EXPLICIT_HEAD => Response::text(201, "explicit-head".to_owned()),
        EXPLICIT_OPTIONS => Response::text(202, "explicit-options".to_owned()),
        NESTED_FALLBACK => Response::text(200, "nested-fallback".to_owned()),
        _ => respond(handler),
    }
}

/// What the test handlers answer.
fn respond(handler: u64) -> Response {
    match handler {
        FAILURE => Response::pending_error(Error::new(
            409,
            "sample.failed".to_owned(),
            "The sample operation failed".to_owned(),
        )),
        RAW_ERROR => Response::text(418, "custom raw error".to_owned()),
        FALLBACK => Response::text(200, "fallback".to_owned()),
        OK => Response::text(200, "ok".to_owned()),
        _ => Response::text(200, format!("handler {handler}")),
    }
}

struct PrefixFormat(&'static str);

impl ErrorFormat for PrefixFormat {
    fn format(&self, error: &Error) -> Response {
        Response::text(200, format!("{}{}:{}", self.0, error.code(), error.message()))
    }
}

struct CodeFormat(&'static str);

impl ErrorFormat for CodeFormat {
    fn format(&self, error: &Error) -> Response {
        Response::text(200, format!("{}:{}", self.0, error.code()))
    }
}

/// Answers a request the way a serving layer does with the router's plan:
/// the terminal's response, the scope middleware simulated by `decorate`,
/// then the router's error rendering.
fn handle_with<F: ErrorFormat>(
    router: &Router,
    method: Method,
    path: &str,
    format: &F,
    decorate: &dyn Fn(&mut Response),
) -> Response {
    let chars: Vec<char> = path.chars().collect();
    let plan = router.plan(&method, &chars);
    let mut response = match &plan.terminal {
        Terminal::OpenApi => router.openapi_reference(&method).unwrap(),
        Terminal::Dispatch(dispatch) => match generated_response(dispatch) {
            Some(response) => response,
            None => match dispatch {
                Dispatch::Route { route, allow, captures, .. } => {
                    let handler = router.dispatcher().route(*route).handler;
                    route_response(respond_captured(handler, captures), allow.as_ref())
                }
                Dispatch::Fallback(index) => respond_captured(router.dispatcher().fallback_at(*index).handler, &[]),
                _ => unreachable!(),
            },
        },
    };
    decorate(&mut response);
    finish_response(response, format, plan.head)
}

fn handle(router: &Router, method: &str, path: &str) -> Response {
    handle_with(router, Method::new(method), path, &JsonErrorFormat, &|_| {})
}

fn header_text(response: &mut Response, name: &str) -> Option<String> {
    response.headers().get(name).map(|v| String::from_utf8(v.to_vec()).unwrap())
}

fn item_operation() -> Operation {
    let mut operation = Operation::new();
    operation.parameter(
        ParameterLocation::Path,
        SchemaMetadata::new(SchemaKind::Object(vec![SchemaField::new(
            "id".to_owned(),
            SchemaMetadata::new(SchemaKind::Integer),
            true,
        )])),
    );
    operation.parameter(
        ParameterLocation::Query,
        SchemaMetadata::new(SchemaKind::Object(vec![
            SchemaField::new("query".to_owned(), SchemaMetadata::new(SchemaKind::String), true),
            SchemaField::new("page".to_owned(), SchemaMetadata::new(SchemaKind::Integer), false),
        ])),
    );
    operation
}

fn form_operation() -> Operation {
    let mut operation = Operation::new();
    operation.request_body(
        "application/x-www-form-urlencoded".to_owned(),
        Some(SchemaMetadata::new(SchemaKind::Object(vec![SchemaField::new(
            "name".to_owned(),
            SchemaMetadata::new(SchemaKind::String),
            true,
        )]))),
        true,
    );
    operation.response(413, "Request body is too large".to_owned(), None, None);
    operation
}

#[test]
fn routes_can_be_registered_with_an_app() {
    let application = Router::new(
        Config::new(),
        (
            "/health".GET(HEALTH),
            "/version".GET(HEALTH),
            "/post".POST(HEALTH),
            "/put".PUT(HEALTH),
            "/patch".PATCH(HEALTH),
            "/delete".DELETE(HEALTH),
            "/head".HEAD(HEALTH),
            "/options".OPTIONS(HEALTH),
        ),
    );
    let application = application.unwrap();
    assert_eq!(application.dispatcher().route_count(), 8);
}

#[test]
fn generates_route_tuples_through_the_configured_maximum() {
    let application = Router::new(
        Config::new(),
        (
            "/1".GET(HEALTH),
            "/2".GET(HEALTH),
            "/3".GET(HEALTH),
            "/4".GET(HEALTH),
            "/5".GET(HEALTH),
            "/6".GET(HEALTH),
            "/7".GET(HEALTH),
            "/8".GET(HEALTH),
            "/9".GET(HEALTH),
            "/10".GET(HEALTH),
            "/11".GET(HEALTH),
            "/12".GET(HEALTH),
            "/13".GET(HEALTH),
            "/14".GET(HEALTH),
            "/15".GET(HEALTH),
            "/16".GET(HEALTH),
        ),
    );
    assert_eq!(application.unwrap().dispatcher().route_count(), 16);
}

#[test]
fn omits_methods_without_openapi_operation_fields() {
    let propfind = Method::from_bytes(b"PROPFIND").unwrap();
    let application = Router::new(
        Config::new(),
        (
            "/visible".GET(OK),
            "/tunnel".CONNECT(OK),
            "/properties".on(propfind, OK),
        ),
    )
    .unwrap()
    .openapi("/docs".to_owned(), OpenApi::new("Methods".to_owned(), "1.0".to_owned()))
    .unwrap();
    let document = application.openapi_document().unwrap().as_str();

    assert!(document.contains("\"/visible\""));
    assert!(!document.contains("\"/tunnel\""));
    assert!(!document.contains("\"/properties\""));
}

#[test]
fn publishes_route_metadata() {
    let application = Router::new(
        Config::new(),
        (
            Route::new(Method::GET, "/items/:id".to_owned(), ITEM, item_operation())
                .summary("Read an item".to_owned())
                .description("Reads one item by ID".to_owned())
                .tag("items".to_owned())
                .operation_id("readItem".to_owned()),
            Route::new(Method::POST, "/items".to_owned(), CREATE, form_operation()),
        ),
    )
    .unwrap()
    .openapi("/docs".to_owned(), OpenApi::new("Items".to_owned(), "1.0".to_owned()))
    .unwrap();
    let document = application.openapi_document().unwrap().as_str();

    assert!(document.contains("\"/items/{id}\""));
    assert!(document.contains("\"name\":\"id\",\"in\":\"path\""));
    assert!(document.contains("\"name\":\"query\",\"in\":\"query\""));
    assert!(document.contains("application/x-www-form-urlencoded"));
    assert!(document.contains("\"413\""));
    assert!(document.contains("\"summary\":\"Read an item\""));
    assert!(document.contains("\"operationId\":\"readItem\""));
}

#[test]
fn route_openapi_modifier_changes_the_published_operation() {
    let application = Router::new(
        Config::new(),
        Route::new(Method::GET, "/items/:id".to_owned(), ITEM, item_operation()).openapi(|mut operation| {
            operation.response(203, "Copied item".to_owned(), Some("text/plain".to_owned()), None);
            operation
        }),
    )
    .unwrap()
    .openapi("/docs".to_owned(), OpenApi::new("Items".to_owned(), "1.0".to_owned()))
    .unwrap();
    let document = application.openapi_document().unwrap().as_str();

    assert!(document.contains("\"203\""));
    assert!(document.contains("Copied item"));
    assert!(document.contains("\"/items/{id}\""));
}

#[test]
fn applies_one_custom_error_format_and_preserves_http_semantics() {
    let application = Router::new(Config::new().error_format(1), "/failure".GET(FAILURE))
        .unwrap()
        .middleware(MiddlewareEntry { id: 1, kind: 1 });
    let plan = application.plan(&Method::GET, &"/failure".chars().collect::<Vec<_>>());
    assert_eq!(plan.middlewares, vec![MiddlewareEntry { id: 1, kind: 1 }]);

    let mut response = handle_with(&application, Method::GET, "/failure", &PrefixFormat(""), &|response| {
        response.headers().set("X-Error-Scope".to_owned(), b"middleware".to_vec()).unwrap();
    });

    assert_eq!(response.status(), 409);
    assert_eq!(response.content_type(), Some("text/plain; charset=utf-8"));
    assert_eq!(header_text(&mut response, "x-error-scope"), Some("middleware".to_owned()));
    assert_eq!(response.body(), b"sample.failed:The sample operation failed");
}

#[test]
fn normalizes_raw_error_responses_with_the_default_json_format() {
    let application = Router::new(Config::new(), "/failure".GET(RAW_ERROR)).unwrap();
    let response = handle(&application, "GET", "/failure");

    assert_eq!(response.status(), 418);
    assert_eq!(response.content_type(), Some("application/json"));
    assert_eq!(
        response.body(),
        br#"{"error":{"code":"http.418","message":"custom raw error","fields":[]}}"#,
    );
}

#[test]
fn suppresses_a_formatted_error_body_for_head_requests() {
    let application = Router::new(Config::new(), "/failure".GET(FAILURE)).unwrap();
    let get = handle(&application, "GET", "/failure");
    let expected_length = get.body().len().to_string();
    let mut head = handle(&application, "HEAD", "/failure");

    assert_eq!(head.status(), 409);
    assert_eq!(header_text(&mut head, "content-length"), Some(expected_length));
    assert!(head.body().is_empty());
}

#[test]
fn suppresses_a_not_found_body_for_head_requests() {
    let application = Router::new(Config::new(), "/ok".GET(OK)).unwrap();
    let mut get = handle(&application, "GET", "/missing");
    assert_eq!(get.body(), br#"{"error":{"code":"route.not_found","message":"Not Found","fields":[]}}"#);
    let expected_length = get.body().len().to_string();
    let mut head = handle(&application, "HEAD", "/missing");

    assert_eq!(head.status(), 404);
    assert_eq!(head.content_type(), Some("application/json"));
    assert_eq!(header_text(&mut head, "content-length"), Some(expected_length));
    assert!(head.body().is_empty());
}

#[test]
fn the_parent_router_controls_nested_error_formatting() {
    let child = Router::new(Config::new().error_format(2), "/failure".GET(FAILURE))
        .unwrap()
        .at("/child".to_owned())
        .unwrap();
    let application = Router::new(Config::new().error_format(1), child).unwrap();
    assert_eq!(application.error_format(), Some(1));
    let formats = [CodeFormat("parent"), CodeFormat("child")];
    let format = &formats[(application.error_format().unwrap() - 1) as usize];
    let response = handle_with(&application, Method::GET, "/child/failure", format, &|_| {});

    assert_eq!(response.status(), 409);
    assert_eq!(response.body(), b"parent:sample.failed");
}

#[test]
fn serves_the_openapi_reference_with_head_and_method_handling() {
    let application = Router::new(Config::new(), ())
        .unwrap()
        .openapi("/docs".to_owned(), OpenApi::new("Empty".to_owned(), "1.0".to_owned()))
        .unwrap();
    let response = handle(&application, "GET", "/docs");

    assert_eq!(response.status(), 200);
    assert_eq!(response.content_type(), Some("text/html; charset=utf-8"));
    assert!(!response.body().is_empty());

    let response = handle(&application, "HEAD", "/docs");
    assert_eq!(response.status(), 200);
    assert!(response.body().is_empty());

    let mut response = handle(&application, "POST", "/docs");
    assert_eq!(response.status(), 405);
    assert_eq!(header_text(&mut response, "allow"), Some("GET, HEAD, OPTIONS".to_owned()));
}

#[test]
fn serves_a_scalar_reference_for_the_openapi_document() {
    let application = Router::new(Config::new(), Route::new(Method::GET, "/items/:id".to_owned(), ITEM, item_operation()))
        .unwrap()
        .openapi("/reference".to_owned(), OpenApi::new("Items & API".to_owned(), "1.0".to_owned()))
        .unwrap();
    let response = handle(&application, "GET", "/reference");
    let body = std::str::from_utf8(response.body()).unwrap();

    assert_eq!(response.status(), 200);
    assert_eq!(response.content_type(), Some("text/html; charset=utf-8"));
    assert!(body.contains("<title>Items &amp; API</title>"));
    assert!(body.contains("Scalar.createApiReference('#app',{content:\"{"));
    assert!(body.contains("\\\"openapi\\\":\\\"3.1.0\\\""));
    assert!(body.contains("/items/{id}"));
    assert!(!body.contains("Scalar.createApiReference('#app',{url:"));
    assert!(body.contains("https://cdn.jsdelivr.net/npm/@scalar/api-reference@1.63.0"));
}

#[test]
fn scopes_openapi_routes_and_reference_with_config_and_mount_prefixes() {
    let router = Router::new(
        Config::new().prefix("/v1".to_owned()),
        Route::new(Method::GET, "/items/:id".to_owned(), ITEM, item_operation()),
    )
    .unwrap()
    .openapi("/docs".to_owned(), OpenApi::new("Items".to_owned(), "1.0".to_owned()))
    .unwrap()
    .at("/service".to_owned())
    .unwrap();
    let document = router.openapi_document().unwrap().as_str();

    assert!(document.contains("\"/service/v1/items/{id}\""));
    assert_eq!(handle(&router, "GET", "/service/v1/docs").status(), 200);
    assert_eq!(handle(&router, "GET", "/v1/service/docs").status(), 404);
}

#[test]
fn dispatches_each_method_and_generates_options() {
    let application = Router::new(Config::new(), ("/items".GET(21), "/items".POST(22), "/items".DELETE(23))).unwrap();
    assert_eq!(handle(&application, "POST", "/items").body(), b"handler 22");

    let mut options = handle(&application, "OPTIONS", "/items");
    assert_eq!(options.status(), 204);
    assert_eq!(header_text(&mut options, "allow"), Some("GET, HEAD, POST, DELETE, OPTIONS".to_owned()));

    let mut refused = handle(&application, "PUT", "/items");
    assert_eq!(refused.status(), 405);
    assert_eq!(header_text(&mut refused, "allow"), Some("GET, HEAD, POST, DELETE, OPTIONS".to_owned()));
}

#[test]
fn head_uses_get_unless_an_explicit_head_route_exists() {
    let application = Router::new(Config::new(), ("/a".GET(OK), "/b".GET(OK), "/b".HEAD(FALLBACK))).unwrap();
    let mut head = handle(&application, "HEAD", "/a");
    assert_eq!(head.status(), 200);
    assert!(head.body().is_empty());
    assert_eq!(header_text(&mut head, "content-length"), Some("2".to_owned()));

    let plan = application.plan(&Method::HEAD, &"/b".chars().collect::<Vec<_>>());
    match plan.terminal {
        Terminal::Dispatch(Dispatch::Route { route, .. }) => {
            assert_eq!(application.dispatcher().route(route).handler, FALLBACK)
        }
        _ => panic!("expected the explicit HEAD route"),
    }
}

#[test]
fn fallbacks_answer_unmatched_paths_inside_their_prefix() {
    let child = Router::new(Config::new().prefix("/api".to_owned()), "/ok".GET(OK)).unwrap().fallback(FALLBACK).unwrap();
    let application = Router::new(Config::new(), child).unwrap();
    assert_eq!(handle(&application, "GET", "/api/missing").body(), b"fallback");
    assert_eq!(handle(&application, "GET", "/elsewhere").status(), 404);
}

#[test]
fn scope_middleware_runs_outermost_first_and_routes_can_skip_kinds() {
    let child = Router::new(
        Config::new().prefix("/api".to_owned()),
        (
            "/private".GET(OK).middleware(MiddlewareEntry { id: 30, kind: 3 }),
            "/public".GET(OK).without_middleware(2),
        ),
    )
    .unwrap()
    .middleware(MiddlewareEntry { id: 20, kind: 2 });
    let application = Router::new(Config::new(), child).unwrap().middleware(MiddlewareEntry { id: 10, kind: 1 });

    let private = application.plan(&Method::GET, &"/api/private".chars().collect::<Vec<_>>());
    let ids: Vec<u64> = private.middlewares.iter().map(|m| m.id).collect();
    assert_eq!(ids, vec![10, 20, 30]);

    let public = application.plan(&Method::GET, &"/api/public".chars().collect::<Vec<_>>());
    let ids: Vec<u64> = public.middlewares.iter().map(|m| m.id).collect();
    assert_eq!(ids, vec![10]);
}

#[test]
fn inner_scopes_override_states_and_body_limits() {
    let child = Router::new(Config::new().prefix("/api".to_owned()), "/x".GET(OK))
        .unwrap()
        .state(7, 200)
        .body_limit(3);
    let application = Router::new(Config::new(), child).unwrap().state(7, 100).body_limit(10);
    let plan = application.plan(&Method::GET, &"/api/x".chars().collect::<Vec<_>>());
    assert_eq!(plan.states, vec![(7, 100), (7, 200)]);
    assert_eq!(plan.body_limit, Some(3));
    let outside = application.plan(&Method::GET, &"/x".chars().collect::<Vec<_>>());
    assert_eq!(outside.body_limit, Some(10));
}

#[test]
fn rejects_equivalent_parameter_routes() {
    let result = Router::new(Config::new(), ("/items/:id".GET(1), "/items/:name".GET(2)));
    assert!(matches!(result, Err(RegistrationError::Conflict)));
}

#[test]
fn rejects_non_terminal_wildcards() {
    let result = Router::new(Config::new(), "/files/*path/edit".GET(1));
    assert!(matches!(result, Err(RegistrationError::InvalidPath(_))));
}

#[test]
fn rejects_dynamic_prefixes_and_duplicate_fallbacks() {
    assert!(matches!(
        Router::new(Config::new().prefix("/:tenant".to_owned()), ()),
        Err(RegistrationError::InvalidPrefix(_))
    ));
    let router = Router::new(Config::new(), ()).unwrap().fallback(1).unwrap();
    assert!(matches!(router.fallback(2), Err(RegistrationError::DuplicateFallback)));
}

#[test]
fn the_reference_path_must_be_free_and_static() {
    let router = Router::new(Config::new(), "/docs".GET(1)).unwrap();
    assert!(matches!(
        router.openapi("/docs".to_owned(), OpenApi::new("A".to_owned(), "1".to_owned())),
        Err(RegistrationError::ReservedPath(_))
    ));
    let router = Router::new(Config::new(), ()).unwrap();
    assert!(matches!(
        router.openapi("/docs/:page".to_owned(), OpenApi::new("A".to_owned(), "1".to_owned())),
        Err(RegistrationError::ReservedPath(_))
    ));
}

#[test]
fn method_names_follow_the_token_grammar() {
    assert!(Method::from_bytes(b"").is_err());
    assert!(Method::from_bytes(b"GE T").is_err());
    assert!(Method::from_bytes(b"G\xc3\xa9T").is_err());
    assert_eq!(Method::from_bytes(b"GET").unwrap(), Method::GET);
    assert_eq!(Method::from_bytes(b"get").unwrap().as_str(), "get");
}

fn middleware_ids(router: &Router, path: &str) -> Vec<u64> {
    let plan = router.plan(&Method::GET, &path.chars().collect::<Vec<_>>());
    plan.middlewares.iter().map(|m| m.id).collect()
}

#[test]
fn dispatches_a_matching_route() {
    let application = Router::new(Config::new(), ("/health".GET(OK),)).unwrap();
    let response = handle(&application, "GET", "/health");

    assert_eq!(response.status(), 200);
    assert_eq!(response.body(), b"ok");
}

#[test]
fn captures_parameters_at_any_segment() {
    let application = Router::new(Config::new(), ("/asdf/:id/asdd".GET(ITEM_ID), "/:organization/users/:id".GET(USER)))
        .unwrap();

    let response = handle(&application, "GET", "/asdf/42/asdd");
    assert_eq!(response.status(), 200);
    assert_eq!(response.body(), b"42");

    let response = handle(&application, "GET", "/acme/users/7");
    assert_eq!(response.status(), 200);
    assert_eq!(response.body(), b"acme:7");
}

#[test]
fn prefers_static_routes_over_parameter_routes() {
    let application = Router::new(Config::new(), ("/items/:id".GET(ITEM_ID), "/items/new".GET(LITERAL))).unwrap();
    let response = handle(&application, "GET", "/items/new");

    assert_eq!(response.status(), 200);
    assert_eq!(response.body(), b"literal");
}

#[test]
fn dispatches_each_method_on_the_same_path() {
    let application = Router::new(
        Config::new(),
        (
            "/resource".GET(GET_METHOD),
            "/resource".POST(POST_METHOD),
            "/resource".PUT(PUT_METHOD),
            "/resource".PATCH(PATCH_METHOD),
            "/resource".DELETE(DELETE_METHOD),
        ),
    )
    .unwrap();

    for (method, expected) in [
        ("GET", b"get".as_slice()),
        ("POST", b"post".as_slice()),
        ("PUT", b"put".as_slice()),
        ("PATCH", b"patch".as_slice()),
        ("DELETE", b"delete".as_slice()),
    ] {
        let response = handle(&application, method, "/resource");

        assert_eq!(response.status(), 200);
        assert_eq!(response.body(), expected);
    }
}

#[test]
fn returns_method_not_allowed_with_allow_header() {
    let application = Router::new(Config::new(), ("/resource".GET(GET_METHOD), "/resource".POST(POST_METHOD))).unwrap();
    let mut response = handle(&application, "DELETE", "/resource");

    assert_eq!(response.status(), 405);
    assert_eq!(header_text(&mut response, "allow"), Some("GET, HEAD, POST, OPTIONS".to_owned()));
}

#[test]
fn head_uses_get_without_returning_its_body() {
    let application = Router::new(Config::new(), ("/resource".GET(GET_METHOD),)).unwrap();
    let mut response = handle(&application, "HEAD", "/resource");

    assert_eq!(response.status(), 200);
    assert_eq!(header_text(&mut response, "content-type"), Some("text/plain; charset=utf-8".to_owned()));
    assert_eq!(header_text(&mut response, "content-length"), Some("3".to_owned()));
    assert_eq!(response.body(), b"");
}

#[test]
fn explicit_head_takes_precedence_over_get() {
    let application =
        Router::new(Config::new(), ("/resource".GET(GET_METHOD), "/resource".HEAD(EXPLICIT_HEAD))).unwrap();
    let mut response = handle(&application, "HEAD", "/resource");

    assert_eq!(response.status(), 201);
    assert_eq!(header_text(&mut response, "content-length"), Some("13".to_owned()));
    assert_eq!(response.body(), b"");
}

#[test]
fn options_is_generated_unless_an_explicit_route_exists() {
    let generated =
        Router::new(Config::new(), ("/resource".GET(GET_METHOD), "/resource".PATCH(PATCH_METHOD))).unwrap();
    let mut response = handle(&generated, "OPTIONS", "/resource");

    assert_eq!(response.status(), 204);
    assert_eq!(header_text(&mut response, "allow"), Some("GET, HEAD, PATCH, OPTIONS".to_owned()));
    assert_eq!(response.body(), b"");

    let explicit = Router::new(Config::new(), ("/resource".OPTIONS(EXPLICIT_OPTIONS),)).unwrap();
    let mut response = handle(&explicit, "OPTIONS", "/resource");

    assert_eq!(response.status(), 202);
    assert_eq!(header_text(&mut response, "allow"), Some("OPTIONS".to_owned()));
    assert_eq!(response.body(), b"explicit-options");
}

#[test]
fn method_matching_respects_static_route_precedence() {
    let application =
        Router::new(Config::new(), ("/items/new".GET(GET_METHOD), "/items/:id".POST(POST_METHOD))).unwrap();
    let mut response = handle(&application, "POST", "/items/new");

    assert_eq!(response.status(), 405);
    assert_eq!(header_text(&mut response, "allow"), Some("GET, HEAD, OPTIONS".to_owned()));
}

#[test]
fn chooses_specificity_from_left_to_right() {
    let application = Router::new(Config::new(), ("/:section/settings".GET(OK), "/users/:page".GET(LITERAL))).unwrap();
    let response = handle(&application, "GET", "/users/settings");

    assert_eq!(response.body(), b"literal");
}

#[test]
fn wildcard_captures_the_remaining_path() {
    let application = Router::new(Config::new(), ("/assets/*path".GET(WILDCARD),)).unwrap();
    let response = handle(&application, "GET", "/assets/css/app.css");

    assert_eq!(response.body(), b"css/app.css");
}

#[test]
fn static_and_parameter_routes_precede_wildcards() {
    let application = Router::new(
        Config::new(),
        ("/files/*path".GET(WILDCARD), "/files/:path".GET(ITEM_ID), "/files/new".GET(LITERAL)),
    )
    .unwrap();

    let response = handle(&application, "GET", "/files/new");
    assert_eq!(response.body(), b"literal");
}

#[test]
fn route_adds_routes_without_a_tuple_limit() {
    let application = Router::new(Config::new(), ())
        .unwrap()
        .route("/one".GET(OK))
        .unwrap()
        .route("/two".GET(LITERAL))
        .unwrap();

    assert_eq!(handle(&application, "GET", "/two").body(), b"literal");
}

#[test]
fn routes_a_router_with_parent_mount_and_config_prefixes() {
    let api = Router::new(Config::new().prefix("/v1".to_owned()), ("/health".GET(OK),))
        .unwrap()
        .at("/mounted".to_owned())
        .unwrap();
    let application = Router::new(Config::new().prefix("/parent".to_owned()), ()).unwrap().route(api).unwrap();

    assert_eq!(handle(&application, "GET", "/parent/mounted/v1/health").body(), b"ok");
    assert_eq!(handle(&application, "GET", "/parent/v1/mounted/health").status(), 404);
}

#[test]
fn fallback_handles_unmatched_paths() {
    let application = Router::new(Config::new(), ("/health".GET(OK),)).unwrap().fallback(FALLBACK).unwrap();

    assert_eq!(handle(&application, "GET", "/missing").body(), b"fallback");
}

#[test]
fn child_fallback_only_handles_paths_inside_its_prefix() {
    let child = Router::new(Config::new().prefix("/api".to_owned()), ()).unwrap().fallback(NESTED_FALLBACK).unwrap();
    let router = Router::new(Config::new(), ()).unwrap().fallback(FALLBACK).unwrap().route(child).unwrap();

    assert_eq!(handle(&router, "GET", "/api/missing").body(), b"nested-fallback");
    assert_eq!(handle(&router, "GET", "/missing").body(), b"fallback");
}

#[test]
fn runs_parent_child_and_route_middleware_in_scope_order() {
    let child = Router::new(
        Config::new().prefix("/v1".to_owned()),
        "/health".GET(OK).middleware(MiddlewareEntry { id: 3, kind: 3 }),
    )
    .unwrap()
    .middleware(MiddlewareEntry { id: 2, kind: 2 })
    .at("/mounted".to_owned())
    .unwrap();
    let router = Router::new(Config::new().prefix("/parent".to_owned()), ())
        .unwrap()
        .middleware(MiddlewareEntry { id: 1, kind: 1 })
        .route(child)
        .unwrap();

    assert_eq!(handle(&router, "GET", "/parent/mounted/v1/health").body(), b"ok");
    assert_eq!(middleware_ids(&router, "/parent/mounted/v1/health"), vec![1, 2, 3]);
}

#[test]
fn child_middleware_only_runs_inside_the_child_prefix() {
    let child = Router::new(Config::new().prefix("/api".to_owned()), "/inside".GET(LITERAL))
        .unwrap()
        .middleware(MiddlewareEntry { id: 9, kind: 9 });
    let router = Router::new(Config::new(), "/outside".GET(OK)).unwrap().route(child).unwrap();

    assert_eq!(handle(&router, "GET", "/outside").body(), b"ok");
    assert!(middleware_ids(&router, "/outside").is_empty());

    assert_eq!(handle(&router, "GET", "/api/inside").body(), b"literal");
    assert_eq!(middleware_ids(&router, "/api/inside"), vec![9]);

    assert_eq!(handle(&router, "GET", "/api/missing").status(), 404);
    assert_eq!(middleware_ids(&router, "/api/missing"), vec![9]);

    assert_eq!(handle(&router, "GET", "/missing").status(), 404);
    assert!(middleware_ids(&router, "/missing").is_empty());
}

#[test]
fn route_can_exclude_inherited_middleware_by_type() {
    let router = Router::new(Config::new(), ("/private".GET(LITERAL), "/public".GET(OK).without_middleware(9)))
        .unwrap()
        .middleware(MiddlewareEntry { id: 9, kind: 9 });

    assert_eq!(middleware_ids(&router, "/private"), vec![9]);
    assert!(middleware_ids(&router, "/public").is_empty());
}
