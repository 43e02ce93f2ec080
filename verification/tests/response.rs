use serverkit::cookie::Cookie;
use serverkit::error::Error;
use serverkit::redirect::Redirect;
use serverkit::response::{IntoResponse, Response};
use serverkit::schemaval::{ValidationErrors, ValidationIssue};

#[test]
fn headers_set_append_and_remove_case_insensitively() {
    let mut response = Response::text(200, "ok".to_string());
    response.headers().set("X-Value".to_string(), b"first".to_vec()).unwrap();
    response.headers().append("x-value".to_string(), b"second".to_vec()).unwrap();

    assert_eq!(
        response.headers().get_all("X-VALUE"),
        vec![b"first".to_vec(), b"second".to_vec()],
    );

    response.headers().set("X-VALUE".to_string(), b"replacement".to_vec()).unwrap();
    assert_eq!(response.headers().get_all("x-value"), vec![b"replacement".to_vec()]);

    response.headers().remove("x-VaLuE");
    assert!(!response.headers().contains("x-value"));
}

#[test]
fn content_type_uses_the_shared_header_collection() {
    let mut response = Response::text(200, "ok".to_string());
    response
        .headers()
        .set("Content-Type".to_string(), b"application/custom".to_vec())
        .unwrap();

    assert_eq!(response.content_type(), Some("application/custom"));
}

#[test]
fn appends_set_cookie_headers() {
    let mut response = Response::new(200);
    response.set_cookie(Cookie::new("a".to_string(), "1".to_string())).unwrap();
    response.set_cookie(Cookie::new("b".to_string(), "2".to_string())).unwrap();

    assert_eq!(response.headers().get_all("set-cookie").len(), 2);
}

#[test]
fn creates_streaming_responses_and_redirects() {
    let response = Response::stream(200, 7);
    assert!(response.is_streaming());

    let mut redirect = Redirect::temporary("/next".to_string()).into_response();
    assert_eq!(redirect.status(), 307);
    assert_eq!(redirect.headers().get("location"), Some(b"/next".as_slice()));
}

#[test]
fn head_responses_drop_the_body_and_keep_its_length() {
    let response = Response::text(200, "hello".to_string()).without_body();
    assert_eq!(response.body(), b"");
    let mut response = response;
    assert_eq!(response.headers().get("content-length"), Some(b"5".as_slice()));
}

#[test]
fn redirect_statuses() {
    assert_eq!(Redirect::permanent("/a".to_string()).into_response().status(), 308);
    assert_eq!(Redirect::see_other("/a".to_string()).into_response().status(), 303);
    assert_eq!(Redirect::found("/a".to_string()).into_response().status(), 302);
    let broken = Redirect::found("/a\nb".to_string()).into_response();
    assert_eq!(broken.status(), 500);
    assert_eq!(broken.body(), b"invalid HTTP header value");
}

#[test]
fn errors_wait_for_the_router_to_render_them() {
    let mut response = Error::not_found().into_response();
    assert_eq!(response.status(), 404);
    let pending = response.take_error().unwrap();
    let (error, validation) = pending.into_parts();
    assert_eq!(error.code(), "not_found");
    assert!(validation.is_none());
    assert!(response.take_error().is_none());

    let mut response = ValidationErrors::from_issue(ValidationIssue::custom("bad".to_string())).into_response();
    assert_eq!(response.status(), 400);
    let (error, validation) = response.take_error().unwrap().into_parts();
    assert_eq!(error.code(), "request.validation.invalid");
    assert_eq!(validation.unwrap().len(), 1);
}

#[test]
fn plain_values_become_responses() {
    let response = "hi".into_response();
    assert_eq!(response.content_type(), Some("text/plain; charset=utf-8"));
    assert_eq!(response.body(), b"hi");
    assert_eq!(().into_response().status(), 204);
    let bytes = vec![1u8, 2].into_response();
    assert_eq!(bytes.content_type(), Some("application/octet-stream"));
    let ok: Result<String, Error> = Ok("x".to_string());
    assert_eq!(ok.into_response().status(), 200);
}
