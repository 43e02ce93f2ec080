use serverkit::cookie::{Cookie, Cookies, SameSite};
use serverkit::headers::Headers;

#[test]
fn parses_repeated_cookie_headers() {
    let mut headers = Headers::new();
    headers.append("Cookie".to_string(), b"session=abc; theme=dark".to_vec()).unwrap();
    headers.append("cookie".to_string(), b"tag=one".to_vec()).unwrap();
    let cookies = Cookies::from_headers(&headers);

    assert_eq!(cookies.get("session"), Some("abc"));
    assert_eq!(cookies.get("theme"), Some("dark"));
    assert_eq!(cookies.get("tag"), Some("one"));
}

#[test]
fn formats_set_cookie_attributes() {
    let cookie = Cookie::new("session".to_string(), "abc".to_string())
        .path("/".to_string())
        .max_age(60)
        .same_site(SameSite::Lax)
        .http_only(true)
        .secure(true);

    assert_eq!(
        cookie.header_value(),
        "session=abc; Path=/; Max-Age=60; SameSite=Lax; HttpOnly; Secure",
    );
}

#[test]
fn cookie_values_are_unquoted_and_trimmed() {
    let mut headers = Headers::new();
    headers
        .append("Cookie".to_string(), b"  a=\"x\\\"y\" ; =skip; novalue; b=1=2 ".to_vec())
        .unwrap();
    let cookies = Cookies::from_headers(&headers);
    assert_eq!(cookies.len(), 2);
    assert_eq!(cookies.get("a"), Some("x\"y"));
    assert_eq!(cookies.get("b"), Some("1=2"));
    assert_eq!(cookies.get_all("a"), vec!["x\"y"]);
}

#[test]
fn cookies_with_invalid_utf8_are_skipped() {
    let mut headers = Headers::new();
    headers.append("Cookie".to_string(), vec![b'a', b'=', 0xff]).unwrap();
    headers.append("Cookie".to_string(), b"b=2".to_vec()).unwrap();
    let cookies = Cookies::from_headers(&headers);
    assert_eq!(cookies.iter(), vec![("b", "2")]);
}

#[test]
fn negative_max_age_and_domain_are_rendered() {
    let cookie = Cookie::new("id".to_string(), "1".to_string())
        .domain("example.com".to_string())
        .max_age(-1)
        .same_site(SameSite::Unrestricted);
    assert_eq!(cookie.header_value(), "id=1; Domain=example.com; Max-Age=-1; SameSite=None");
}
