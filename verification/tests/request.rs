use serverkit::request::Request;
use serverkit::method::Method;
use serverkit::headers::Headers;

#[test]
fn exposes_standard_methods_as_constants() {
    let methods = [
        (Method::CONNECT, "CONNECT"),
        (Method::DELETE, "DELETE"),
        (Method::GET, "GET"),
        (Method::HEAD, "HEAD"),
        (Method::OPTIONS, "OPTIONS"),
        (Method::PATCH, "PATCH"),
        (Method::POST, "POST"),
        (Method::PUT, "PUT"),
        (Method::TRACE, "TRACE"),
    ];

    for (method, name) in methods {
        assert_eq!(method.as_str(), name);
        assert_eq!(Method::new(name), method);
    }
}

#[test]
fn preserves_other_methods() {
    let method = Method::new("PROPFIND");

    assert_eq!(method.as_str(), "PROPFIND");
}

#[test]
fn header_names_are_validated_before_writing() {
    let mut headers = Headers::new();
    let error = headers.append("Bad Name".to_string(), b"v".to_vec()).unwrap_err();
    assert_eq!(error.message(), "invalid HTTP header name");
    let error = headers.set("X-Ok".to_string(), b"a\r\nb".to_vec()).unwrap_err();
    assert_eq!(error.message(), "invalid HTTP header value");
    assert!(headers.is_empty());
}

#[test]
fn header_iteration_keeps_insertion_order() {
    let mut headers = Headers::new();
    headers.append("A".to_string(), b"1".to_vec()).unwrap();
    headers.append("b".to_string(), b"2".to_vec()).unwrap();
    headers.append("a".to_string(), b"3".to_vec()).unwrap();
    let entries = headers.iter();
    assert_eq!(entries.len(), 3);
    assert_eq!(entries[2], ("a", b"3".as_slice()));
    assert_eq!(headers.get("A"), Some(b"1".as_slice()));
    assert_eq!(headers.get_all("a"), vec![b"1".to_vec(), b"3".to_vec()]);
}

#[test]
fn request_extensions_read_back_what_was_inserted() {
    let mut request = Request::from_parts(Method::GET, "/".to_owned(), None, Headers::new());
    assert_eq!(request.extension(1), None);
    request.insert_extension(1, 10);
    request.insert_extension(2, 20);
    request.insert_extension(1, 11);
    assert_eq!(request.extension(1), Some(11));
    assert_eq!(request.extension(2), Some(20));
    request.set_states(vec![(5, 1), (5, 2)]);
    assert_eq!(request.state(5), Some(2));
    assert_eq!(request.state(6), None);
    request.set_body_limit(Some(4));
    assert_eq!(request.body_limit(), Some(4));
}

#[test]
fn headers_read_back_after_set_append_and_remove() {
    let mut headers = Headers::new();
    headers.append("X-A".to_owned(), b"1".to_vec()).unwrap();
    headers.append("x-a".to_owned(), b"2".to_vec()).unwrap();
    assert_eq!(headers.get("X-a"), Some(b"1".as_slice()));
    headers.set("X-A".to_owned(), b"3".to_vec()).unwrap();
    assert_eq!(headers.get_all("x-A"), vec![b"3".to_vec()]);
    headers.remove("x-a");
    assert_eq!(headers.get("X-A"), None);
}

#[test]
fn a_second_remove_changes_nothing() {
    let mut headers = Headers::new();
    headers.append("X-Value".to_owned(), b"one".to_vec()).unwrap();
    headers.append("Other".to_owned(), b"kept".to_vec()).unwrap();
    headers.append("x-VALUE".to_owned(), b"two".to_vec()).unwrap();
    headers.remove("x-value");
    assert!(!headers.contains("X-VALUE"));
    assert_eq!(headers.len(), 1);
    headers.remove("X-Value");
    assert_eq!(headers.len(), 1);
    assert_eq!(headers.get("other"), Some(b"kept".as_slice()));
}

#[test]
fn get_reads_the_first_of_get_all() {
    let mut headers = Headers::new();
    assert_eq!(headers.get("accept"), None);
    assert!(headers.get_all("accept").is_empty());
    headers.append("Accept".to_owned(), b"text/html".to_vec()).unwrap();
    headers.append("ACCEPT".to_owned(), b"application/json".to_vec()).unwrap();
    let all = headers.get_all("accept");
    assert_eq!(all, vec![b"text/html".to_vec(), b"application/json".to_vec()]);
    assert_eq!(headers.get("aCcEpT"), Some(all[0].as_slice()));
    assert!(headers.contains("accept"));
    assert_eq!(headers.len(), 2);
    assert!(!headers.is_empty());
}
