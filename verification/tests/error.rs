use std::fmt;

use serverkit::error::{Error, ErrorFormat, JsonErrorFormat, encode_error_json};
use serverkit::schemaval::{ValidationErrors, ValidationIssue};

#[derive(Debug)]
struct DatabaseError;

impl fmt::Display for DatabaseError {
    fn fmt(&self, formatter: &mut fmt::Formatter<'_>) -> fmt::Result {
        formatter.write_str("database connection lost")
    }
}

impl std::error::Error for DatabaseError {}

fn database_operation() -> Result<(), DatabaseError> {
    Err(DatabaseError)
}

fn propagate_database_error() -> Result<(), Error> {
    database_operation().map_err(|error| Error::internal(error.to_string()))?;
    Ok(())
}

#[test]
fn renders_the_default_json_envelope_and_escapes_strings() {
    let error = Error::new(400, "request.invalid".to_string(), "bad \"value\"\n".to_string());
    let validation = ValidationErrors::from_issue(ValidationIssue::coded(
        "field.invalid".to_string(),
        "must not contain \\ escapes".to_string(),
    ));
    let response = JsonErrorFormat.format_validation(&error, &validation);

    assert_eq!(response.status(), 400);
    assert_eq!(response.content_type(), Some("application/json"));
    assert_eq!(
        response.body(),
        br#"{"error":{"code":"request.invalid","message":"bad \"value\"\n","fields":[{"field":null,"code":"field.invalid","message":"must not contain \\ escapes"}]}}"#,
    );
}

#[test]
fn converts_standard_errors_into_visible_internal_errors() {
    let error = propagate_database_error().unwrap_err();
    let response = JsonErrorFormat.format(&error);

    assert_eq!(error.status(), 500);
    assert_eq!(error.code(), "internal_error");
    assert_eq!(error.message(), "database connection lost");
    assert!(error.is_internal());
    assert_eq!(error.source().unwrap().to_string(), "database connection lost");
    assert_eq!(
        response.body(),
        br#"{"error":{"code":"internal_error","message":"database connection lost","fields":[]}}"#,
    );
}

#[test]
fn provides_predefined_errors_without_requiring_codes() {
    let cases = [
        (Error::bad_request(), 400, "bad_request", "Bad Request"),
        (Error::unauthorized(), 401, "unauthorized", "Unauthorized"),
        (Error::forbidden(), 403, "forbidden", "Forbidden"),
        (Error::not_found(), 404, "not_found", "Not Found"),
        (Error::conflict(), 409, "conflict", "Conflict"),
        (Error::unprocessable_content(), 422, "unprocessable_content", "Unprocessable Content"),
        (Error::too_many_requests(), 429, "too_many_requests", "Too Many Requests"),
    ];

    for (error, status, code, message) in cases {
        assert_eq!(error.status(), status);
        assert_eq!(error.code(), code);
        assert_eq!(error.message(), message);
        assert!(!error.is_internal());
    }
}

#[test]
fn control_characters_are_escaped_as_unicode() {
    let error = Error::new(418, "c".to_string(), "a\u{1}b\u{8}\u{2028}".to_string());
    let bytes = encode_error_json(&error, None);
    assert_eq!(
        String::from_utf8(bytes).unwrap(),
        "{\"error\":{\"code\":\"c\",\"message\":\"a\\u0001b\\b\\u2028\",\"fields\":[]}}"
    );
}

#[test]
fn issues_with_fields_are_listed_in_order() {
    let error = Error::new(400, "x".to_string(), "y".to_string()).with_message("z".to_string());
    let mut validation = ValidationErrors::new();
    validation.push(ValidationIssue::custom("first".to_string()).attach_field("a"));
    validation.push(ValidationIssue::custom("second".to_string()));
    let bytes = encode_error_json(&error, Some(&validation));
    assert_eq!(
        String::from_utf8(bytes).unwrap(),
        "{\"error\":{\"code\":\"x\",\"message\":\"z\",\"fields\":[{\"field\":\"a\",\"code\":\"custom\",\"message\":\"first\"},{\"field\":null,\"code\":\"custom\",\"message\":\"second\"}]}}"
    );
}

#[test]
fn an_error_reads_as_its_message() {
    let error = Error::new(409, "sample.failed".to_string(), "The sample operation failed".to_string());
    assert_eq!(error.text(), "The sample operation failed");
}
