use serverkit::decode::{Decoder, ExtraFields, FieldValues, Schema};
use serverkit::extract::{decode_url_component, header_values, path_values, query_values, content_type_is, json_content_type};
use serverkit::headers::Headers;
use serverkit::schemaval::{DecodeOptions, SchemaKind, SchemaMetadata, UnknownFields, ValidationErrors, ValidationIssue, ValidationRule};
use serverkit::response::IntoResponse;

#[derive(Debug, PartialEq)]
struct SearchQuery {
    term: String,
    page: u32,
    tag: Vec<String>,
    exact: Option<bool>,
}

impl Schema for SearchQuery {
    fn decode(values: &FieldValues, options: DecodeOptions) -> Result<Self, ValidationErrors> {
        let mut decoder = Decoder::new(values, options);
        let term = decoder.required::<String>("q");
        if let Some(term) = &term {
            decoder.minimum_length("q", term, 2);
        }
        let page = decoder.defaulted::<u32, _>("page", || 1);
        if let Some(page) = page {
            decoder.minimum("page", page as i128, 1);
            decoder.maximum("page", page as i128, 100);
        }
        let tag = decoder.repeated::<String>("tag");
        let exact = decoder.optional::<bool>("exact");
        let errors = decoder.finish();
        match (term, page, tag, exact) {
            (Some(term), Some(page), Some(tag), Some(exact)) if errors.is_empty() => Ok(SearchQuery { term, page, tag, exact }),
            _ => Err(errors),
        }
    }

    fn metadata() -> SchemaMetadata {
        SchemaMetadata::new(SchemaKind::Object(Vec::new()))
    }
}

#[derive(Debug, PartialEq)]
struct RequestHeaders {
    authorization: String,
    x_request_id: Option<String>,
}

impl Schema for RequestHeaders {
    fn decode(values: &FieldValues, options: DecodeOptions) -> Result<Self, ValidationErrors> {
        let mut decoder = Decoder::new(values, options);
        let authorization = decoder.required::<String>("authorization");
        let x_request_id = decoder.optional::<String>("x-request-id");
        let errors = decoder.finish();
        match (authorization, x_request_id) {
            (Some(authorization), Some(x_request_id)) if errors.is_empty() => Ok(RequestHeaders { authorization, x_request_id }),
            _ => Err(errors),
        }
    }

    fn metadata() -> SchemaMetadata {
        SchemaMetadata::new(SchemaKind::Object(Vec::new()))
    }
}

fn validate_slug(value: &str) -> Result<(), ValidationIssue> {
    value
        .chars()
        .all(|character| character.is_ascii_lowercase() || character == '-')
        .then_some(())
        .ok_or_else(|| ValidationIssue::custom("must be a lowercase slug".to_string()))
}

#[derive(Debug, PartialEq)]
struct Slug {
    slug: String,
}

impl Schema for Slug {
    fn decode(values: &FieldValues, options: DecodeOptions) -> Result<Self, ValidationErrors> {
        let mut decoder = Decoder::new(values, options);
        let slug = decoder.required::<String>("slug");
        if let Some(slug) = &slug {
            decoder.custom("slug", validate_slug(slug));
        }
        let errors = decoder.finish();
        match slug {
            Some(slug) if errors.is_empty() => Ok(Slug { slug }),
            _ => Err(errors),
        }
    }

    fn metadata() -> SchemaMetadata {
        SchemaMetadata::new(SchemaKind::Object(Vec::new()))
    }
}

#[derive(Debug, PartialEq)]
struct StrictInput {
    value: String,
}

impl Schema for StrictInput {
    const UNKNOWN_FIELDS: Option<UnknownFields> = Some(UnknownFields::Reject);

    fn decode(values: &FieldValues, options: DecodeOptions) -> Result<Self, ValidationErrors> {
        let mut decoder = Decoder::new(values, options);
        let value = decoder.required::<String>("value");
        let errors = decoder.finish();
        match value {
            Some(value) if errors.is_empty() => Ok(StrictInput { value }),
            _ => Err(errors),
        }
    }

    fn metadata() -> SchemaMetadata {
        SchemaMetadata::new(SchemaKind::Object(Vec::new()))
    }
}

#[derive(Debug, PartialEq)]
struct FlexibleInput {
    value: String,
}

impl Schema for FlexibleInput {
    const UNKNOWN_FIELDS: Option<UnknownFields> = Some(UnknownFields::Ignore);

    fn decode(values: &FieldValues, options: DecodeOptions) -> Result<Self, ValidationErrors> {
        let mut decoder = Decoder::new(values, options);
        let value = decoder.required::<String>("value");
        let errors = decoder.finish();
        match value {
            Some(value) if errors.is_empty() => Ok(FlexibleInput { value }),
            _ => Err(errors),
        }
    }

    fn metadata() -> SchemaMetadata {
        SchemaMetadata::new(SchemaKind::Object(Vec::new()))
    }
}

#[derive(Debug)]
struct CapturedInput {
    value: String,
    extra: ExtraFields,
}

impl Schema for CapturedInput {
    fn decode(values: &FieldValues, options: DecodeOptions) -> Result<Self, ValidationErrors> {
        let mut decoder = Decoder::new(values, options);
        let value = decoder.required::<String>("value");
        let extra = decoder.rest();
        let errors = decoder.finish();
        match value {
            Some(value) if errors.is_empty() => Ok(CapturedInput { value, extra }),
            _ => Err(errors),
        }
    }

    fn metadata() -> SchemaMetadata {
        SchemaMetadata::new(SchemaKind::Object(Vec::new()))
    }
}

#[derive(Debug)]
struct RestFirstInput {
    extra: ExtraFields,
    value: String,
}

impl Schema for RestFirstInput {
    fn decode(values: &FieldValues, options: DecodeOptions) -> Result<Self, ValidationErrors> {
        let mut decoder = Decoder::new(values, options);
        let value = decoder.required::<String>("value");
        let extra = decoder.rest();
        let errors = decoder.finish();
        match value {
            Some(value) if errors.is_empty() => Ok(RestFirstInput { extra, value }),
            _ => Err(errors),
        }
    }

    fn metadata() -> SchemaMetadata {
        SchemaMetadata::new(SchemaKind::Object(Vec::new()))
    }
}

#[test]
fn query_schema_decodes_named_fields_and_defaults() {
    let values = query_values(Some("q=rust&page=2&tag=web&tag=server&exact=true")).unwrap();
    let decoded = SearchQuery::decode(&values, DecodeOptions::reject_unknown()).unwrap();

    assert_eq!(
        decoded,
        SearchQuery {
            term: "rust".to_owned(),
            page: 2,
            tag: vec!["web".to_owned(), "server".to_owned()],
            exact: Some(true),
        }
    );

    let values = query_values(Some("q=rust")).unwrap();
    let decoded = SearchQuery::decode(&values, DecodeOptions::reject_unknown()).unwrap();

    assert_eq!(decoded.page, 1);
    assert!(decoded.tag.is_empty());
    assert_eq!(decoded.exact, None);
}

#[test]
fn query_schema_rejects_unknown_fields() {
    let values = query_values(Some("q=rust&debug=true")).unwrap();
    let errors = SearchQuery::decode(&values, DecodeOptions::reject_unknown()).unwrap_err();

    assert!(errors.issues().iter().any(|issue| {
        issue.field() == Some("debug") && issue.rule() == ValidationRule::UnknownField
    }));
}

#[test]
fn header_schema_allows_unknown_fields_and_matches_case_insensitively() {
    let mut headers = Headers::new();
    headers.append("Authorization".to_string(), b"Bearer token".to_vec()).unwrap();
    headers.append("X-Request-Id".to_string(), b"request-1".to_vec()).unwrap();
    headers.append("User-Agent".to_string(), b"test".to_vec()).unwrap();

    let decoded = RequestHeaders::decode(&header_values(&headers), DecodeOptions::ignore_unknown()).unwrap();

    assert_eq!(decoded.authorization, "Bearer token");
    assert_eq!(decoded.x_request_id.as_deref(), Some("request-1"));
}

#[test]
fn custom_validation_is_reported_with_the_field_name() {
    let values = query_values(Some("slug=Not-Valid")).unwrap();
    let errors = Slug::decode(&values, DecodeOptions::reject_unknown()).unwrap_err();

    assert_eq!(errors.issues()[0].field(), Some("slug"));
    assert_eq!(errors.issues()[0].rule(), ValidationRule::Custom);
}

#[test]
fn schema_exposes_an_optional_unknown_field_override() {
    assert_eq!(<SearchQuery as Schema>::UNKNOWN_FIELDS, None);
    assert_eq!(<StrictInput as Schema>::UNKNOWN_FIELDS, Some(UnknownFields::Reject));
    assert_eq!(<FlexibleInput as Schema>::UNKNOWN_FIELDS, Some(UnknownFields::Ignore));
}

#[test]
fn rest_captures_decoded_query_values_and_duplicates() {
    let values = query_values(Some("value=known&debug=true&tag=web&tag=server&message=hello+world")).unwrap();
    let decoded = CapturedInput::decode(&values, DecodeOptions::reject_unknown()).unwrap();

    assert_eq!(decoded.value, "known");
    assert_eq!(decoded.extra.get("debug"), Some(b"true".as_slice()));
    assert_eq!(decoded.extra.get_all("tag"), vec![b"web".as_slice(), b"server".as_slice()]);
    assert_eq!(decoded.extra.get("message"), Some(b"hello world".as_slice()));
    assert_eq!(decoded.extra.len(), 4);
}

#[test]
fn rest_uses_case_insensitive_header_names() {
    let mut headers = Headers::new();
    headers.append("Value".to_string(), b"known".to_vec()).unwrap();
    headers.append("X-Trace-Id".to_string(), b"trace-1".to_vec()).unwrap();
    let decoded = CapturedInput::decode(&header_values(&headers), DecodeOptions::reject_unknown()).unwrap();

    assert_eq!(decoded.extra.get("x-trace-id"), Some(b"trace-1".as_slice()));
    assert_eq!(decoded.extra.get("X-TRACE-ID"), Some(b"trace-1".as_slice()));
}

#[test]
fn rejected_header_names_are_deduplicated_case_insensitively() {
    let mut headers = Headers::new();
    headers.append("Value".to_string(), b"known".to_vec()).unwrap();
    headers.append("X-Extra".to_string(), b"first".to_vec()).unwrap();
    headers.append("x-extra".to_string(), b"second".to_vec()).unwrap();
    let errors = StrictInput::decode(&header_values(&headers), DecodeOptions::reject_unknown()).unwrap_err();

    assert_eq!(
        errors.issues().iter().filter(|issue| issue.rule() == ValidationRule::UnknownField).count(),
        1,
    );
}

#[test]
fn rest_captures_percent_decoded_path_values() {
    let values = path_values(&[
        ("value".to_owned(), "known".to_owned()),
        ("slug".to_owned(), "hello%20world".to_owned()),
    ])
    .unwrap();
    let decoded = CapturedInput::decode(&values, DecodeOptions::reject_unknown()).unwrap();

    assert_eq!(decoded.extra.get("slug"), Some(b"hello world".as_slice()));
}

#[test]
fn rest_only_captures_unknown_values_regardless_of_field_order() {
    let values = query_values(Some("extra=captured&value=known")).unwrap();
    let decoded = RestFirstInput::decode(&values, DecodeOptions::reject_unknown()).unwrap();

    assert_eq!(decoded.value, "known");
    assert_eq!(decoded.extra.get("extra"), Some(b"captured".as_slice()));
    assert_eq!(decoded.extra.get("value"), None);
}

#[test]
fn url_components_decode_escapes_and_plus() {
    assert_eq!(decode_url_component("a%2Fb+c", true), Ok(b"a/b c".to_vec()));
    assert_eq!(decode_url_component("a+b", false), Ok(b"a+b".to_vec()));
    assert_eq!(decode_url_component("%zz", true), Err(()));
    assert_eq!(decode_url_component("%4", true), Err(()));
}

#[test]
fn invalid_encodings_are_reported_with_their_field() {
    let errors = query_values(Some("ok=1&bad=%zz")).unwrap_err();
    assert_eq!(errors.issues()[0].field(), Some("bad"));
    assert_eq!(errors.issues()[0].rule(), ValidationRule::InvalidEncoding);
    let errors = query_values(Some("%ff=1")).unwrap_err();
    assert_eq!(errors.issues()[0].field(), None);
    let errors = path_values(&[("id".to_owned(), "%".to_owned())]).unwrap_err();
    assert_eq!(errors.issues()[0].field(), Some("id"));
    assert_eq!(errors.issues()[0].message(), "contains invalid percent encoding");
}

#[test]
fn media_types_ignore_parameters_and_case() {
    let mut headers = Headers::new();
    headers.append("Content-Type".to_string(), b" Application/JSON ; charset=utf-8".to_vec()).unwrap();
    assert!(content_type_is(&headers, "application/json"));
    assert!(json_content_type(&headers));
    let mut other = Headers::new();
    other.append("content-type".to_string(), b"application/problem+json".to_vec()).unwrap();
    assert!(!content_type_is(&other, "application/json"));
    assert!(json_content_type(&other));
    assert!(!json_content_type(&Headers::new()));
}

#[test]
fn a_missing_worker_context_is_an_internal_error() {
    let mut response = serverkit::extract::WorkerContextError.into_response();
    assert_eq!(response.status(), 500);
    assert_eq!(response.body(), b"Cloudflare worker context is unavailable");
    assert_eq!(response.headers().get("content-type"), Some(b"text/plain; charset=utf-8".as_slice()));
}
