use serverkit::openapi::{OpenApi, Operation, ParameterLocation, RouteDescription};
use serverkit::schemaval::{SchemaField, SchemaKind, SchemaMetadata};

fn query_metadata() -> SchemaMetadata {
    SchemaMetadata::new(SchemaKind::Object(vec![
        SchemaField::new("page".to_string(), SchemaMetadata::new(SchemaKind::Integer), true).minimum("1".to_string()),
        SchemaField::new(
            "tag".to_string(),
            SchemaMetadata::array(SchemaMetadata::new(SchemaKind::String)),
            false,
        ),
    ]))
}

#[test]
fn renders_valid_route_metadata() {
    let mut operation = Operation::default();
    operation.parameter(ParameterLocation::Query, query_metadata());
    operation.response(
        200,
        "Success".to_string(),
        Some("text/plain".to_string()),
        Some(SchemaMetadata::new(SchemaKind::String)),
    );
    let document = OpenApi::new("Test".to_string(), "1.0".to_string()).build(vec![RouteDescription {
        path: "/items".to_owned(),
        method: "GET".to_owned(),
        path_parameters: Vec::new(),
        operation: &operation,
    }]);

    assert!(document.as_str().contains("\"openapi\":\"3.1.0\""));
    assert!(document.as_str().contains("\"page\""));
    assert!(document.as_str().contains("\"minimum\":1"));
}

#[test]
fn escapes_scalar_page_values_for_html_and_script_contexts() {
    let configuration = OpenApi::new("</title><script>".to_string(), "1.0".to_string());
    let document = configuration.build(Vec::new());
    let page = configuration.scalar_page(&document);

    assert!(page.contains("<title>&lt;/title&gt;&lt;script&gt;</title>"));
    assert!(page.contains("content:\"{\\\"openapi\\\":\\\"3.1.0\\\""));
    assert!(page.contains("\\u003c/title\\u003e\\u003cscript\\u003e"));
    assert!(!page.contains("<title></title><script>"));
}

#[test]
fn document_lists_paths_in_order_and_responses_by_status() {
    let mut first = Operation::new();
    first.response(404, "Missing".to_string(), None, None);
    first.response(200, "Success".to_string(), None, None);
    first.response(200, "Again".to_string(), None, None);
    let mut second = Operation::new();
    second.parameter(ParameterLocation::Path, SchemaMetadata::new(SchemaKind::Integer));
    second.ensure_response();
    let document = OpenApi::new("T".to_string(), "1".to_string()).build(vec![
        RouteDescription { path: "/b".to_owned(), method: "POST".to_owned(), path_parameters: Vec::new(), operation: &first },
        RouteDescription {
            path: "/a/{id}".to_owned(),
            method: "GET".to_owned(),
            path_parameters: vec!["id".chars().collect()],
            operation: &second,
        },
    ]);
    assert_eq!(
        document.as_str(),
        "{\"openapi\":\"3.1.0\",\"info\":{\"title\":\"T\",\"version\":\"1\"},\"paths\":{\
\"/a/{id}\":{\"get\":{\"parameters\":[{\"name\":\"id\",\"in\":\"path\",\"required\":true,\"schema\":{\"type\":\"integer\"}}],\
\"responses\":{\"200\":{\"description\":\"Success\"}}}},\
\"/b\":{\"post\":{\"parameters\":[],\"responses\":{\"200\":{\"description\":\"Success\"},\"404\":{\"description\":\"Missing\"}}}}}}"
    );
}

#[test]
fn nested_fields_flatten_and_bodies_collect_content_types() {
    let nested = SchemaMetadata::new(SchemaKind::Object(vec![SchemaField::new(
        "filter".to_string(),
        SchemaMetadata::new(SchemaKind::Object(vec![
            SchemaField::new("name".to_string(), SchemaMetadata::new(SchemaKind::String), true).maximum_length(8),
        ])),
        true,
    )]));
    let mut operation = Operation::new();
    operation.parameter(ParameterLocation::Header, nested);
    operation.request_body("application/json".to_string(), None, false);
    operation.request_body("text/plain".to_string(), Some(SchemaMetadata::new(SchemaKind::Bytes)), true);
    let document = OpenApi::new("T".to_string(), "1".to_string()).build(vec![RouteDescription {
        path: "/".to_owned(),
        method: "PUT".to_owned(),
        path_parameters: Vec::new(),
        operation: &operation,
    }]);
    let text = document.into_string();
    assert!(text.contains(
        "{\"name\":\"filter.name\",\"in\":\"header\",\"required\":true,\"schema\":{\"type\":\"string\",\"maxLength\":8}}"
    ));
    assert!(text.contains(
        "\"requestBody\":{\"required\":true,\"content\":{\"application/json\":{},\"text/plain\":{\"schema\":{\"type\":\"string\",\"format\":\"binary\"}}}}"
    ));
}
