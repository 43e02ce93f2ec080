use serverkit::rename::{capitalize, split_words, RenameAll};

fn words(name: &str) -> Vec<String> {
    split_words(name).into_iter().map(|w| w.into_iter().collect()).collect()
}

#[test]
fn splits_names_into_lower_case_words() {
    assert_eq!(words("user_id"), vec!["user", "id"]);
    assert_eq!(words("userID"), vec!["user", "id"]);
    assert_eq!(words("HTTPServer"), vec!["http", "server"]);
    assert_eq!(words("kebab-case-name"), vec!["kebab", "case", "name"]);
    assert_eq!(words("__x"), vec!["x"]);
    assert!(words("").is_empty());
}

#[test]
fn applies_each_rename_rule() {
    let name = "request_id_value";
    assert_eq!(RenameAll::Keep.apply(name), "request_id_value");
    assert_eq!(RenameAll::Lowercase.apply(name), "requestidvalue");
    assert_eq!(RenameAll::Uppercase.apply(name), "REQUESTIDVALUE");
    assert_eq!(RenameAll::CamelCase.apply(name), "requestIdValue");
    assert_eq!(RenameAll::PascalCase.apply(name), "RequestIdValue");
    assert_eq!(RenameAll::SnakeCase.apply("RequestId"), "request_id");
    assert_eq!(RenameAll::ScreamingSnakeCase.apply(name), "REQUEST_ID_VALUE");
    assert_eq!(RenameAll::KebabCase.apply(name), "request-id-value");
    assert_eq!(RenameAll::ScreamingKebabCase.apply(name), "REQUEST-ID-VALUE");
}

#[test]
fn parses_rule_names_and_refuses_others() {
    assert_eq!(RenameAll::parse(None), Ok(RenameAll::Keep));
    assert_eq!(RenameAll::parse(Some("kebab-case")), Ok(RenameAll::KebabCase));
    assert_eq!(RenameAll::parse(Some("SCREAMING_SNAKE_CASE")), Ok(RenameAll::ScreamingSnakeCase));
    assert_eq!(RenameAll::parse(Some("Title Case")), Err("unsupported rename_all rule `Title Case`".to_owned()));
}

#[test]
fn capitalizes_the_first_letter() {
    assert_eq!(capitalize(&['a', 'b']), vec!['A', 'b']);
    assert!(capitalize(&[]).is_empty());
}
