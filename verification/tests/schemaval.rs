use serverkit::decode::{Decoder, FieldValues, Schema};
use serverkit::schemaval::{DecodeOptions, SchemaField, SchemaKind, SchemaMetadata, ValidationErrors, ValidationRule};
use serverkit::values::ValueSchema;

fn values(entries: &[(&str, &[u8])]) -> FieldValues {
    FieldValues::new(
        entries.iter().map(|(name, bytes)| (name.to_string(), bytes.to_vec())).collect(),
        false,
    )
}

#[derive(Debug, PartialEq)]
struct Filter {
    name: String,
    minimum: u32,
}

impl Schema for Filter {
    fn decode(values: &FieldValues, options: DecodeOptions) -> Result<Self, ValidationErrors> {
        let mut decoder = Decoder::new(values, options);
        let name = decoder.required::<String>("name");
        let minimum = decoder.required::<u32>("minimum");
        let errors = decoder.finish();
        match (name, minimum) {
            (Some(name), Some(minimum)) if errors.is_empty() => Ok(Filter { name, minimum }),
            _ => Err(errors),
        }
    }

    fn metadata() -> SchemaMetadata {
        SchemaMetadata::new(SchemaKind::Object(vec![
            SchemaField::new("name".to_string(), <String as ValueSchema>::metadata(), true),
            SchemaField::new("minimum".to_string(), <u32 as ValueSchema>::metadata(), true),
        ]))
    }
}

#[derive(Debug, Default, PartialEq)]
struct Paging {
    page: u32,
}

impl Schema for Paging {
    fn decode(values: &FieldValues, options: DecodeOptions) -> Result<Self, ValidationErrors> {
        let mut decoder = Decoder::new(values, options);
        let page = decoder.required::<u32>("page");
        let errors = decoder.finish();
        match page {
            Some(page) if errors.is_empty() => Ok(Paging { page }),
            _ => Err(errors),
        }
    }

    fn metadata() -> SchemaMetadata {
        SchemaMetadata::new(SchemaKind::Object(vec![SchemaField::new(
            "page".to_string(),
            <u32 as ValueSchema>::metadata(),
            true,
        )]))
    }
}

#[derive(Debug, PartialEq)]
struct Search {
    filter: Filter,
    paging: Option<Paging>,
}

impl Schema for Search {
    fn decode(values: &FieldValues, options: DecodeOptions) -> Result<Self, ValidationErrors> {
        let mut decoder = Decoder::new(values, options);
        let filter = decoder.required_nested::<Filter>("filter");
        let paging = decoder.optional_nested::<Paging>("paging");
        let errors = decoder.finish();
        match (filter, paging) {
            (Some(filter), Some(paging)) if errors.is_empty() => Ok(Search { filter, paging }),
            _ => Err(errors),
        }
    }

    fn metadata() -> SchemaMetadata {
        SchemaMetadata::new(SchemaKind::Object(vec![
            SchemaField::new("filter".to_string(), Filter::metadata(), true),
            SchemaField::new("paging".to_string(), Paging::metadata(), false),
        ]))
    }
}

#[derive(Debug, PartialEq)]
struct NestedCollection {
    filters: Vec<Filter>,
    paging: Paging,
}

impl Schema for NestedCollection {
    fn decode(values: &FieldValues, options: DecodeOptions) -> Result<Self, ValidationErrors> {
        let mut decoder = Decoder::new(values, options);
        let filters = decoder.repeated_nested::<Filter>("filters");
        let paging = decoder.defaulted_nested::<Paging, _>("paging", Paging::default);
        let errors = decoder.finish();
        match (filters, paging) {
            (Some(filters), Some(paging)) if errors.is_empty() => Ok(NestedCollection { filters, paging }),
            _ => Err(errors),
        }
    }

    fn metadata() -> SchemaMetadata {
        SchemaMetadata::new(SchemaKind::Object(vec![
            SchemaField::new("filters".to_string(), SchemaMetadata::array(Filter::metadata()), false),
            SchemaField::new("paging".to_string(), Paging::metadata(), false),
        ]))
    }
}

#[derive(Debug, PartialEq)]
enum Selection {
    All,
    Range { start: u32, end: u32 },
}

impl Schema for Selection {
    fn decode(values: &FieldValues, options: DecodeOptions) -> Result<Self, ValidationErrors> {
        let mut decoder = Decoder::new(values, options);
        let tag = decoder.required::<String>("type");
        let value = match tag.as_deref() {
            Some("all") => Some(Selection::All),
            Some("range") => {
                let start = decoder.required::<u32>("start");
                let end = decoder.required::<u32>("end");
                match (start, end) {
                    (Some(start), Some(end)) => Some(Selection::Range { start, end }),
                    _ => None,
                }
            }
            _ => None,
        };
        let errors = decoder.finish();
        match value {
            Some(value) if errors.is_empty() => Ok(value),
            _ => Err(errors),
        }
    }

    fn metadata() -> SchemaMetadata {
        SchemaMetadata::new(SchemaKind::OneOf(vec![
            SchemaMetadata::new(SchemaKind::Object(vec![SchemaField::new(
                "type".to_string(),
                SchemaMetadata::new(SchemaKind::Literal("all".to_string())),
                true,
            )])),
            SchemaMetadata::new(SchemaKind::Object(vec![
                SchemaField::new("type".to_string(), SchemaMetadata::new(SchemaKind::Literal("range".to_string())), true),
                SchemaField::new("start".to_string(), <u32 as ValueSchema>::metadata(), true),
                SchemaField::new("end".to_string(), <u32 as ValueSchema>::metadata(), true),
            ])),
        ]))
        .discriminator("type".to_string())
    }
}

#[derive(Debug, PartialEq)]
enum Mode {
    FastMode,
    SafeMode,
}

impl ValueSchema for Mode {
    fn decode_value(bytes: &[u8]) -> Result<Self, String> {
        match bytes {
            b"fast-mode" => Ok(Mode::FastMode),
            b"safe" => Ok(Mode::SafeMode),
            _ => Err("must be one of `fast-mode`, `safe`".to_owned()),
        }
    }

    fn metadata() -> SchemaMetadata {
        SchemaMetadata::new(SchemaKind::Enum(vec!["fast-mode".to_string(), "safe".to_string()]))
    }
}

#[derive(Debug, PartialEq)]
struct Wrapper<T> {
    value: T,
}

impl<T: ValueSchema> Schema for Wrapper<T> {
    fn decode(values: &FieldValues, options: DecodeOptions) -> Result<Self, ValidationErrors> {
        let mut decoder = Decoder::new(values, options);
        let value = decoder.required::<T>("value");
        let errors = decoder.finish();
        match value {
            Some(value) if errors.is_empty() => Ok(Wrapper { value }),
            _ => Err(errors),
        }
    }

    fn metadata() -> SchemaMetadata {
        SchemaMetadata::new(SchemaKind::Object(vec![SchemaField::new("value".to_string(), T::metadata(), true)]))
    }
}

#[derive(Debug, PartialEq)]
struct Identifier(u64);

impl ValueSchema for Identifier {
    fn decode_value(bytes: &[u8]) -> Result<Self, String> {
        let value = std::str::from_utf8(bytes)
            .map_err(|_| "must be valid UTF-8".to_owned())?
            .parse()
            .map_err(|_| "must be an identifier".to_owned())?;
        Ok(Self(value))
    }
}

#[test]
fn decodes_nested_fields_from_dotted_names() {
    let values = values(&[("filter.name", b"gpu"), ("filter.minimum", b"4")]);
    let decoded = Search::decode(&values, DecodeOptions::reject_unknown()).unwrap();

    assert_eq!(decoded.filter.name, "gpu");
    assert_eq!(decoded.filter.minimum, 4);
    assert_eq!(decoded.paging, None);
}

#[test]
fn derives_string_enums_with_rename_rules() {
    let fast = values(&[("mode", b"fast-mode")]);
    let safe = values(&[("mode", b"safe")]);

    assert_eq!(<Mode as Schema>::decode(&fast, DecodeOptions::reject_unknown()).unwrap(), Mode::FastMode);
    assert_eq!(<Mode as Schema>::decode(&safe, DecodeOptions::reject_unknown()).unwrap(), Mode::SafeMode);
}

#[test]
fn derives_generic_schemas() {
    let values = values(&[("value", b"42")]);
    let decoded = Wrapper::<u64>::decode(&values, DecodeOptions::reject_unknown()).unwrap();

    assert_eq!(decoded.value, 42);
}

#[test]
fn accepts_custom_value_schemas() {
    let values = values(&[("value", b"91")]);
    let decoded = Wrapper::<Identifier>::decode(&values, DecodeOptions::reject_unknown()).unwrap();

    assert_eq!(decoded.value, Identifier(91));
}

#[test]
fn exposes_nested_openapi_metadata() {
    let metadata = Search::metadata();
    let SchemaKind::Object(fields) = metadata.kind() else {
        panic!("expected object metadata");
    };

    assert_eq!(fields.len(), 2);
    assert_eq!(fields[0].name(), "filter");
    assert!(fields[0].required());
    assert!(!fields[1].required());
    assert!(matches!(fields[0].schema().kind(), SchemaKind::Object(_)));
}

#[test]
fn decodes_repeated_nested_fields_and_nested_defaults() {
    let values = values(&[
        ("filters.0.name", b"gpu"),
        ("filters.0.minimum", b"4"),
        ("filters.1.name", b"cpu"),
        ("filters.1.minimum", b"8"),
    ]);
    let decoded = NestedCollection::decode(&values, DecodeOptions::reject_unknown()).unwrap();

    assert_eq!(decoded.filters.len(), 2);
    assert_eq!(decoded.filters[0].name, "gpu");
    assert_eq!(decoded.filters[1].minimum, 8);
    assert_eq!(decoded.paging, Paging::default());
}

#[test]
fn decodes_tagged_enums_with_named_data() {
    let range = values(&[("type", b"range"), ("start", b"2"), ("end", b"9")]);
    let all = values(&[("type", b"all")]);

    assert_eq!(
        Selection::decode(&range, DecodeOptions::reject_unknown()).unwrap(),
        Selection::Range { start: 2, end: 9 },
    );
    assert_eq!(Selection::decode(&all, DecodeOptions::reject_unknown()).unwrap(), Selection::All);

    let metadata = Selection::metadata();
    assert_eq!(metadata.discriminator_property(), Some("type"));
    assert!(matches!(metadata.kind(), SchemaKind::OneOf(variants) if variants.len() == 2));
}

#[test]
fn integers_follow_rust_parsing() {
    assert_eq!(<u8 as ValueSchema>::decode_value(b"255"), Ok(255));
    assert_eq!(<u8 as ValueSchema>::decode_value(b"256"), Err("must be a valid u8".to_string()));
    assert_eq!(<u8 as ValueSchema>::decode_value(b"+7"), Ok(7));
    assert_eq!(<u8 as ValueSchema>::decode_value(b"-0"), Err("must be a valid u8".to_string()));
    assert_eq!(<i8 as ValueSchema>::decode_value(b"-128"), Ok(-128));
    assert_eq!(<i8 as ValueSchema>::decode_value(b"-129"), Err("must be a valid i8".to_string()));
    assert_eq!(<i128 as ValueSchema>::decode_value(b"-170141183460469231731687303715884105728"), Ok(i128::MIN));
    assert_eq!(<u64 as ValueSchema>::decode_value(b""), Err("must be a valid u64".to_string()));
    assert_eq!(<u64 as ValueSchema>::decode_value(&[0xff]), Err("must be valid UTF-8".to_string()));
    assert_eq!(<bool as ValueSchema>::decode_value(b"true"), Ok(true));
    assert_eq!(<bool as ValueSchema>::decode_value(b"True"), Err("must be a valid bool".to_string()));
    assert_eq!(<String as ValueSchema>::decode_value("é".as_bytes()), Ok("é".to_string()));
}

#[test]
fn decoder_reports_missing_multiple_and_unknown_fields() {
    let values = values(&[("a", b"1"), ("a", b"2"), ("x", b"1"), ("X", b"2"), ("x", b"3")]);
    let mut decoder = Decoder::new(&values, DecodeOptions::reject_unknown());
    assert_eq!(decoder.required::<u32>("a"), None);
    assert_eq!(decoder.required::<u32>("b"), None);
    assert_eq!(decoder.optional::<u32>("c"), Some(None));
    let errors = decoder.finish();
    let issues = errors.issues();
    assert_eq!(issues.len(), 4);
    assert_eq!(issues[0].rule(), ValidationRule::Multiple);
    assert_eq!(issues[0].message(), "must appear exactly once");
    assert_eq!(issues[1].rule(), ValidationRule::Missing);
    assert_eq!(issues[1].field(), Some("b"));
    assert_eq!(issues[2].field(), Some("x"));
    assert_eq!(issues[2].rule(), ValidationRule::UnknownField);
    assert_eq!(issues[3].field(), Some("X"));
}

#[test]
fn repeated_nested_rejects_malformed_items() {
    let values = values(&[("filters.name", b"gpu"), ("filters.x.name", b"cpu"), ("filters.0.", b"1")]);
    let mut decoder = Decoder::new(&values, DecodeOptions::ignore_unknown());
    let decoded = decoder.repeated_nested::<Filter>("filters");
    assert!(decoded.is_none());
    let errors = decoder.finish();
    let messages: Vec<&str> = errors.issues().iter().map(|issue| issue.message()).collect();
    assert_eq!(
        messages,
        vec![
            "must use `<field>.<index>.<nested-field>`",
            "nested item index must be a non-negative integer",
            "nested field name cannot be empty",
        ]
    );
}

#[test]
fn repeated_nested_items_come_back_in_index_order() {
    let values = values(&[
        ("filters.10.name", b"late"),
        ("filters.10.minimum", b"3"),
        ("filters.2.name", b"early"),
        ("filters.2.minimum", b"1"),
    ]);
    let mut decoder = Decoder::new(&values, DecodeOptions::reject_unknown());
    let decoded = decoder.repeated_nested::<Filter>("filters").unwrap();
    assert_eq!(decoded.len(), 2);
    assert_eq!(decoded[0].name, "early");
    assert_eq!(decoded[1].name, "late");
    assert!(decoder.finish().is_empty());
}

#[test]
fn repeated_nested_reports_a_failing_item_under_its_index() {
    let values = values(&[
        ("filters.0.name", b"gpu"),
        ("filters.0.minimum", b"4"),
        ("filters.1.name", b"cpu"),
        ("filters.1.minimum", b"many"),
    ]);
    let mut decoder = Decoder::new(&values, DecodeOptions::reject_unknown());
    assert!(decoder.repeated_nested::<Filter>("filters").is_none());
    let errors = decoder.finish();
    assert_eq!(errors.issues().len(), 1);
    assert_eq!(errors.issues()[0].field(), Some("filters.1.minimum"));
    assert_eq!(errors.issues()[0].rule(), ValidationRule::InvalidType);
}
