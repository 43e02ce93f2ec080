use serverkit::rename::RenameAll;
use serverkit::schema_derive::{
    expand, Attribute, CheckKind, Attributes, Data, DecodeCall, DeriveInput, DerivePlan, Field, FieldKind, FieldSchema,
    FieldType, Fields, SchemaEntry, TypeArgument, Variant,
};
use serverkit::schemaval::UnknownFields;

fn path(name: &str) -> FieldType {
    FieldType::Path(name.to_owned(), Vec::new())
}

fn generic(name: &str, inner: FieldType) -> FieldType {
    FieldType::Path(name.to_owned(), vec![TypeArgument::Type(inner)])
}

fn schema(entries: Vec<SchemaEntry>) -> Attribute {
    Attribute { path: "schema".to_owned(), entries }
}

fn flag(key: &str) -> SchemaEntry {
    SchemaEntry::Flag(key.to_owned())
}

fn assign(key: &str, value: &str) -> SchemaEntry {
    SchemaEntry::Assign(key.to_owned(), value.to_owned())
}

fn field(name: &str, ty: FieldType, attributes: Vec<Attribute>) -> Field {
    Field { ident: Some(name.to_owned()), ty, attributes }
}

fn derive_struct(attributes: Vec<Attribute>, fields: Vec<Field>) -> Result<DerivePlan, String> {
    expand(DeriveInput { ident: "Query".to_owned(), attributes, data: Data::Struct(Fields::Named(fields)) })
}

fn unit(name: &str, attributes: Vec<Attribute>) -> Variant {
    Variant { ident: name.to_owned(), fields: Fields::Unit, attributes }
}

#[test]
fn reads_schema_attributes_and_skips_others() {
    let attributes = vec![
        Attribute { path: "serde".to_owned(), entries: vec![flag("whatever")] },
        schema(vec![assign("rename", "q"), assign("min_length", "1"), flag("default")]),
        schema(vec![assign("maximum", "10")]),
    ];
    let parsed = Attributes::parse(&attributes).unwrap();

    assert_eq!(parsed.rename.as_deref(), Some("q"));
    assert_eq!(parsed.minimum_length.as_deref(), Some("1"));
    assert_eq!(parsed.maximum.as_deref(), Some("10"));
    assert!(parsed.default.is_some());
    assert!(!parsed.rest);
}

#[test]
fn refuses_unknown_and_malformed_schema_attributes() {
    assert_eq!(
        Attributes::parse(&vec![schema(vec![assign("colour", "red")])]).err(),
        Some("unknown schema attribute".to_owned())
    );
    assert_eq!(Attributes::parse(&vec![schema(vec![flag("rename")])]).err(), Some("expected `=`".to_owned()));
    assert_eq!(Attributes::parse(&vec![schema(vec![assign("rest", "true")])]).err(), Some("expected `,`".to_owned()));
}

#[test]
fn container_and_variant_settings_are_checked_where_they_stand() {
    let rest = Attributes::parse(&vec![schema(vec![flag("rest")])]).unwrap();
    assert_eq!(rest.validate_for_struct().err(), Some("invalid struct-level schema attribute".to_owned()));

    let policy = Attributes::parse(&vec![schema(vec![assign("unknown_fields", "reject")])]).unwrap();
    assert!(policy.validate_for_struct().is_ok());
    assert_eq!(
        policy.validate_for_enum().err(),
        Some("enum containers support only `rename_all` and `tag`".to_owned())
    );
    let tag = Attributes::parse(&vec![schema(vec![assign("tag", "type")])]).unwrap();
    assert!(tag.validate_for_enum().is_ok());
    assert_eq!(tag.validate_for_struct().err(), Some("invalid struct-level schema attribute".to_owned()));
    assert_eq!(
        policy.validate_for_field().err(),
        Some("field cannot use a struct-level schema attribute".to_owned())
    );

    let rest_renamed = Attributes::parse(&vec![schema(vec![flag("rest"), assign("rename", "x")])]).unwrap();
    assert_eq!(
        rest_renamed.validate_for_field().err(),
        Some("a rest field cannot use other schema attributes".to_owned())
    );

    let renamed = Attributes::parse(&vec![schema(vec![assign("rename", "x")])]).unwrap();
    assert!(renamed.validate_for_variant().is_ok());
    assert_eq!(rest.validate_for_variant().err(), Some("enum variants support only `rename`".to_owned()));
}

#[test]
fn field_kinds_follow_the_field_type() {
    assert_eq!(FieldKind::from_type(&generic("Option", path("String"))), FieldKind::Optional);
    assert_eq!(FieldKind::from_type(&generic("Vec", path("String"))), FieldKind::Repeated);
    assert_eq!(FieldKind::from_type(&generic("Vec", path("u8"))), FieldKind::Required);
    assert_eq!(FieldKind::from_type(&path("u32")), FieldKind::Required);
    assert_eq!(FieldKind::from_type(&FieldType::Other), FieldKind::Required);

    let optional = generic("Option", path("String"));
    assert!(matches!(FieldKind::Optional.value_type(&optional), FieldType::Path(name, _) if name == "String"));
}

#[test]
fn fields_take_their_input_name_from_rename_or_the_rule() {
    let parsed = FieldSchema::parse(field("user_id", path("u64"), Vec::new()), RenameAll::CamelCase).unwrap();
    assert_eq!(parsed.input_name, "userId");
    assert_eq!(parsed.kind, FieldKind::Required);
    assert_eq!(parsed.decode_call(), Ok(DecodeCall::Required));

    let renamed = FieldSchema::parse(
        field("user_id", generic("Option", path("u64")), vec![schema(vec![assign("rename", "uid")])]),
        RenameAll::CamelCase,
    )
    .unwrap();
    assert_eq!(renamed.input_name, "uid");
    assert_eq!(renamed.decode_call(), Ok(DecodeCall::Optional));
    let metadata = renamed.metadata();
    assert!(!metadata.required);
    assert!(!metadata.array);
}

#[test]
fn field_combinations_that_cannot_decode_are_refused() {
    let refused = |ty: FieldType, entries: Vec<SchemaEntry>| {
        FieldSchema::parse(field("tags", ty, vec![schema(entries)]), RenameAll::Keep).err()
    };

    assert_eq!(
        refused(path("Vec"), vec![flag("rest")]),
        Some("rest field `tags` must have type `ExtraFields`".to_owned())
    );
    assert_eq!(
        refused(path("ExtraFields"), vec![flag("rest"), assign("format", "uuid")]),
        Some("a rest field cannot use other schema attributes".to_owned())
    );
    assert_eq!(
        refused(generic("Option", path("u8")), vec![assign("default", "3")]),
        Some("field `tags` cannot combine default with Option or repeated Vec".to_owned())
    );
    assert_eq!(
        FieldSchema::parse(Field { ident: None, ty: path("u8"), attributes: Vec::new() }, RenameAll::Keep).err(),
        Some("expected a named field".to_owned())
    );
}

#[test]
fn defaulted_and_nested_fields_pick_their_decoder_calls() {
    let defaulted =
        FieldSchema::parse(field("page", path("u32"), vec![schema(vec![assign("default", "1")])]), RenameAll::Keep)
            .unwrap();
    assert_eq!(defaulted.decode_call(), Ok(DecodeCall::Defaulted));
    assert!(!defaulted.metadata().required);

    let nested = FieldSchema::parse(field("owner", path("Owner"), vec![schema(vec![flag("nested")])]), RenameAll::Keep)
        .unwrap();
    assert_eq!(nested.decode_call(), Ok(DecodeCall::RequiredNested));
    assert!(nested.metadata().nested);

    let repeated = FieldSchema::parse(field("tag", generic("Vec", path("String")), Vec::new()), RenameAll::Keep).unwrap();
    assert_eq!(repeated.decode_call(), Ok(DecodeCall::Repeated));
    assert!(repeated.metadata().array);
}

#[test]
fn struct_plans_decode_the_rest_field_last() {
    let plan = derive_struct(
        vec![schema(vec![assign("rename_all", "camelCase"), assign("validate", "check")])],
        vec![
            field("extra", path("ExtraFields"), vec![schema(vec![flag("rest")])]),
            field("search_term", path("String"), Vec::new()),
            field("page", generic("Option", path("u32")), Vec::new()),
        ],
    )
    .unwrap();
    let DerivePlan::Struct(plan) = plan else { panic!("expected a struct plan") };

    assert_eq!(plan.name, "Query");
    assert_eq!(plan.unknown_fields, None);
    assert_eq!(plan.validate.as_deref(), Some("check"));
    assert_eq!(plan.decode_order(), vec![1, 2, 0]);
    assert_eq!(plan.fields[0].decode_call(), Ok(DecodeCall::Rest));

    let metadata = plan.metadata_fields();
    let names: Vec<&str> = metadata.iter().map(|m| m.name.as_str()).collect();
    assert_eq!(names, vec!["searchTerm", "page"]);
    assert!(metadata[0].required);
    assert!(!metadata[1].required);
    assert_eq!(plan.field_bounds(), vec![(1, false), (2, false)]);
}

#[test]
fn struct_level_rules_are_checked_in_order() {
    let rest = || field("extra", path("ExtraFields"), vec![schema(vec![flag("rest")])]);

    assert_eq!(
        derive_struct(Vec::new(), vec![rest(), rest()]).err(),
        Some("Schema can contain only one `rest` field".to_owned())
    );
    assert_eq!(
        derive_struct(vec![schema(vec![assign("unknown_fields", "reject")])], vec![rest()]).err(),
        Some("`unknown_fields` cannot be combined with a `rest` field".to_owned())
    );
    assert_eq!(
        derive_struct(vec![schema(vec![assign("unknown_fields", "keep")])], Vec::new()).err(),
        Some("unsupported unknown_fields policy `keep`; expected `reject` or `ignore`".to_owned())
    );
    assert_eq!(
        derive_struct(vec![schema(vec![assign("rename_all", "Title Case")])], Vec::new()).err(),
        Some("unsupported rename_all rule `Title Case`".to_owned())
    );

    let DerivePlan::Struct(plan) = derive_struct(vec![schema(vec![assign("unknown_fields", "ignore")])], Vec::new())
        .unwrap()
    else {
        panic!("expected a struct plan")
    };
    assert_eq!(plan.unknown_fields, Some(UnknownFields::Ignore));
}

#[test]
fn only_named_structs_and_unit_enums_derive() {
    let tuple = expand(DeriveInput { ident: "Pair".to_owned(), attributes: Vec::new(), data: Data::Struct(Fields::Unnamed) });
    assert_eq!(tuple.err(), Some("Schema requires a struct with named fields".to_owned()));

    let union = expand(DeriveInput { ident: "Bits".to_owned(), attributes: Vec::new(), data: Data::Union });
    assert_eq!(union.err(), Some("Schema cannot be derived for a union".to_owned()));

    let data = Variant {
        ident: "Data".to_owned(),
        fields: Fields::Named(vec![field("value", path("u32"), Vec::new())]),
        attributes: Vec::new(),
    };
    let enumeration =
        expand(DeriveInput { ident: "Kind".to_owned(), attributes: Vec::new(), data: Data::Enum(vec![data]) });
    assert_eq!(enumeration.err(), Some("Schema enums can contain only unit variants".to_owned()));
}

#[test]
fn enum_plans_rename_variants_and_decode_their_text() {
    let plan = expand(DeriveInput {
        ident: "Status".to_owned(),
        attributes: vec![schema(vec![assign("rename_all", "kebab-case")])],
        data: Data::Enum(vec![
            unit("InProgress", Vec::new()),
            unit("Done", vec![schema(vec![assign("rename", "finished")])]),
        ]),
    })
    .unwrap();
    let DerivePlan::Enum(plan) = plan else { panic!("expected an enum plan") };

    assert_eq!(plan.values(), vec!["in-progress".to_owned(), "finished".to_owned()]);
    assert_eq!(plan.decode_value(b"finished"), Ok(1));
    assert_eq!(plan.decode_value(b"in-progress"), Ok(0));
    assert_eq!(plan.decode_value(b"Done"), Err("must be one of the declared enum values".to_owned()));
    assert_eq!(plan.decode_value(&[0xff]), Err("must be valid UTF-8".to_owned()));
}

#[test]
fn nested_fields_may_repeat_and_take_defaults() {
    let plan = derive_struct(
        Vec::new(),
        vec![
            field("filters", generic("Vec", path("Filter")), vec![schema(vec![flag("nested")])]),
            field("paging", path("Paging"), vec![schema(vec![flag("nested"), flag("default")])]),
        ],
    )
    .unwrap();
    let DerivePlan::Struct(plan) = plan else { panic!("expected a struct plan") };

    assert_eq!(plan.fields[0].decode_call(), Ok(DecodeCall::RepeatedNested));
    assert_eq!(plan.fields[1].decode_call(), Ok(DecodeCall::DefaultedNested));
    assert_eq!(plan.field_bounds(), vec![(0, true), (1, true)]);
    let metadata = plan.metadata_fields();
    assert!(metadata[0].array && metadata[0].nested && !metadata[0].required);
    assert!(!metadata[1].required);
}

#[test]
fn tagged_enums_carry_named_fields_under_their_tag() {
    let plan = expand(DeriveInput {
        ident: "Selection".to_owned(),
        attributes: vec![schema(vec![assign("tag", "type"), assign("rename_all", "snake_case")])],
        data: Data::Enum(vec![
            unit("All", Vec::new()),
            Variant {
                ident: "Range".to_owned(),
                fields: Fields::Named(vec![field("start", path("u32"), Vec::new()), field("end", path("u32"), Vec::new())]),
                attributes: Vec::new(),
            },
        ]),
    })
    .unwrap();
    let DerivePlan::Enum(plan) = plan else { panic!("expected an enum plan") };

    assert_eq!(plan.tag.as_deref(), Some("type"));
    assert_eq!(plan.values(), vec!["all".to_owned(), "range".to_owned()]);
    assert_eq!(plan.decode_value(b"range"), Ok(1));
    assert!(plan.variants[0].fields.is_empty());
    let names: Vec<String> = plan.variants[1].metadata_fields().into_iter().map(|m| m.name).collect();
    assert_eq!(names, vec!["start".to_owned(), "end".to_owned()]);
    assert_eq!(plan.variants[1].decode_order(), vec![0, 1]);

    let tuple = expand(DeriveInput {
        ident: "Selection".to_owned(),
        attributes: vec![schema(vec![assign("tag", "type")])],
        data: Data::Enum(vec![Variant { ident: "Pair".to_owned(), fields: Fields::Unnamed, attributes: Vec::new() }]),
    });
    assert_eq!(
        tuple.err(),
        Some("tagged Schema enums can contain only unit variants and variants with named fields".to_owned())
    );
}

#[test]
fn field_formats_are_published_in_metadata() {
    let plan = derive_struct(
        Vec::new(),
        vec![
            field("address", path("IpAddr"), Vec::new()),
            field("identifier", path("String"), vec![schema(vec![assign("format", "uuid")])]),
        ],
    )
    .unwrap();
    let DerivePlan::Struct(plan) = plan else { panic!("expected a struct plan") };
    let metadata = plan.metadata_fields();

    assert_eq!(metadata[0].format, None);
    assert_eq!(metadata[1].format.as_deref(), Some("uuid"));
}

#[test]
fn kebab_case_enums_keep_explicit_variant_names() {
    let plan = expand(DeriveInput {
        ident: "Mode".to_owned(),
        attributes: vec![schema(vec![assign("rename_all", "kebab-case")])],
        data: Data::Enum(vec![unit("FastMode", Vec::new()), unit("SafeMode", vec![schema(vec![assign("rename", "safe")])])]),
    })
    .unwrap();
    let DerivePlan::Enum(plan) = plan else { panic!("expected an enum plan") };

    assert_eq!(plan.tag, None);
    assert_eq!(plan.values(), vec!["fast-mode".to_owned(), "safe".to_owned()]);
    assert_eq!(plan.decode_value(b"fast-mode"), Ok(0));
    assert_eq!(plan.decode_value(b"SafeMode"), Err("must be one of the declared enum values".to_owned()));
}

#[test]
fn field_bounds_are_published_and_checked_after_decoding() {
    let entries = vec![
        assign("minimum", "1"),
        assign("maximum", "10"),
        assign("min_length", "2"),
        assign("max_length", "8"),
        assign("validate", "check_name"),
    ];
    let parsed = FieldSchema::parse(field("name", generic("Option", path("String")), vec![schema(entries)]), RenameAll::Keep)
        .unwrap();
    let metadata = parsed.metadata();
    assert_eq!(metadata.minimum.as_deref(), Some("1"));
    assert_eq!(metadata.maximum.as_deref(), Some("10"));
    assert_eq!(metadata.minimum_length.as_deref(), Some("2"));
    assert_eq!(metadata.maximum_length.as_deref(), Some("8"));

    let checks = parsed.checks();
    assert!(checks.inside_option);
    let kinds: Vec<(CheckKind, &str)> = checks.checks.iter().map(|(kind, text)| (*kind, text.as_str())).collect();
    assert_eq!(
        kinds,
        vec![
            (CheckKind::Minimum, "1"),
            (CheckKind::Maximum, "10"),
            (CheckKind::MinimumLength, "2"),
            (CheckKind::MaximumLength, "8"),
            (CheckKind::Validate, "check_name"),
        ]
    );

    let plain = FieldSchema::parse(field("page", path("u32"), Vec::new()), RenameAll::Keep).unwrap();
    assert!(plain.checks().checks.is_empty());
    assert!(!plain.checks().inside_option);
    assert!(plain.metadata().minimum.is_none());
}
