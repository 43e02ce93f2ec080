//! Schema metadata, validation issues, and the options that steer decoding.

use vstd::prelude::*;
use crate::text::{chars_of, string_of, push_str, push_all, decimal};
use crate::openapi::{doc_string, ParameterLocation, ExpandedParameter, ParamView, params_view};

verus! {

/// What happens to input names a schema does not declare.
#[derive(Debug, Clone, Copy, PartialEq, Eq, Structural)]
pub enum UnknownFields {
    Reject,
    Ignore,
}

/// Options for decoding a schema.
#[derive(Debug, Clone, Copy, PartialEq, Eq, Structural)]
pub struct DecodeOptions {
    unknown_fields: UnknownFields,
}

impl DecodeOptions {
    pub closed spec fn spec_unknown_fields(&self) -> UnknownFields {
        self.unknown_fields
    }

    pub fn new(unknown_fields: UnknownFields) -> (r: DecodeOptions)
        ensures
            r.spec_unknown_fields() == unknown_fields,
    {
        DecodeOptions { unknown_fields }
    }

    /// Reports every undeclared name.
    pub fn reject_unknown() -> (r: DecodeOptions)
        ensures
            r.spec_unknown_fields() == UnknownFields::Reject,
    {
        Self::new(UnknownFields::Reject)
    }

    /// Accepts and discards undeclared names.
    pub fn ignore_unknown() -> (r: DecodeOptions)
        ensures
            r.spec_unknown_fields() == UnknownFields::Ignore,
    {
        Self::new(UnknownFields::Ignore)
    }

    pub fn unknown_fields(self) -> (r: UnknownFields)
        ensures
            r == self.spec_unknown_fields(),
    {
        self.unknown_fields
    }
}

impl Default for DecodeOptions {
    fn default() -> (r: DecodeOptions)
        ensures
            r.spec_unknown_fields() == UnknownFields::Reject,
    {
        Self::reject_unknown()
    }
}

/// The shape of a schema, as OpenAPI describes it.
#[derive(Debug, PartialEq)]
pub enum SchemaKind {
    String,
    Integer,
    Number,
    Boolean,
    Bytes,
    Object(Vec<SchemaField>),
    Enum(Vec<String>),
    Array(Box<SchemaMetadata>),
    Literal(String),
    OneOf(Vec<SchemaMetadata>),
}

/// A schema's kind with its optional name, format and discriminator.
#[derive(Debug, PartialEq)]
pub struct SchemaMetadata {
    name: Option<String>,
    kind: SchemaKind,
    format: Option<String>,
    discriminator: Option<String>,
}

/// Borrows the text of an optional string.
fn opt_str(o: &Option<String>) -> (r: Option<&str>)
    ensures
        match o {
            Some(s) => r matches Some(t) && t@ == s@,
            None => r is None,
        },
{
    match o {
        Some(s) => Some(s.as_str()),
        None => None,
    }
}

impl SchemaMetadata {
    pub closed spec fn spec_name(&self) -> Option<Seq<char>> {
        opt_view(self.name)
    }

    pub closed spec fn spec_kind(&self) -> SchemaKind {
        self.kind
    }

    pub closed spec fn spec_format(&self) -> Option<Seq<char>> {
        opt_view(self.format)
    }

    pub closed spec fn spec_discriminator(&self) -> Option<Seq<char>> {
        opt_view(self.discriminator)
    }

    /// An unnamed schema of `kind`.
    pub fn new(kind: SchemaKind) -> (r: SchemaMetadata)
        ensures
            r.spec_name() is None,
            r.spec_kind() == kind,
            r.spec_format() is None,
            r.spec_discriminator() is None,
    {
        SchemaMetadata { name: None, kind, format: None, discriminator: None }
    }

    /// A schema of `kind` published under `name`.
    pub fn named(name: String, kind: SchemaKind) -> (r: SchemaMetadata)
        ensures
            r.spec_name() == Some(name@),
            r.spec_kind() == kind,
            r.spec_format() is None,
            r.spec_discriminator() is None,
    {
        SchemaMetadata { name: Some(name), kind, format: None, discriminator: None }
    }

    /// An unnamed array whose items follow `items`.
    pub fn array(items: SchemaMetadata) -> (r: SchemaMetadata)
        ensures
            r.spec_name() is None,
            r.spec_kind() == SchemaKind::Array(Box::new(items)),
            r.spec_format() is None,
            r.spec_discriminator() is None,
    {
        Self::new(SchemaKind::Array(Box::new(items)))
    }

    pub fn name(&self) -> (r: Option<&str>)
        ensures
            match self.spec_name() {
                Some(n) => r matches Some(t) && t@ == n,
                None => r is None,
            },
    {
        opt_str(&self.name)
    }

    /// The same schema with `format` as its format.
    pub fn format(self, format: String) -> (r: SchemaMetadata)
        ensures
            r.spec_name() == self.spec_name(),
            r.spec_kind() == self.spec_kind(),
            r.spec_format() == Some(format@),
            r.spec_discriminator() == self.spec_discriminator(),
    {
        let mut m = self;
        m.format = Some(format);
        m
    }

    /// The same schema discriminated by `property`.
    pub fn discriminator(self, property: String) -> (r: SchemaMetadata)
        ensures
            r.spec_name() == self.spec_name(),
            r.spec_kind() == self.spec_kind(),
            r.spec_format() == self.spec_format(),
            r.spec_discriminator() == Some(property@),
    {
        let mut m = self;
        m.discriminator = Some(property);
        m
    }

    pub fn kind(&self) -> (r: &SchemaKind)
        ensures
            *r == self.spec_kind(),
    {
        &self.kind
    }

    pub fn format_value(&self) -> (r: Option<&str>)
        ensures
            match self.spec_format() {
                Some(n) => r matches Some(t) && t@ == n,
                None => r is None,
            },
    {
        opt_str(&self.format)
    }

    pub fn discriminator_property(&self) -> (r: Option<&str>)
        ensures
            match self.spec_discriminator() {
                Some(n) => r matches Some(t) && t@ == n,
                None => r is None,
            },
    {
        opt_str(&self.discriminator)
    }
}

/// One named field of an object schema, with its bounds.
#[derive(Debug, PartialEq)]
pub struct SchemaField {
    name: String,
    schema: SchemaMetadata,
    required: bool,
    minimum: Option<String>,
    maximum: Option<String>,
    minimum_length: Option<usize>,
    maximum_length: Option<usize>,
}

impl SchemaField {
    pub closed spec fn spec_name(&self) -> Seq<char> {
        self.name@
    }

    pub closed spec fn spec_schema(&self) -> SchemaMetadata {
        self.schema
    }

    pub closed spec fn spec_required(&self) -> bool {
        self.required
    }

    pub closed spec fn spec_minimum(&self) -> Option<Seq<char>> {
        opt_view(self.minimum)
    }

    pub closed spec fn spec_maximum(&self) -> Option<Seq<char>> {
        opt_view(self.maximum)
    }

    pub closed spec fn spec_minimum_length(&self) -> Option<usize> {
        self.minimum_length
    }

    pub closed spec fn spec_maximum_length(&self) -> Option<usize> {
        self.maximum_length
    }

    /// A field with no bounds.
    pub fn new(name: String, schema: SchemaMetadata, required: bool) -> (r: SchemaField)
        ensures
            r.spec_name() == name@,
            r.spec_schema() == schema,
            r.spec_required() == required,
            r.spec_minimum() is None,
            r.spec_maximum() is None,
            r.spec_minimum_length() is None,
            r.spec_maximum_length() is None,
    {
        SchemaField {
            name,
            schema,
            required,
            minimum: None,
            maximum: None,
            minimum_length: None,
            maximum_length: None,
        }
    }

    /// The same field with `minimum` (its decimal text) as lower bound.
    pub fn minimum(self, minimum: String) -> (r: SchemaField)
        ensures
            r.spec_minimum() == Some(minimum@),
            r.spec_name() == self.spec_name(),
            r.spec_schema() == self.spec_schema(),
            r.spec_required() == self.spec_required(),
            r.spec_maximum() == self.spec_maximum(),
            r.spec_minimum_length() == self.spec_minimum_length(),
            r.spec_maximum_length() == self.spec_maximum_length(),
    {
        let mut f = self;
        f.minimum = Some(minimum);
        f
    }

    /// The same field with `maximum` (its decimal text) as upper bound.
    pub fn maximum(self, maximum: String) -> (r: SchemaField)
        ensures
            r.spec_maximum() == Some(maximum@),
            r.spec_name() == self.spec_name(),
            r.spec_schema() == self.spec_schema(),
            r.spec_required() == self.spec_required(),
            r.spec_minimum() == self.spec_minimum(),
            r.spec_minimum_length() == self.spec_minimum_length(),
            r.spec_maximum_length() == self.spec_maximum_length(),
    {
        let mut f = self;
        f.maximum = Some(maximum);
        f
    }

    pub fn minimum_length(self, minimum: usize) -> (r: SchemaField)
        ensures
            r.spec_minimum_length() == Some(minimum),
            r.spec_name() == self.spec_name(),
            r.spec_schema() == self.spec_schema(),
            r.spec_required() == self.spec_required(),
            r.spec_minimum() == self.spec_minimum(),
            r.spec_maximum() == self.spec_maximum(),
            r.spec_maximum_length() == self.spec_maximum_length(),
    {
        let mut f = self;
        f.minimum_length = Some(minimum);
        f
    }

    pub fn maximum_length(self, maximum: usize) -> (r: SchemaField)
        ensures
            r.spec_maximum_length() == Some(maximum),
            r.spec_name() == self.spec_name(),
            r.spec_schema() == self.spec_schema(),
            r.spec_required() == self.spec_required(),
            r.spec_minimum() == self.spec_minimum(),
            r.spec_maximum() == self.spec_maximum(),
            r.spec_minimum_length() == self.spec_minimum_length(),
    {
        let mut f = self;
        f.maximum_length = Some(maximum);
        f
    }

    pub fn name(&self) -> (r: &str)
        ensures
            r@ == self.spec_name(),
    {
        self.name.as_str()
    }

    pub fn schema(&self) -> (r: &SchemaMetadata)
        ensures
            *r == self.spec_schema(),
    {
        &self.schema
    }

    pub fn required(&self) -> (r: bool)
        ensures
            r == self.spec_required(),
    {
        self.required
    }

    pub fn minimum_value(&self) -> (r: Option<&str>)
        ensures
            match self.spec_minimum() {
                Some(n) => r matches Some(t) && t@ == n,
                None => r is None,
            },
    {
        opt_str(&self.minimum)
    }

    pub fn maximum_value(&self) -> (r: Option<&str>)
        ensures
            match self.spec_maximum() {
                Some(n) => r matches Some(t) && t@ == n,
                None => r is None,
            },
    {
        opt_str(&self.maximum)
    }

    pub fn minimum_length_value(&self) -> (r: Option<usize>)
        ensures
            r == self.spec_minimum_length(),
    {
        self.minimum_length
    }

    pub fn maximum_length_value(&self) -> (r: Option<usize>)
        ensures
            r == self.spec_maximum_length(),
    {
        self.maximum_length
    }
}

/// The JSON schema object of `m`.
pub closed spec fn schema_json(m: SchemaMetadata) -> Seq<char>
    decreases m, 0int,
{
    seq!['{'] + kind_json(m.kind) + seq!['}']
}

/// The members describing a schema kind.
pub open spec fn kind_json(k: SchemaKind) -> Seq<char>
    decreases k, 0int,
{
    match k {
        SchemaKind::String => "\"type\":\"string\""@,
        SchemaKind::Integer => "\"type\":\"integer\""@,
        SchemaKind::Number => "\"type\":\"number\""@,
        SchemaKind::Boolean => "\"type\":\"boolean\""@,
        SchemaKind::Bytes => "\"type\":\"string\",\"format\":\"binary\""@,
        SchemaKind::Enum(values) => "\"type\":\"string\",\"enum\":["@ + strings_json(values@) + seq![']'],
        SchemaKind::Array(items) => "\"type\":\"array\",\"items\":"@ + schema_json(*items),
        SchemaKind::Object(fields) => "\"type\":\"object\",\"properties\":{"@ + properties_json(fields@) + seq!['}']
            + required_json(fields@),
        SchemaKind::Literal(value) => "\"type\":\"string\",\"const\":"@ + doc_string(value@),
        SchemaKind::OneOf(options) => "\"oneOf\":["@ + schemas_json(options@) + seq![']'],
    }
}

/// String literals separated by commas.
pub open spec fn strings_json(values: Seq<String>) -> Seq<char>
    decreases values.len(),
{
    if values.len() == 0 {
        Seq::empty()
    } else {
        strings_json(values.drop_last()) + (if values.len() > 1 { seq![','] } else { Seq::empty() }) + doc_string(values.last()@)
    }
}

/// Schemas separated by commas.
pub open spec fn schemas_json(options: Seq<SchemaMetadata>) -> Seq<char>
    decreases options, 0int,
{
    if options.len() == 0 {
        Seq::empty()
    } else {
        schemas_json(options.drop_last()) + (if options.len() > 1 { seq![','] } else { Seq::empty() })
            + schema_json(options.last())
    }
}

/// `"name":schema` for each field, separated by commas.
pub open spec fn properties_json(fields: Seq<SchemaField>) -> Seq<char>
    decreases fields, 0int,
{
    if fields.len() == 0 {
        Seq::empty()
    } else {
        properties_json(fields.drop_last()) + (if fields.len() > 1 { seq![','] } else { Seq::empty() })
            + doc_string(fields.last().spec_name()) + seq![':'] + field_json(fields.last())
    }
}

/// The names of the required fields, in order.
pub open spec fn required_names(fields: Seq<SchemaField>) -> Seq<Seq<char>>
    decreases fields.len(),
{
    if fields.len() == 0 {
        Seq::empty()
    } else if fields.last().spec_required() {
        required_names(fields.drop_last()).push(fields.last().spec_name())
    } else {
        required_names(fields.drop_last())
    }
}

/// String literals of `names` separated by commas.
pub open spec fn names_json(names: Seq<Seq<char>>) -> Seq<char>
    decreases names.len(),
{
    if names.len() == 0 {
        Seq::empty()
    } else {
        names_json(names.drop_last()) + (if names.len() > 1 { seq![','] } else { Seq::empty() }) + doc_string(names.last())
    }
}

/// The `required` member, present when some field is required.
pub open spec fn required_json(fields: Seq<SchemaField>) -> Seq<char> {
    if required_names(fields).len() == 0 {
        Seq::empty()
    } else {
        ",\"required\":["@ + names_json(required_names(fields)) + seq![']']
    }
}

/// The bounds of a field as schema members.
pub open spec fn bounds_json(f: SchemaField) -> Seq<char> {
    (match f.spec_minimum() { Some(m) => ",\"minimum\":"@ + m, None => Seq::empty() })
        + (match f.spec_maximum() { Some(m) => ",\"maximum\":"@ + m, None => Seq::empty() })
        + (match f.spec_minimum_length() { Some(m) => ",\"minLength\":"@ + decimal(m as nat), None => Seq::empty() })
        + (match f.spec_maximum_length() { Some(m) => ",\"maxLength\":"@ + decimal(m as nat), None => Seq::empty() })
}

/// A field's schema with its bounds.
pub closed spec fn field_json(f: SchemaField) -> Seq<char>
    decreases f, 1int,
{
    schema_json(f.schema).drop_last() + bounds_json(f) + seq!['}']
}


/// The JSON schema object of a schema is its kind's members in braces.
pub proof fn lemma_schema_json(m: SchemaMetadata)
    ensures
        schema_json(m) == seq!['{'] + kind_json(m.spec_kind()) + seq!['}'],
{
}

/// A field's schema object carries its bounds before the closing brace.
pub proof fn lemma_field_json(f: SchemaField)
    ensures
        field_json(f) == schema_json(f.spec_schema()).drop_last() + bounds_json(f) + seq!['}'],
{
}

/// Appends the JSON schema object of `m`.
pub fn render_schema(out: &mut Vec<char>, m: &SchemaMetadata)
    ensures
        final(out)@ == old(out)@ + schema_json(*m),
    decreases m, 0int,
{
    out.push('{');
    render_kind(out, &m.kind);
    out.push('}');
}

fn render_strings(out: &mut Vec<char>, values: &Vec<String>)
    ensures
        final(out)@ == old(out)@ + strings_json(values@),
{
    let ghost head = out@;
    let mut i: usize = 0;
    assert(values@.take(0) =~= Seq::<String>::empty());
    while i < values.len()
        invariant
            i <= values@.len(),
            out@ == head + strings_json(values@.take(i as int)),
        decreases values@.len() - i,
    {
        assert(values@.take(i + 1).drop_last() =~= values@.take(i as int));
        crate::openapi::comma(out, i);
        let v = chars_of(values[i].as_str());
        crate::openapi::string(out, v.as_slice());
        i += 1;
    }
    assert(values@.take(values@.len() as int) =~= values@);
}

fn render_properties(out: &mut Vec<char>, fields: &Vec<SchemaField>)
    ensures
        final(out)@ == old(out)@ + properties_json(fields@),
    decreases fields, 0int,
{
    let ghost head = out@;
    let mut i: usize = 0;
    assert(fields@.take(0) =~= Seq::<SchemaField>::empty());
    while i < fields.len()
        invariant
            i <= fields@.len(),
            out@ == head + properties_json(fields@.take(i as int)),
        decreases fields@.len() - i,
    {
        assert(fields@.take(i + 1).drop_last() =~= fields@.take(i as int));
        crate::openapi::comma(out, i);
        let name = chars_of(fields[i].name.as_str());
        crate::openapi::string(out, name.as_slice());
        out.push(':');
        proof {
            assert(decreases_to!(*fields => (*fields)@));
            assert(decreases_to!((*fields)@ => (*fields)@[i as int]));
        }
        render_field_schema(out, &fields[i]);
        i += 1;
    }
    assert(fields@.take(fields@.len() as int) =~= fields@);
}

fn render_required(out: &mut Vec<char>, fields: &Vec<SchemaField>)
    ensures
        final(out)@ == old(out)@ + required_json(fields@),
{
    let mut any = false;
    let mut j: usize = 0;
    let mut names: Vec<char> = Vec::new();
    assert(fields@.take(0) =~= Seq::<SchemaField>::empty());
    while j < fields.len()
        invariant
            j <= fields@.len(),
            any == (required_names(fields@.take(j as int)).len() > 0),
            names@ == names_json(required_names(fields@.take(j as int))),
        decreases fields@.len() - j,
    {
        let ghost prev = fields@.take(j as int);
        assert(fields@.take(j + 1).drop_last() =~= prev);
        assert(fields@.take(j + 1).last() == fields@[j as int]);
        if fields[j].required {
            if any {
                names.push(',');
            }
            let name = chars_of(fields[j].name.as_str());
            crate::openapi::string(&mut names, name.as_slice());
            any = true;
            assert(required_names(fields@.take(j + 1)) == required_names(prev).push(fields@[j as int].spec_name()));
            assert(required_names(prev).push(fields@[j as int].spec_name()).drop_last() =~= required_names(prev));
        } else {
            assert(required_names(fields@.take(j + 1)) == required_names(prev));
        }
        j += 1;
    }
    assert(fields@.take(fields@.len() as int) =~= fields@);
    if any {
        push_str(out, ",\"required\":[");
        push_all(out, names.as_slice());
        out.push(']');
    } else {
        assert(old(out)@ + Seq::<char>::empty() =~= old(out)@);
    }
}

fn render_options(out: &mut Vec<char>, options: &Vec<SchemaMetadata>)
    ensures
        final(out)@ == old(out)@ + schemas_json(options@),
    decreases options, 0int,
{
    let ghost head = out@;
    let mut i: usize = 0;
    assert(options@.take(0) =~= Seq::<SchemaMetadata>::empty());
    while i < options.len()
        invariant
            i <= options@.len(),
            out@ == head + schemas_json(options@.take(i as int)),
        decreases options@.len() - i,
    {
        assert(options@.take(i + 1).drop_last() =~= options@.take(i as int));
        crate::openapi::comma(out, i);
        proof {
            assert(decreases_to!(*options => (*options)@));
            assert(decreases_to!((*options)@ => (*options)@[i as int]));
        }
        render_schema(out, &options[i]);
        i += 1;
    }
    assert(options@.take(options@.len() as int) =~= options@);
}

fn render_kind(out: &mut Vec<char>, k: &SchemaKind)
    ensures
        final(out)@ == old(out)@ + kind_json(*k),
    decreases k, 0int,
{
    match k {
        SchemaKind::String => push_str(out, "\"type\":\"string\""),
        SchemaKind::Integer => push_str(out, "\"type\":\"integer\""),
        SchemaKind::Number => push_str(out, "\"type\":\"number\""),
        SchemaKind::Boolean => push_str(out, "\"type\":\"boolean\""),
        SchemaKind::Bytes => push_str(out, "\"type\":\"string\",\"format\":\"binary\""),
        SchemaKind::Enum(values) => {
            push_str(out, "\"type\":\"string\",\"enum\":[");
            render_strings(out, values);
            out.push(']');
        },
        SchemaKind::Array(items) => {
            push_str(out, "\"type\":\"array\",\"items\":");
            render_schema(out, items);
        },
        SchemaKind::Object(fields) => {
            push_str(out, "\"type\":\"object\",\"properties\":{");
            render_properties(out, fields);
            out.push('}');
            render_required(out, fields);
        },
        SchemaKind::Literal(value) => {
            push_str(out, "\"type\":\"string\",\"const\":");
            let v = chars_of(value.as_str());
            crate::openapi::string(out, v.as_slice());
        },
        SchemaKind::OneOf(options) => {
            push_str(out, "\"oneOf\":[");
            render_options(out, options);
            out.push(']');
        },
    }
}

fn push_bound_text(out: &mut Vec<char>, label: &str, value: Option<&str>)
    ensures
        final(out)@ == old(out)@ + match value { Some(v) => label@ + v@, None => Seq::<char>::empty() },
{
    match value {
        Some(v) => {
            push_str(out, label);
            push_str(out, v);
            assert(final(out)@ =~= old(out)@ + (label@ + v@));
        },
        None => {
            assert(old(out)@ + Seq::<char>::empty() =~= old(out)@);
        },
    }
}

fn push_bound_length(out: &mut Vec<char>, label: &str, value: Option<usize>)
    ensures
        final(out)@ == old(out)@ + match value { Some(v) => label@ + decimal(v as nat), None => Seq::<char>::empty() },
{
    match value {
        Some(v) => {
            push_str(out, label);
            let d = crate::text::decimal_text(v as u128);
            push_all(out, d.as_slice());
            assert(final(out)@ =~= old(out)@ + (label@ + decimal(v as nat)));
        },
        None => {
            assert(old(out)@ + Seq::<char>::empty() =~= old(out)@);
        },
    }
}

/// Appends a field's schema object with its bounds.
#[verifier::rlimit(60)]
pub fn render_field_schema(out: &mut Vec<char>, f: &SchemaField)
    ensures
        final(out)@ == old(out)@ + field_json(*f),
    decreases f, 1int,
{
    let mut schema: Vec<char> = Vec::new();
    render_schema(&mut schema, &f.schema);
    schema.pop();
    assert(schema@ =~= schema_json(f.schema).drop_last());
    push_all(out, schema.as_slice());
    let ghost base = out@;
    let minimum = match &f.minimum { Some(m) => Some(m.as_str()), None => None };
    push_bound_text(out, ",\"minimum\":", minimum);
    let maximum = match &f.maximum { Some(m) => Some(m.as_str()), None => None };
    push_bound_text(out, ",\"maximum\":", maximum);
    push_bound_length(out, ",\"minLength\":", f.minimum_length);
    push_bound_length(out, ",\"maxLength\":", f.maximum_length);
    proof {
        let x1 = match f.spec_minimum() { Some(m) => ",\"minimum\":"@ + m, None => Seq::<char>::empty() };
        let x2 = match f.spec_maximum() { Some(m) => ",\"maximum\":"@ + m, None => Seq::<char>::empty() };
        let x3 = match f.spec_minimum_length() { Some(m) => ",\"minLength\":"@ + decimal(m as nat), None => Seq::<char>::empty() };
        let x4 = match f.spec_maximum_length() { Some(m) => ",\"maxLength\":"@ + decimal(m as nat), None => Seq::<char>::empty() };
        assert(out@ == base + x1 + x2 + x3 + x4);
        assert(base + x1 + x2 + x3 + x4 =~= base + (x1 + x2 + x3 + x4));
    }
    out.push('}');
}


/// `prefix.name`, or `name` at the top level.
pub open spec fn joined_name(prefix: Seq<char>, name: Seq<char>) -> Seq<char> {
    if prefix.len() == 0 { name } else { prefix + seq!['.'] + name }
}

/// The parameters an object's fields stand for, nested objects flattened
/// into dotted names.
pub closed spec fn flat_params(location: ParameterLocation, prefix: Seq<char>, fields: Seq<SchemaField>) -> Seq<ParamView>
    decreases fields, 0int,
{
    if fields.len() == 0 {
        Seq::empty()
    } else {
        flat_params(location, prefix, fields.drop_last()) + field_params(location, prefix, fields.last())
    }
}

/// The parameters one field stands for.
pub closed spec fn field_params(location: ParameterLocation, prefix: Seq<char>, f: SchemaField) -> Seq<ParamView>
    decreases f, 1int,
{
    let name = joined_name(prefix, f.name@);
    match f.schema.kind {
        SchemaKind::Object(nested) => flat_params(location, name, nested@),
        _ => seq![(name, location, location == ParameterLocation::Path || f.required, field_json(f))],
    }
}

/// Appends the parameters of `fields`, nested objects flattened into
/// dotted names under `prefix`.
pub fn flatten_fields(out: &mut Vec<ExpandedParameter>, location: ParameterLocation, prefix: &[char], fields: &Vec<SchemaField>)
    ensures
        params_view(final(out)@) == params_view(old(out)@) + flat_params(location, prefix@, fields@),
    decreases fields, 0int,
{
    let ghost head = params_view(out@);
    let mut i: usize = 0;
    assert(fields@.take(0) =~= Seq::<SchemaField>::empty());
    assert(head + flat_params(location, prefix@, fields@.take(0)) =~= head);
    while i < fields.len()
        invariant
            i <= fields@.len(),
            params_view(out@) == head + flat_params(location, prefix@, fields@.take(i as int)),
        decreases fields@.len() - i,
    {
        assert(fields@.take(i + 1).drop_last() =~= fields@.take(i as int));
        let f = &fields[i];
        let mut name: Vec<char> = Vec::new();
        if prefix.len() > 0 {
            crate::text::push_all(&mut name, prefix);
            name.push('.');
        }
        push_str(&mut name, f.name.as_str());
        assert(name@ =~= joined_name(prefix@, f.name@));
        let ghost before = params_view(out@);
        match &f.schema.kind {
            SchemaKind::Object(nested) => {
                proof {
                    assert(decreases_to!(*fields => (*fields)@));
                    assert(decreases_to!((*fields)@ => (*fields)@[i as int]));
                    assert(decreases_to!((*fields)@[i as int] => f.schema));
                    assert(decreases_to!(f.schema => f.schema.kind));
                    assert(decreases_to!(f.schema.kind => *nested));
                }
                flatten_fields(out, location, name.as_slice(), nested);
            },
            _ => {
                let mut schema: Vec<char> = Vec::new();
                render_field_schema(&mut schema, f);
                let required = location == ParameterLocation::Path || f.required;
                out.push(ExpandedParameter { name, location, required, schema });
                assert(params_view(out@) =~= before.push((name@, location, required, field_json(*f))));
            },
        }
        assert(before + field_params(location, prefix@, fields@[i as int]) =~= params_view(out@));
        i += 1;
    }
    assert(fields@.take(fields@.len() as int) =~= fields@);
}

/// The rule a validation issue breaks.
#[derive(Debug, Clone, Copy, PartialEq, Eq, Structural)]
pub enum ValidationRule {
    Missing,
    UnknownField,
    Multiple,
    InvalidEncoding,
    InvalidType,
    Minimum,
    Maximum,
    MinimumLength,
    MaximumLength,
    Custom,
}

pub open spec fn rule_name(rule: ValidationRule) -> Seq<char> {
    match rule {
        ValidationRule::Missing => "missing"@,
        ValidationRule::UnknownField => "unknown_field"@,
        ValidationRule::Multiple => "multiple"@,
        ValidationRule::InvalidEncoding => "invalid_encoding"@,
        ValidationRule::InvalidType => "invalid_type"@,
        ValidationRule::Minimum => "minimum"@,
        ValidationRule::Maximum => "maximum"@,
        ValidationRule::MinimumLength => "minimum_length"@,
        ValidationRule::MaximumLength => "maximum_length"@,
        ValidationRule::Custom => "custom"@,
    }
}

impl ValidationRule {
    /// The rule's stable name, used as the default issue code.
    pub fn as_str(self) -> (s: &'static str)
        ensures
            s@ == rule_name(self),
    {
        match self {
            ValidationRule::Missing => "missing",
            ValidationRule::UnknownField => "unknown_field",
            ValidationRule::Multiple => "multiple",
            ValidationRule::InvalidEncoding => "invalid_encoding",
            ValidationRule::InvalidType => "invalid_type",
            ValidationRule::Minimum => "minimum",
            ValidationRule::Maximum => "maximum",
            ValidationRule::MinimumLength => "minimum_length",
            ValidationRule::MaximumLength => "maximum_length",
            ValidationRule::Custom => "custom",
        }
    }
}

/// One validation failure: the field (when known), the rule, an optional
/// application code, and a message.
#[derive(Debug, Clone, PartialEq, Eq)]
pub struct ValidationIssue {
    field: Option<String>,
    rule: ValidationRule,
    code: Option<String>,
    message: String,
}

pub open spec fn opt_view(o: Option<String>) -> Option<Seq<char>> {
    match o {
        Some(s) => Some(s@),
        None => None,
    }
}

/// `prefix.field`, or `prefix` when there is no field.
pub open spec fn prefixed_field(prefix: Seq<char>, field: Option<Seq<char>>) -> Seq<char> {
    match field {
        Some(f) => prefix + seq!['.'] + f,
        None => prefix,
    }
}

impl ValidationIssue {
    pub closed spec fn spec_field(&self) -> Option<Seq<char>> {
        opt_view(self.field)
    }

    pub closed spec fn spec_rule(&self) -> ValidationRule {
        self.rule
    }

    pub closed spec fn spec_code_override(&self) -> Option<Seq<char>> {
        opt_view(self.code)
    }

    pub closed spec fn spec_message(&self) -> Seq<char> {
        self.message@
    }

    /// The code reported for the issue: its own code, or the rule's name.
    pub open spec fn spec_code(&self) -> Seq<char> {
        match self.spec_code_override() {
            Some(c) => c,
            None => rule_name(self.spec_rule()),
        }
    }

    /// A custom issue with no field and no code.
    pub fn custom(message: String) -> (r: ValidationIssue)
        ensures
            r.spec_field() is None,
            r.spec_rule() == ValidationRule::Custom,
            r.spec_code_override() is None,
            r.spec_message() == message@,
    {
        ValidationIssue { field: None, rule: ValidationRule::Custom, code: None, message }
    }

    /// A custom issue with an application-specific code.
    pub fn coded(code: String, message: String) -> (r: ValidationIssue)
        ensures
            r.spec_field() is None,
            r.spec_rule() == ValidationRule::Custom,
            r.spec_code_override() == Some(code@),
            r.spec_message() == message@,
    {
        ValidationIssue { field: None, rule: ValidationRule::Custom, code: Some(code), message }
    }

    /// An issue for `field` breaking `rule`.
    pub fn new(field: Option<String>, rule: ValidationRule, message: String) -> (r: ValidationIssue)
        ensures
            r.spec_field() == opt_view(field),
            r.spec_rule() == rule,
            r.spec_code_override() is None,
            r.spec_message() == message@,
    {
        ValidationIssue { field, rule, code: None, message }
    }

    pub fn field(&self) -> (r: Option<&str>)
        ensures
            match self.spec_field() {
                Some(f) => r matches Some(s) && s@ == f,
                None => r is None,
            },
    {
        match &self.field {
            Some(f) => Some(f.as_str()),
            None => None,
        }
    }

    pub fn rule(&self) -> (r: ValidationRule)
        ensures
            r == self.spec_rule(),
    {
        self.rule
    }

    pub fn code(&self) -> (r: &str)
        ensures
            r@ == self.spec_code(),
    {
        match &self.code {
            Some(c) => c.as_str(),
            None => self.rule.as_str(),
        }
    }

    pub fn message(&self) -> (r: &str)
        ensures
            r@ == self.spec_message(),
    {
        self.message.as_str()
    }

    /// Sets the field when the issue has none.
    pub fn attach_field(self, field: &str) -> (r: ValidationIssue)
        ensures
            r.spec_field() == (match self.spec_field() {
                Some(f) => Some(f),
                None => Some(field@),
            }),
            r.spec_rule() == self.spec_rule(),
            r.spec_code_override() == self.spec_code_override(),
            r.spec_message() == self.spec_message(),
    {
        let mut issue = self;
        if issue.field.is_none() {
            issue.field = Some(string_of(chars_of(field).as_slice()));
        }
        issue
    }

    /// Puts `prefix.` in front of the field, or makes `prefix` the field.
    pub fn prefix_field(self, prefix: &str) -> (r: ValidationIssue)
        ensures
            r.spec_field() == Some(prefixed_field(prefix@, self.spec_field())),
            r.spec_rule() == self.spec_rule(),
            r.spec_code_override() == self.spec_code_override(),
            r.spec_message() == self.spec_message(),
    {
        let mut text = chars_of(prefix);
        match &self.field {
            Some(f) => {
                text.push('.');
                push_str(&mut text, f.as_str());
            },
            None => {},
        }
        let mut issue = self;
        issue.field = Some(string_of(text.as_slice()));
        issue
    }
}

/// The issues found while decoding, in the order they were found.
#[derive(Debug, Default, Clone, PartialEq, Eq)]
pub struct ValidationErrors {
    issues: Vec<ValidationIssue>,
}

impl ValidationErrors {
    pub closed spec fn spec_issues(&self) -> Seq<ValidationIssue> {
        self.issues@
    }

    pub fn new() -> (r: ValidationErrors)
        ensures
            r.spec_issues().len() == 0,
    {
        ValidationErrors { issues: Vec::new() }
    }

    pub fn from_issue(issue: ValidationIssue) -> (r: ValidationErrors)
        ensures
            r.spec_issues() == seq![issue],
    {
        let mut issues = Vec::new();
        issues.push(issue);
        ValidationErrors { issues }
    }

    pub fn issues(&self) -> (r: &[ValidationIssue])
        ensures
            r@ == self.spec_issues(),
    {
        self.issues.as_slice()
    }

    pub fn is_empty(&self) -> (r: bool)
        ensures
            r == (self.spec_issues().len() == 0),
    {
        self.issues.len() == 0
    }

    pub fn len(&self) -> (r: usize)
        ensures
            r == self.spec_issues().len(),
    {
        self.issues.len()
    }

    pub fn push(&mut self, issue: ValidationIssue)
        ensures
            final(self).spec_issues() == old(self).spec_issues().push(issue),
    {
        self.issues.push(issue);
    }

    /// Adds the issues of a nested schema, each field put under `prefix`.
    pub fn extend_nested(&mut self, prefix: &str, errors: ValidationErrors)
        ensures
            final(self).spec_issues().len() == old(self).spec_issues().len() + errors.spec_issues().len(),
            forall|i: int| 0 <= i < old(self).spec_issues().len() ==> #[trigger] final(self).spec_issues()[i] == old(self).spec_issues()[i],
            forall|i: int| 0 <= i < errors.spec_issues().len() ==> {
                let n = #[trigger] final(self).spec_issues()[old(self).spec_issues().len() + i];
                let e = errors.spec_issues()[i];
                &&& n.spec_field() == Some(prefixed_field(prefix@, e.spec_field()))
                &&& n.spec_rule() == e.spec_rule()
                &&& n.spec_code_override() == e.spec_code_override()
                &&& n.spec_message() == e.spec_message()
            },
    {
        let mut errors = errors;
        let ghost base = self.issues@;
        let ghost src = errors.issues@;
        let mut rev: Vec<ValidationIssue> = Vec::new();
        while errors.issues.len() > 0
            invariant
                errors.issues@ == src.take(errors.issues@.len() as int),
                errors.issues@.len() + rev@.len() == src.len(),
                forall|j: int| 0 <= j < rev@.len() ==> #[trigger] rev@[j] == src[src.len() - 1 - j],
                self.issues@ == base,
            decreases errors.issues@.len(),
        {
            let issue = errors.issues.pop().unwrap();
            rev.push(issue);
            assert(errors.issues@ =~= src.take(errors.issues@.len() as int));
        }
        while rev.len() > 0
            invariant
                rev@.len() <= src.len(),
                forall|j: int| 0 <= j < rev@.len() ==> #[trigger] rev@[j] == src[src.len() - 1 - j],
                self.issues@.len() == base.len() + src.len() - rev@.len(),
                forall|i: int| 0 <= i < base.len() ==> #[trigger] self.issues@[i] == base[i],
                forall|i: int| 0 <= i < src.len() - rev@.len() ==> {
                    let n = #[trigger] self.issues@[base.len() + i];
                    let e = src[i];
                    &&& n.spec_field() == Some(prefixed_field(prefix@, e.spec_field()))
                    &&& n.spec_rule() == e.spec_rule()
                    &&& n.spec_code_override() == e.spec_code_override()
                    &&& n.spec_message() == e.spec_message()
                },
            decreases rev@.len(),
        {
            let issue = rev.pop().unwrap();
            let prefixed = issue.prefix_field(prefix);
            self.issues.push(prefixed);
        }
    }
}

} // verus!
