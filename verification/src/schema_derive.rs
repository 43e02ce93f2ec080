//! The rules of the `Schema` derive: which `#[schema(..)]` attributes a
//! container, a field or a variant may carry, how each field is decoded, and
//! what metadata it publishes. A type definition is read into the plain values
//! below; the plan that comes out says what the generated impl does.

use vstd::prelude::*;
use crate::text::{str_equal, string_of, push_str, str_from_utf8};
use vstd::utf8::{valid_utf8, decode_utf8};

verus! {

/// One item inside `#[schema(..)]`: a bare key such as `rest`, or
/// `key = value`. The value is the text of the expression, or the contents of
/// the string literal for `rename`, `rename_all` and `unknown_fields`.
pub enum SchemaEntry {
    Flag(String),
    Assign(String, String),
}

/// An attribute on an item: its path, and the entries inside it.
pub struct Attribute {
    pub path: String,
    pub entries: Vec<SchemaEntry>,
}

/// How a missing field gets its value.
pub enum DefaultValue {
    /// `Default::default()`.
    Default,
    /// The given expression.
    Expression(String),
}

/// The `#[schema(..)]` settings found on one item.
pub struct Attributes {
    pub rename: Option<String>,
    pub rename_all: Option<String>,
    pub default: Option<DefaultValue>,
    pub minimum: Option<String>,
    pub maximum: Option<String>,
    pub minimum_length: Option<String>,
    pub maximum_length: Option<String>,
    pub validate: Option<String>,
    pub unknown_fields: Option<String>,
    pub format: Option<String>,
    pub tag: Option<String>,
    pub rest: bool,
    pub nested: bool,
}

/// The settings as values: a default is `None` for `Default::default()` and
/// `Some` of the expression's text otherwise.
pub struct AttributesView {
    pub rename: Option<Seq<char>>,
    pub rename_all: Option<Seq<char>>,
    pub default: Option<Option<Seq<char>>>,
    pub minimum: Option<Seq<char>>,
    pub maximum: Option<Seq<char>>,
    pub minimum_length: Option<Seq<char>>,
    pub maximum_length: Option<Seq<char>>,
    pub validate: Option<Seq<char>>,
    pub unknown_fields: Option<Seq<char>>,
    pub format: Option<Seq<char>>,
    pub tag: Option<Seq<char>>,
    pub rest: bool,
    pub nested: bool,
}

pub open spec fn text_of(o: Option<String>) -> Option<Seq<char>> {
    match o {
        Some(s) => Some(s@),
        None => None,
    }
}

pub open spec fn default_of(o: Option<DefaultValue>) -> Option<Option<Seq<char>>> {
    match o {
        Some(DefaultValue::Default) => Some(None),
        Some(DefaultValue::Expression(e)) => Some(Some(e@)),
        None => None,
    }
}

impl View for Attributes {
    type V = AttributesView;

    open spec fn view(&self) -> AttributesView {
        AttributesView {
            rename: text_of(self.rename),
            rename_all: text_of(self.rename_all),
            default: default_of(self.default),
            minimum: text_of(self.minimum),
            maximum: text_of(self.maximum),
            minimum_length: text_of(self.minimum_length),
            maximum_length: text_of(self.maximum_length),
            validate: text_of(self.validate),
            unknown_fields: text_of(self.unknown_fields),
            format: text_of(self.format),
            tag: text_of(self.tag),
            rest: self.rest,
            nested: self.nested,
        }
    }
}

/// No settings.
pub open spec fn no_attributes() -> AttributesView {
    AttributesView {
        rename: None,
        rename_all: None,
        default: None,
        minimum: None,
        maximum: None,
        minimum_length: None,
        maximum_length: None,
        validate: None,
        unknown_fields: None,
        format: None,
        tag: None,
        rest: false,
        nested: false,
    }
}

/// The keys that take a value after `=` (`default` takes one or none).
pub open spec fn valued_key(k: Seq<char>) -> bool {
    ||| k == "rename"@
    ||| k == "rename_all"@
    ||| k == "default"@
    ||| k == "minimum"@
    ||| k == "maximum"@
    ||| k == "min_length"@
    ||| k == "max_length"@
    ||| k == "validate"@
    ||| k == "unknown_fields"@
    ||| k == "format"@
    ||| k == "tag"@
}

/// The settings after one entry, or the message refusing it.
pub open spec fn entry_step(a: AttributesView, e: SchemaEntry) -> Result<AttributesView, Seq<char>> {
    match e {
        SchemaEntry::Flag(k) => {
            if k@ == "rest"@ {
                Ok(AttributesView { rest: true, ..a })
            } else if k@ == "nested"@ {
                Ok(AttributesView { nested: true, ..a })
            } else if k@ == "default"@ {
                Ok(AttributesView { default: Some(None), ..a })
            } else if valued_key(k@) {
                Err("expected `=`"@)
            } else {
                Err("unknown schema attribute"@)
            }
        },
        SchemaEntry::Assign(k, v) => {
            if k@ == "rest"@ || k@ == "nested"@ {
                Err("expected `,`"@)
            } else if k@ == "rename"@ {
                Ok(AttributesView { rename: Some(v@), ..a })
            } else if k@ == "rename_all"@ {
                Ok(AttributesView { rename_all: Some(v@), ..a })
            } else if k@ == "default"@ {
                Ok(AttributesView { default: Some(Some(v@)), ..a })
            } else if k@ == "minimum"@ {
                Ok(AttributesView { minimum: Some(v@), ..a })
            } else if k@ == "maximum"@ {
                Ok(AttributesView { maximum: Some(v@), ..a })
            } else if k@ == "min_length"@ {
                Ok(AttributesView { minimum_length: Some(v@), ..a })
            } else if k@ == "max_length"@ {
                Ok(AttributesView { maximum_length: Some(v@), ..a })
            } else if k@ == "validate"@ {
                Ok(AttributesView { validate: Some(v@), ..a })
            } else if k@ == "unknown_fields"@ {
                Ok(AttributesView { unknown_fields: Some(v@), ..a })
            } else if k@ == "format"@ {
                Ok(AttributesView { format: Some(v@), ..a })
            } else if k@ == "tag"@ {
                Ok(AttributesView { tag: Some(v@), ..a })
            } else {
                Err("unknown schema attribute"@)
            }
        },
    }
}

/// The settings after the entries `es`, read in order; the first refusal
/// ends the reading.
pub open spec fn entries_step(a: AttributesView, es: Seq<SchemaEntry>) -> Result<AttributesView, Seq<char>>
    decreases es.len(),
{
    if es.len() == 0 {
        Ok(a)
    } else {
        match entry_step(a, es[0]) {
            Ok(b) => entries_step(b, es.drop_first()),
            Err(m) => Err(m),
        }
    }
}

/// The settings after the `schema` attributes among `attrs`; others are
/// passed over.
pub open spec fn attributes_step(a: AttributesView, attrs: Seq<Attribute>) -> Result<AttributesView, Seq<char>>
    decreases attrs.len(),
{
    if attrs.len() == 0 {
        Ok(a)
    } else if attrs[0].path@ != "schema"@ {
        attributes_step(a, attrs.drop_first())
    } else {
        match entries_step(a, attrs[0].entries@) {
            Ok(b) => attributes_step(b, attrs.drop_first()),
            Err(m) => Err(m),
        }
    }
}

fn message(text: &str) -> (r: String)
    ensures
        r@ == text@,
{
    text.to_owned()
}

impl Default for Attributes {
    fn default() -> (r: Attributes)
        ensures
            r@ == no_attributes(),
    {
        Attributes {
            rename: None,
            rename_all: None,
            default: None,
            minimum: None,
            maximum: None,
            minimum_length: None,
            maximum_length: None,
            validate: None,
            unknown_fields: None,
            format: None,
            tag: None,
            rest: false,
            nested: false,
        }
    }
}

impl Attributes {
    fn apply_entry(&mut self, entry: &SchemaEntry) -> (r: Result<(), String>)
        ensures
            match entry_step(old(self)@, *entry) {
                Ok(b) => r is Ok && final(self)@ == b,
                Err(m) => r matches Err(e) && e@ == m,
            },
    {
        proof {
            reveal_strlit("rest");
            reveal_strlit("nested");
            reveal_strlit("default");
            reveal_strlit("rename");
            reveal_strlit("rename_all");
            reveal_strlit("minimum");
            reveal_strlit("maximum");
            reveal_strlit("min_length");
            reveal_strlit("max_length");
            reveal_strlit("validate");
            reveal_strlit("unknown_fields");
            reveal_strlit("format");
            reveal_strlit("tag");
        }
        match entry {
            SchemaEntry::Flag(k) => {
                let k = k.as_str();
                if str_equal(k, "rest") {
                    self.rest = true;
                    Ok(())
                } else if str_equal(k, "nested") {
                    self.nested = true;
                    Ok(())
                } else if str_equal(k, "default") {
                    self.default = Some(DefaultValue::Default);
                    Ok(())
                } else if str_equal(k, "rename") || str_equal(k, "rename_all") || str_equal(k, "minimum")
                    || str_equal(k, "maximum") || str_equal(k, "min_length") || str_equal(k, "max_length")
                    || str_equal(k, "validate") || str_equal(k, "unknown_fields") || str_equal(k, "format")
                    || str_equal(k, "tag") {
                    Err(message("expected `=`"))
                } else {
                    Err(message("unknown schema attribute"))
                }
            },
            SchemaEntry::Assign(k, v) => {
                let k = k.as_str();
                let v = v.clone();
                if str_equal(k, "rest") || str_equal(k, "nested") {
                    Err(message("expected `,`"))
                } else if str_equal(k, "rename") {
                    self.rename = Some(v);
                    Ok(())
                } else if str_equal(k, "rename_all") {
                    self.rename_all = Some(v);
                    Ok(())
                } else if str_equal(k, "default") {
                    self.default = Some(DefaultValue::Expression(v));
                    Ok(())
                } else if str_equal(k, "minimum") {
                    self.minimum = Some(v);
                    Ok(())
                } else if str_equal(k, "maximum") {
                    self.maximum = Some(v);
                    Ok(())
                } else if str_equal(k, "min_length") {
                    self.minimum_length = Some(v);
                    Ok(())
                } else if str_equal(k, "max_length") {
                    self.maximum_length = Some(v);
                    Ok(())
                } else if str_equal(k, "validate") {
                    self.validate = Some(v);
                    Ok(())
                } else if str_equal(k, "unknown_fields") {
                    self.unknown_fields = Some(v);
                    Ok(())
                } else if str_equal(k, "format") {
                    self.format = Some(v);
                    Ok(())
                } else if str_equal(k, "tag") {
                    self.tag = Some(v);
                    Ok(())
                } else {
                    Err(message("unknown schema attribute"))
                }
            },
        }
    }

    /// Reads the `schema` attributes among `attributes`, entry by entry.
    pub fn parse(attributes: &Vec<Attribute>) -> (r: Result<Attributes, String>)
        ensures
            match attributes_step(no_attributes(), attributes@) {
                Ok(b) => r matches Ok(a) && a@ == b,
                Err(m) => r matches Err(e) && e@ == m,
            },
    {
        let mut parsed = Attributes::default();
        let mut i: usize = 0;
        proof {
            reveal_strlit("schema");
        }
        assert(attributes@.skip(0) =~= attributes@);
        while i < attributes.len()
            invariant
                i <= attributes@.len(),
                attributes_step(no_attributes(), attributes@)
                    == attributes_step(parsed@, attributes@.skip(i as int)),
            decreases attributes@.len() - i,
        {
            let attribute = &attributes[i];
            assert(attributes@.skip(i as int).drop_first() =~= attributes@.skip(i as int + 1));
            assert(attributes@.skip(i as int)[0] == attributes@[i as int]);
            if str_equal(attribute.path.as_str(), "schema") {
                let mut j: usize = 0;
                let ghost start = parsed@;
                assert(attribute.entries@.skip(0) =~= attribute.entries@);
                while j < attribute.entries.len()
                    invariant
                        j <= attribute.entries@.len(),
                        i < attributes@.len(),
                        *attribute == attributes@[i as int],
                        attribute.path@ == "schema"@,
                        attributes_step(no_attributes(), attributes@)
                            == attributes_step(start, attributes@.skip(i as int)),
                        attributes@.skip(i as int)[0] == attributes@[i as int],
                        entries_step(start, attribute.entries@)
                            == entries_step(parsed@, attribute.entries@.skip(j as int)),
                    decreases attribute.entries@.len() - j,
                {
                    assert(attribute.entries@.skip(j as int).drop_first() =~= attribute.entries@.skip(j as int + 1));
                    assert(attribute.entries@.skip(j as int)[0] == attribute.entries@[j as int]);
                    match parsed.apply_entry(&attribute.entries[j]) {
                        Ok(()) => {},
                        Err(e) => {
                            return Err(e);
                        },
                    }
                    j += 1;
                }
                assert(attribute.entries@.skip(j as int) =~= Seq::<SchemaEntry>::empty());
            }
            i += 1;
        }
        assert(attributes@.skip(i as int) =~= Seq::<Attribute>::empty());
        Ok(parsed)
    }

    /// Refuses settings that a struct cannot carry.
    pub fn validate_for_struct(&self) -> (r: Result<(), String>)
        ensures
            r is Ok <==> !struct_attribute_refused(self@),
            r matches Err(m) ==> m@ == "invalid struct-level schema attribute"@,
    {
        if self.rename.is_some() || self.default.is_some() || self.minimum.is_some() || self.maximum.is_some()
            || self.minimum_length.is_some() || self.maximum_length.is_some() || self.format.is_some()
            || self.tag.is_some() || self.rest || self.nested {
            return Err(message("invalid struct-level schema attribute"));
        }
        Ok(())
    }

    /// Refuses settings other than `rename_all` and `tag` on an enum.
    pub fn validate_for_enum(&self) -> (r: Result<(), String>)
        ensures
            r is Ok <==> !enum_attribute_refused(self@),
            r matches Err(m) ==> m@ == "enum containers support only `rename_all` and `tag`"@,
    {
        if self.rename.is_some() || self.default.is_some() || self.minimum.is_some() || self.maximum.is_some()
            || self.minimum_length.is_some() || self.maximum_length.is_some() || self.validate.is_some()
            || self.unknown_fields.is_some() || self.format.is_some() || self.rest || self.nested {
            return Err(message("enum containers support only `rename_all` and `tag`"));
        }
        Ok(())
    }

    /// Refuses container settings on a field, and other settings beside
    /// `rest`.
    pub fn validate_for_field(&self) -> (r: Result<(), String>)
        ensures
            match field_attribute_error(self@) {
                Some(m) => r matches Err(e) && e@ == m,
                None => r is Ok,
            },
    {
        if self.rename_all.is_some() || self.unknown_fields.is_some() || self.tag.is_some() {
            return Err(message("field cannot use a struct-level schema attribute"));
        }
        if self.rest && (self.rename.is_some() || self.default.is_some() || self.minimum.is_some()
            || self.maximum.is_some() || self.minimum_length.is_some() || self.maximum_length.is_some()
            || self.validate.is_some() || self.format.is_some() || self.nested) {
            return Err(message("a rest field cannot use other schema attributes"));
        }
        Ok(())
    }

    /// Refuses settings other than `rename` on an enum variant.
    pub fn validate_for_variant(&self) -> (r: Result<(), String>)
        ensures
            r is Ok <==> !variant_attribute_refused(self@),
            r matches Err(m) ==> m@ == "enum variants support only `rename`"@,
    {
        if self.rename_all.is_some() || self.default.is_some() || self.minimum.is_some() || self.maximum.is_some()
            || self.minimum_length.is_some() || self.maximum_length.is_some() || self.validate.is_some()
            || self.unknown_fields.is_some() || self.format.is_some() || self.tag.is_some() || self.rest
            || self.nested {
            return Err(message("enum variants support only `rename`"));
        }
        Ok(())
    }
}

/// The type of a field as far as the derive reads it: a path type, by the
/// name of its last segment and the arguments in angle brackets after that
/// segment, or a type of another form.
pub enum FieldType {
    Path(String, Vec<TypeArgument>),
    Other,
}

/// One argument in angle brackets: a type, or something else (a lifetime,
/// a constant).
pub enum TypeArgument {
    Type(FieldType),
    Other,
}

/// The single type argument of `t`, where `t` is the path type `wrapper<..>`
/// with exactly one argument and that argument is a type.
pub open spec fn inner_of(t: FieldType, wrapper: Seq<char>) -> Option<FieldType> {
    match t {
        FieldType::Path(name, args) => {
            if name@ == wrapper && args@.len() == 1 {
                match args@[0] {
                    TypeArgument::Type(inner) => Some(inner),
                    TypeArgument::Other => None,
                }
            } else {
                None
            }
        },
        FieldType::Other => None,
    }
}

/// Whether `t` is a path type whose last segment is `expected`.
pub open spec fn named(t: FieldType, expected: Seq<char>) -> bool {
    t matches FieldType::Path(name, _) && name@ == expected
}

/// The single type argument of `field_type` when it is `wrapper<T>`.
pub fn generic_inner<'a>(field_type: &'a FieldType, wrapper: &str) -> (r: Option<&'a FieldType>)
    ensures
        r == match inner_of(*field_type, wrapper@) {
            Some(t) => Some(&t),
            None => None::<&FieldType>,
        },
{
    match field_type {
        FieldType::Path(name, args) => {
            if str_equal(name.as_str(), wrapper) && args.len() == 1 {
                match &args[0] {
                    TypeArgument::Type(inner) => Some(inner),
                    TypeArgument::Other => None,
                }
            } else {
                None
            }
        },
        FieldType::Other => None,
    }
}

/// Whether `field_type` is a path type whose last segment is `expected`.
pub fn is_type_named(field_type: &FieldType, expected: &str) -> (r: bool)
    ensures
        r == named(*field_type, expected@),
{
    match field_type {
        FieldType::Path(name, _) => str_equal(name.as_str(), expected),
        FieldType::Other => false,
    }
}

/// How often a field occurs in the input.
#[derive(Debug, Clone, Copy, PartialEq, Eq, Structural)]
pub enum FieldKind {
    Required,
    Optional,
    Repeated,
}

/// `Option<T>` is optional; `Vec<T>` is repeated unless `T` is `u8`;
/// anything else is required.
pub open spec fn kind_of(t: FieldType) -> FieldKind {
    if inner_of(t, "Option"@) is Some {
        FieldKind::Optional
    } else if inner_of(t, "Vec"@) is Some && !named(inner_of(t, "Vec"@)->0, "u8"@) {
        FieldKind::Repeated
    } else {
        FieldKind::Required
    }
}

/// The type that each value of a field of `kind` is decoded as.
pub open spec fn value_type_of(kind: FieldKind, t: FieldType) -> FieldType {
    match kind {
        FieldKind::Required => t,
        FieldKind::Optional => match inner_of(t, "Option"@) {
            Some(inner) => inner,
            None => t,
        },
        FieldKind::Repeated => match inner_of(t, "Vec"@) {
            Some(inner) => inner,
            None => t,
        },
    }
}

impl FieldKind {
    pub fn from_type(field_type: &FieldType) -> (r: FieldKind)
        ensures
            r == kind_of(*field_type),
    {
        proof {
            reveal_strlit("Option");
            reveal_strlit("Vec");
            reveal_strlit("u8");
        }
        if generic_inner(field_type, "Option").is_some() {
            FieldKind::Optional
        } else {
            match generic_inner(field_type, "Vec") {
                Some(inner) => {
                    if is_type_named(inner, "u8") {
                        FieldKind::Required
                    } else {
                        FieldKind::Repeated
                    }
                },
                None => FieldKind::Required,
            }
        }
    }

    pub fn value_type<'a>(&self, field_type: &'a FieldType) -> (r: &'a FieldType)
        ensures
            *r == value_type_of(*self, *field_type),
    {
        proof {
            reveal_strlit("Option");
            reveal_strlit("Vec");
        }
        match self {
            FieldKind::Required => field_type,
            FieldKind::Optional => match generic_inner(field_type, "Option") {
                Some(inner) => inner,
                None => field_type,
            },
            FieldKind::Repeated => match generic_inner(field_type, "Vec") {
                Some(inner) => inner,
                None => field_type,
            },
        }
    }
}

/// A field of a struct with named fields, as the derive reads it.
pub struct Field {
    pub ident: Option<String>,
    pub ty: FieldType,
    pub attributes: Vec<Attribute>,
}

/// How one field is decoded and described.
pub struct FieldSchema {
    pub ident: String,
    pub input_name: String,
    pub field_type: FieldType,
    pub kind: FieldKind,
    pub rest: bool,
    pub nested: bool,
    pub default: Option<DefaultValue>,
    pub minimum: Option<String>,
    pub maximum: Option<String>,
    pub minimum_length: Option<String>,
    pub maximum_length: Option<String>,
    pub validate: Option<String>,
    /// The format the field's schema publishes, if the field names one.
    pub format: Option<String>,
}

/// Why field settings `a` are refused on a field, before its type is read.
pub open spec fn field_attribute_error(a: AttributesView) -> Option<Seq<char>> {
    if a.rename_all is Some || a.unknown_fields is Some || a.tag is Some {
        Some("field cannot use a struct-level schema attribute"@)
    } else if a.rest && (a.rename is Some || a.default is Some || a.minimum is Some || a.maximum is Some
        || a.minimum_length is Some || a.maximum_length is Some || a.validate is Some || a.format is Some
        || a.nested) {
        Some("a rest field cannot use other schema attributes"@)
    } else {
        None
    }
}

/// Whether `a` holds a setting other than `rename`, which a variant cannot
/// carry.
pub open spec fn variant_attribute_refused(a: AttributesView) -> bool {
    a.rename_all is Some || a.default is Some || a.minimum is Some || a.maximum is Some
        || a.minimum_length is Some || a.maximum_length is Some || a.validate is Some
        || a.unknown_fields is Some || a.format is Some || a.tag is Some || a.rest || a.nested
}

/// Why the field `ident` of type `t` with settings `a` is refused, if it is.
pub open spec fn field_error(ident: Seq<char>, t: FieldType, a: AttributesView) -> Option<Seq<char>> {
    if field_attribute_error(a) is Some {
        field_attribute_error(a)
    } else if a.rest && !named(t, "ExtraFields"@) {
        Some("rest field `"@ + ident + "` must have type `ExtraFields`"@)
    } else if a.default is Some && kind_of(t) != FieldKind::Required {
        Some("field `"@ + ident + "` cannot combine default with Option or repeated Vec"@)
    } else {
        None
    }
}

/// The name a field is looked up by in the input.
pub open spec fn input_name_of(ident: Seq<char>, a: AttributesView, rule: crate::rename::RenameAll) -> Seq<char> {
    match a.rename {
        Some(name) => name,
        None => crate::rename::renamed(rule, ident),
    }
}

/// Whether `s` is what the field `ident` of type `t` with settings `a`
/// becomes under `rule`.
pub open spec fn describes_field(s: FieldSchema, ident: Seq<char>, t: FieldType, a: AttributesView,
    rule: crate::rename::RenameAll) -> bool {
    &&& s.ident@ == ident
    &&& s.input_name@ == input_name_of(ident, a, rule)
    &&& s.field_type == t
    &&& s.kind == kind_of(t)
    &&& s.rest == a.rest
    &&& s.nested == a.nested
    &&& default_of(s.default) == a.default
    &&& text_of(s.minimum) == a.minimum
    &&& text_of(s.maximum) == a.maximum
    &&& text_of(s.minimum_length) == a.minimum_length
    &&& text_of(s.maximum_length) == a.maximum_length
    &&& text_of(s.validate) == a.validate
    &&& text_of(s.format) == a.format
}

/// What reading `field` under `rule` gives: the field's plan, or the message
/// refusing it.
pub open spec fn field_outcome(field: Field, rule: crate::rename::RenameAll, r: Result<FieldSchema, String>) -> bool {
    match field.ident {
        None => r matches Err(e) && e@ == "expected a named field"@,
        Some(id) => match attributes_step(no_attributes(), field.attributes@) {
            Err(m) => r matches Err(e) && e@ == m,
            Ok(a) => match field_error(id@, field.ty, a) {
                Some(m) => r matches Err(e) && e@ == m,
                None => r matches Ok(s) && describes_field(s, id@, field.ty, a, rule),
            },
        },
    }
}

fn quoted_message(before: &str, name: &str, after: &str) -> (r: String)
    ensures
        r@ == before@ + name@ + after@,
{
    let mut m: Vec<char> = Vec::new();
    push_str(&mut m, before);
    push_str(&mut m, name);
    push_str(&mut m, after);
    string_of(m.as_slice())
}

impl FieldSchema {
    /// Reads a field: its settings, how often it occurs, and the name it is
    /// looked up by.
    pub fn parse(field: Field, rename_all: crate::rename::RenameAll) -> (r: Result<FieldSchema, String>)
        ensures
            field_outcome(field, rename_all, r),
    {
        let ghost whole = field;
        let Field { ident, ty, attributes } = field;
        let ident = match ident {
            Some(i) => i,
            None => {
                return Err(message("expected a named field"));
            },
        };
        let attrs = match Attributes::parse(&attributes) {
            Ok(a) => a,
            Err(e) => {
                return Err(e);
            },
        };
        match attrs.validate_for_field() {
            Ok(()) => {},
            Err(e) => {
                return Err(e);
            },
        }
        let kind = FieldKind::from_type(&ty);
        proof {
            reveal_strlit("ExtraFields");
        }
        if attrs.rest && !is_type_named(&ty, "ExtraFields") {
            return Err(quoted_message("rest field `", ident.as_str(), "` must have type `ExtraFields`"));
        }
        if attrs.default.is_some() && kind != FieldKind::Required {
            return Err(quoted_message("field `", ident.as_str(), "` cannot combine default with Option or repeated Vec"));
        }
        let input_name = match attrs.rename {
            Some(name) => name,
            None => rename_all.apply(ident.as_str()),
        };
        Ok(FieldSchema {
            ident,
            input_name,
            field_type: ty,
            kind,
            rest: attrs.rest,
            nested: attrs.nested,
            default: attrs.default,
            minimum: attrs.minimum,
            maximum: attrs.maximum,
            minimum_length: attrs.minimum_length,
            maximum_length: attrs.maximum_length,
            validate: attrs.validate,
            format: attrs.format,
        })
    }

    /// The type each value of this field is decoded as.
    pub fn value_type(&self) -> (r: &FieldType)
        ensures
            *r == value_type_of(self.kind, self.field_type),
    {
        self.kind.value_type(&self.field_type)
    }
}

/// The decoder call that reads one field.
#[derive(Debug, Clone, Copy, PartialEq, Eq, Structural)]
pub enum DecodeCall {
    /// The input names no other field declares.
    Rest,
    RequiredNested,
    OptionalNested,
    /// A required nested schema, with the field's default where the input
    /// holds none of its values.
    DefaultedNested,
    /// Nested schemas read from indexed names such as `filters.0.name`.
    RepeatedNested,
    Required,
    /// Required, with the field's default where the input lacks it.
    Defaulted,
    Optional,
    Repeated,
}

/// The call that reads field `s`; `None` for settings that parsing refuses.
pub open spec fn decode_call_of(s: FieldSchema) -> Option<DecodeCall> {
    if s.rest {
        Some(DecodeCall::Rest)
    } else if s.nested {
        match s.kind {
            FieldKind::Required => if s.default is Some {
                Some(DecodeCall::DefaultedNested)
            } else {
                Some(DecodeCall::RequiredNested)
            },
            FieldKind::Optional => if s.default is Some {
                None
            } else {
                Some(DecodeCall::OptionalNested)
            },
            FieldKind::Repeated => if s.default is Some {
                None
            } else {
                Some(DecodeCall::RepeatedNested)
            },
        }
    } else {
        match s.kind {
            FieldKind::Required => if s.default is Some {
                Some(DecodeCall::Defaulted)
            } else {
                Some(DecodeCall::Required)
            },
            FieldKind::Optional => if s.default is Some {
                None
            } else {
                Some(DecodeCall::Optional)
            },
            FieldKind::Repeated => if s.default is Some {
                None
            } else {
                Some(DecodeCall::Repeated)
            },
        }
    }
}

/// What a field publishes in its schema: its input name, whether its value
/// type describes itself as a nested schema, whether it is an array of such
/// values, whether the input must hold it, its format, and the bounds it
/// declares (as the expressions written for them).
pub struct FieldMetadata {
    pub name: String,
    pub nested: bool,
    pub array: bool,
    pub required: bool,
    pub format: Option<String>,
    pub minimum: Option<String>,
    pub maximum: Option<String>,
    pub minimum_length: Option<String>,
    pub maximum_length: Option<String>,
}

/// Whether `m` is what the field `f` publishes.
pub open spec fn publishes_field(f: FieldSchema, m: FieldMetadata) -> bool {
    &&& m.name@ == f.input_name@
    &&& m.nested == f.nested
    &&& m.array == (f.kind == FieldKind::Repeated)
    &&& m.required == (f.kind == FieldKind::Required && f.default is None)
    &&& text_of(m.format) == text_of(f.format)
    &&& text_of(m.minimum) == text_of(f.minimum)
    &&& text_of(m.maximum) == text_of(f.maximum)
    &&& text_of(m.minimum_length) == text_of(f.minimum_length)
    &&& text_of(m.maximum_length) == text_of(f.maximum_length)
}

/// A check run on a field's decoded value, when it has one.
#[derive(Debug, Clone, Copy, PartialEq, Eq, Structural)]
pub enum CheckKind {
    Minimum,
    Maximum,
    MinimumLength,
    MaximumLength,
    /// The field's own validation function.
    Validate,
}

/// The check of kind `kind` with the expression `o`, if the field has one.
pub open spec fn check_of(kind: CheckKind, o: Option<String>) -> Seq<(CheckKind, Seq<char>)> {
    match o {
        Some(t) => seq![(kind, t@)],
        None => Seq::empty(),
    }
}

/// The checks a field runs on its decoded value, in order: the bounds, then
/// its validation function; none for the rest field.
pub open spec fn checks_of(s: FieldSchema) -> Seq<(CheckKind, Seq<char>)> {
    if s.rest {
        Seq::empty()
    } else {
        check_of(CheckKind::Minimum, s.minimum) + check_of(CheckKind::Maximum, s.maximum)
            + check_of(CheckKind::MinimumLength, s.minimum_length) + check_of(CheckKind::MaximumLength, s.maximum_length)
            + check_of(CheckKind::Validate, s.validate)
    }
}

/// The checks of a field's decoded value, and where the value stands: inside
/// the field's own option for an optional field, so that only a present
/// value is checked.
pub struct FieldChecks {
    pub inside_option: bool,
    pub checks: Vec<(CheckKind, String)>,
}

fn copy_text(o: &Option<String>) -> (r: Option<String>)
    ensures
        text_of(r) == text_of(*o),
{
    match o {
        Some(t) => Some(t.clone()),
        None => None,
    }
}

fn push_check(out: &mut Vec<(CheckKind, String)>, kind: CheckKind, o: &Option<String>)
    ensures
        final(out)@.map_values(|c: (CheckKind, String)| (c.0, c.1@)) == old(out)@.map_values(
            |c: (CheckKind, String)| (c.0, c.1@),
        ) + check_of(kind, *o),
{
    let ghost before = out@.map_values(|c: (CheckKind, String)| (c.0, c.1@));
    match o {
        Some(t) => {
            out.push((kind, t.clone()));
            assert(out@.map_values(|c: (CheckKind, String)| (c.0, c.1@)) =~= before + check_of(kind, *o));
        },
        None => {
            assert(before + check_of(kind, *o) =~= before);
        },
    }
}

impl FieldSchema {
    /// The decoder call for this field; a default on a field that is not
    /// required is refused, as parsing refuses it.
    pub fn decode_call(&self) -> (r: Result<DecodeCall, String>)
        ensures
            match decode_call_of(*self) {
                Some(c) => r == Ok::<DecodeCall, String>(c),
                None => r matches Err(m) && m@ == "invalid field configuration for `"@ + self.ident@ + "`"@,
            },
    {
        if self.rest {
            return Ok(DecodeCall::Rest);
        }
        match (self.nested, self.kind, self.default.is_some()) {
            (true, FieldKind::Required, false) => Ok(DecodeCall::RequiredNested),
            (true, FieldKind::Required, true) => Ok(DecodeCall::DefaultedNested),
            (true, FieldKind::Optional, false) => Ok(DecodeCall::OptionalNested),
            (true, FieldKind::Repeated, false) => Ok(DecodeCall::RepeatedNested),
            (false, FieldKind::Required, false) => Ok(DecodeCall::Required),
            (false, FieldKind::Required, true) => Ok(DecodeCall::Defaulted),
            (false, FieldKind::Optional, false) => Ok(DecodeCall::Optional),
            (false, FieldKind::Repeated, false) => Ok(DecodeCall::Repeated),
            _ => Err(quoted_message("invalid field configuration for `", self.ident.as_str(), "`")),
        }
    }

    /// What this field publishes: it is required when it occurs once and has
    /// no default, and an array when it repeats.
    pub fn metadata(&self) -> (r: FieldMetadata)
        ensures
            publishes_field(*self, r),
    {
        FieldMetadata {
            name: self.input_name.clone(),
            nested: self.nested,
            array: self.kind == FieldKind::Repeated,
            required: self.kind == FieldKind::Required && self.default.is_none(),
            format: copy_text(&self.format),
            minimum: copy_text(&self.minimum),
            maximum: copy_text(&self.maximum),
            minimum_length: copy_text(&self.minimum_length),
            maximum_length: copy_text(&self.maximum_length),
        }
    }

    /// The checks run on this field's decoded value after it is read.
    pub fn checks(&self) -> (r: FieldChecks)
        ensures
            r.inside_option == (self.kind == FieldKind::Optional),
            r.checks@.map_values(|c: (CheckKind, String)| (c.0, c.1@)) == checks_of(*self),
    {
        let mut checks: Vec<(CheckKind, String)> = Vec::new();
        if !self.rest {
            push_check(&mut checks, CheckKind::Minimum, &self.minimum);
            push_check(&mut checks, CheckKind::Maximum, &self.maximum);
            push_check(&mut checks, CheckKind::MinimumLength, &self.minimum_length);
            push_check(&mut checks, CheckKind::MaximumLength, &self.maximum_length);
            push_check(&mut checks, CheckKind::Validate, &self.validate);
        }
        proof {
            assert(Seq::<(CheckKind, String)>::empty().map_values(|c: (CheckKind, String)| (c.0, c.1@))
                =~= Seq::<(CheckKind, Seq<char>)>::empty());
        }
        FieldChecks { inside_option: self.kind == FieldKind::Optional, checks }
    }
}

/// A variant of an enum, as the derive reads it.
pub struct Variant {
    pub ident: String,
    pub fields: Fields,
    pub attributes: Vec<Attribute>,
}

/// A variant, the text that stands for it in the input, and the plans of
/// its named fields (none for a unit variant).
pub struct EnumVariant {
    pub ident: String,
    pub value: String,
    pub fields: Vec<FieldSchema>,
}

/// The fields of a struct, as far as the derive reads them.
pub enum Fields {
    Named(Vec<Field>),
    Unnamed,
    Unit,
}

/// What a derive is applied to.
pub enum Data {
    Struct(Fields),
    Enum(Vec<Variant>),
    Union,
}

/// A type definition that `Schema` is derived for.
pub struct DeriveInput {
    pub ident: String,
    pub attributes: Vec<Attribute>,
    pub data: Data,
}

/// How the derived `Schema` of a struct decodes it.
pub struct StructPlan {
    pub name: String,
    /// The struct's own policy for undeclared input names, if it sets one.
    pub unknown_fields: Option<crate::schemaval::UnknownFields>,
    pub fields: Vec<FieldSchema>,
    /// The check run on the decoded value, if the struct names one.
    pub validate: Option<String>,
}

/// How the derived schema of an enum reads it.
pub struct EnumPlan {
    pub name: String,
    /// The input name whose value names the variant, for an enum whose
    /// variants carry data.
    pub tag: Option<String>,
    pub variants: Vec<EnumVariant>,
}

/// What the derive writes.
pub enum DerivePlan {
    Struct(StructPlan),
    Enum(EnumPlan),
}

/// Why `field` is refused under `rule`, if it is.
pub open spec fn field_refusal(field: Field, rule: crate::rename::RenameAll) -> Option<Seq<char>> {
    match field.ident {
        None => Some("expected a named field"@),
        Some(id) => match attributes_step(no_attributes(), field.attributes@) {
            Err(m) => Some(m),
            Ok(a) => field_error(id@, field.ty, a),
        },
    }
}

/// The refusal of the first refused field among `fs`.
pub open spec fn fields_refusal(fs: Seq<Field>, rule: crate::rename::RenameAll) -> Option<Seq<char>>
    decreases fs.len(),
{
    if fs.len() == 0 {
        None
    } else if field_refusal(fs[0], rule) is Some {
        field_refusal(fs[0], rule)
    } else {
        fields_refusal(fs.drop_first(), rule)
    }
}

/// Whether `field` is marked `rest`.
pub open spec fn field_is_rest(field: Field) -> bool {
    match attributes_step(no_attributes(), field.attributes@) {
        Ok(a) => a.rest,
        Err(_) => false,
    }
}

/// How many of `fs` are marked `rest`.
pub open spec fn rest_count(fs: Seq<Field>) -> nat
    decreases fs.len(),
{
    if fs.len() == 0 {
        0
    } else {
        rest_count(fs.drop_last()) + if field_is_rest(fs.last()) { 1nat } else { 0nat }
    }
}

/// The policy an `unknown_fields` value names.
pub open spec fn unknown_policy(v: Seq<char>) -> Option<crate::schemaval::UnknownFields> {
    if v == "reject"@ {
        Some(crate::schemaval::UnknownFields::Reject)
    } else if v == "ignore"@ {
        Some(crate::schemaval::UnknownFields::Ignore)
    } else {
        None
    }
}

/// Whether `a` holds a setting that a struct cannot carry.
pub open spec fn struct_attribute_refused(a: AttributesView) -> bool {
    a.rename is Some || a.default is Some || a.minimum is Some || a.maximum is Some
        || a.minimum_length is Some || a.maximum_length is Some || a.format is Some || a.tag is Some
        || a.rest || a.nested
}

/// The rule a `rename_all` setting names; `None` when the setting names none.
pub open spec fn rule_of(a: AttributesView) -> Option<crate::rename::RenameAll> {
    match a.rename_all {
        None => Some(crate::rename::RenameAll::Keep),
        Some(v) => crate::rename::rule_named(v),
    }
}

/// What deriving `Schema` for the struct `ident` with `attrs` and `fields`
/// gives: its plan, or the message refusing it.
pub open spec fn struct_outcome(ident: Seq<char>, attrs: Seq<Attribute>, fields: Fields,
    r: Result<StructPlan, String>) -> bool {
    match fields {
        Fields::Named(fs) => match attributes_step(no_attributes(), attrs) {
            Err(m) => r matches Err(e) && e@ == m,
            Ok(a) => if struct_attribute_refused(a) {
                r matches Err(e) && e@ == "invalid struct-level schema attribute"@
            } else {
                match rule_of(a) {
                    None => r matches Err(e) && e@ == "unsupported rename_all rule `"@ + a.rename_all->0 + "`"@,
                    Some(rule) => if fields_refusal(fs@, rule) is Some {
                        r matches Err(e) && e@ == fields_refusal(fs@, rule)->0
                    } else if rest_count(fs@) > 1 {
                        r matches Err(e) && e@ == "Schema can contain only one `rest` field"@
                    } else if rest_count(fs@) == 1 && a.unknown_fields is Some {
                        r matches Err(e) && e@ == "`unknown_fields` cannot be combined with a `rest` field"@
                    } else if a.unknown_fields is Some && unknown_policy(a.unknown_fields->0) is None {
                        r matches Err(e) && e@ == "unsupported unknown_fields policy `"@ + a.unknown_fields->0
                            + "`; expected `reject` or `ignore`"@
                    } else {
                        r matches Ok(p) && p.name@ == ident
                            && p.unknown_fields == (match a.unknown_fields {
                                None => None,
                                Some(v) => unknown_policy(v),
                            })
                            && text_of(p.validate) == a.validate
                            && p.fields@.len() == fs@.len()
                            && forall|i: int| 0 <= i < fs@.len() ==>
                                field_outcome(#[trigger] fs@[i], rule, Ok::<FieldSchema, String>(p.fields@[i]))
                    }
                }
            },
        },
        _ => r matches Err(e) && e@ == "Schema requires a struct with named fields"@,
    }
}

proof fn lemma_field_refusal(field: Field, rule: crate::rename::RenameAll, r: Result<FieldSchema, String>)
    requires
        field_outcome(field, rule, r),
    ensures
        r matches Err(e) ==> field_refusal(field, rule) == Some(e@),
        r matches Ok(s) ==> field_refusal(field, rule) is None && s.rest == field_is_rest(field),
{
}

/// Reads the fields in order; the first refused field ends the reading.
/// Also counts the `rest` fields.
fn parse_fields(fields: Vec<Field>, rule: crate::rename::RenameAll) -> (r: Result<(Vec<FieldSchema>, usize), String>)
    ensures
        match fields_refusal(fields@, rule) {
            Some(m) => r matches Err(e) && e@ == m,
            None => r matches Ok((out, count)) && out@.len() == fields@.len() && count == rest_count(fields@)
                && forall|i: int| 0 <= i < fields@.len() ==>
                    field_outcome(#[trigger] fields@[i], rule, Ok::<FieldSchema, String>(out@[i])),
        },
{
    let ghost all = fields@;
    let mut remaining = fields;
    let mut out: Vec<FieldSchema> = Vec::new();
    let mut count: usize = 0;
    assert(all.len() == remaining.len());
    while remaining.len() > 0
        invariant
            all.len() == out@.len() + remaining@.len(),
            all.len() <= usize::MAX,
            all == fields@,
            remaining@ == all.skip(out@.len() as int),
            fields_refusal(all, rule) == fields_refusal(remaining@, rule),
            count == rest_count(all.take(out@.len() as int)),
            count <= out@.len(),
            forall|i: int| 0 <= i < out@.len() ==>
                field_outcome(#[trigger] all[i], rule, Ok::<FieldSchema, String>(out@[i])),
        decreases remaining@.len(),
    {
        let ghost k = out@.len() as int;
        let ghost before = remaining@;
        let field = remaining.remove(0);
        assert(field == all[k]);
        assert(remaining@ == before.drop_first());
        let ghost f = field;
        let parsed = FieldSchema::parse(field, rule);
        proof {
            lemma_field_refusal(f, rule, parsed);
        }
        match parsed {
            Ok(schema) => {
                assert(all.take(k + 1).drop_last() =~= all.take(k));
                assert(all.take(k + 1).last() == all[k]);
                if schema.rest {
                    count = count + 1;
                }
                out.push(schema);
                assert(remaining@ =~= all.skip(out@.len() as int));
            },
            Err(e) => {
                assert(before[0] == f);
                assert(fields_refusal(before, rule) == Some(e@));
                return Err(e);
            },
        }
    }
    assert(all.take(out@.len() as int) =~= all);
    Ok((out, count))
}

/// The `Schema` plan of a struct: its settings, each field's plan, and the
/// checks on `rest` fields and the `unknown_fields` policy.
pub fn expand_struct(ident: String, attributes: &Vec<Attribute>, fields: Fields) -> (r: Result<StructPlan, String>)
    ensures
        struct_outcome(ident@, attributes@, fields, r),
{
    let fields = match fields {
        Fields::Named(fs) => fs,
        _ => {
            return Err(message("Schema requires a struct with named fields"));
        },
    };
    let attrs = match Attributes::parse(attributes) {
        Ok(a) => a,
        Err(e) => {
            return Err(e);
        },
    };
    match attrs.validate_for_struct() {
        Ok(()) => {},
        Err(e) => {
            return Err(e);
        },
    }
    let rename_all = match crate::rename::RenameAll::parse(
        match &attrs.rename_all {
            Some(v) => Some(v.as_str()),
            None => None,
        },
    ) {
        Ok(rule) => rule,
        Err(e) => {
            return Err(e);
        },
    };
    let (parsed, rest) = match parse_fields(fields, rename_all) {
        Ok(p) => p,
        Err(e) => {
            return Err(e);
        },
    };
    if rest > 1 {
        return Err(message("Schema can contain only one `rest` field"));
    }
    if rest == 1 && attrs.unknown_fields.is_some() {
        return Err(message("`unknown_fields` cannot be combined with a `rest` field"));
    }
    proof {
        reveal_strlit("reject");
        reveal_strlit("ignore");
    }
    let unknown_fields = match &attrs.unknown_fields {
        None => None,
        Some(v) => {
            if str_equal(v.as_str(), "reject") {
                Some(crate::schemaval::UnknownFields::Reject)
            } else if str_equal(v.as_str(), "ignore") {
                Some(crate::schemaval::UnknownFields::Ignore)
            } else {
                return Err(quoted_message("unsupported unknown_fields policy `", v.as_str(),
                    "`; expected `reject` or `ignore`"));
            }
        },
    };
    Ok(StructPlan { name: ident, unknown_fields, fields: parsed, validate: attrs.validate })
}

/// Why the shape of `variant` is refused: an untagged enum takes unit
/// variants only; a tagged one takes unit variants and variants with named
/// fields.
pub open spec fn variant_shape_refusal(variant: Variant, tagged: bool) -> Option<Seq<char>> {
    match variant.fields {
        Fields::Unit => None,
        Fields::Named(_) => if tagged {
            None
        } else {
            Some("Schema enums can contain only unit variants"@)
        },
        Fields::Unnamed => if tagged {
            Some("tagged Schema enums can contain only unit variants and variants with named fields"@)
        } else {
            Some("Schema enums can contain only unit variants"@)
        },
    }
}

/// Why `variant` is refused, if it is.
pub open spec fn variant_refusal(variant: Variant, tagged: bool) -> Option<Seq<char>> {
    if variant_shape_refusal(variant, tagged) is Some {
        variant_shape_refusal(variant, tagged)
    } else {
        match attributes_step(no_attributes(), variant.attributes@) {
            Err(m) => Some(m),
            Ok(a) => if variant_attribute_refused(a) {
                Some("enum variants support only `rename`"@)
            } else {
                match variant.fields {
                    Fields::Named(fs) => if fields_refusal(fs@, crate::rename::RenameAll::Keep) is Some {
                        fields_refusal(fs@, crate::rename::RenameAll::Keep)
                    } else if rest_count(fs@) > 1 {
                        Some("Schema can contain only one `rest` field"@)
                    } else {
                        None
                    },
                    _ => None,
                }
            },
        }
    }
}

/// Whether `out` are the plans of the fields of a variant shaped `fields`;
/// the fields of a variant keep their own names.
pub open spec fn variant_fields_match(fields: Fields, out: Seq<FieldSchema>) -> bool {
    match fields {
        Fields::Named(fs) => out.len() == fs@.len() && forall|i: int| 0 <= i < fs@.len() ==>
            field_outcome(#[trigger] fs@[i], crate::rename::RenameAll::Keep, Ok::<FieldSchema, String>(out[i])),
        _ => out.len() == 0,
    }
}

/// What reading `variant` of an enum (tagged or not) under `rule` gives.
pub open spec fn variant_outcome(variant: Variant, rule: crate::rename::RenameAll, tagged: bool,
    r: Result<EnumVariant, String>) -> bool {
    match variant_refusal(variant, tagged) {
        Some(m) => r matches Err(e) && e@ == m,
        None => match attributes_step(no_attributes(), variant.attributes@) {
            Ok(a) => r matches Ok(v) && v.ident@ == variant.ident@ && v.value@ == input_name_of(variant.ident@, a, rule)
                && variant_fields_match(variant.fields, v.fields@),
            Err(_) => false,
        },
    }
}

/// The refusal of the first refused variant among `vs`.
pub open spec fn variants_refusal(vs: Seq<Variant>, tagged: bool) -> Option<Seq<char>>
    decreases vs.len(),
{
    if vs.len() == 0 {
        None
    } else if variant_refusal(vs[0], tagged) is Some {
        variant_refusal(vs[0], tagged)
    } else {
        variants_refusal(vs.drop_first(), tagged)
    }
}

impl EnumVariant {
    /// Reads a variant: its shape, its settings (at most `rename`), and the
    /// plans of its named fields.
    pub fn parse(variant: Variant, rename_all: crate::rename::RenameAll, tagged: bool) -> (r: Result<EnumVariant, String>)
        ensures
            variant_outcome(variant, rename_all, tagged, r),
    {
        let Variant { ident, fields, attributes } = variant;
        let named = match fields {
            Fields::Unit => None,
            Fields::Named(fs) => {
                if !tagged {
                    return Err(message("Schema enums can contain only unit variants"));
                }
                Some(fs)
            },
            Fields::Unnamed => {
                if tagged {
                    return Err(message("tagged Schema enums can contain only unit variants and variants with named fields"));
                }
                return Err(message("Schema enums can contain only unit variants"));
            },
        };
        let attrs = match Attributes::parse(&attributes) {
            Ok(a) => a,
            Err(e) => {
                return Err(e);
            },
        };
        match attrs.validate_for_variant() {
            Ok(()) => {},
            Err(e) => {
                return Err(e);
            },
        }
        let parsed = match named {
            None => Vec::new(),
            Some(fs) => {
                let (parsed, rest) = match parse_fields(fs, crate::rename::RenameAll::Keep) {
                    Ok(p) => p,
                    Err(e) => {
                        return Err(e);
                    },
                };
                if rest > 1 {
                    return Err(message("Schema can contain only one `rest` field"));
                }
                parsed
            },
        };
        let value = match attrs.rename {
            Some(name) => name,
            None => rename_all.apply(ident.as_str()),
        };
        Ok(EnumVariant { ident, value, fields: parsed })
    }
}

/// Whether `a` holds a setting other than `rename_all` and `tag`.
pub open spec fn enum_attribute_refused(a: AttributesView) -> bool {
    a.rename is Some || a.default is Some || a.minimum is Some || a.maximum is Some
        || a.minimum_length is Some || a.maximum_length is Some || a.validate is Some
        || a.unknown_fields is Some || a.format is Some || a.rest || a.nested
}

/// What deriving `Schema` for the enum `ident` gives.
pub open spec fn enum_outcome(ident: Seq<char>, attrs: Seq<Attribute>, vs: Seq<Variant>,
    r: Result<EnumPlan, String>) -> bool {
    match attributes_step(no_attributes(), attrs) {
        Err(m) => r matches Err(e) && e@ == m,
        Ok(a) => if enum_attribute_refused(a) {
            r matches Err(e) && e@ == "enum containers support only `rename_all` and `tag`"@
        } else {
            match rule_of(a) {
                None => r matches Err(e) && e@ == "unsupported rename_all rule `"@ + a.rename_all->0 + "`"@,
                Some(rule) => if variants_refusal(vs, a.tag is Some) is Some {
                    r matches Err(e) && e@ == variants_refusal(vs, a.tag is Some)->0
                } else {
                    r matches Ok(p) && p.name@ == ident && text_of(p.tag) == a.tag && p.variants@.len() == vs.len()
                        && forall|i: int| 0 <= i < vs.len() ==>
                            variant_outcome(#[trigger] vs[i], rule, a.tag is Some, Ok::<EnumVariant, String>(p.variants@[i]))
                },
            }
        },
    }
}

fn parse_variants(variants: Vec<Variant>, rule: crate::rename::RenameAll, tagged: bool) -> (r: Result<Vec<EnumVariant>, String>)
    ensures
        match variants_refusal(variants@, tagged) {
            Some(m) => r matches Err(e) && e@ == m,
            None => r matches Ok(out) && out@.len() == variants@.len()
                && forall|i: int| 0 <= i < variants@.len() ==>
                    variant_outcome(#[trigger] variants@[i], rule, tagged, Ok::<EnumVariant, String>(out@[i])),
        },
{
    let ghost all = variants@;
    let mut remaining = variants;
    let mut out: Vec<EnumVariant> = Vec::new();
    while remaining.len() > 0
        invariant
            all == variants@,
            all.len() == out@.len() + remaining@.len(),
            remaining@ == all.skip(out@.len() as int),
            variants_refusal(all, tagged) == variants_refusal(remaining@, tagged),
            forall|i: int| 0 <= i < out@.len() ==>
                variant_outcome(#[trigger] all[i], rule, tagged, Ok::<EnumVariant, String>(out@[i])),
        decreases remaining@.len(),
    {
        let ghost before = remaining@;
        let variant = remaining.remove(0);
        let ghost v = variant;
        assert(before[0] == v);
        match EnumVariant::parse(variant, rule, tagged) {
            Ok(parsed) => {
                out.push(parsed);
                assert(remaining@ =~= all.skip(out@.len() as int));
            },
            Err(e) => {
                return Err(e);
            },
        }
    }
    Ok(out)
}

/// The plan of an enum: with a `tag`, the variants are told apart by the
/// tag's value and may carry named fields; without one, the enum is a single
/// value naming a unit variant.
pub fn expand_enum(ident: String, attributes: &Vec<Attribute>, variants: Vec<Variant>) -> (r: Result<EnumPlan, String>)
    ensures
        enum_outcome(ident@, attributes@, variants@, r),
{
    let attrs = match Attributes::parse(attributes) {
        Ok(a) => a,
        Err(e) => {
            return Err(e);
        },
    };
    match attrs.validate_for_enum() {
        Ok(()) => {},
        Err(e) => {
            return Err(e);
        },
    }
    let rename_all = match crate::rename::RenameAll::parse(
        match &attrs.rename_all {
            Some(v) => Some(v.as_str()),
            None => None,
        },
    ) {
        Ok(rule) => rule,
        Err(e) => {
            return Err(e);
        },
    };
    match parse_variants(variants, rename_all, attrs.tag.is_some()) {
        Ok(parsed) => Ok(EnumPlan { name: ident, tag: attrs.tag, variants: parsed }),
        Err(e) => Err(e),
    }
}

/// What deriving `Schema` for `input` gives.
pub open spec fn derive_outcome(input: DeriveInput, r: Result<DerivePlan, String>) -> bool {
    match input.data {
        Data::Struct(fields) => match r {
            Ok(DerivePlan::Struct(p)) => struct_outcome(input.ident@, input.attributes@, fields,
                Ok::<StructPlan, String>(p)),
            Ok(DerivePlan::Enum(_)) => false,
            Err(e) => struct_outcome(input.ident@, input.attributes@, fields, Err::<StructPlan, String>(e)),
        },
        Data::Enum(vs) => match r {
            Ok(DerivePlan::Enum(p)) => enum_outcome(input.ident@, input.attributes@, vs@,
                Ok::<EnumPlan, String>(p)),
            Ok(DerivePlan::Struct(_)) => false,
            Err(e) => enum_outcome(input.ident@, input.attributes@, vs@, Err::<EnumPlan, String>(e)),
        },
        Data::Union => r matches Err(e) && e@ == "Schema cannot be derived for a union"@,
    }
}

/// Derives `Schema` for a struct with named fields, or a value schema for an
/// enum of unit variants; a union is refused.
pub fn expand(input: DeriveInput) -> (r: Result<DerivePlan, String>)
    ensures
        derive_outcome(input, r),
{
    let DeriveInput { ident, attributes, data } = input;
    match data {
        Data::Struct(fields) => match expand_struct(ident, &attributes, fields) {
            Ok(p) => Ok(DerivePlan::Struct(p)),
            Err(e) => Err(e),
        },
        Data::Enum(variants) => match expand_enum(ident, &attributes, variants) {
            Ok(p) => Ok(DerivePlan::Enum(p)),
            Err(e) => Err(e),
        },
        Data::Union => Err(message("Schema cannot be derived for a union")),
    }
}

/// The positions, in order, of the fields among `fields` whose `rest` mark
/// is `rest`.
pub open spec fn indices_with(fields: Seq<FieldSchema>, rest: bool) -> Seq<usize>
    decreases fields.len(),
{
    if fields.len() == 0 {
        Seq::empty()
    } else if fields.last().rest == rest {
        indices_with(fields.drop_last(), rest).push((fields.len() - 1) as usize)
    } else {
        indices_with(fields.drop_last(), rest)
    }
}

proof fn lemma_indices_bound(fields: Seq<FieldSchema>, rest: bool)
    requires
        fields.len() <= usize::MAX,
    ensures
        forall|k: int| 0 <= k < indices_with(fields, rest).len() ==>
            #[trigger] indices_with(fields, rest)[k] < fields.len()
                && fields[indices_with(fields, rest)[k] as int].rest == rest,
    decreases fields.len(),
{
    if fields.len() > 0 {
        let prev = fields.drop_last();
        lemma_indices_bound(prev, rest);
        let r = indices_with(fields, rest);
        let p = indices_with(prev, rest);
        assert forall|k: int| 0 <= k < r.len() implies r[k] < fields.len() && fields[r[k] as int].rest == rest by {
            if k < p.len() {
                assert(r[k] == p[k]);
                assert(prev[p[k] as int] == fields[p[k] as int]);
            }
        }
    }
}

fn indices(fields: &Vec<FieldSchema>, rest: bool) -> (r: Vec<usize>)
    ensures
        r@ == indices_with(fields@, rest),
{
    let mut out: Vec<usize> = Vec::new();
    let mut i: usize = 0;
    while i < fields.len()
        invariant
            i <= fields@.len(),
            out@ == indices_with(fields@.take(i as int), rest),
        decreases fields@.len() - i,
    {
        assert(fields@.take(i as int + 1).drop_last() =~= fields@.take(i as int));
        assert(fields@.take(i as int + 1).last() == fields@[i as int]);
        if fields[i].rest == rest {
            out.push(i);
        }
        i += 1;
    }
    assert(fields@.take(i as int) =~= fields@);
    out
}

/// The order the fields are decoded in: the declared fields in order,
/// then the `rest` field, which takes what they left.
fn order_of(fields: &Vec<FieldSchema>) -> (r: Vec<usize>)
    ensures
        r@ == indices_with(fields@, false) + indices_with(fields@, true),
{
    let mut order = indices(fields, false);
    let mut rest = indices(fields, true);
    order.append(&mut rest);
    order
}

/// What the declared fields publish, in order; the `rest` field
/// publishes nothing.
fn metadata_of(fields: &Vec<FieldSchema>) -> (r: Vec<FieldMetadata>)
    ensures
        publishes(fields@, r@),
{
    let order = indices(fields, false);
    assert(fields@.len() == fields.len());
    proof {
        lemma_indices_bound(fields@, false);
    }
    let mut out: Vec<FieldMetadata> = Vec::new();
    let mut k: usize = 0;
    while k < order.len()
        invariant
            k <= order@.len(),
            order@ == indices_with(fields@, false),
            out@.len() == k,
            forall|j: int| 0 <= j < order@.len() ==> #[trigger] order@[j] < fields@.len(),
            forall|j: int| 0 <= j < k ==> {
                publishes_field(fields@[order@[j] as int], #[trigger] out@[j])
            },
        decreases order@.len() - k,
    {
        assert(order@[k as int] < fields@.len());
        let m = fields[order[k]].metadata();
        out.push(m);
        k += 1;
    }
    out
}

/// The bound each declared field puts on its value type: `true` for a
/// nested schema, `false` for a single value.
fn bounds_of(fields: &Vec<FieldSchema>) -> (r: Vec<(usize, bool)>)
    ensures
        bounds(fields@, r@),
{
    let order = indices(fields, false);
    assert(fields@.len() == fields.len());
    proof {
        lemma_indices_bound(fields@, false);
    }
    let mut out: Vec<(usize, bool)> = Vec::new();
    let mut k: usize = 0;
    while k < order.len()
        invariant
            k <= order@.len(),
            order@ == indices_with(fields@, false),
            out@.len() == k,
            forall|j: int| 0 <= j < order@.len() ==> #[trigger] order@[j] < fields@.len(),
            forall|j: int| 0 <= j < k ==> (#[trigger] out@[j]).0 == order@[j]
                && out@[j].1 == fields@[out@[j].0 as int].nested,
        decreases order@.len() - k,
    {
        let i = order[k];
        assert(i < fields@.len());
        out.push((i, fields[i].nested));
        k += 1;
    }
    out
}

impl StructPlan {
    /// The order the fields are decoded in: the declared fields in order,
    /// then the `rest` field, which takes what they left.
    pub fn decode_order(&self) -> (r: Vec<usize>)
        ensures
            r@ == indices_with(self.fields@, false) + indices_with(self.fields@, true),
    {
        order_of(&self.fields)
    }

    /// What the declared fields publish, in order; the `rest` field
    /// publishes nothing.
    pub fn metadata_fields(&self) -> (r: Vec<FieldMetadata>)
        ensures
            publishes(self.fields@, r@),
    {
        metadata_of(&self.fields)
    }

    /// The bound each declared field puts on its value type: `true` for a
    /// nested schema, `false` for a single value.
    pub fn field_bounds(&self) -> (r: Vec<(usize, bool)>)
        ensures
            bounds(self.fields@, r@),
    {
        bounds_of(&self.fields)
    }
}

impl EnumVariant {
    /// The order this variant's fields are decoded in, after the tag.
    pub fn decode_order(&self) -> (r: Vec<usize>)
        ensures
            r@ == indices_with(self.fields@, false) + indices_with(self.fields@, true),
    {
        order_of(&self.fields)
    }

    /// What this variant's declared fields publish, beside the tag.
    pub fn metadata_fields(&self) -> (r: Vec<FieldMetadata>)
        ensures
            publishes(self.fields@, r@),
    {
        metadata_of(&self.fields)
    }

    /// The bound each declared field of this variant puts on its value type.
    pub fn field_bounds(&self) -> (r: Vec<(usize, bool)>)
        ensures
            bounds(self.fields@, r@),
    {
        bounds_of(&self.fields)
    }
}

/// Whether `r` is what the declared fields among `fields` publish, in order.
pub open spec fn publishes(fields: Seq<FieldSchema>, r: Seq<FieldMetadata>) -> bool {
    &&& r.len() == indices_with(fields, false).len()
    &&& forall|k: int| 0 <= k < r.len() ==> {
        publishes_field(fields[indices_with(fields, false)[k] as int], #[trigger] r[k])
    }
}

/// Whether `r` pairs each declared field among `fields` with whether its
/// value type is a nested schema.
pub open spec fn bounds(fields: Seq<FieldSchema>, r: Seq<(usize, bool)>) -> bool {
    &&& r.len() == indices_with(fields, false).len()
    &&& forall|k: int| 0 <= k < r.len() ==> (#[trigger] r[k]).0 == indices_with(fields, false)[k]
        && r[k].1 == fields[r[k].0 as int].nested
}

impl EnumPlan {
    /// The variant that `bytes` name: the first whose text they spell.
    pub fn decode_value(&self, bytes: &[u8]) -> (r: Result<usize, String>)
        ensures
            !valid_utf8(bytes@) ==> (r matches Err(m) && m@ == "must be valid UTF-8"@),
            valid_utf8(bytes@) ==> match r {
                Ok(i) => i < self.variants@.len() && self.variants@[i as int].value@ == decode_utf8(bytes@)
                    && forall|j: int| 0 <= j < i ==> self.variants@[j].value@ != decode_utf8(bytes@),
                Err(m) => m@ == "must be one of the declared enum values"@
                    && forall|j: int| 0 <= j < self.variants@.len() ==> self.variants@[j].value@ != decode_utf8(bytes@),
            },
    {
        let text = match str_from_utf8(bytes) {
            Some(t) => t,
            None => {
                return Err(message("must be valid UTF-8"));
            },
        };
        let mut i: usize = 0;
        while i < self.variants.len()
            invariant
                i <= self.variants@.len(),
                valid_utf8(bytes@),
                text@ == decode_utf8(bytes@),
                forall|j: int| 0 <= j < i ==> self.variants@[j].value@ != text@,
            decreases self.variants@.len() - i,
        {
            if str_equal(self.variants[i].value.as_str(), text) {
                return Ok(i);
            }
            i += 1;
        }
        Err(message("must be one of the declared enum values"))
    }

    /// The texts that stand for the variants, in order.
    pub fn values(&self) -> (r: Vec<String>)
        ensures
            r@.len() == self.variants@.len(),
            forall|i: int| 0 <= i < r@.len() ==> (#[trigger] r@[i])@ == self.variants@[i].value@,
    {
        let mut out: Vec<String> = Vec::new();
        let mut i: usize = 0;
        while i < self.variants.len()
            invariant
                i <= self.variants@.len(),
                out@.len() == i,
                forall|j: int| 0 <= j < i ==> (#[trigger] out@[j])@ == self.variants@[j].value@,
            decreases self.variants@.len() - i,
        {
            out.push(self.variants[i].value.clone());
            i += 1;
        }
        out
    }
}

} // verus!
