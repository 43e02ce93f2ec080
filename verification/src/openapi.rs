//! OpenAPI documents: route metadata rendered as JSON, and the reference
//! page that displays it.

use vstd::prelude::*;
use vstd::utf8::encode_utf8;
use crate::text::{chars_of, string_of, push_str, push_all, utf8_bytes, decimal, decimal_text, lower_seq, lower_char};
use crate::error::hex_digit;
use crate::headers::without_named;
use crate::response::{Response, IntoResponse};
use crate::method::Method;
use crate::schemaval::{SchemaKind, SchemaMetadata, schema_json, flat_params, flatten_fields, render_schema};

verus! {

/// The JSON text of one character inside a string literal of the document.
pub open spec fn doc_escape_char(c: char) -> Seq<char> {
    if c == '"' {
        seq!['\\', '"']
    } else if c == '\\' {
        seq!['\\', '\\']
    } else if c == '\n' {
        seq!['\\', 'n']
    } else if c == '\r' {
        seq!['\\', 'r']
    } else if c == '\t' {
        seq!['\\', 't']
    } else if (c as u32) < 0x20 {
        seq!['\\', 'u', '0', '0', hex_digit((c as u32) / 16), hex_digit((c as u32) % 16)]
    } else {
        seq![c]
    }
}

pub open spec fn doc_escape(s: Seq<char>) -> Seq<char>
    decreases s.len(),
{
    if s.len() == 0 {
        Seq::empty()
    } else {
        doc_escape(s.drop_last()) + doc_escape_char(s.last())
    }
}

/// A string literal of the document.
pub open spec fn doc_string(s: Seq<char>) -> Seq<char> {
    seq!['"'] + doc_escape(s) + seq!['"']
}

/// `"name":"value"`.
pub open spec fn doc_property(name: Seq<char>, value: Seq<char>) -> Seq<char> {
    doc_string(name) + seq![':'] + doc_string(value)
}

/// `s` with HTML's special characters replaced by entities.
pub open spec fn html_escape_char(c: char) -> Seq<char> {
    if c == '&' {
        "&amp;"@
    } else if c == '<' {
        "&lt;"@
    } else if c == '>' {
        "&gt;"@
    } else if c == '"' {
        "&quot;"@
    } else if c == '\'' {
        "&#39;"@
    } else {
        seq![c]
    }
}

pub open spec fn html_escape(s: Seq<char>) -> Seq<char>
    decreases s.len(),
{
    if s.len() == 0 {
        Seq::empty()
    } else {
        html_escape(s.drop_last()) + html_escape_char(s.last())
    }
}

/// One character inside a JavaScript string literal placed in a `<script>`.
pub open spec fn script_escape_char(c: char) -> Seq<char> {
    if c == '"' {
        seq!['\\', '"']
    } else if c == '\\' {
        seq!['\\', '\\']
    } else if c == '\n' {
        seq!['\\', 'n']
    } else if c == '\r' {
        seq!['\\', 'r']
    } else if c == '\t' {
        seq!['\\', 't']
    } else if c == '<' {
        seq!['\\', 'u', '0', '0', '3', 'c']
    } else if c == '>' {
        seq!['\\', 'u', '0', '0', '3', 'e']
    } else if c == '&' {
        seq!['\\', 'u', '0', '0', '2', '6']
    } else if c == '\u{2028}' {
        seq!['\\', 'u', '2', '0', '2', '8']
    } else if c == '\u{2029}' {
        seq!['\\', 'u', '2', '0', '2', '9']
    } else if (c as u32) < 0x20 {
        seq!['\\', 'u', '0', '0', hex_digit((c as u32) / 16), hex_digit((c as u32) % 16)]
    } else {
        seq![c]
    }
}

pub open spec fn script_escape(s: Seq<char>) -> Seq<char>
    decreases s.len(),
{
    if s.len() == 0 {
        Seq::empty()
    } else {
        script_escape(s.drop_last()) + script_escape_char(s.last())
    }
}

pub open spec fn script_literal(s: Seq<char>) -> Seq<char> {
    seq!['"'] + script_escape(s) + seq!['"']
}



/// Where a parameter is read from.
#[derive(Debug, Clone, Copy, PartialEq, Eq, Structural)]
pub enum ParameterLocation {
    Path,
    Query,
    Header,
}

pub open spec fn location_text(l: ParameterLocation) -> Seq<char> {
    match l {
        ParameterLocation::Path => "path"@,
        ParameterLocation::Query => "query"@,
        ParameterLocation::Header => "header"@,
    }
}

impl ParameterLocation {
    pub fn as_str(self) -> (r: &'static str)
        ensures
            r@ == location_text(self),
    {
        match self {
            ParameterLocation::Path => "path",
            ParameterLocation::Query => "query",
            ParameterLocation::Header => "header",
        }
    }
}

/// The parameters one extractor declares.
#[derive(Debug)]
pub struct ParameterGroup {
    pub location: ParameterLocation,
    pub schema: SchemaMetadata,
}

/// One accepted content type of a request body.
#[derive(Debug)]
pub struct MediaType {
    pub content_type: String,
    pub schema: Option<SchemaMetadata>,
}

/// The request body an operation accepts.
#[derive(Debug)]
pub struct RequestBody {
    pub required: bool,
    pub content: Vec<MediaType>,
}

/// One documented response.
#[derive(Debug)]
pub struct ApiResponse {
    pub status: u16,
    pub description: String,
    pub content_type: Option<String>,
    pub schema: Option<SchemaMetadata>,
}

/// One parameter as the document lists it, its schema already rendered.
#[derive(Debug)]
pub struct ExpandedParameter {
    pub name: Vec<char>,
    pub location: ParameterLocation,
    pub required: bool,
    pub schema: Vec<char>,
}

pub type ParamView = (Seq<char>, ParameterLocation, bool, Seq<char>);

pub open spec fn params_view(ps: Seq<ExpandedParameter>) -> Seq<ParamView> {
    ps.map_values(|p: ExpandedParameter| (p.name@, p.location, p.required, p.schema@))
}

pub open spec fn opt_string_view(o: Option<String>) -> Option<Seq<char>> {
    match o {
        Some(s) => Some(s@),
        None => None,
    }
}

/// What a handler's extractors and result say about its route.
#[derive(Debug)]
pub struct Operation {
    parameter_groups: Vec<ParameterGroup>,
    request_body: Option<RequestBody>,
    responses: Vec<ApiResponse>,
    summary: Option<String>,
    description: Option<String>,
    tags: Vec<String>,
    operation_id: Option<String>,
}

/// Whether some response has this status and content type.
pub open spec fn has_response(rs: Seq<ApiResponse>, status: u16, content_type: Option<Seq<char>>) -> bool {
    exists|i: int| 0 <= i < rs.len() && (#[trigger] rs[i]).status == status && opt_string_view(rs[i].content_type) == content_type
}

fn same_text(a: &Option<String>, b: &Option<String>) -> (r: bool)
    ensures
        r == (opt_string_view(*a) == opt_string_view(*b)),
{
    match (a, b) {
        (Some(x), Some(y)) => {
            let xs = chars_of(x.as_str());
            let ys = chars_of(y.as_str());
            crate::text::chars_equal(xs.as_slice(), ys.as_slice())
        },
        (None, None) => true,
        _ => false,
    }
}

impl Operation {
    pub closed spec fn spec_groups(&self) -> Seq<ParameterGroup> {
        self.parameter_groups@
    }

    pub closed spec fn spec_request_body(&self) -> Option<(bool, Seq<MediaType>)> {
        match self.request_body {
            Some(b) => Some((b.required, b.content@)),
            None => None,
        }
    }

    pub closed spec fn spec_responses(&self) -> Seq<ApiResponse> {
        self.responses@
    }

    /// An operation with nothing declared.
    pub fn new() -> (r: Operation)
        ensures
            r.spec_groups().len() == 0,
            r.spec_request_body() is None,
            r.spec_responses().len() == 0,
            r.spec_summary() is None,
            r.spec_description() is None,
            r.spec_tags().len() == 0,
            r.spec_operation_id() is None,
    {
        Operation {
            parameter_groups: Vec::new(),
            request_body: None,
            responses: Vec::new(),
            summary: None,
            description: None,
            tags: Vec::new(),
            operation_id: None,
        }
    }

    pub closed spec fn spec_summary(&self) -> Option<Seq<char>> {
        opt_string_view(self.summary)
    }

    pub closed spec fn spec_description(&self) -> Option<Seq<char>> {
        opt_string_view(self.description)
    }

    pub closed spec fn spec_tags(&self) -> Seq<Seq<char>> {
        self.tags@.map_values(|t: String| t@)
    }

    pub closed spec fn spec_operation_id(&self) -> Option<Seq<char>> {
        opt_string_view(self.operation_id)
    }

    /// Whether `other` declares the same parameters, body and responses.
    pub open spec fn same_declarations(&self, other: &Operation) -> bool {
        &&& self.spec_groups() == other.spec_groups()
        &&& self.spec_request_body() == other.spec_request_body()
        &&& self.spec_responses() == other.spec_responses()
    }

    /// Sets the operation's summary.
    pub fn summary(&mut self, summary: String)
        ensures
            final(self).spec_summary() == Some(summary@),
            final(self).same_declarations(old(self)),
            final(self).spec_description() == old(self).spec_description(),
            final(self).spec_tags() == old(self).spec_tags(),
            final(self).spec_operation_id() == old(self).spec_operation_id(),
    {
        self.summary = Some(summary);
    }

    /// Sets the operation's description.
    pub fn description(&mut self, description: String)
        ensures
            final(self).spec_description() == Some(description@),
            final(self).same_declarations(old(self)),
            final(self).spec_summary() == old(self).spec_summary(),
            final(self).spec_tags() == old(self).spec_tags(),
            final(self).spec_operation_id() == old(self).spec_operation_id(),
    {
        self.description = Some(description);
    }

    /// Adds a tag.
    pub fn tag(&mut self, tag: String)
        ensures
            final(self).spec_tags() == old(self).spec_tags().push(tag@),
            final(self).same_declarations(old(self)),
            final(self).spec_summary() == old(self).spec_summary(),
            final(self).spec_description() == old(self).spec_description(),
            final(self).spec_operation_id() == old(self).spec_operation_id(),
    {
        let ghost before = self.tags@;
        self.tags.push(tag);
        assert(self.tags@.map_values(|t: String| t@) =~= before.map_values(|t: String| t@).push(tag@));
    }

    /// Sets the operation's identifier.
    pub fn operation_id(&mut self, operation_id: String)
        ensures
            final(self).spec_operation_id() == Some(operation_id@),
            final(self).same_declarations(old(self)),
            final(self).spec_summary() == old(self).spec_summary(),
            final(self).spec_description() == old(self).spec_description(),
            final(self).spec_tags() == old(self).spec_tags(),
    {
        self.operation_id = Some(operation_id);
    }

    /// Declares the parameters of `schema`, read from `location`.
    pub fn parameter(&mut self, location: ParameterLocation, schema: SchemaMetadata)
        ensures
            final(self).spec_groups() == old(self).spec_groups().push(ParameterGroup { location, schema }),
            final(self).spec_request_body() == old(self).spec_request_body(),
            final(self).spec_responses() == old(self).spec_responses(),
    {
        self.parameter_groups.push(ParameterGroup { location, schema });
    }

    /// Declares one content type of the request body; the body is required
    /// once any declaration requires it.
    pub fn request_body(&mut self, content_type: String, schema: Option<SchemaMetadata>, required: bool)
        ensures
            final(self).spec_groups() == old(self).spec_groups(),
            final(self).spec_responses() == old(self).spec_responses(),
            final(self).spec_request_body() == match old(self).spec_request_body() {
                Some((r, content)) => Some((r || required, content.push(MediaType { content_type, schema }))),
                None => Some((required, seq![MediaType { content_type, schema }])),
            },
    {
        let media = MediaType { content_type, schema };
        match self.request_body.take() {
            Some(body) => {
                let mut body = body;
                body.required = body.required || required;
                body.content.push(media);
                self.request_body = Some(body);
            },
            None => {
                let mut content: Vec<MediaType> = Vec::new();
                content.push(media);
                self.request_body = Some(RequestBody { required, content });
                assert(self.request_body->0.content@ =~= seq![MediaType { content_type, schema }]);
            },
        }
    }

    /// Declares a response unless one with the same status and content type
    /// is already declared.
    pub fn response(&mut self, status: u16, description: String, content_type: Option<String>, schema: Option<SchemaMetadata>)
        ensures
            final(self).spec_groups() == old(self).spec_groups(),
            final(self).spec_request_body() == old(self).spec_request_body(),
            has_response(old(self).spec_responses(), status, opt_string_view(content_type)) ==> final(self).spec_responses()
                == old(self).spec_responses(),
            !has_response(old(self).spec_responses(), status, opt_string_view(content_type)) ==> final(self).spec_responses()
                == old(self).spec_responses().push(ApiResponse { status, description, content_type, schema }),
    {
        let mut i: usize = 0;
        while i < self.responses.len()
            invariant
                i <= self.responses@.len(),
                self.responses@ == old(self).spec_responses(),
                self.parameter_groups@ == old(self).spec_groups(),
                self.request_body == old(self).request_body,
                forall|k: int| 0 <= k < i ==> !((#[trigger] self.responses@[k]).status == status
                    && opt_string_view(self.responses@[k].content_type) == opt_string_view(content_type)),
            decreases self.responses@.len() - i,
        {
            if self.responses[i].status == status && same_text(&self.responses[i].content_type, &content_type) {
                return;
            }
            i += 1;
        }
        self.responses.push(ApiResponse { status, description, content_type, schema });
    }

    /// Declares a plain `200` response when none is declared.
    pub fn ensure_response(&mut self)
        ensures
            final(self).spec_groups() == old(self).spec_groups(),
            final(self).spec_request_body() == old(self).spec_request_body(),
            old(self).spec_responses().len() > 0 ==> final(self).spec_responses() == old(self).spec_responses(),
            old(self).spec_responses().len() == 0 ==> final(self).spec_responses().len() == 1
                && final(self).spec_responses()[0].status == 200
                && final(self).spec_responses()[0].description@ == "Success"@
                && final(self).spec_responses()[0].content_type is None
                && final(self).spec_responses()[0].schema is None,
    {
        if self.responses.len() == 0 {
            self.response(200, "Success".to_owned(), None, None);
        }
    }
}

impl Default for Operation {
    fn default() -> (r: Operation)
        ensures
            r.spec_groups().len() == 0,
            r.spec_request_body() is None,
            r.spec_responses().len() == 0,
    {
        Operation::new()
    }
}


/// The parameters one group stands for: an object's fields, or the single
/// path parameter a non-object path schema describes.
pub open spec fn group_params(g: ParameterGroup, path_parameters: Seq<Seq<char>>) -> Seq<ParamView> {
    match g.schema.spec_kind() {
        SchemaKind::Object(fields) => flat_params(g.location, Seq::empty(), fields@),
        _ => if g.location == ParameterLocation::Path && path_parameters.len() == 1 {
            seq![(path_parameters[0], g.location, true, schema_json(g.schema))]
        } else {
            Seq::empty()
        },
    }
}

/// The parameters of all groups, in declaration order.
pub open spec fn expanded_params(groups: Seq<ParameterGroup>, path_parameters: Seq<Seq<char>>) -> Seq<ParamView>
    decreases groups.len(),
{
    if groups.len() == 0 {
        Seq::empty()
    } else {
        expanded_params(groups.drop_last(), path_parameters) + group_params(groups.last(), path_parameters)
    }
}

/// Lists the parameters of an operation on a route whose path parameters are
/// `path_parameters`.
pub fn expand_parameters(operation: &Operation, path_parameters: &Vec<Vec<char>>) -> (r: Vec<ExpandedParameter>)
    ensures
        params_view(r@) == expanded_params(operation.spec_groups(), path_parameters@.map_values(|p: Vec<char>| p@)),
{
    let ghost pp = path_parameters@.map_values(|p: Vec<char>| p@);
    let groups = &operation.parameter_groups;
    let mut out: Vec<ExpandedParameter> = Vec::new();
    let mut i: usize = 0;
    assert(groups@.take(0) =~= Seq::<ParameterGroup>::empty());
    assert(params_view(out@) =~= Seq::<ParamView>::empty());
    while i < groups.len()
        invariant
            groups@ == operation.spec_groups(),
            pp == path_parameters@.map_values(|p: Vec<char>| p@),
            i <= groups@.len(),
            params_view(out@) == expanded_params(groups@.take(i as int), pp),
        decreases groups@.len() - i,
    {
        assert(groups@.take(i + 1).drop_last() =~= groups@.take(i as int));
        let g = &groups[i];
        let ghost before = params_view(out@);
        match g.schema.kind() {
            SchemaKind::Object(fields) => {
                let empty: Vec<char> = Vec::new();
                flatten_fields(&mut out, g.location, empty.as_slice(), fields);
            },
            _ => {
                if g.location == ParameterLocation::Path && path_parameters.len() == 1 {
                    let name = crate::text::copy_chars(path_parameters[0].as_slice());
                    let mut schema: Vec<char> = Vec::new();
                    render_schema(&mut schema, &g.schema);
                    out.push(ExpandedParameter { name, location: g.location, required: true, schema });
                    assert(params_view(out@) =~= before + seq![(pp[0], g.location, true, schema_json(g.schema))]);
                } else {
                    assert(params_view(out@) =~= before + Seq::<ParamView>::empty());
                }
            },
        }
        i += 1;
    }
    assert(groups@.take(groups@.len() as int) =~= groups@);
    out
}

/// The document text of one parameter.
pub open spec fn param_json(p: ParamView) -> Seq<char> {
    seq!['{'] + doc_property("name"@, p.0) + ",\"in\":"@ + doc_string(location_text(p.1)) + ",\"required\":"@
        + (if p.2 { "true"@ } else { "false"@ }) + ",\"schema\":"@ + p.3 + seq!['}']
}

/// Parameters separated by commas.
pub open spec fn params_json(ps: Seq<ParamView>) -> Seq<char>
    decreases ps.len(),
{
    if ps.len() == 0 {
        Seq::empty()
    } else {
        params_json(ps.drop_last()) + (if ps.len() > 1 { seq![','] } else { Seq::empty() }) + param_json(ps.last())
    }
}

/// `"schema":` and the schema, when there is one.
pub open spec fn schema_member(schema: Option<SchemaMetadata>) -> Seq<char> {
    match schema {
        Some(s) => "\"schema\":"@ + schema_json(s),
        None => Seq::empty(),
    }
}

pub open spec fn media_json(m: MediaType) -> Seq<char> {
    doc_string(m.content_type@) + ":{"@ + schema_member(m.schema) + seq!['}']
}

pub open spec fn medias_json(ms: Seq<MediaType>) -> Seq<char>
    decreases ms.len(),
{
    if ms.len() == 0 {
        Seq::empty()
    } else {
        medias_json(ms.drop_last()) + (if ms.len() > 1 { seq![','] } else { Seq::empty() }) + media_json(ms.last())
    }
}

/// The `requestBody` member, when the operation takes a body.
pub open spec fn body_json(body: Option<(bool, Seq<MediaType>)>) -> Seq<char> {
    match body {
        Some((required, content)) => ",\"requestBody\":{\"required\":"@ + (if required { "true"@ } else { "false"@ })
            + ",\"content\":{"@ + medias_json(content) + "}}"@,
        None => Seq::empty(),
    }
}

pub open spec fn response_json(r: ApiResponse) -> Seq<char> {
    doc_string(decimal(r.status as nat)) + ":{"@ + doc_property("description"@, r.description@) + match r.content_type {
        Some(c) => ",\"content\":{"@ + doc_string(c@) + ":{"@ + schema_member(r.schema) + "}}"@,
        None => Seq::empty(),
    } + seq!['}']
}

/// `order` with `i` placed after every index whose status is not greater.
pub open spec fn insert_by_status(order: Seq<int>, i: int, st: Seq<u16>) -> Seq<int>
    decreases order.len(),
{
    if order.len() == 0 {
        seq![i]
    } else if st[order.last()] <= st[i] {
        order.push(i)
    } else {
        insert_by_status(order.drop_last(), i, st).push(order.last())
    }
}

/// The indexes of the first `n` statuses in stable increasing order of status.
pub open spec fn status_order(st: Seq<u16>, n: int) -> Seq<int>
    decreases n,
{
    if n <= 0 {
        Seq::empty()
    } else {
        insert_by_status(status_order(st, n - 1), n - 1, st)
    }
}

pub open spec fn statuses(rs: Seq<ApiResponse>) -> Seq<u16> {
    rs.map_values(|r: ApiResponse| r.status)
}

/// The responses at `order`, separated by commas.
pub open spec fn responses_json(rs: Seq<ApiResponse>, order: Seq<int>) -> Seq<char>
    decreases order.len(),
{
    if order.len() == 0 {
        Seq::empty()
    } else {
        responses_json(rs, order.drop_last()) + (if order.len() > 1 { seq![','] } else { Seq::empty() })
            + response_json(rs[order.last()])
    }
}

/// The document text of an operation on a route with these path parameters.
pub open spec fn operation_json(op: Operation, path_parameters: Seq<Seq<char>>) -> Seq<char> {
    doc_members(op) + declarations_json(op, path_parameters)
}

/// The parameters, request body and responses of an operation.
pub open spec fn declarations_json(op: Operation, path_parameters: Seq<Seq<char>>) -> Seq<char> {
    "\"parameters\":["@ + params_json(expanded_params(op.spec_groups(), path_parameters)) + seq![']']
        + body_json(op.spec_request_body()) + ",\"responses\":{"@
        + responses_json(op.spec_responses(), status_order(statuses(op.spec_responses()), op.spec_responses().len() as int))
        + seq!['}']
}

proof fn lemma_insert_at(s: Seq<int>, i: int, st: Seq<u16>, pos: int)
    requires
        0 <= pos <= s.len(),
        forall|q: int| pos <= q < s.len() ==> st[#[trigger] s[q]] > st[i],
        pos == 0 || st[s[pos - 1]] <= st[i],
    ensures
        insert_by_status(s, i, st) == s.take(pos).push(i) + s.skip(pos),
    decreases s.len(),
{
    if s.len() == 0 {
        assert(s.take(pos).push(i) + s.skip(pos) =~= seq![i]);
    } else if pos == s.len() {
        assert(s.take(pos).push(i) + s.skip(pos) =~= s.push(i));
    } else {
        assert(st[s[s.len() - 1]] > st[i]);
        let t = s.drop_last();
        assert forall|q: int| pos <= q < t.len() implies st[#[trigger] t[q]] > st[i] by {
            assert(t[q] == s[q]);
        }
        lemma_insert_at(t, i, st, pos);
        assert(t.take(pos).push(i) + t.skip(pos) + seq![s.last()] =~= s.take(pos).push(i) + s.skip(pos));
    }
}

fn insert_order(order: &mut Vec<usize>, i: usize, rs: &Vec<ApiResponse>)
    requires
        i < rs@.len(),
        forall|k: int| 0 <= k < old(order)@.len() ==> (#[trigger] old(order)@[k]) < rs@.len(),
    ensures
        crate::decode::as_ints(final(order)@) == insert_by_status(crate::decode::as_ints(old(order)@), i as int, statuses(rs@)),
        forall|k: int| 0 <= k < final(order)@.len() ==> (#[trigger] final(order)@[k]) < rs@.len(),
{
    let ghost st = statuses(rs@);
    let ghost s = crate::decode::as_ints(order@);
    let mut pos: usize = order.len();
    while pos > 0 && rs[order[pos - 1]].status > rs[i].status
        invariant
            pos <= order@.len(),
            order@ == old(order)@,
            s == crate::decode::as_ints(order@),
            st == statuses(rs@),
            i < rs@.len(),
            forall|k: int| 0 <= k < order@.len() ==> (#[trigger] order@[k]) < rs@.len(),
            forall|q: int| pos <= q < s.len() ==> st[#[trigger] s[q]] > st[i as int],
        decreases pos,
    {
        pos -= 1;
    }
    proof {
        lemma_insert_at(s, i as int, st, pos as int);
    }
    order.insert(pos, i);
    assert(crate::decode::as_ints(order@) =~= s.take(pos as int).push(i as int) + s.skip(pos as int));
}

fn push_param(out: &mut Vec<char>, p: &ExpandedParameter)
    ensures
        final(out)@ == old(out)@ + param_json((p.name@, p.location, p.required, p.schema@)),
{
    out.push('{');
    property(out, "name", p.name.as_slice());
    push_str(out, ",\"in\":");
    let loc = chars_of(p.location.as_str());
    string(out, loc.as_slice());
    push_str(out, ",\"required\":");
    push_str(out, if p.required { "true" } else { "false" });
    push_str(out, ",\"schema\":");
    push_all(out, p.schema.as_slice());
    out.push('}');
}

fn push_params(out: &mut Vec<char>, parameters: &Vec<ExpandedParameter>)
    ensures
        final(out)@ == old(out)@ + params_json(params_view(parameters@)),
{
    let ghost pv = params_view(parameters@);
    let ghost head = out@;
    let mut i: usize = 0;
    assert(pv.take(0) =~= Seq::<ParamView>::empty());
    while i < parameters.len()
        invariant
            pv == params_view(parameters@),
            i <= parameters@.len(),
            out@ == head + params_json(pv.take(i as int)),
        decreases parameters@.len() - i,
    {
        assert(pv.take(i + 1).drop_last() =~= pv.take(i as int));
        comma(out, i);
        push_param(out, &parameters[i]);
        i += 1;
    }
    assert(pv.take(pv.len() as int) =~= pv);
}

fn push_body(out: &mut Vec<char>, body: &Option<RequestBody>)
    ensures
        final(out)@ == old(out)@ + body_json(match body {
            Some(b) => Some((b.required, b.content@)),
            None => None,
        }),
{
    match body {
        Some(body) => {
            push_str(out, ",\"requestBody\":{\"required\":");
            push_str(out, if body.required { "true" } else { "false" });
            push_str(out, ",\"content\":{");
            let ghost mhead = out@;
            let mut k: usize = 0;
            assert(body.content@.take(0) =~= Seq::<MediaType>::empty());
            while k < body.content.len()
                invariant
                    k <= body.content@.len(),
                    out@ == mhead + medias_json(body.content@.take(k as int)),
                decreases body.content@.len() - k,
            {
                assert(body.content@.take(k + 1).drop_last() =~= body.content@.take(k as int));
                comma(out, k);
                let m = &body.content[k];
                let ct = chars_of(m.content_type.as_str());
                string(out, ct.as_slice());
                push_str(out, ":{");
                push_schema_member(out, &m.schema);
                out.push('}');
                k += 1;
            }
            assert(body.content@.take(body.content@.len() as int) =~= body.content@);
            push_str(out, "}}");
        },
        None => {
            assert(old(out)@ + Seq::<char>::empty() =~= old(out)@);
        },
    }
}

fn push_responses(out: &mut Vec<char>, rs: &Vec<ApiResponse>)
    ensures
        final(out)@ == old(out)@ + responses_json(rs@, status_order(statuses(rs@), rs@.len() as int)),
{
    let ghost st = statuses(rs@);
    let mut order: Vec<usize> = Vec::new();
    let mut j: usize = 0;
    assert(crate::decode::as_ints(order@) =~= status_order(st, 0));
    while j < rs.len()
        invariant
            st == statuses(rs@),
            j <= rs@.len(),
            crate::decode::as_ints(order@) == status_order(st, j as int),
            forall|k: int| 0 <= k < order@.len() ==> (#[trigger] order@[k]) < rs@.len(),
        decreases rs@.len() - j,
    {
        insert_order(&mut order, j, rs);
        j += 1;
    }
    let ghost ord = crate::decode::as_ints(order@);
    let ghost rhead = out@;
    let mut k: usize = 0;
    assert(ord.take(0) =~= Seq::<int>::empty());
    while k < order.len()
        invariant
            ord == crate::decode::as_ints(order@),
            forall|q: int| 0 <= q < order@.len() ==> (#[trigger] order@[q]) < rs@.len(),
            k <= order@.len(),
            out@ == rhead + responses_json(rs@, ord.take(k as int)),
        decreases order@.len() - k,
    {
        assert(ord.take(k + 1).drop_last() =~= ord.take(k as int));
        assert(ord.take(k + 1).last() == order@[k as int] as int);
        comma(out, k);
        let r = &rs[order[k]];
        push_response(out, r);
        k += 1;
    }
    assert(ord.take(ord.len() as int) =~= ord);
}

/// The JSON strings of `ss`, separated by commas.
pub open spec fn doc_strings(ss: Seq<Seq<char>>) -> Seq<char>
    decreases ss.len(),
{
    if ss.len() == 0 {
        Seq::empty()
    } else {
        doc_strings(ss.drop_last()) + (if ss.len() > 1 { seq![','] } else { Seq::empty() }) + doc_string(ss.last())
    }
}

/// `"name":"value",` when there is a value.
pub open spec fn optional_member(name: Seq<char>, value: Option<Seq<char>>) -> Seq<char> {
    match value {
        Some(v) => doc_property(name, v) + seq![','],
        None => Seq::empty(),
    }
}

/// The documentation members of an operation, each followed by a comma:
/// its tags, summary, description and operation ID, where it has them.
pub open spec fn doc_members(op: Operation) -> Seq<char> {
    (if op.spec_tags().len() > 0 {
        "\"tags\":["@ + doc_strings(op.spec_tags()) + "],"@
    } else {
        Seq::empty()
    }) + optional_member("summary"@, op.spec_summary()) + optional_member("description"@, op.spec_description())
        + optional_member("operationId"@, op.spec_operation_id())
}

fn push_optional_member(out: &mut Vec<char>, name: &str, value: &Option<String>)
    ensures
        final(out)@ == old(out)@ + optional_member(name@, opt_string_view(*value)),
{
    match value {
        Some(v) => {
            let vc = chars_of(v.as_str());
            property(out, name, vc.as_slice());
            out.push(',');
        },
        None => {
            assert(old(out)@ + Seq::<char>::empty() =~= old(out)@);
        },
    }
}

fn push_doc_members(out: &mut Vec<char>, operation: &Operation)
    ensures
        final(out)@ == old(out)@ + doc_members(*operation),
{
    let ghost start = out@;
    let ghost tags = operation.spec_tags();
    if operation.tags.len() > 0 {
        push_str(out, "\"tags\":[");
        let ghost mid = out@;
        let mut i: usize = 0;
        while i < operation.tags.len()
            invariant
                i <= operation.tags@.len(),
                tags == operation.tags@.map_values(|t: String| t@),
                out@ == mid + doc_strings(tags.take(i as int)),
            decreases operation.tags@.len() - i,
        {
            comma(out, i);
            let t = chars_of(operation.tags[i].as_str());
            string(out, t.as_slice());
            proof {
                assert(tags.take(i + 1).drop_last() =~= tags.take(i as int));
                assert(tags.take(i + 1).last() == tags[i as int]);
            }
            i += 1;
        }
        assert(tags.take(tags.len() as int) =~= tags);
        push_str(out, "],");
    } else {
        assert(out@ =~= start + Seq::<char>::empty());
    }
    let ghost after_tags = out@;
    push_optional_member(out, "summary", &operation.summary);
    push_optional_member(out, "description", &operation.description);
    push_optional_member(out, "operationId", &operation.operation_id);
    proof {
        reveal_strlit("summary");
        reveal_strlit("description");
        reveal_strlit("operationId");
        reveal_strlit("\"tags\":[");
        reveal_strlit("],");
    }
}

/// Appends the documentation members, `"parameters":[..]`, the request body
/// and the responses of an operation.
pub fn render_operation(out: &mut Vec<char>, operation: &Operation, path_parameters: &Vec<Vec<char>>)
    ensures
        final(out)@ == old(out)@ + operation_json(*operation, path_parameters@.map_values(|p: Vec<char>| p@)),
{
    let ghost start = out@;
    push_doc_members(out, operation);
    let ghost mid = out@;
    render_declarations(out, operation, path_parameters);
    assert(out@ =~= start + operation_json(*operation, path_parameters@.map_values(|p: Vec<char>| p@)));
}

fn render_declarations(out: &mut Vec<char>, operation: &Operation, path_parameters: &Vec<Vec<char>>)
    ensures
        final(out)@ == old(out)@ + declarations_json(*operation, path_parameters@.map_values(|p: Vec<char>| p@)),
{
    push_str(out, "\"parameters\":[");
    let parameters = expand_parameters(operation, path_parameters);
    push_params(out, &parameters);
    out.push(']');
    push_body(out, &operation.request_body);
    push_str(out, ",\"responses\":{");
    push_responses(out, &operation.responses);
    out.push('}');
}

fn push_schema_member(out: &mut Vec<char>, schema: &Option<SchemaMetadata>)
    ensures
        final(out)@ == old(out)@ + schema_member(*schema),
{
    match schema {
        Some(s) => {
            push_str(out, "\"schema\":");
            render_schema(out, s);
        },
        None => {
            assert(old(out)@ + Seq::<char>::empty() =~= old(out)@);
        },
    }
}

fn push_response(out: &mut Vec<char>, r: &ApiResponse)
    ensures
        final(out)@ == old(out)@ + response_json(*r),
{
    let status = decimal_text(r.status as u128);
    string(out, status.as_slice());
    push_str(out, ":{");
    let d = chars_of(r.description.as_str());
    property(out, "description", d.as_slice());
    let ghost mid = out@;
    match &r.content_type {
        Some(c) => {
            push_str(out, ",\"content\":{");
            let cs = chars_of(c.as_str());
            string(out, cs.as_slice());
            push_str(out, ":{");
            push_schema_member(out, &r.schema);
            push_str(out, "}}");
        },
        None => {
            assert(out@ =~= mid + Seq::<char>::empty());
        },
    }
    out.push('}');
}

/// The reference page for a document, titled `title`.
pub open spec fn scalar_page_text(title: Seq<char>, document: Seq<char>) -> Seq<char> {
    "<!doctype html><html><head><meta charset=\"utf-8\"><meta name=\"viewport\" content=\"width=device-width,initial-scale=1\"><title>"@
        + html_escape(title)
        + "</title></head><body><div id=\"app\"></div><script src=\"https://cdn.jsdelivr.net/npm/@scalar/api-reference@1.63.0\"></script><script>Scalar.createApiReference('#app',{content:"@
        + script_literal(document) + "})</script></body></html>"@
}

fn hex_char(d: u32) -> (c: char)
    requires
        d < 16,
    ensures
        c == hex_digit(d),
{
    if d < 10 {
        ((48 + d) as u8) as char
    } else {
        ((87 + d) as u8) as char
    }
}

fn push_unicode_escape(out: &mut Vec<char>, c: char)
    requires
        (c as u32) < 0x20,
    ensures
        final(out)@ == old(out)@ + seq!['\\', 'u', '0', '0', hex_digit((c as u32) / 16), hex_digit((c as u32) % 16)],
{
    let n = c as u32;
    out.push('\\');
    out.push('u');
    out.push('0');
    out.push('0');
    out.push(hex_char(n / 16));
    out.push(hex_char(n % 16));
}

fn push_two(out: &mut Vec<char>, a: char, b: char)
    ensures
        final(out)@ == old(out)@ + seq![a, b],
{
    out.push(a);
    out.push(b);
}

/// Appends `value` as a string literal of the document.
pub fn string(out: &mut Vec<char>, value: &[char])
    ensures
        final(out)@ == old(out)@ + doc_string(value@),
{
    out.push('"');
    let ghost start = out@;
    let mut i: usize = 0;
    assert(value@.take(0) =~= Seq::<char>::empty());
    while i < value.len()
        invariant
            i <= value@.len(),
            out@ == start + doc_escape(value@.take(i as int)),
        decreases value@.len() - i,
    {
        let c = value[i];
        let ghost before = out@;
        assert(value@.take(i + 1).drop_last() =~= value@.take(i as int));
        if c == '"' {
            push_two(out, '\\', '"');
        } else if c == '\\' {
            push_two(out, '\\', '\\');
        } else if c == '\n' {
            push_two(out, '\\', 'n');
        } else if c == '\r' {
            push_two(out, '\\', 'r');
        } else if c == '\t' {
            push_two(out, '\\', 't');
        } else if (c as u32) < 0x20 {
            push_unicode_escape(out, c);
        } else {
            out.push(c);
        }
        assert(out@ =~= before + doc_escape_char(c));
        i += 1;
    }
    assert(value@.take(value@.len() as int) =~= value@);
    out.push('"');
}

/// Appends `"name":"value"`.
pub fn property(out: &mut Vec<char>, name: &str, value: &[char])
    ensures
        final(out)@ == old(out)@ + doc_property(name@, value@),
{
    let n = chars_of(name);
    string(out, n.as_slice());
    out.push(':');
    string(out, value);
}

/// Appends a comma before every item but the first.
pub fn comma(out: &mut Vec<char>, index: usize)
    ensures
        final(out)@ == old(out)@ + (if index > 0 { seq![','] } else { Seq::empty() }),
{
    if index > 0 {
        out.push(',');
    } else {
        assert(old(out)@ + Seq::<char>::empty() =~= old(out)@);
    }
}

/// Appends `value` with HTML's special characters escaped.
pub fn html_text(out: &mut Vec<char>, value: &[char])
    ensures
        final(out)@ == old(out)@ + html_escape(value@),
{
    let ghost start = out@;
    let mut i: usize = 0;
    assert(value@.take(0) =~= Seq::<char>::empty());
    while i < value.len()
        invariant
            i <= value@.len(),
            out@ == start + html_escape(value@.take(i as int)),
        decreases value@.len() - i,
    {
        let c = value[i];
        let ghost before = out@;
        assert(value@.take(i + 1).drop_last() =~= value@.take(i as int));
        if c == '&' {
            push_str(out, "&amp;");
        } else if c == '<' {
            push_str(out, "&lt;");
        } else if c == '>' {
            push_str(out, "&gt;");
        } else if c == '"' {
            push_str(out, "&quot;");
        } else if c == '\'' {
            push_str(out, "&#39;");
        } else {
            out.push(c);
        }
        assert(out@ =~= before + html_escape_char(c));
        i += 1;
    }
    assert(value@.take(value@.len() as int) =~= value@);
}

/// Appends `value` as a JavaScript string literal that is safe inside a
/// `<script>` element.
pub fn script_string(out: &mut Vec<char>, value: &[char])
    ensures
        final(out)@ == old(out)@ + script_literal(value@),
{
    out.push('"');
    let ghost start = out@;
    let mut i: usize = 0;
    assert(value@.take(0) =~= Seq::<char>::empty());
    while i < value.len()
        invariant
            i <= value@.len(),
            out@ == start + script_escape(value@.take(i as int)),
        decreases value@.len() - i,
    {
        let c = value[i];
        let ghost before = out@;
        assert(value@.take(i + 1).drop_last() =~= value@.take(i as int));
        if c == '"' {
            push_two(out, '\\', '"');
        } else if c == '\\' {
            push_two(out, '\\', '\\');
        } else if c == '\n' {
            push_two(out, '\\', 'n');
        } else if c == '\r' {
            push_two(out, '\\', 'r');
        } else if c == '\t' {
            push_two(out, '\\', 't');
        } else if c == '<' {
            push_two(out, '\\', 'u');
            push_two(out, '0', '0');
            push_two(out, '3', 'c');
        } else if c == '>' {
            push_two(out, '\\', 'u');
            push_two(out, '0', '0');
            push_two(out, '3', 'e');
        } else if c == '&' {
            push_two(out, '\\', 'u');
            push_two(out, '0', '0');
            push_two(out, '2', '6');
        } else if c == '\u{2028}' {
            push_two(out, '\\', 'u');
            push_two(out, '2', '0');
            push_two(out, '2', '8');
        } else if c == '\u{2029}' {
            push_two(out, '\\', 'u');
            push_two(out, '2', '0');
            push_two(out, '2', '9');
        } else if (c as u32) < 0x20 {
            push_unicode_escape(out, c);
        } else {
            out.push(c);
        }
        assert(out@ =~= before + script_escape_char(c));
        i += 1;
    }
    assert(value@.take(value@.len() as int) =~= value@);
    out.push('"');
}

/// The reference page for `document`, titled `title`.
pub fn render_scalar_page(title: &str, document: &str) -> (r: String)
    ensures
        r@ == scalar_page_text(title@, document@),
{
    let mut out = chars_of(
        "<!doctype html><html><head><meta charset=\"utf-8\"><meta name=\"viewport\" content=\"width=device-width,initial-scale=1\"><title>",
    );
    let t = chars_of(title);
    html_text(&mut out, t.as_slice());
    push_str(
        &mut out,
        "</title></head><body><div id=\"app\"></div><script src=\"https://cdn.jsdelivr.net/npm/@scalar/api-reference@1.63.0\"></script><script>Scalar.createApiReference('#app',{content:",
    );
    let d = chars_of(document);
    script_string(&mut out, d.as_slice());
    push_str(&mut out, "})</script></body></html>");
    string_of(out.as_slice())
}

/// A rendered OpenAPI document.
#[derive(Debug, Clone)]
pub struct OpenApiDocument {
    json: String,
}

impl OpenApiDocument {
    pub closed spec fn spec_json(&self) -> Seq<char> {
        self.json@
    }

    pub fn as_str(&self) -> (r: &str)
        ensures
            r@ == self.spec_json(),
    {
        self.json.as_str()
    }

    pub fn into_string(self) -> (r: String)
        ensures
            r@ == self.spec_json(),
    {
        self.json
    }
}

impl IntoResponse for OpenApiDocument {
    open spec fn response_for(self, r: Response) -> bool {
        &&& (r.spec_status() == 200)
        &&& (r.spec_headers() == Response::typed("application/json"@))
        &&& (r.spec_body().spec_buffered() == Some(encode_utf8(self.spec_json())))
    }

    /// The document as a JSON response.
    fn into_response(self) -> (r: Response)
        ensures
            r.spec_status() == 200,
            r.spec_headers() == Response::typed("application/json"@),
            r.spec_body().spec_buffered() == Some(encode_utf8(self.spec_json())),
    {
        let mut response = Response::bytes(200, utf8_bytes(self.json.as_str()));
        let ghost before = response.spec_headers();
        response.set_header("Content-Type".to_owned(), utf8_bytes("application/json"));
        proof {
            crate::headers::lemma_name_equivalence("Content-Type"@, "Content-Type"@, "Content-Type"@);
            assert(without_named(before, "Content-Type"@, 0) =~= Seq::empty());
            assert(without_named(before, "Content-Type"@, 1) =~= Seq::empty());
        }
        response
    }
}


/// Whether `a` comes before `b` in the order of `String`'s comparison.
pub open spec fn lex_less(a: Seq<char>, b: Seq<char>) -> bool
    decreases a.len(),
{
    if b.len() == 0 {
        false
    } else if a.len() == 0 {
        true
    } else if a[0] != b[0] {
        a[0] < b[0]
    } else {
        lex_less(a.drop_first(), b.drop_first())
    }
}

fn lex_less_chars(a: &[char], b: &[char]) -> (r: bool)
    ensures
        r == lex_less(a@, b@),
{
    let mut i: usize = 0;
    assert(a@.skip(0) =~= a@);
    assert(b@.skip(0) =~= b@);
    while i < a.len() && i < b.len() && a[i] == b[i]
        invariant
            i <= a@.len(),
            i <= b@.len(),
            lex_less(a@, b@) == lex_less(a@.skip(i as int), b@.skip(i as int)),
        decreases a@.len() - i,
    {
        proof {
            assert(a@.skip(i as int).drop_first() =~= a@.skip(i + 1));
            assert(b@.skip(i as int).drop_first() =~= b@.skip(i + 1));
        }
        i += 1;
    }
    if i >= b.len() {
        false
    } else if i >= a.len() {
        true
    } else {
        a[i] < b[i]
    }
}

/// `ps` with `p` inserted after every path ordered before it.
pub open spec fn insert_path(ps: Seq<Seq<char>>, p: Seq<char>) -> Seq<Seq<char>>
    decreases ps.len(),
{
    if ps.len() == 0 {
        seq![p]
    } else if lex_less(ps.last(), p) {
        ps.push(p)
    } else {
        insert_path(ps.drop_last(), p).push(ps.last())
    }
}

/// The distinct paths, in increasing order.
pub open spec fn path_order(paths: Seq<Seq<char>>) -> Seq<Seq<char>>
    decreases paths.len(),
{
    if paths.len() == 0 {
        Seq::empty()
    } else {
        let prev = path_order(paths.drop_last());
        if prev.contains(paths.last()) { prev } else { insert_path(prev, paths.last()) }
    }
}

proof fn lemma_insert_path_at(ps: Seq<Seq<char>>, p: Seq<char>, pos: int)
    requires
        0 <= pos <= ps.len(),
        forall|q: int| pos <= q < ps.len() ==> !lex_less(#[trigger] ps[q], p),
        pos == 0 || lex_less(ps[pos - 1], p),
    ensures
        insert_path(ps, p) == ps.take(pos).push(p) + ps.skip(pos),
    decreases ps.len(),
{
    if ps.len() == 0 {
        assert(ps.take(pos).push(p) + ps.skip(pos) =~= seq![p]);
    } else if pos == ps.len() {
        assert(ps.take(pos).push(p) + ps.skip(pos) =~= ps.push(p));
    } else {
        assert(!lex_less(ps[ps.len() - 1], p));
        let t = ps.drop_last();
        assert forall|q: int| pos <= q < t.len() implies !lex_less(#[trigger] t[q], p) by {
            assert(t[q] == ps[q]);
        }
        lemma_insert_path_at(t, p, pos);
        assert(t.take(pos).push(p) + t.skip(pos) + seq![ps.last()] =~= ps.take(pos).push(p) + ps.skip(pos));
    }
}

pub open spec fn chars_view(v: Seq<Vec<char>>) -> Seq<Seq<char>> {
    v.map_values(|x: Vec<char>| x@)
}

fn add_path(ps: &mut Vec<Vec<char>>, p: &[char])
    ensures
        chars_view(final(ps)@) == if chars_view(old(ps)@).contains(p@) {
            chars_view(old(ps)@)
        } else {
            insert_path(chars_view(old(ps)@), p@)
        },
{
    let ghost v = chars_view(ps@);
    let mut k: usize = 0;
    while k < ps.len()
        invariant
            k <= ps@.len(),
            ps@ == old(ps)@,
            v == chars_view(ps@),
            forall|q: int| 0 <= q < k ==> v[q] != p@,
        decreases ps@.len() - k,
    {
        if crate::text::chars_equal(ps[k].as_slice(), p) {
            assert(v[k as int] == p@);
            return;
        }
        k += 1;
    }
    let mut pos: usize = ps.len();
    while pos > 0 && !lex_less_chars(ps[pos - 1].as_slice(), p)
        invariant
            pos <= ps@.len(),
            ps@ == old(ps)@,
            v == chars_view(ps@),
            forall|q: int| pos <= q < v.len() ==> !lex_less(#[trigger] v[q], p@),
        decreases pos,
    {
        pos -= 1;
    }
    proof {
        lemma_insert_path_at(v, p@, pos as int);
    }
    let copy = crate::text::copy_chars(p);
    ps.insert(pos, copy);
    assert(chars_view(ps@) =~= v.take(pos as int).push(p@) + v.skip(pos as int));
}

/// The configuration of a published document.
#[derive(Debug, Clone)]
pub struct OpenApi {
    title: String,
    version: String,
}

/// One route as the document describes it.
#[derive(Debug)]
pub struct RouteDescription<'a> {
    pub path: String,
    pub method: String,
    pub path_parameters: Vec<Vec<char>>,
    pub operation: &'a Operation,
}

/// Whether a method has a field in an OpenAPI path item.
pub open spec fn spec_openapi_method(name: Seq<char>) -> bool {
    ||| name == "GET"@
    ||| name == "PUT"@
    ||| name == "POST"@
    ||| name == "DELETE"@
    ||| name == "OPTIONS"@
    ||| name == "HEAD"@
    ||| name == "PATCH"@
    ||| name == "TRACE"@
}

pub fn is_openapi_method(method: &Method) -> (r: bool)
    ensures
        r == spec_openapi_method(method.name()),
{
    let name = method.as_str();
    let n = chars_of(name);
    proof {
        reveal_strlit("GET");
        reveal_strlit("PUT");
        reveal_strlit("POST");
        reveal_strlit("DELETE");
        reveal_strlit("OPTIONS");
        reveal_strlit("HEAD");
        reveal_strlit("PATCH");
        reveal_strlit("TRACE");
    }
    let get = chars_of("GET");
    let put = chars_of("PUT");
    let post = chars_of("POST");
    let delete = chars_of("DELETE");
    let options = chars_of("OPTIONS");
    let head = chars_of("HEAD");
    let patch = chars_of("PATCH");
    let trace = chars_of("TRACE");
    crate::text::chars_equal(n.as_slice(), get.as_slice()) || crate::text::chars_equal(n.as_slice(), put.as_slice())
        || crate::text::chars_equal(n.as_slice(), post.as_slice()) || crate::text::chars_equal(n.as_slice(), delete.as_slice())
        || crate::text::chars_equal(n.as_slice(), options.as_slice()) || crate::text::chars_equal(n.as_slice(), head.as_slice())
        || crate::text::chars_equal(n.as_slice(), patch.as_slice()) || crate::text::chars_equal(n.as_slice(), trace.as_slice())
}

pub open spec fn route_paths(routes: Seq<RouteDescription<'_>>) -> Seq<Seq<char>> {
    routes.map_values(|r: RouteDescription<'_>| r.path@)
}

/// The routes on `path`, in order.
pub open spec fn routes_at<'a>(routes: Seq<RouteDescription<'a>>, path: Seq<char>) -> Seq<RouteDescription<'a>> {
    routes.filter(|r: RouteDescription<'a>| r.path@ == path)
}

pub open spec fn method_json(r: RouteDescription<'_>) -> Seq<char> {
    doc_string(lower_seq(r.method@)) + ":{"@ + operation_json(*r.operation, chars_view(r.path_parameters@)) + seq!['}']
}

pub open spec fn methods_json(rs: Seq<RouteDescription<'_>>) -> Seq<char>
    decreases rs.len(),
{
    if rs.len() == 0 {
        Seq::empty()
    } else {
        methods_json(rs.drop_last()) + (if rs.len() > 1 { seq![','] } else { Seq::empty() }) + method_json(rs.last())
    }
}

pub open spec fn paths_json(routes: Seq<RouteDescription<'_>>, ps: Seq<Seq<char>>) -> Seq<char>
    decreases ps.len(),
{
    if ps.len() == 0 {
        Seq::empty()
    } else {
        paths_json(routes, ps.drop_last()) + (if ps.len() > 1 { seq![','] } else { Seq::empty() })
            + doc_string(ps.last()) + ":{"@ + methods_json(routes_at(routes, ps.last())) + seq!['}']
    }
}

/// The OpenAPI document: the title and version, then each path in
/// increasing order with its routes' operations keyed by lower-case method.
pub open spec fn document_json(title: Seq<char>, version: Seq<char>, routes: Seq<RouteDescription<'_>>) -> Seq<char> {
    "{\"openapi\":\"3.1.0\",\"info\":{"@ + doc_property("title"@, title) + seq![','] + doc_property("version"@, version)
        + "},\"paths\":{"@ + paths_json(routes, path_order(route_paths(routes))) + "}}"@
}

#[verifier::rlimit(40)]
fn push_method(out: &mut Vec<char>, r: &RouteDescription<'_>)
    ensures
        final(out)@ == old(out)@ + method_json(*r),
{
    let ghost start = out@;
    let m = chars_of(r.method.as_str());
    let mut lowered: Vec<char> = Vec::new();
    let mut k: usize = 0;
    while k < m.len()
        invariant
            k <= m@.len(),
            lowered@ == lower_seq(m@.take(k as int)),
        decreases m@.len() - k,
    {
        lowered.push(lower_char(m[k]));
        k += 1;
        assert(lowered@ =~= lower_seq(m@.take(k as int)));
    }
    assert(m@.take(m@.len() as int) =~= m@);
    string(out, lowered.as_slice());
    push_str(out, ":{");
    let ghost before_operation = out@;
    render_operation(out, r.operation, &r.path_parameters);
    out.push('}');
    assert(out@ =~= start + method_json(*r));
}

fn push_path(out: &mut Vec<char>, routes: &Vec<RouteDescription<'_>>, path: &[char])
    ensures
        final(out)@ == old(out)@ + doc_string(path@) + ":{"@ + methods_json(routes_at(routes@, path@)) + seq!['}'],
{
    string(out, path);
    push_str(out, ":{");
    push_methods(out, routes, path);
    out.push('}');
}

fn push_methods(out: &mut Vec<char>, routes: &Vec<RouteDescription<'_>>, path: &[char])
    ensures
        final(out)@ == old(out)@ + methods_json(routes_at(routes@, path@)),
{
    let ghost pred = |r: RouteDescription<'_>| r.path@ == path@;
    let ghost head = out@;
    let mut count: usize = 0;
    let mut i: usize = 0;
    assert(routes@.take(0).filter(pred) =~= Seq::<RouteDescription<'_>>::empty());
    while i < routes.len()
        invariant
            i <= routes@.len(),
            pred == (|r: RouteDescription<'_>| r.path@ == path@),
            count == routes@.take(i as int).filter(pred).len(),
            out@ == head + methods_json(routes@.take(i as int).filter(pred)),
        decreases routes@.len() - i,
    {
        let ghost prev = routes@.take(i as int);
        assert(routes@.take(i + 1) =~= prev.push(routes@[i as int]));
        proof {
            prev.lemma_filter_push(routes@[i as int], pred);
        }
        let r = &routes[i];
        let rp = chars_of(r.path.as_str());
        if crate::text::chars_equal(rp.as_slice(), path) {
            let ghost fprev = prev.filter(pred);
            assert(fprev.push(routes@[i as int]).drop_last() =~= fprev);
            comma(out, count);
            push_method(out, r);
            count += 1;
        }
        i += 1;
    }
    assert(routes@.take(routes@.len() as int) =~= routes@);
}

/// Renders the document of `routes` under this configuration.
#[verifier::rlimit(40)]
#[verifier::spinoff_prover]
pub fn render_document(configuration: &OpenApi, routes: &Vec<RouteDescription<'_>>) -> (r: String)
    ensures
        r@ == document_json(configuration.spec_title(), configuration.spec_version(), routes@),
{
    let ghost paths = route_paths(routes@);
    let mut ps: Vec<Vec<char>> = Vec::new();
    let mut i: usize = 0;
    assert(chars_view(ps@) =~= path_order(paths.take(0)));
    while i < routes.len()
        invariant
            paths == route_paths(routes@),
            i <= routes@.len(),
            chars_view(ps@) == path_order(paths.take(i as int)),
        decreases routes@.len() - i,
    {
        assert(paths.take(i + 1).drop_last() =~= paths.take(i as int));
        let p = chars_of(routes[i].path.as_str());
        add_path(&mut ps, p.as_slice());
        i += 1;
    }
    assert(paths.take(paths.len() as int) =~= paths);
    let mut out = chars_of("{\"openapi\":\"3.1.0\",\"info\":{");
    let title = chars_of(configuration.title.as_str());
    property(&mut out, "title", title.as_slice());
    out.push(',');
    let version = chars_of(configuration.version.as_str());
    property(&mut out, "version", version.as_slice());
    push_str(&mut out, "},\"paths\":{");
    let ghost order = chars_view(ps@);
    let ghost head = out@;
    let mut k: usize = 0;
    assert(order.take(0) =~= Seq::<Seq<char>>::empty());
    while k < ps.len()
        invariant
            order == chars_view(ps@),
            k <= ps@.len(),
            out@ == head + paths_json(routes@, order.take(k as int)),
        decreases ps@.len() - k,
    {
        assert(order.take(k + 1).drop_last() =~= order.take(k as int));
        comma(&mut out, k);
        push_path(&mut out, routes, ps[k].as_slice());
        k += 1;
    }
    assert(order.take(order.len() as int) =~= order);
    push_str(&mut out, "}}");
    string_of(out.as_slice())
}

impl OpenApi {
    pub closed spec fn spec_title(&self) -> Seq<char> {
        self.title@
    }

    pub closed spec fn spec_version(&self) -> Seq<char> {
        self.version@
    }

    pub fn new(title: String, version: String) -> (r: OpenApi)
        ensures
            r.spec_title() == title@,
            r.spec_version() == version@,
    {
        OpenApi { title, version }
    }

    /// The reference page for `document`, titled with this configuration's title.
    pub fn scalar_page(&self, document: &OpenApiDocument) -> (r: String)
        ensures
            r@ == scalar_page_text(self.spec_title(), document.spec_json()),
    {
        render_scalar_page(self.title.as_str(), document.as_str())
    }

    /// The document of `routes`.
    pub fn build(&self, routes: Vec<RouteDescription<'_>>) -> (r: OpenApiDocument)
        ensures
            r.spec_json() == document_json(self.spec_title(), self.spec_version(), routes@),
    {
        OpenApiDocument { json: render_document(self, &routes) }
    }
}

} // verus!
