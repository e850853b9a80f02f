//! The OpenAPI document as the printing press reads it, and what it derives
//! from it: the title, the base URL, the authentication model and the list of
//! operations that become commands.
use vstd::prelude::*;

use crate::names::{fallback_id_of, kebab_of, words_of};
use crate::ordered_map::{entries_view, find_entry, insert_entry, key_lt, keys_increasing, lookup, NamedMap};
use crate::text::{is_blank, join, starts_with, views};

verus! {

// ---------------------------------------------------------------------------
// The document
// ---------------------------------------------------------------------------

/// An OpenAPI document.
#[derive(Debug, Clone)]
pub struct OpenApiSpec {
    pub openapi: String,
    pub info: Info,
    pub servers: Vec<Server>,
    pub security: Vec<SecurityRequirement>,
    pub components: Components,
    pub paths: NamedMap<PathItem>,
}

#[derive(Debug, Clone, Default)]
pub struct Info {
    pub title: String,
    pub description: String,
    pub version: String,
}

#[derive(Debug, Clone, Default)]
pub struct Server {
    pub url: String,
}

#[derive(Debug, Clone, Default)]
pub struct Components {
    pub security_schemes: NamedMap<SecurityScheme>,
    pub schemas: NamedMap<Schema>,
}

/// The operations of one path, with the parameters they share.
#[derive(Debug, Clone, Default)]
pub struct PathItem {
    pub parameters: Vec<Parameter>,
    pub get: Option<Operation>,
    pub post: Option<Operation>,
    pub put: Option<Operation>,
    pub patch: Option<Operation>,
    pub delete: Option<Operation>,
}

#[derive(Debug, Clone, Default)]
pub struct Operation {
    pub operation_id: Option<String>,
    pub summary: Option<String>,
    pub description: Option<String>,
    pub tags: Vec<String>,
    pub parameters: Vec<Parameter>,
    pub request_body: Option<RequestBody>,
    pub security: Option<Vec<SecurityRequirement>>,
}

#[derive(Debug, Clone, Default)]
pub struct Parameter {
    pub name: String,
    /// Where the parameter goes: `path`, `query`, `header` or `cookie`.
    pub location: String,
    pub required: bool,
    pub schema: Schema,
}

#[derive(Debug, Clone, Default)]
pub struct RequestBody {
    pub required: bool,
    /// Media type name to media type.
    pub content: NamedMap<MediaType>,
}

#[derive(Debug, Clone, Default)]
pub struct MediaType {
    pub schema: Schema,
}

#[derive(Debug, Default)]
pub struct Schema {
    pub schema_type: String,
    pub properties: SchemaProperties,
    pub required: Vec<String>,
    pub ref_path: Option<String>,
}

/// The properties of an object schema: property name to the property's
/// schema, kept and walked in increasing name order, each name once.
#[derive(Debug, Default)]
pub struct SchemaProperties {
    entries: Vec<(String, Schema)>,
}

impl View for SchemaProperties {
    type V = Seq<(Seq<char>, Schema)>;

    closed spec fn view(&self) -> Seq<(Seq<char>, Schema)> {
        entries_view(self.entries@)
    }
}

impl SchemaProperties {
    #[verifier::type_invariant]
    closed spec fn sorted(self) -> bool {
        keys_increasing(self@)
    }

    /// No properties.
    pub fn new() -> (m: Self)
        ensures
            m@ == Seq::<(Seq<char>, Schema)>::empty(),
    {
        let m = SchemaProperties { entries: Vec::new() };
        assert(m@ =~= Seq::<(Seq<char>, Schema)>::empty());
        m
    }

    pub fn len(&self) -> (n: usize)
        ensures
            n == self@.len(),
    {
        self.entries.len()
    }

    /// The name of property `i`.
    pub fn key_at(&self, i: usize) -> (k: &String)
        requires
            i < self@.len(),
        ensures
            k@ == self@[i as int].0,
    {
        &self.entries[i].0
    }

    /// The schema of property `i`.
    pub fn value_at(&self, i: usize) -> (v: &Schema)
        requires
            i < self@.len(),
        ensures
            *v == self@[i as int].1,
    {
        &self.entries[i].1
    }

    /// The schema of the property called `key`.
    pub fn get(&self, key: &str) -> (r: Option<&Schema>)
        ensures
            match r {
                Some(v) => lookup(self@, key@) == Some(*v),
                None => lookup(self@, key@) is None,
            },
    {
        find_entry(&self.entries, key)
    }

    /// Sets the schema of the property called `key`, returning the one it
    /// replaces; names stay in increasing order.
    pub fn insert(&mut self, key: String, value: Schema) -> (previous: Option<Schema>)
        ensures
            keys_increasing(final(self)@),
            previous == lookup(old(self)@, key@),
            lookup(final(self)@, key@) == Some(value),
            forall|k: Seq<char>| k != key@ ==> lookup(final(self)@, k) == lookup(old(self)@, k),
            final(self)@.len() == old(self)@.len() + (if previous is Some { 0int } else { 1int }),
    {
        proof {
            use_type_invariant(&*self);
        }
        let mut entries: Vec<(String, Schema)> = Vec::new();
        std::mem::swap(&mut entries, &mut self.entries);
        let previous = insert_entry(&mut entries, key, value);
        self.entries = entries;
        previous
    }
}

/// `b` holds what `a` holds: the same type, reference and required names,
/// and the same property names in the same order, each with a schema that
/// holds what `a`'s holds, at every depth.
pub open spec fn same_schema(a: Schema, b: Schema) -> bool
    decreases a,
    via same_schema_decreases
{
    &&& b.schema_type == a.schema_type
    &&& b.ref_path == a.ref_path
    &&& b.required@ == a.required@
    &&& b.properties@.len() == a.properties@.len()
    &&& forall|i: int|
        0 <= i < a.properties@.len() ==> #[trigger] b.properties@[i].0 == a.properties@[i].0
            && same_schema(a.properties@[i].1, b.properties@[i].1)
}

#[via_fn]
proof fn same_schema_decreases(a: Schema, b: Schema) {
    assert forall|i: int| 0 <= i < a.properties@.len() implies decreases_to!(a => a.properties@[i].1) by {
        assert(a.properties@[i].1 == a.properties.entries@[i].1);
    }
}

/// A schema's copy holds what the schema holds, nested property schemas
/// included.
impl Clone for Schema {
    fn clone(&self) -> (res: Self)
        ensures
            same_schema(*self, res),
        decreases self, 1int,
    {
        let required = self.required.clone();
        assert(required@ =~= self.required@);
        Schema {
            schema_type: self.schema_type.clone(),
            properties: self.properties.clone(),
            required,
            ref_path: self.ref_path.clone(),
        }
    }
}

/// The copy has the same property names in the same order, each with a
/// schema that holds what the original's holds.
impl Clone for SchemaProperties {
    fn clone(&self) -> (res: Self)
        ensures
            res@.len() == self@.len(),
            forall|i: int| 0 <= i < self@.len() ==> #[trigger] res@[i].0 == self@[i].0,
            forall|i: int| 0 <= i < self@.len() ==> same_schema(self@[i].1, #[trigger] res@[i].1),
        decreases self, 0int,
    {
        proof {
            use_type_invariant(self);
        }
        let mut entries: Vec<(String, Schema)> = Vec::new();
        let mut i: usize = 0;
        while i < self.entries.len()
            invariant
                i <= self.entries.len(),
                entries@.len() == i,
                keys_increasing(self@),
                forall|j: int| 0 <= j < i ==> #[trigger] entries@[j].0@ == self.entries@[j].0@,
                forall|j: int|
                    0 <= j < i ==> same_schema(self.entries@[j].1, #[trigger] entries@[j].1),
            decreases self.entries.len() - i,
        {
            let key = self.entries[i].0.clone();
            let value = self.entries[i].1.clone();
            entries.push((key, value));
            i = i + 1;
        }
        proof {
            let v = entries_view(entries@);
            assert forall|j: int| 0 <= j < v.len() implies #[trigger] v[j].0 == self@[j].0 by {}
            assert forall|j: int| 0 <= j < v.len() implies same_schema(self@[j].1, #[trigger] v[j].1) by {
                assert(self@[j].1 == self.entries@[j].1);
                assert(v[j].1 == entries@[j].1);
            }
            assert forall|a: int, b: int| 0 <= a < b < v.len() implies key_lt(
                #[trigger] v[a].0,
                #[trigger] v[b].0,
            ) by {
                assert(key_lt(self@[a].0, self@[b].0));
            }
        }
        SchemaProperties { entries }
    }
}

/// Scheme name to the scopes it asks for; an empty requirement asks for
/// nothing.
pub type SecurityRequirement = NamedMap<Vec<String>>;

#[derive(Debug, Clone, Default)]
pub struct SecurityScheme {
    pub scheme_type: String,
    pub location: String,
    pub name: String,
    pub flows: OAuthFlows,
    pub auth_vars: Vec<AuthEnvVar>,
}

#[derive(Debug, Clone, Default)]
pub struct OAuthFlows {
    pub client_credentials: Option<OAuthFlow>,
}

#[derive(Debug, Clone, Default)]
pub struct OAuthFlow {
    pub token_url: String,
}

/// An environment variable that carries a credential.
#[derive(Debug, Clone, Default)]
pub struct AuthEnvVar {
    pub name: String,
    pub kind: String,
    pub required: bool,
    pub sensitive: bool,
    pub description: String,
}

/// How the printed CLI authenticates.
#[derive(Debug, Clone)]
pub struct AuthModel {
    pub scheme_name: String,
    pub kind: String,
    pub header_name: String,
    pub env_vars: Vec<AuthEnvVar>,
    pub token_url: Option<String>,
}

/// A command-line input of an operation.
#[derive(Debug, Clone)]
pub struct OperationField {
    pub name: String,
    pub flag_name: String,
    pub rust_name: String,
    pub required: bool,
    pub field_type: String,
}

/// One operation of the document, as a command of the printed CLI.
#[derive(Debug, Clone)]
pub struct OperationRecord {
    pub command_name: String,
    pub operation_id: String,
    pub method: String,
    pub path: String,
    pub summary: String,
    pub tag: String,
    pub has_body: bool,
    pub path_params: Vec<String>,
    pub query_params: Vec<String>,
    pub path_fields: Vec<OperationField>,
    pub query_fields: Vec<OperationField>,
    pub body_fields: Vec<OperationField>,
    pub requires_auth: bool,
}

// ---------------------------------------------------------------------------
// Abstract forms of the results
// ---------------------------------------------------------------------------

pub struct OperationFieldView {
    pub name: Seq<char>,
    pub flag_name: Seq<char>,
    pub rust_name: Seq<char>,
    pub required: bool,
    pub field_type: Seq<char>,
}

impl View for OperationField {
    type V = OperationFieldView;

    open spec fn view(&self) -> OperationFieldView {
        OperationFieldView {
            name: self.name@,
            flag_name: self.flag_name@,
            rust_name: self.rust_name@,
            required: self.required,
            field_type: self.field_type@,
        }
    }
}

pub open spec fn fields_view(v: Seq<OperationField>) -> Seq<OperationFieldView> {
    v.map_values(|f: OperationField| f@)
}

pub struct OperationRecordView {
    pub command_name: Seq<char>,
    pub operation_id: Seq<char>,
    pub method: Seq<char>,
    pub path: Seq<char>,
    pub summary: Seq<char>,
    pub tag: Seq<char>,
    pub has_body: bool,
    pub path_params: Seq<Seq<char>>,
    pub query_params: Seq<Seq<char>>,
    pub path_fields: Seq<OperationFieldView>,
    pub query_fields: Seq<OperationFieldView>,
    pub body_fields: Seq<OperationFieldView>,
    pub requires_auth: bool,
}

impl View for OperationRecord {
    type V = OperationRecordView;

    open spec fn view(&self) -> OperationRecordView {
        OperationRecordView {
            command_name: self.command_name@,
            operation_id: self.operation_id@,
            method: self.method@,
            path: self.path@,
            summary: self.summary@,
            tag: self.tag@,
            has_body: self.has_body,
            path_params: views(self.path_params@),
            query_params: views(self.query_params@),
            path_fields: fields_view(self.path_fields@),
            query_fields: fields_view(self.query_fields@),
            body_fields: fields_view(self.body_fields@),
            requires_auth: self.requires_auth,
        }
    }
}

pub open spec fn records_view(v: Seq<OperationRecord>) -> Seq<OperationRecordView> {
    v.map_values(|r: OperationRecord| r@)
}

pub struct AuthModelView {
    pub scheme_name: Seq<char>,
    pub kind: Seq<char>,
    pub header_name: Seq<char>,
    pub env_vars: Seq<AuthEnvVar>,
    pub token_url: Option<Seq<char>>,
}

impl View for AuthModel {
    type V = AuthModelView;

    open spec fn view(&self) -> AuthModelView {
        AuthModelView {
            scheme_name: self.scheme_name@,
            kind: self.kind@,
            header_name: self.header_name@,
            env_vars: self.env_vars@,
            token_url: match self.token_url {
                Some(t) => Some(t@),
                None => None,
            },
        }
    }
}

// ---------------------------------------------------------------------------
// What the document yields
// ---------------------------------------------------------------------------

/// The kind of a value of schema type `t`: `boolean`, `integer` and `number`
/// stay, everything else is a `string`.
pub open spec fn kind_of_type(t: Seq<char>) -> Seq<char> {
    if t == "boolean"@ {
        "boolean"@
    } else if t == "integer"@ {
        "integer"@
    } else if t == "number"@ {
        "number"@
    } else {
        "string"@
    }
}

/// The field for a parameter: its flag name is its words joined with `-`,
/// its Rust name the location, `_` and its words joined with `_`.
pub open spec fn field_of_parameter(p: Parameter) -> OperationFieldView {
    let words = words_of(p.name@);
    OperationFieldView {
        name: p.name@,
        flag_name: join(words, "-"@),
        rust_name: p.location@ + "_"@ + join(words, "_"@),
        required: p.required,
        field_type: kind_of_type(p.schema.schema_type@),
    }
}

/// Same location and same name.
pub open spec fn same_slot(a: Parameter, b: Parameter) -> bool {
    a.location@ == b.location@ && a.name@ == b.name@
}

/// The first position in `list` of a parameter in the slot of `p`, or -1.
pub open spec fn slot_position(list: Seq<Parameter>, p: Parameter) -> int
    decreases list.len(),
{
    if list.len() == 0 {
        -1
    } else {
        let q = slot_position(list.drop_last(), p);
        if q >= 0 {
            q
        } else if same_slot(list.last(), p) {
            list.len() - 1
        } else {
            -1
        }
    }
}

/// `p` put in place of the first parameter in its slot, or appended.
pub open spec fn place_parameter(list: Seq<Parameter>, p: Parameter) -> Seq<Parameter> {
    let i = slot_position(list, p);
    if i >= 0 {
        list.update(i, p)
    } else {
        list.push(p)
    }
}

/// The path-level parameters with the operation-level ones placed over them
/// in order.
pub open spec fn merged_parameters(path_level: Seq<Parameter>, op_level: Seq<Parameter>) -> Seq<
    Parameter,
>
    decreases op_level.len(),
{
    if op_level.len() == 0 {
        path_level
    } else {
        place_parameter(merged_parameters(path_level, op_level.drop_last()), op_level.last())
    }
}

/// The parameters of `list` at location `loc`, in order.
pub open spec fn located(list: Seq<Parameter>, loc: Seq<char>) -> Seq<Parameter>
    decreases list.len(),
{
    if list.len() == 0 {
        list
    } else if list.last().location@ == loc {
        located(list.drop_last(), loc).push(list.last())
    } else {
        located(list.drop_last(), loc)
    }
}

pub open spec fn schema_ref_prefix() -> Seq<char> {
    "#/components/schemas/"@
}

/// A schema with its `$ref` followed into the document's schemas; `None` for
/// a reference elsewhere or to a missing schema.
pub open spec fn resolved_schema(spec: OpenApiSpec, s: Schema) -> Option<Schema> {
    match s.ref_path {
        Some(r) => if starts_with(r@, schema_ref_prefix()) {
            lookup(spec.components.schemas@, r@.skip(schema_ref_prefix().len() as int))
        } else {
            None
        },
        None => Some(s),
    }
}

/// The media type of a request body that is read: JSON, else the first one.
pub open spec fn body_media(rb: RequestBody) -> Option<MediaType> {
    match lookup(rb.content@, "application/json"@) {
        Some(m) => Some(m),
        None => if rb.content@.len() > 0 {
            Some(rb.content@[0].1)
        } else {
            None
        },
    }
}

/// The field for a body property.
pub open spec fn body_field_of(name: Seq<char>, prop: Schema, required: Seq<Seq<char>>) -> OperationFieldView {
    let words = words_of(name);
    OperationFieldView {
        name: name,
        flag_name: join(words, "-"@),
        rust_name: "body_"@ + join(words, "_"@),
        required: required.contains(name),
        field_type: kind_of_type(prop.schema_type@),
    }
}

/// The fields for the properties of a body schema, in property order.
pub open spec fn property_fields(s: Schema) -> Seq<OperationFieldView> {
    s.properties@.map_values(
        |e: (Seq<char>, Schema)| body_field_of(e.0, e.1, views(s.required@)),
    )
}

/// The body fields of an operation.
pub open spec fn body_fields_of(spec: OpenApiSpec, op: Operation) -> Seq<OperationFieldView> {
    match op.request_body {
        None => Seq::empty(),
        Some(rb) => match body_media(rb) {
            None => Seq::empty(),
            Some(m) => match resolved_schema(spec, m.schema) {
                None => Seq::empty(),
                Some(s) => property_fields(s),
            },
        },
    }
}

/// Authentication is needed when there are requirements and none of them is
/// empty (an empty requirement makes authentication optional).
pub open spec fn demands_auth(reqs: Seq<SecurityRequirement>) -> bool {
    reqs.len() > 0 && forall|i: int| 0 <= i < reqs.len() ==> #[trigger] reqs[i]@.len() > 0
}

/// The operation's own requirements, else the document's.
pub open spec fn needs_auth(spec: OpenApiSpec, op: Operation) -> bool {
    match op.security {
        Some(r) => demands_auth(r@),
        None => demands_auth(spec.security@),
    }
}

pub open spec fn summary_of(op: Operation, method: Seq<char>, path: Seq<char>) -> Seq<char> {
    match op.summary {
        Some(s) => s@,
        None => match op.description {
            Some(d) => d@,
            None => method + " "@ + path,
        },
    }
}

pub open spec fn tag_of(op: Operation) -> Seq<char> {
    if op.tags@.len() > 0 {
        op.tags@[0]@
    } else {
        "default"@
    }
}

pub open spec fn operation_id_of(op: Operation, method: Seq<char>, path: Seq<char>) -> Seq<char> {
    match op.operation_id {
        Some(id) => id@,
        None => fallback_id_of(method, path),
    }
}

pub open spec fn names_of(list: Seq<Parameter>) -> Seq<Seq<char>> {
    list.map_values(|p: Parameter| p.name@)
}

pub open spec fn fields_of(list: Seq<Parameter>) -> Seq<OperationFieldView> {
    list.map_values(|p: Parameter| field_of_parameter(p))
}

/// The record of operation `op` under `method` at `path`.
#[verifier::opaque]
pub open spec fn record_of(
    spec: OpenApiSpec,
    path: Seq<char>,
    path_level: Seq<Parameter>,
    method: Seq<char>,
    op: Operation,
) -> OperationRecordView {
    let id = operation_id_of(op, method, path);
    let merged = merged_parameters(path_level, op.parameters@);
    let in_path = located(merged, "path"@);
    let in_query = located(merged, "query"@);
    OperationRecordView {
        command_name: kebab_of(id),
        operation_id: id,
        method: method,
        path: path,
        summary: summary_of(op, method, path),
        tag: tag_of(op),
        has_body: op.request_body is Some,
        path_params: names_of(in_path),
        query_params: names_of(in_query),
        path_fields: fields_of(in_path),
        query_fields: fields_of(in_query),
        body_fields: body_fields_of(spec, op),
        requires_auth: needs_auth(spec, op),
    }
}

pub open spec fn records_for(
    spec: OpenApiSpec,
    path: Seq<char>,
    path_level: Seq<Parameter>,
    method: Seq<char>,
    op: Option<Operation>,
) -> Seq<OperationRecordView> {
    match op {
        Some(o) => seq![record_of(spec, path, path_level, method, o)],
        None => Seq::empty(),
    }
}

/// The records of one path: GET, POST, PUT, PATCH, DELETE, those present.
pub open spec fn records_of_item(spec: OpenApiSpec, path: Seq<char>, item: PathItem) -> Seq<
    OperationRecordView,
> {
    let ps = item.parameters@;
    records_for(spec, path, ps, "GET"@, item.get) + records_for(spec, path, ps, "POST"@, item.post)
        + records_for(spec, path, ps, "PUT"@, item.put) + records_for(
        spec,
        path,
        ps,
        "PATCH"@,
        item.patch,
    ) + records_for(spec, path, ps, "DELETE"@, item.delete)
}

/// The records of the first `n` paths, in path order.
pub open spec fn records_upto(spec: OpenApiSpec, n: int) -> Seq<OperationRecordView>
    decreases n,
{
    if n <= 0 {
        Seq::empty()
    } else {
        records_upto(spec, n - 1) + records_of_item(spec, spec.paths@[n - 1].0, spec.paths@[n - 1].1)
    }
}

/// Every operation of the document, path by path in path order.
pub open spec fn operations_of(spec: OpenApiSpec) -> Seq<OperationRecordView> {
    records_upto(spec, spec.paths@.len() as int)
}

/// The first key of the first requirement that has one.
pub open spec fn first_requirement_key(reqs: Seq<SecurityRequirement>) -> Option<Seq<char>>
    decreases reqs.len(),
{
    if reqs.len() == 0 {
        None
    } else if reqs[0]@.len() > 0 {
        Some(reqs[0]@[0].0)
    } else {
        first_requirement_key(reqs.drop_first())
    }
}

/// The scheme the document asks for first, else its first scheme.
pub open spec fn chosen_scheme(spec: OpenApiSpec) -> Option<Seq<char>> {
    match first_requirement_key(spec.security@) {
        Some(n) => Some(n),
        None => if spec.components.security_schemes@.len() > 0 {
            Some(spec.components.security_schemes@[0].0)
        } else {
            None
        },
    }
}

/// The authentication model of scheme `scheme`, named `name`.
pub open spec fn model_of_scheme(name: Seq<char>, scheme: SecurityScheme) -> AuthModelView {
    let cc = scheme.flows.client_credentials;
    let oauth = scheme.scheme_type@ == "oauth2"@ && cc is Some;
    AuthModelView {
        scheme_name: name,
        kind: if oauth {
            "oauth2-client-credentials"@
        } else {
            scheme.scheme_type@
        },
        header_name: if is_blank(scheme.name@) {
            "Authorization"@
        } else {
            scheme.name@
        },
        env_vars: scheme.auth_vars@,
        token_url: if oauth && !is_blank(cc->0.token_url@) {
            Some(cc->0.token_url@)
        } else {
            None
        },
    }
}

/// The authentication model of the document: `None` when no scheme is
/// chosen or the chosen one is not defined.
pub open spec fn auth_model_of(spec: OpenApiSpec) -> Option<AuthModelView> {
    match chosen_scheme(spec) {
        None => None,
        Some(name) => match lookup(spec.components.security_schemes@, name) {
            None => None,
            Some(scheme) => Some(model_of_scheme(name, scheme)),
        },
    }
}

/// The URL of the first server that has a non-blank one.
pub open spec fn first_server_url(servers: Seq<Server>) -> Option<Seq<char>>
    decreases servers.len(),
{
    if servers.len() == 0 {
        None
    } else if !is_blank(servers[0].url@) {
        Some(servers[0].url@)
    } else {
        first_server_url(servers.drop_first())
    }
}

pub open spec fn base_url_of(spec: OpenApiSpec) -> Seq<char> {
    match first_server_url(spec.servers@) {
        Some(u) => u,
        None => "https://example.invalid"@,
    }
}

pub open spec fn title_of(spec: OpenApiSpec) -> Seq<char> {
    if is_blank(spec.info.title@) {
        "Printed API"@
    } else {
        spec.info.title@
    }
}

} // verus!

verus! {

// ---------------------------------------------------------------------------
// Laws of merging parameters
// ---------------------------------------------------------------------------

/// No two parameters share a location and a name.
pub open spec fn distinct_slots(list: Seq<Parameter>) -> bool {
    forall|i: int, j: int| 0 <= i < j < list.len() ==> !same_slot(#[trigger] list[i], #[trigger] list[j])
}

/// Where `slot_position` points: the first parameter in the slot, if any.
pub proof fn lemma_slot_position(list: Seq<Parameter>, p: Parameter)
    ensures
        -1 <= slot_position(list, p) < list.len(),
        slot_position(list, p) >= 0 ==> same_slot(list[slot_position(list, p)], p),
        slot_position(list, p) >= 0 ==> forall|j: int|
            0 <= j < slot_position(list, p) ==> !same_slot(#[trigger] list[j], p),
        slot_position(list, p) < 0 ==> forall|j: int|
            0 <= j < list.len() ==> !same_slot(#[trigger] list[j], p),
    decreases list.len(),
{
    if list.len() > 0 {
        let d = list.drop_last();
        lemma_slot_position(d, p);
        let q = slot_position(d, p);
        if q >= 0 {
            assert(list[q] == d[q]);
            assert forall|j: int| 0 <= j < q implies !same_slot(#[trigger] list[j], p) by {
                assert(list[j] == d[j]);
            }
        } else {
            assert forall|j: int| 0 <= j < list.len() - 1 implies !same_slot(#[trigger] list[j], p) by {
                assert(list[j] == d[j]);
            }
        }
    }
}

/// Placing `p` keeps every element whose slot is not `p`'s, and adds `p`.
proof fn lemma_place_parameter(list: Seq<Parameter>, p: Parameter)
    ensures
        place_parameter(list, p).contains(p),
        forall|x: Parameter| #[trigger] list.contains(x) && !same_slot(x, p) ==> place_parameter(list, p).contains(x),
        distinct_slots(list) ==> distinct_slots(place_parameter(list, p)),
{
    lemma_slot_position(list, p);
    let k = slot_position(list, p);
    let r = place_parameter(list, p);
    if k >= 0 {
        assert(r[k] == p);
        assert forall|x: Parameter| #[trigger] list.contains(x) && !same_slot(x, p) implies r.contains(x) by {
            let m = choose|m: int| 0 <= m < list.len() && list[m] == x;
            assert(m != k);
            assert(r[m] == x);
        }
        if distinct_slots(list) {
            assert forall|i: int, j: int| 0 <= i < j < r.len() implies !same_slot(#[trigger] r[i], #[trigger] r[j]) by {
                assert(!same_slot(list[i], list[j]));
            }
        }
    } else {
        assert(r[list.len() as int] == p);
        assert forall|x: Parameter| #[trigger] list.contains(x) && !same_slot(x, p) implies r.contains(x) by {
            let m = choose|m: int| 0 <= m < list.len() && list[m] == x;
            assert(r[m] == x);
        }
        if distinct_slots(list) {
            assert forall|i: int, j: int| 0 <= i < j < r.len() implies !same_slot(#[trigger] r[i], #[trigger] r[j]) by {
                if j < list.len() {
                    assert(!same_slot(list[i], list[j]));
                } else {
                    assert(!same_slot(list[i], p));
                }
            }
        }
    }
}

/// Merging operation-level parameters over path-level ones:
/// - each operation-level parameter that no later one replaces is in the
///   result;
/// - each path-level parameter whose location and name no operation-level
///   parameter takes is in the result;
/// - path-level parameters with distinct locations and names give a result
///   with distinct locations and names.
pub proof fn merge_parameters_laws(path_level: Seq<Parameter>, op_level: Seq<Parameter>)
    ensures
        forall|j: int|
            0 <= j < op_level.len() && (forall|l: int| j < l < op_level.len() ==> !same_slot(#[trigger] op_level[l], op_level[j]))
                ==> #[trigger] merged_parameters(path_level, op_level).contains(op_level[j]),
        forall|i: int|
            0 <= i < path_level.len() && (forall|l: int| 0 <= l < op_level.len() ==> !same_slot(#[trigger] op_level[l], path_level[i]))
                ==> #[trigger] merged_parameters(path_level, op_level).contains(path_level[i]),
        distinct_slots(path_level) ==> distinct_slots(merged_parameters(path_level, op_level)),
    decreases op_level.len(),
{
    let m = merged_parameters(path_level, op_level);
    if op_level.len() == 0 {
        assert forall|i: int| 0 <= i < path_level.len() implies #[trigger] m.contains(path_level[i]) by {
            assert(m[i] == path_level[i]);
        }
    } else {
        let ops = op_level.drop_last();
        let p = op_level.last();
        merge_parameters_laws(path_level, ops);
        let prev = merged_parameters(path_level, ops);
        lemma_place_parameter(prev, p);
        assert forall|j: int|
            0 <= j < op_level.len() && (forall|l: int| j < l < op_level.len() ==> !same_slot(#[trigger] op_level[l], op_level[j]))
            implies #[trigger] m.contains(op_level[j]) by {
            if j < op_level.len() - 1 {
                assert(ops[j] == op_level[j]);
                assert forall|l: int| j < l < ops.len() implies !same_slot(#[trigger] ops[l], ops[j]) by {
                    assert(ops[l] == op_level[l]);
                    assert(!same_slot(op_level[l], op_level[j]));
                }
                assert(prev.contains(op_level[j]));
                assert(!same_slot(op_level[op_level.len() - 1], op_level[j]));
                assert(!same_slot(op_level[j], p));
            }
        }
        assert forall|i: int|
            0 <= i < path_level.len() && (forall|l: int| 0 <= l < op_level.len() ==> !same_slot(#[trigger] op_level[l], path_level[i]))
            implies #[trigger] m.contains(path_level[i]) by {
            assert forall|l: int| 0 <= l < ops.len() implies !same_slot(#[trigger] ops[l], path_level[i]) by {
                assert(ops[l] == op_level[l]);
                assert(!same_slot(op_level[l], path_level[i]));
            }
            assert(prev.contains(path_level[i]));
            assert(!same_slot(op_level[op_level.len() - 1], path_level[i]));
        }
    }
}

// ---------------------------------------------------------------------------
// Laws of the operation list
// ---------------------------------------------------------------------------

/// One of the five methods an operation can be listed under.
pub open spec fn is_listed_method(m: Seq<char>) -> bool {
    m == "GET"@ || m == "POST"@ || m == "PUT"@ || m == "PATCH"@ || m == "DELETE"@
}

/// A record's parts agree with each other: its command name is the
/// identifier form of its operation id and a well-formed slug, its parameter
/// names are the names of its fields, and its method is a listed one.
pub open spec fn consistent_record(r: OperationRecordView) -> bool {
    &&& r.command_name == kebab_of(r.operation_id)
    &&& crate::slug::is_slug(r.command_name)
    &&& r.path_params == r.path_fields.map_values(|f: OperationFieldView| f.name)
    &&& r.query_params == r.query_fields.map_values(|f: OperationFieldView| f.name)
    &&& is_listed_method(r.method)
}

/// How many operations a path item holds.
pub open spec fn operation_count(item: PathItem) -> int {
    (if item.get is Some { 1int } else { 0int }) + (if item.post is Some { 1int } else { 0int })
        + (if item.put is Some { 1int } else { 0int }) + (if item.patch is Some { 1int } else { 0int })
        + (if item.delete is Some { 1int } else { 0int })
}

/// How many operations the first `n` paths hold.
pub open spec fn count_upto(spec: OpenApiSpec, n: int) -> int
    decreases n,
{
    if n <= 0 {
        0
    } else {
        count_upto(spec, n - 1) + operation_count(spec.paths@[n - 1].1)
    }
}

proof fn lemma_record_consistent(
    spec: OpenApiSpec,
    path: Seq<char>,
    path_level: Seq<Parameter>,
    method: Seq<char>,
    op: Operation,
)
    requires
        is_listed_method(method),
    ensures
        consistent_record(record_of(spec, path, path_level, method, op)),
{
    reveal(record_of);
    let r = record_of(spec, path, path_level, method, op);
    crate::names::lemma_words_shape(r.operation_id);
    crate::slug::lemma_kebab_is_slug(words_of(r.operation_id));
    assert(r.path_params =~= r.path_fields.map_values(|f: OperationFieldView| f.name));
    assert(r.query_params =~= r.query_fields.map_values(|f: OperationFieldView| f.name));
}

proof fn lemma_records_for(
    spec: OpenApiSpec,
    path: Seq<char>,
    path_level: Seq<Parameter>,
    method: Seq<char>,
    op: Option<Operation>,
)
    requires
        is_listed_method(method),
    ensures
        records_for(spec, path, path_level, method, op).len() == (if op is Some { 1int } else { 0int }),
        forall|i: int|
            0 <= i < records_for(spec, path, path_level, method, op).len() ==> consistent_record(
                #[trigger] records_for(spec, path, path_level, method, op)[i],
            ),
{
    if let Some(o) = op {
        lemma_record_consistent(spec, path, path_level, method, o);
    }
}

proof fn lemma_concat_consistent(a: Seq<OperationRecordView>, b: Seq<OperationRecordView>)
    requires
        forall|i: int| 0 <= i < a.len() ==> consistent_record(#[trigger] a[i]),
        forall|i: int| 0 <= i < b.len() ==> consistent_record(#[trigger] b[i]),
    ensures
        forall|i: int| 0 <= i < (a + b).len() ==> consistent_record(#[trigger] (a + b)[i]),
{
    assert forall|i: int| 0 <= i < (a + b).len() implies consistent_record(#[trigger] (a + b)[i]) by {
        if i < a.len() {
            assert((a + b)[i] == a[i]);
        } else {
            assert((a + b)[i] == b[i - a.len()]);
        }
    }
}

proof fn lemma_records_of_item(spec: OpenApiSpec, path: Seq<char>, item: PathItem)
    ensures
        records_of_item(spec, path, item).len() == operation_count(item),
        forall|i: int|
            0 <= i < records_of_item(spec, path, item).len() ==> consistent_record(
                #[trigger] records_of_item(spec, path, item)[i],
            ),
{
    reveal_strlit("GET");
    reveal_strlit("POST");
    reveal_strlit("PUT");
    reveal_strlit("PATCH");
    reveal_strlit("DELETE");
    let ps = item.parameters@;
    let a = records_for(spec, path, ps, "GET"@, item.get);
    let b = records_for(spec, path, ps, "POST"@, item.post);
    let c = records_for(spec, path, ps, "PUT"@, item.put);
    let d = records_for(spec, path, ps, "PATCH"@, item.patch);
    let e = records_for(spec, path, ps, "DELETE"@, item.delete);
    lemma_records_for(spec, path, ps, "GET"@, item.get);
    lemma_records_for(spec, path, ps, "POST"@, item.post);
    lemma_records_for(spec, path, ps, "PUT"@, item.put);
    lemma_records_for(spec, path, ps, "PATCH"@, item.patch);
    lemma_records_for(spec, path, ps, "DELETE"@, item.delete);
    lemma_concat_consistent(a, b);
    lemma_concat_consistent(a + b, c);
    lemma_concat_consistent(a + b + c, d);
    lemma_concat_consistent(a + b + c + d, e);
}

/// The operation list has one record for each operation of each path, and
/// every record is consistent.
pub proof fn operations_laws(spec: OpenApiSpec)
    ensures
        operations_of(spec).len() == count_upto(spec, spec.paths@.len() as int),
        forall|i: int| 0 <= i < operations_of(spec).len() ==> consistent_record(#[trigger] operations_of(spec)[i]),
{
    lemma_records_upto(spec, spec.paths@.len() as int);
}

proof fn lemma_records_upto(spec: OpenApiSpec, n: int)
    requires
        n <= spec.paths@.len(),
    ensures
        records_upto(spec, n).len() == count_upto(spec, n),
        forall|i: int| 0 <= i < records_upto(spec, n).len() ==> consistent_record(#[trigger] records_upto(spec, n)[i]),
    decreases n,
{
    if n > 0 {
        lemma_records_upto(spec, n - 1);
        lemma_records_of_item(spec, spec.paths@[n - 1].0, spec.paths@[n - 1].1);
        lemma_concat_consistent(
            records_upto(spec, n - 1),
            records_of_item(spec, spec.paths@[n - 1].0, spec.paths@[n - 1].1),
        );
    }
}

// ---------------------------------------------------------------------------
// Laws tying each record to the operation it was declared as
// ---------------------------------------------------------------------------

/// The operation a path item declares under the HTTP method `m`.
pub open spec fn declared_under(item: PathItem, m: Seq<char>) -> Option<Operation> {
    if m == "GET"@ {
        item.get
    } else if m == "POST"@ {
        item.post
    } else if m == "PUT"@ {
        item.put
    } else if m == "PATCH"@ {
        item.patch
    } else if m == "DELETE"@ {
        item.delete
    } else {
        None
    }
}

/// Record `r` stands for the operation that `item`, at `path`, declares under
/// `r`'s method: same path, that operation's id, its authentication need and
/// its body fields.
pub open spec fn declares(spec: OpenApiSpec, path: Seq<char>, item: PathItem, r: OperationRecordView) -> bool {
    &&& r.path == path
    &&& match declared_under(item, r.method) {
        Some(op) => {
            &&& r.operation_id == operation_id_of(op, r.method, path)
            &&& r.requires_auth == needs_auth(spec, op)
            &&& r.has_body == (op.request_body is Some)
            &&& r.body_fields == body_fields_of(spec, op)
        },
        None => false,
    }
}

proof fn lemma_method_names_differ()
    ensures
        "GET"@ != "POST"@, "GET"@ != "PUT"@, "GET"@ != "PATCH"@, "GET"@ != "DELETE"@,
        "POST"@ != "PUT"@, "POST"@ != "PATCH"@, "POST"@ != "DELETE"@,
        "PUT"@ != "PATCH"@, "PUT"@ != "DELETE"@,
        "PATCH"@ != "DELETE"@,
{
    reveal_strlit("GET");
    reveal_strlit("POST");
    reveal_strlit("PUT");
    reveal_strlit("PATCH");
    reveal_strlit("DELETE");
    assert("GET"@[0] != "PUT"@[0]);
    assert("POST"@[1] != "PATCH"@[1]);
}

/// The records made for the operation under `m` declare it.
proof fn lemma_records_for_declare(
    spec: OpenApiSpec,
    path: Seq<char>,
    item: PathItem,
    m: Seq<char>,
)
    requires
        is_listed_method(m),
    ensures
        forall|j: int|
            0 <= j < records_for(spec, path, item.parameters@, m, declared_under(item, m)).len()
                ==> #[trigger] records_for(spec, path, item.parameters@, m, declared_under(item, m))[j].method == m
                && declares(
                spec,
                path,
                item,
                records_for(spec, path, item.parameters@, m, declared_under(item, m))[j],
            ),
{
    reveal(record_of);
}

proof fn lemma_concat_declares(
    spec: OpenApiSpec,
    path: Seq<char>,
    item: PathItem,
    a: Seq<OperationRecordView>,
    b: Seq<OperationRecordView>,
)
    requires
        forall|i: int| 0 <= i < a.len() ==> declares(spec, path, item, #[trigger] a[i]),
        forall|i: int| 0 <= i < b.len() ==> declares(spec, path, item, #[trigger] b[i]),
    ensures
        forall|i: int| 0 <= i < (a + b).len() ==> declares(spec, path, item, #[trigger] (a + b)[i]),
{
    assert forall|i: int| 0 <= i < (a + b).len() implies declares(spec, path, item, #[trigger] (a + b)[i]) by {
        if i < a.len() {
            assert((a + b)[i] == a[i]);
        } else {
            assert((a + b)[i] == b[i - a.len()]);
        }
    }
}

/// Each record of a path item is the one for an operation the item declares,
/// under the method it is declared with; and every declared operation has a
/// record under its own method. So a path item holding only a PATCH
/// operation yields exactly one record, and its method is PATCH.
pub proof fn path_item_records_follow_methods(spec: OpenApiSpec, path: Seq<char>, item: PathItem)
    ensures
        records_of_item(spec, path, item).len() == operation_count(item),
        forall|j: int|
            0 <= j < records_of_item(spec, path, item).len() ==> declares(
                spec,
                path,
                item,
                #[trigger] records_of_item(spec, path, item)[j],
            ),
        forall|m: Seq<char>|
            #[trigger] declared_under(item, m) is Some ==> exists|j: int|
                0 <= j < records_of_item(spec, path, item).len() && #[trigger] records_of_item(
                    spec,
                    path,
                    item,
                )[j].method == m,
{
    lemma_records_of_item(spec, path, item);
    lemma_method_names_differ();
    reveal_strlit("GET");
    reveal_strlit("POST");
    reveal_strlit("PUT");
    reveal_strlit("PATCH");
    reveal_strlit("DELETE");
    let ps = item.parameters@;
    assert(declared_under(item, "GET"@) == item.get);
    assert(declared_under(item, "POST"@) == item.post);
    assert(declared_under(item, "PUT"@) == item.put);
    assert(declared_under(item, "PATCH"@) == item.patch);
    assert(declared_under(item, "DELETE"@) == item.delete);
    let a = records_for(spec, path, ps, "GET"@, item.get);
    let b = records_for(spec, path, ps, "POST"@, item.post);
    let c = records_for(spec, path, ps, "PUT"@, item.put);
    let d = records_for(spec, path, ps, "PATCH"@, item.patch);
    let e = records_for(spec, path, ps, "DELETE"@, item.delete);
    lemma_records_for_declare(spec, path, item, "GET"@);
    lemma_records_for_declare(spec, path, item, "POST"@);
    lemma_records_for_declare(spec, path, item, "PUT"@);
    lemma_records_for_declare(spec, path, item, "PATCH"@);
    lemma_records_for_declare(spec, path, item, "DELETE"@);
    lemma_concat_declares(spec, path, item, a, b);
    lemma_concat_declares(spec, path, item, a + b, c);
    lemma_concat_declares(spec, path, item, a + b + c, d);
    lemma_concat_declares(spec, path, item, a + b + c + d, e);
    let all = records_of_item(spec, path, item);
    assert(all == a + b + c + d + e);
    assert forall|m: Seq<char>| #[trigger] declared_under(item, m) is Some implies exists|j: int|
        0 <= j < all.len() && #[trigger] all[j].method == m by {
        reveal(record_of);
        if m == "GET"@ {
            assert(all[0] == a[0]);
        } else if m == "POST"@ {
            assert(all[a.len() as int] == b[0]);
        } else if m == "PUT"@ {
            assert(all[(a.len() + b.len()) as int] == c[0]);
        } else if m == "PATCH"@ {
            assert(all[(a.len() + b.len() + c.len()) as int] == d[0]);
        } else {
            assert(m == "DELETE"@);
            assert(all[(a.len() + b.len() + c.len() + d.len()) as int] == e[0]);
        }
    }
}

/// Some path of the document declares the operation that `r` stands for.
pub open spec fn declared_in(spec: OpenApiSpec, n: int, r: OperationRecordView) -> bool {
    exists|k: int|
        0 <= k < n && #[trigger] declares(spec, spec.paths@[k].0, spec.paths@[k].1, r)
}

proof fn lemma_records_upto_declare(spec: OpenApiSpec, n: int)
    requires
        0 <= n <= spec.paths@.len(),
    ensures
        forall|i: int|
            0 <= i < records_upto(spec, n).len() ==> declared_in(spec, n, #[trigger] records_upto(spec, n)[i]),
        forall|k: int, m: Seq<char>|
            0 <= k < n && #[trigger] declared_under(spec.paths@[k].1, m) is Some ==> exists|i: int|
                0 <= i < records_upto(spec, n).len() && #[trigger] records_upto(spec, n)[i].method == m
                    && records_upto(spec, n)[i].path == spec.paths@[k].0,
    decreases n,
{
    if n > 0 {
        lemma_records_upto_declare(spec, n - 1);
        let path = spec.paths@[n - 1].0;
        let item = spec.paths@[n - 1].1;
        path_item_records_follow_methods(spec, path, item);
        let before = records_upto(spec, n - 1);
        let here = records_of_item(spec, path, item);
        let all = records_upto(spec, n);
        assert(all == before + here);
        assert forall|i: int| 0 <= i < all.len() implies declared_in(spec, n, #[trigger] all[i]) by {
            if i < before.len() {
                assert(all[i] == before[i]);
                assert(declared_in(spec, n - 1, before[i]));
                let k = choose|k: int|
                    0 <= k < n - 1 && #[trigger] declares(spec, spec.paths@[k].0, spec.paths@[k].1, before[i]);
                assert(declares(spec, spec.paths@[k].0, spec.paths@[k].1, all[i]));
            } else {
                assert(all[i] == here[i - before.len()]);
                assert(declares(spec, path, item, here[i - before.len()]));
                assert(declares(spec, spec.paths@[n - 1].0, spec.paths@[n - 1].1, all[i]));
            }
        }
        assert forall|k: int, m: Seq<char>|
            0 <= k < n && #[trigger] declared_under(spec.paths@[k].1, m) is Some implies exists|i: int|
                0 <= i < all.len() && #[trigger] all[i].method == m && all[i].path == spec.paths@[k].0 by {
            if k < n - 1 {
                let i = choose|i: int|
                    0 <= i < before.len() && #[trigger] before[i].method == m && before[i].path == spec.paths@[k].0;
                assert(all[i] == before[i]);
            } else {
                let j = choose|j: int| 0 <= j < here.len() && #[trigger] here[j].method == m;
                assert(declares(spec, path, item, here[j]));
                assert(all[before.len() + j] == here[j]);
            }
        }
    }
}

/// Every record of the document stands for an operation some path declares
/// under the record's method, with that path, id, authentication need and
/// body fields; and every operation a path declares has a record under its
/// own method and that path.
pub proof fn operations_follow_declared_methods(spec: OpenApiSpec)
    ensures
        forall|i: int|
            0 <= i < operations_of(spec).len() ==> declared_in(
                spec,
                spec.paths@.len() as int,
                #[trigger] operations_of(spec)[i],
            ),
        forall|k: int, m: Seq<char>|
            0 <= k < spec.paths@.len() && #[trigger] declared_under(spec.paths@[k].1, m) is Some
                ==> exists|i: int|
                0 <= i < operations_of(spec).len() && #[trigger] operations_of(spec)[i].method == m
                    && operations_of(spec)[i].path == spec.paths@[k].0,
{
    let n = spec.paths@.len() as int;
    let ops = operations_of(spec);
    assert(ops == records_upto(spec, n));
    lemma_records_upto_declare(spec, n);
}

// ---------------------------------------------------------------------------
// Laws of authentication and of request bodies
// ---------------------------------------------------------------------------

proof fn lemma_no_requirement_key(reqs: Seq<SecurityRequirement>)
    requires
        forall|i: int| 0 <= i < reqs.len() ==> #[trigger] reqs[i]@.len() == 0,
    ensures
        first_requirement_key(reqs) is None,
    decreases reqs.len(),
{
    if reqs.len() > 0 {
        assert(reqs[0]@.len() == 0);
        assert forall|i: int| 0 <= i < reqs.drop_first().len() implies #[trigger] reqs.drop_first()[i]@.len()
            == 0 by {
            assert(reqs.drop_first()[i] == reqs[i + 1]);
        }
        lemma_no_requirement_key(reqs.drop_first());
    }
}

proof fn lemma_first_requirement_key(reqs: Seq<SecurityRequirement>, j: int)
    requires
        0 <= j < reqs.len(),
        reqs[j]@.len() > 0,
        forall|i: int| 0 <= i < j ==> #[trigger] reqs[i]@.len() == 0,
    ensures
        first_requirement_key(reqs) == Some(reqs[j]@[0].0),
    decreases j,
{
    if j > 0 {
        assert(reqs[0]@.len() == 0);
        let rest = reqs.drop_first();
        assert forall|i: int| 0 <= i < j - 1 implies #[trigger] rest[i]@.len() == 0 by {
            assert(rest[i] == reqs[i + 1]);
        }
        assert(rest[j - 1] == reqs[j]);
        lemma_first_requirement_key(rest, j - 1);
    }
}

/// The value under the first key of a map is its first value.
proof fn lemma_lookup_first<V>(entries: Seq<(Seq<char>, V)>)
    requires
        entries.len() > 0,
    ensures
        lookup(entries, entries[0].0) == Some(entries[0].1),
{
    crate::ordered_map::lemma_position_of(entries, entries[0].0);
}

/// When no security requirement of the document names a scheme, the printed
/// CLI authenticates with the document's first scheme in key order (the
/// least key), under that key's name.
pub proof fn auth_model_defaults_to_first_scheme(spec: OpenApiSpec)
    requires
        forall|i: int| 0 <= i < spec.security@.len() ==> #[trigger] spec.security@[i]@.len() == 0,
        spec.components.security_schemes@.len() > 0,
        keys_increasing(spec.components.security_schemes@),
    ensures
        auth_model_of(spec) == Some(
            model_of_scheme(
                spec.components.security_schemes@[0].0,
                spec.components.security_schemes@[0].1,
            ),
        ),
        auth_model_of(spec)->0.scheme_name == spec.components.security_schemes@[0].0,
        forall|j: int|
            0 < j < spec.components.security_schemes@.len() ==> key_lt(
                auth_model_of(spec)->0.scheme_name,
                #[trigger] spec.components.security_schemes@[j].0,
            ),
{
    lemma_no_requirement_key(spec.security@);
    lemma_lookup_first(spec.components.security_schemes@);
    let schemes = spec.components.security_schemes@;
    assert forall|j: int| 0 < j < schemes.len() implies key_lt(schemes[0].0, #[trigger] schemes[j].0) by {}
}

/// When the document's requirements do name a scheme, the model is that of
/// the first scheme named by the first non-empty requirement, when the
/// document defines it.
pub proof fn auth_model_follows_first_named_scheme(spec: OpenApiSpec, j: int)
    requires
        0 <= j < spec.security@.len(),
        spec.security@[j]@.len() > 0,
        forall|i: int| 0 <= i < j ==> #[trigger] spec.security@[i]@.len() == 0,
    ensures
        auth_model_of(spec) == match lookup(spec.components.security_schemes@, spec.security@[j]@[0].0) {
            Some(scheme) => Some(model_of_scheme(spec.security@[j]@[0].0, scheme)),
            None => None::<AuthModelView>,
        },
{
    lemma_first_requirement_key(spec.security@, j);
}

/// An operation that lists its own security requirements needs
/// authentication exactly when it lists some and none of them is empty,
/// whatever the document lists; one that lists none follows the document's
/// requirements by the same rule.
pub proof fn operation_security_decides_alone(spec: OpenApiSpec, other: OpenApiSpec, op: Operation)
    ensures
        op.security is Some ==> (needs_auth(spec, op) <==> (op.security->0@.len() > 0 && forall|i: int|
            0 <= i < op.security->0@.len() ==> #[trigger] op.security->0@[i]@.len() > 0)),
        op.security is Some ==> needs_auth(spec, op) == needs_auth(other, op),
        op.security is None ==> (needs_auth(spec, op) <==> (spec.security@.len() > 0 && forall|i: int|
            0 <= i < spec.security@.len() ==> #[trigger] spec.security@[i]@.len() > 0)),
{
}

/// The body fields of an operation whose request body has a JSON media type
/// are the properties of that media type's schema, followed through a
/// reference: one field per property, named after it, in property order.
pub proof fn body_fields_follow_json_media(spec: OpenApiSpec, op: Operation, i: int, s: Schema)
    requires
        op.request_body is Some,
        keys_increasing(op.request_body->0.content@),
        0 <= i < op.request_body->0.content@.len(),
        op.request_body->0.content@[i].0 == "application/json"@,
        resolved_schema(spec, op.request_body->0.content@[i].1.schema) == Some(s),
    ensures
        body_fields_of(spec, op) == property_fields(s),
        body_fields_of(spec, op).len() == s.properties@.len(),
        forall|k: int|
            0 <= k < s.properties@.len() ==> (#[trigger] body_fields_of(spec, op)[k]).name
                == s.properties@[k].0 && body_fields_of(spec, op)[k].required == views(s.required@).contains(
                s.properties@[k].0,
            ),
{
    crate::ordered_map::lemma_lookup_at(op.request_body->0.content@, i);
}

/// When a request body has no JSON media type but has some media type, the
/// body fields are the properties of the first media type's schema,
/// followed through a reference; so there are as many fields as that schema
/// has properties.
pub proof fn body_fields_follow_first_media(spec: OpenApiSpec, op: Operation, s: Schema)
    requires
        op.request_body is Some,
        op.request_body->0.content@.len() > 0,
        forall|i: int|
            0 <= i < op.request_body->0.content@.len() ==> #[trigger] op.request_body->0.content@[i].0
                != "application/json"@,
        resolved_schema(spec, op.request_body->0.content@[0].1.schema) == Some(s),
    ensures
        body_fields_of(spec, op) == property_fields(s),
        body_fields_of(spec, op).len() == s.properties@.len(),
        forall|k: int|
            0 <= k < s.properties@.len() ==> (#[trigger] body_fields_of(spec, op)[k]).name
                == s.properties@[k].0 && body_fields_of(spec, op)[k].required == views(s.required@).contains(
                s.properties@[k].0,
            ),
{
    crate::ordered_map::lemma_position_of(op.request_body->0.content@, "application/json"@);
}

/// An operation without a request body has no body fields.
pub proof fn no_body_no_fields(spec: OpenApiSpec, op: Operation)
    requires
        op.request_body is None,
    ensures
        body_fields_of(spec, op).len() == 0,
{
}

} // verus!
