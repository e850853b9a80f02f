//! Deriving commands, authentication and defaults from an OpenAPI document.
use vstd::prelude::*;

use crate::names::{fallback_operation_id, sanitize_identifier, split_words};
use crate::spec::{
    auth_model_of, base_url_of, body_field_of, body_fields_of, body_media, chosen_scheme,
    demands_auth, field_of_parameter, fields_of, fields_view, first_requirement_key,
    first_server_url, kind_of_type, located, merged_parameters, model_of_scheme, names_of,
    needs_auth, place_parameter, property_fields, record_of, records_for, records_of_item,
    records_upto, records_view, resolved_schema, same_slot, schema_ref_prefix, slot_position,
    lemma_slot_position,
    title_of, AuthEnvVar, AuthModel, OpenApiSpec, Operation, OperationField, OperationRecord,
    Parameter, Schema, SecurityRequirement,
};
use crate::text::{
    chars_of, copy_str, is_blank, join_strings, str_eq, str_is_blank, str_starts_with, string_of_range,
    views,
};

verus! {

/// The parameters a sequence of references points to.
pub open spec fn targets(v: Seq<&Parameter>) -> Seq<Parameter> {
    v.map_values(|p: &Parameter| *p)
}

/// The kind of the values a schema describes.
pub fn schema_kind(schema: &Schema) -> (kind: String)
    ensures
        kind@ == kind_of_type(schema.schema_type@),
{
    let t = schema.schema_type.as_str();
    if str_eq(t, "boolean") {
        copy_str("boolean")
    } else if str_eq(t, "integer") {
        copy_str("integer")
    } else if str_eq(t, "number") {
        copy_str("number")
    } else {
        copy_str("string")
    }
}

/// The command-line field for a parameter.
pub fn parameter_to_field(parameter: &Parameter) -> (field: OperationField)
    ensures
        field@ == field_of_parameter(*parameter),
{
    let words = split_words(parameter.name.as_str());
    let flag_name = join_strings(&words, "-");
    let mut rust_name = parameter.location.clone();
    rust_name.append("_");
    let tail = join_strings(&words, "_");
    rust_name.append(tail.as_str());
    OperationField {
        name: parameter.name.clone(),
        flag_name,
        rust_name,
        required: parameter.required,
        field_type: schema_kind(&parameter.schema),
    }
}

/// The first position in `list` of a parameter in the slot of `p`.
fn find_slot(list: &Vec<&Parameter>, p: &Parameter) -> (r: Option<usize>)
    ensures
        match r {
            Some(k) => slot_position(targets(list@), *p) == k,
            None => slot_position(targets(list@), *p) < 0,
        },
{
    let ghost t = targets(list@);
    proof {
        lemma_slot_position(t, *p);
    }
    let mut i: usize = 0;
    while i < list.len()
        invariant
            t == targets(list@),
            i <= list.len(),
            forall|j: int| 0 <= j < i ==> !same_slot(#[trigger] t[j], *p),
        decreases list.len() - i,
    {
        let q = list[i];
        assert(t[i as int] == *q);
        if str_eq(q.location.as_str(), p.location.as_str()) && str_eq(q.name.as_str(), p.name.as_str()) {
            proof {
                lemma_slot_position(t, *p);
                assert(same_slot(t[i as int], *p));
                let s = slot_position(t, *p);
                if s != i {
                    if s < 0 {
                        assert(!same_slot(t[i as int], *p));
                    } else if s > i {
                        assert(!same_slot(t[i as int], *p));
                    } else {
                        assert(!same_slot(t[s], *p));
                    }
                }
            }
            return Some(i);
        }
        i = i + 1;
    }
    proof {
        lemma_slot_position(t, *p);
        let s = slot_position(t, *p);
        if s >= 0 {
            assert(!same_slot(t[s], *p));
        }
    }
    None
}

/// The path-level parameters with each operation-level one put in place of
/// the first parameter with its location and name, or appended.
pub fn merge_parameters<'a>(path_level: &'a Vec<Parameter>, operation_level: &'a Vec<Parameter>) -> (merged: Vec<&'a Parameter>)
    ensures
        targets(merged@) == merged_parameters(path_level@, operation_level@),
{
    let mut merged: Vec<&'a Parameter> = Vec::new();
    let mut i: usize = 0;
    while i < path_level.len()
        invariant
            i <= path_level.len(),
            targets(merged@) == path_level@.take(i as int),
        decreases path_level.len() - i,
    {
        let ghost old_m = merged@;
        merged.push(&path_level[i]);
        assert(merged@ == old_m.push(&path_level@[i as int]));
        assert(targets(merged@) =~= targets(old_m).push(path_level@[i as int]));
        assert(path_level@.take(i + 1) =~= path_level@.take(i as int).push(path_level@[i as int]));
        i = i + 1;
    }
    assert(path_level@.take(path_level.len() as int) =~= path_level@);
    let mut j: usize = 0;
    assert(operation_level@.take(0) =~= Seq::<Parameter>::empty());
    while j < operation_level.len()
        invariant
            j <= operation_level.len(),
            targets(merged@) == merged_parameters(path_level@, operation_level@.take(j as int)),
        decreases operation_level.len() - j,
    {
        let p = &operation_level[j];
        let ghost before = targets(merged@);
        assert(operation_level@.take(j + 1).drop_last() =~= operation_level@.take(j as int));
        match find_slot(&merged, p) {
            Some(k) => {
                proof {
                    lemma_slot_position(before, *p);
                }
                merged.set(k, p);
                assert(targets(merged@) =~= place_parameter(before, *p));
            },
            None => {
                merged.push(p);
                assert(targets(merged@) =~= place_parameter(before, *p));
            },
        }
        j = j + 1;
    }
    assert(operation_level@.take(operation_level.len() as int) =~= operation_level@);
    merged
}

/// The names and fields of the parameters of `list` at `location`.
fn located_fields(list: &Vec<&Parameter>, location: &str) -> (r: (Vec<String>, Vec<OperationField>))
    ensures
        views(r.0@) == names_of(located(targets(list@), location@)),
        fields_view(r.1@) == fields_of(located(targets(list@), location@)),
{
    let ghost t = targets(list@);
    let mut names: Vec<String> = Vec::new();
    let mut fields: Vec<OperationField> = Vec::new();
    let mut i: usize = 0;
    while i < list.len()
        invariant
            t == targets(list@),
            i <= list.len(),
            views(names@) == names_of(located(t.take(i as int), location@)),
            fields_view(fields@) == fields_of(located(t.take(i as int), location@)),
        decreases list.len() - i,
    {
        let q = list[i];
        assert(t.take(i + 1).drop_last() =~= t.take(i as int));
        assert(t.take(i + 1).last() == *q);
        if str_eq(q.location.as_str(), location) {
            assert(located(t.take(i + 1), location@) == located(t.take(i as int), location@).push(*q));
            let field = parameter_to_field(q);
            let ghost old_names = views(names@);
            let ghost old_fields = fields_view(fields@);
            let name = q.name.clone();
            let ghost fv = field@;
            names.push(name);
            fields.push(field);
            assert(views(names@) =~= old_names.push(q.name@));
            assert(fields_view(fields@) =~= old_fields.push(fv));
            assert(views(names@) =~= names_of(located(t.take(i + 1), location@)));
            assert(fields_view(fields@) =~= fields_of(located(t.take(i + 1), location@)));
        } else {
            assert(located(t.take(i + 1), location@) == located(t.take(i as int), location@));
        }
        i = i + 1;
    }
    assert(t.take(list.len() as int) =~= t);
    (names, fields)
}

/// Whether `name` is one of `required`.
fn is_listed(required: &Vec<String>, name: &str) -> (r: bool)
    ensures
        r == views(required@).contains(name@),
{
    let mut i: usize = 0;
    while i < required.len()
        invariant
            i <= required.len(),
            forall|j: int| 0 <= j < i ==> #[trigger] required@[j]@ != name@,
        decreases required.len() - i,
    {
        if str_eq(required[i].as_str(), name) {
            assert(views(required@)[i as int] == name@);
            return true;
        }
        i = i + 1;
    }
    proof {
        if views(required@).contains(name@) {
            let k = choose|k: int| 0 <= k < views(required@).len() && views(required@)[k] == name@;
            assert(required@[k]@ == name@);
        }
    }
    false
}

/// The schema a schema stands for, following a reference into the
/// document's schemas.
pub fn resolve_schema<'a>(spec: &'a OpenApiSpec, schema: &'a Schema) -> (r: Option<&'a Schema>)
    ensures
        match r {
            Some(s) => resolved_schema(*spec, *schema) == Some(*s),
            None => resolved_schema(*spec, *schema) is None,
        },
{
    match &schema.ref_path {
        Some(reference) => {
            let prefix = "#/components/schemas/";
            if str_starts_with(reference.as_str(), prefix) {
                let chars = chars_of(reference.as_str());
                let plen: usize = chars_of(prefix).len();
                let name = string_of_range(&chars, plen, chars.len());
                assert(name@ =~= reference@.skip(schema_ref_prefix().len() as int));
                spec.components.schemas.get(name.as_str())
            } else {
                None
            }
        },
        None => Some(schema),
    }
}

/// The field for a body property.
fn body_field(name: &String, property: &Schema, required: &Vec<String>) -> (field: OperationField)
    ensures
        field@ == body_field_of(name@, *property, views(required@)),
{
    let words = split_words(name.as_str());
    let flag_name = join_strings(&words, "-");
    let mut rust_name = copy_str("body_");
    let tail = join_strings(&words, "_");
    rust_name.append(tail.as_str());
    OperationField {
        name: name.clone(),
        flag_name,
        rust_name,
        required: is_listed(required, name.as_str()),
        field_type: schema_kind(property),
    }
}

fn no_fields() -> (r: Vec<OperationField>)
    ensures
        fields_view(r@) == Seq::<crate::spec::OperationFieldView>::empty(),
{
    let r: Vec<OperationField> = Vec::new();
    assert(fields_view(r@) =~= Seq::<crate::spec::OperationFieldView>::empty());
    r
}

/// The fields of the body an operation sends: the properties of its JSON
/// (else first) media type's schema, references followed.
pub fn extract_body_fields(spec: &OpenApiSpec, operation: &Operation) -> (fields: Vec<OperationField>)
    ensures
        fields_view(fields@) == body_fields_of(*spec, *operation),
{
    let request_body = match &operation.request_body {
        Some(rb) => rb,
        None => {
            return no_fields();
        },
    };
    let media = match request_body.content.get("application/json") {
        Some(m) => Some(m),
        None => if request_body.content.len() > 0 {
            Some(request_body.content.value_at(0))
        } else {
            None
        },
    };
    assert(media matches Some(m) ==> body_media(*request_body) == Some(*m));
    let media = match media {
        Some(m) => m,
        None => {
            return no_fields();
        },
    };
    let schema = match resolve_schema(spec, &media.schema) {
        Some(s) => s,
        None => {
            return no_fields();
        },
    };
    let mut fields: Vec<OperationField> = Vec::new();
    let mut i: usize = 0;
    while i < schema.properties.len()
        invariant
            i <= schema.properties@.len(),
            fields_view(fields@) == property_fields(*schema).take(i as int),
        decreases schema.properties@.len() - i,
    {
        let field = body_field(schema.properties.key_at(i), schema.properties.value_at(i), &schema.required);
        let ghost old_fields = fields_view(fields@);
        let ghost fv = field@;
        assert(fv == property_fields(*schema)[i as int]);
        fields.push(field);
        assert(fields_view(fields@) =~= old_fields.push(fv));
        assert(fields_view(fields@) =~= property_fields(*schema).take(i + 1));
        i = i + 1;
    }
    assert(property_fields(*schema).take(i as int) =~= property_fields(*schema));
    fields
}

/// Whether requirements demand authentication: there is at least one, and
/// none of them is empty.
pub fn security_requirements_require_auth(requirements: &Vec<SecurityRequirement>) -> (r: bool)
    ensures
        r == demands_auth(requirements@),
{
    if requirements.len() == 0 {
        return false;
    }
    let mut i: usize = 0;
    while i < requirements.len()
        invariant
            i <= requirements.len(),
            forall|j: int| 0 <= j < i ==> #[trigger] requirements@[j]@.len() > 0,
        decreases requirements.len() - i,
    {
        if requirements[i].is_empty() {
            return false;
        }
        i = i + 1;
    }
    !requirements[0].is_empty()
}

/// Whether an operation needs authentication: by its own requirements, or
/// else by the document's.
pub fn operation_requires_auth(spec: &OpenApiSpec, operation: &Operation) -> (r: bool)
    ensures
        r == needs_auth(*spec, *operation),
{
    match &operation.security {
        Some(requirements) => security_requirements_require_auth(requirements),
        None => security_requirements_require_auth(&spec.security),
    }
}

/// The first scheme a requirement names.
pub fn first_requirement_name(requirement: &SecurityRequirement) -> (name: Option<String>)
    ensures
        match name {
            Some(n) => requirement@.len() > 0 && n@ == requirement@[0].0,
            None => requirement@.len() == 0,
        },
{
    if requirement.is_empty() {
        None
    } else {
        Some(requirement.key_at(0).clone())
    }
}

fn copy_opt(o: &Option<String>) -> (r: Option<String>)
    ensures
        r == *o,
{
    match o {
        Some(s) => Some(s.clone()),
        None => None,
    }
}

/// Appends the record of `operation`, if there is one, to `operations`.
pub fn push_operation(
    spec: &OpenApiSpec,
    operations: &mut Vec<OperationRecord>,
    path: &str,
    path_level_parameters: &Vec<Parameter>,
    method: &str,
    operation: Option<&Operation>,
)
    ensures
        records_view(final(operations)@) == records_view(old(operations)@) + match operation {
            Some(o) => seq![record_of(*spec, path@, path_level_parameters@, method@, *o)],
            None => Seq::empty(),
        },
{
    let operation = match operation {
        Some(o) => o,
        None => {
            assert(records_view(operations@) =~= records_view(operations@) + Seq::<crate::spec::OperationRecordView>::empty());
            return ;
        },
    };
    let operation_id = match &operation.operation_id {
        Some(id) => id.clone(),
        None => fallback_operation_id(method, path),
    };
    let command_name = sanitize_identifier(operation_id.as_str());
    let summary = match copy_opt(&operation.summary) {
        Some(s) => s,
        None => match copy_opt(&operation.description) {
            Some(d) => d,
            None => {
                let mut s = copy_str(method);
                s.append(" ");
                s.append(path);
                s
            },
        },
    };
    let tag = if operation.tags.len() > 0 {
        operation.tags[0].clone()
    } else {
        copy_str("default")
    };
    let merged = merge_parameters(path_level_parameters, &operation.parameters);
    let (path_params, path_fields) = located_fields(&merged, "path");
    let (query_params, query_fields) = located_fields(&merged, "query");
    let body_fields = extract_body_fields(spec, operation);
    let has_body = match &operation.request_body {
        Some(_) => true,
        None => false,
    };
    let record = OperationRecord {
        command_name,
        operation_id,
        method: copy_str(method),
        path: copy_str(path),
        summary,
        tag,
        has_body,
        path_params,
        query_params,
        path_fields,
        query_fields,
        body_fields,
        requires_auth: operation_requires_auth(spec, operation),
    };
    assert(record@ == record_of(*spec, path@, path_level_parameters@, method@, *operation)) by {
        reveal(record_of);
    }
    let ghost before = records_view(operations@);
    operations.push(record);
    assert(records_view(operations@) =~= before + seq![record_of(*spec, path@, path_level_parameters@, method@, *operation)]);
}

fn opt_ref(o: &Option<Operation>) -> (r: Option<&Operation>)
    ensures
        match r {
            Some(x) => *o == Some(*x),
            None => o is None,
        },
{
    match o {
        Some(x) => Some(x),
        None => None,
    }
}

fn copy_env_vars(vars: &Vec<AuthEnvVar>) -> (r: Vec<AuthEnvVar>)
    ensures
        r@ == vars@,
{
    let mut r: Vec<AuthEnvVar> = Vec::new();
    let mut i: usize = 0;
    while i < vars.len()
        invariant
            i <= vars.len(),
            r@ == vars@.take(i as int),
        decreases vars.len() - i,
    {
        let v = &vars[i];
        r.push(
            AuthEnvVar {
                name: v.name.clone(),
                kind: v.kind.clone(),
                required: v.required,
                sensitive: v.sensitive,
                description: v.description.clone(),
            },
        );
        assert(r@ =~= vars@.take(i + 1));
        i = i + 1;
    }
    assert(vars@.take(vars.len() as int) =~= vars@);
    r
}

impl OpenApiSpec {
    /// The document's title, or `Printed API` when it is blank.
    pub fn title_or_default(&self) -> (title: String)
        ensures
            title@ == title_of(*self),
            !is_blank(title@),
    {
        if str_is_blank(self.info.title.as_str()) {
            proof {
                reveal_strlit("Printed API");
                assert(!crate::text::is_white("Printed API"@[0]));
            }
            copy_str("Printed API")
        } else {
            self.info.title.clone()
        }
    }

    /// The URL of the first server with a non-blank one, or
    /// `https://example.invalid`.
    pub fn base_url(&self) -> (url: String)
        ensures
            url@ == base_url_of(*self),
            !is_blank(url@),
    {
        let mut i: usize = 0;
        assert(self.servers@.skip(0) =~= self.servers@);
        while i < self.servers.len()
            invariant
                i <= self.servers@.len(),
                first_server_url(self.servers@) == first_server_url(self.servers@.skip(i as int)),
            decreases self.servers.len() - i,
        {
            assert(self.servers@.skip(i as int)[0] == self.servers@[i as int]);
            if !str_is_blank(self.servers[i].url.as_str()) {
                return self.servers[i].url.clone();
            }
            assert(self.servers@.skip(i as int).drop_first() =~= self.servers@.skip(i + 1));
            i = i + 1;
        }
        proof {
            reveal_strlit("https://example.invalid");
            assert(!crate::text::is_white("https://example.invalid"@[0]));
        }
        copy_str("https://example.invalid")
    }

    /// How the printed CLI authenticates: the scheme the document asks for
    /// first (else its first scheme), when that scheme is defined.
    pub fn auth_model(&self) -> (model: Option<AuthModel>)
        ensures
            match model {
                Some(m) => auth_model_of(*self) == Some(m@),
                None => auth_model_of(*self) is None,
            },
    {
        let mut chosen: Option<String> = None;
        let mut i: usize = 0;
        assert(self.security@.skip(0) =~= self.security@);
        loop
            invariant_except_break
                chosen is None,
            invariant
                i <= self.security@.len(),
                first_requirement_key(self.security@) == first_requirement_key(self.security@.skip(i as int)),
            ensures
                match chosen {
                    Some(n) => first_requirement_key(self.security@) == Some(n@),
                    None => first_requirement_key(self.security@) is None,
                },
            decreases self.security.len() - i,
        {
            if i == self.security.len() {
                assert(self.security@.skip(i as int).len() == 0);
                break ;
            }
            assert(self.security@.skip(i as int)[0] == self.security@[i as int]);
            match first_requirement_name(&self.security[i]) {
                Some(n) => {
                    chosen = Some(n);
                    break ;
                },
                None => {},
            }
            assert(self.security@.skip(i as int).drop_first() =~= self.security@.skip(i + 1));
            i = i + 1;
        }
        let scheme_name = match chosen {
            Some(n) => n,
            None => {
                if self.components.security_schemes.is_empty() {
                    return None;
                }
                self.components.security_schemes.key_at(0).clone()
            },
        };
        assert(chosen_scheme(*self) == Some(scheme_name@));
        let scheme = match self.components.security_schemes.get(scheme_name.as_str()) {
            Some(s) => s,
            None => return None,
        };
        let is_oauth = str_eq(scheme.scheme_type.as_str(), "oauth2") && match &scheme.flows.client_credentials {
            Some(_) => true,
            None => false,
        };
        let kind;
        let token_url;
        if is_oauth {
            kind = copy_str("oauth2-client-credentials");
            token_url = match &scheme.flows.client_credentials {
                Some(flow) => if str_is_blank(flow.token_url.as_str()) {
                    None
                } else {
                    Some(flow.token_url.clone())
                },
                None => None,
            };
        } else {
            kind = scheme.scheme_type.clone();
            token_url = None;
        }
        let header_name = if str_is_blank(scheme.name.as_str()) {
            copy_str("Authorization")
        } else {
            scheme.name.clone()
        };
        let model = AuthModel {
            scheme_name,
            kind,
            header_name,
            env_vars: copy_env_vars(&scheme.auth_vars),
            token_url,
        };
        assert(model@ == model_of_scheme(model.scheme_name@, *scheme));
        Some(model)
    }

    /// The operations of the document, path by path in path order, and within
    /// a path in the order GET, POST, PUT, PATCH, DELETE.
    pub fn operations(&self) -> (operations: Vec<OperationRecord>)
        ensures
            records_view(operations@) == crate::spec::operations_of(*self),
    {
        let mut operations: Vec<OperationRecord> = Vec::new();
        let mut i: usize = 0;
        assert(records_view(operations@) =~= records_upto(*self, 0));
        while i < self.paths.len()
            invariant
                i <= self.paths@.len(),
                records_view(operations@) == records_upto(*self, i as int),
            decreases self.paths@.len() - i,
        {
            let path = self.paths.key_at(i);
            let item = self.paths.value_at(i);
            let ghost before = records_view(operations@);
            let ghost ps = item.parameters@;
            push_operation(self, &mut operations, path.as_str(), &item.parameters, "GET", opt_ref(&item.get));
            let ghost s1 = records_view(operations@);
            assert(s1 == before + records_for(*self, path@, ps, "GET"@, item.get));
            push_operation(self, &mut operations, path.as_str(), &item.parameters, "POST", opt_ref(&item.post));
            let ghost s2 = records_view(operations@);
            assert(s2 == s1 + records_for(*self, path@, ps, "POST"@, item.post));
            push_operation(self, &mut operations, path.as_str(), &item.parameters, "PUT", opt_ref(&item.put));
            let ghost s3 = records_view(operations@);
            assert(s3 == s2 + records_for(*self, path@, ps, "PUT"@, item.put));
            push_operation(self, &mut operations, path.as_str(), &item.parameters, "PATCH", opt_ref(&item.patch));
            let ghost s4 = records_view(operations@);
            assert(s4 == s3 + records_for(*self, path@, ps, "PATCH"@, item.patch));
            push_operation(self, &mut operations, path.as_str(), &item.parameters, "DELETE", opt_ref(&item.delete));
            let ghost s5 = records_view(operations@);
            assert(s5 == s4 + records_for(*self, path@, ps, "DELETE"@, item.delete));
            assert(records_of_item(*self, path@, *item) == records_for(*self, path@, ps, "GET"@, item.get)
                + records_for(*self, path@, ps, "POST"@, item.post) + records_for(*self, path@, ps, "PUT"@, item.put)
                + records_for(*self, path@, ps, "PATCH"@, item.patch) + records_for(*self, path@, ps, "DELETE"@, item.delete));
            assert(s5 =~= before + records_of_item(*self, path@, *item));
            assert(records_upto(*self, i + 1) == before + records_of_item(*self, path@, *item));
            i = i + 1;
        }
        operations
    }
}

} // verus!
