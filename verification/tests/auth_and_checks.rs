use printing_press_rs::cli::{placeholder_message, Command};
use printing_press_rs::spec::{
    AuthEnvVar, Components, Info, OAuthFlow, OAuthFlows, OpenApiSpec, Operation, Parameter,
    PathItem, Schema, SchemaProperties, SecurityRequirement, SecurityScheme,
};
use printing_press_rs::operations::{
    merge_parameters, operation_requires_auth, schema_kind, security_requirements_require_auth,
};
use printing_press_rs::ordered_map::{compare_keys, KeyOrder, NamedMap};
use printing_press_rs::verify::{
    manifest_operations_missing_from_spec, score_counts, verify_outcome, GeneratedManifest,
    ManifestOperation, VerifyFailure,
};

fn schema(t: &str) -> Schema {
    Schema { schema_type: t.to_string(), properties: SchemaProperties::new(), required: Vec::new(), ref_path: None }
}

fn param(name: &str, location: &str, required: bool) -> Parameter {
    Parameter { name: name.to_string(), location: location.to_string(), required, schema: schema("string") }
}

fn requirement(names: &[&str]) -> SecurityRequirement {
    let mut r = NamedMap::new();
    for n in names {
        r.insert(n.to_string(), Vec::new());
    }
    r
}

fn scheme(t: &str, name: &str, flows: Option<&str>) -> SecurityScheme {
    SecurityScheme {
        scheme_type: t.to_string(),
        location: "header".to_string(),
        name: name.to_string(),
        flows: OAuthFlows { client_credentials: flows.map(|u| OAuthFlow { token_url: u.to_string() }) },
        auth_vars: vec![AuthEnvVar {
            name: "TOKEN".to_string(),
            kind: "bearer".to_string(),
            required: true,
            sensitive: true,
            description: "the token".to_string(),
        }],
    }
}

fn spec_with(security: Vec<SecurityRequirement>, schemes: Vec<(&str, SecurityScheme)>) -> OpenApiSpec {
    let mut map = NamedMap::new();
    for (k, v) in schemes {
        map.insert(k.to_string(), v);
    }
    OpenApiSpec {
        openapi: "3.0.0".to_string(),
        info: Info { title: "T".to_string(), description: String::new(), version: String::new() },
        servers: Vec::new(),
        security,
        components: Components { security_schemes: map, schemas: NamedMap::new() },
        paths: NamedMap::new(),
    }
}

#[test]
fn named_map_keeps_keys_sorted_and_replaces() {
    let mut m: NamedMap<u32> = NamedMap::new();
    assert!(m.insert("b".to_string(), 1).is_none());
    assert!(m.insert("a".to_string(), 2).is_none());
    assert!(m.insert("ab".to_string(), 3).is_none());
    assert_eq!(m.insert("b".to_string(), 4), Some(1));
    assert_eq!(m.len(), 3);
    let keys: Vec<&str> = (0..m.len()).map(|i| m.key_at(i).as_str()).collect();
    assert_eq!(keys, vec!["a", "ab", "b"]);
    assert_eq!(m.get("b"), Some(&4));
    assert_eq!(m.get("c"), None);
    let keys = m.keys();
    assert_eq!(keys, vec!["a".to_string(), "ab".to_string(), "b".to_string()]);
}

#[test]
fn keys_compare_by_code_point() {
    assert_eq!(compare_keys("a", "b"), KeyOrder::Less);
    assert_eq!(compare_keys("b", "a"), KeyOrder::Greater);
    assert_eq!(compare_keys("ab", "ab"), KeyOrder::Equal);
    assert_eq!(compare_keys("a", "ab"), KeyOrder::Less);
    assert_eq!(compare_keys("Z", "a"), KeyOrder::Less);
}

#[test]
fn requirements_demand_auth_only_when_all_are_non_empty() {
    assert!(!security_requirements_require_auth(&Vec::new()));
    assert!(security_requirements_require_auth(&vec![requirement(&["key"])]));
    assert!(!security_requirements_require_auth(&vec![requirement(&["key"]), requirement(&[])]));
    assert!(!security_requirements_require_auth(&vec![requirement(&[])]));
}

#[test]
fn operation_security_overrides_document_security() {
    let spec = spec_with(vec![requirement(&["key"])], Vec::new());
    let mut op = Operation {
        operation_id: None,
        summary: None,
        description: None,
        tags: Vec::new(),
        parameters: Vec::new(),
        request_body: None,
        security: None,
    };
    assert!(operation_requires_auth(&spec, &op));
    op.security = Some(Vec::new());
    assert!(!operation_requires_auth(&spec, &op));
}

#[test]
fn auth_model_for_oauth_client_credentials() {
    let spec = spec_with(
        vec![requirement(&[]), requirement(&["oauth"])],
        vec![("apikey", scheme("apiKey", "X-Key", None)), ("oauth", scheme("oauth2", " ", Some("https://auth/token")))],
    );
    let m = spec.auth_model().expect("scheme");
    assert_eq!(m.scheme_name, "oauth");
    assert_eq!(m.kind, "oauth2-client-credentials");
    assert_eq!(m.header_name, "Authorization");
    assert_eq!(m.token_url.as_deref(), Some("https://auth/token"));
    assert_eq!(m.env_vars.len(), 1);
    assert_eq!(m.env_vars[0].name, "TOKEN");
}

#[test]
fn auth_model_blank_token_url_and_missing_scheme() {
    let spec = spec_with(vec![requirement(&["oauth"])], vec![("oauth", scheme("oauth2", "X", Some("  ")))]);
    let m = spec.auth_model().expect("scheme");
    assert!(m.token_url.is_none());
    assert_eq!(m.header_name, "X");
    let missing = spec_with(vec![requirement(&["nope"])], vec![("oauth", scheme("oauth2", "X", None))]);
    assert!(missing.auth_model().is_none());
    let none = spec_with(Vec::new(), Vec::new());
    assert!(none.auth_model().is_none());
    let plain = spec_with(Vec::new(), vec![("b", scheme("oauth2", "", None))]);
    assert_eq!(plain.auth_model().expect("scheme").kind, "oauth2");
}

#[test]
fn schema_kinds() {
    assert_eq!(schema_kind(&schema("boolean")), "boolean");
    assert_eq!(schema_kind(&schema("integer")), "integer");
    assert_eq!(schema_kind(&schema("number")), "number");
    assert_eq!(schema_kind(&schema("array")), "string");
    assert_eq!(schema_kind(&schema("")), "string");
}

#[test]
fn operation_parameters_override_path_parameters() {
    let path_level = vec![param("id", "path", true), param("limit", "query", false)];
    let op_level = vec![param("limit", "query", true), param("id", "header", false)];
    let merged = merge_parameters(&path_level, &op_level);
    let shape: Vec<(&str, &str, bool)> =
        merged.iter().map(|p| (p.name.as_str(), p.location.as_str(), p.required)).collect();
    assert_eq!(shape, vec![("id", "path", true), ("limit", "query", true), ("id", "header", false)]);
}

fn manifest(ops: &[(&str, &str)]) -> GeneratedManifest {
    GeneratedManifest {
        generated_crate: "cli".to_string(),
        operation_count: ops.len(),
        base_url: "https://example.invalid".to_string(),
        operations: ops
            .iter()
            .map(|(m, p)| ManifestOperation { method: m.to_string(), path: p.to_string() })
            .collect(),
    }
}

fn spec_with_paths() -> OpenApiSpec {
    let mut spec = spec_with(Vec::new(), Vec::new());
    let op = || Operation {
        operation_id: None,
        summary: None,
        description: Some("d".to_string()),
        tags: Vec::new(),
        parameters: Vec::new(),
        request_body: None,
        security: None,
    };
    spec.paths.insert(
        "/items".to_string(),
        PathItem { parameters: Vec::new(), get: Some(op()), post: Some(op()), put: None, patch: None, delete: None },
    );
    spec
}

#[test]
fn missing_operations_are_reported_in_manifest_order() {
    let spec = spec_with_paths();
    let ops = spec.operations();
    assert_eq!(ops[0].summary, "d");
    assert_eq!(ops[0].tag, "default");
    assert_eq!(ops[0].operation_id, "get-items");
    let m = manifest(&[("GET", "/items"), ("DELETE", "/items"), ("GET", "/other")]);
    let missing = manifest_operations_missing_from_spec(&m, &spec);
    assert_eq!(missing, vec!["DELETE /items".to_string(), "GET /other".to_string()]);
    assert_eq!(score_counts(&m, &spec), (3, 2));
}

#[test]
fn verify_outcome_orders_failures() {
    let m = manifest(&[("GET", "/items")]);
    let r = verify_outcome(&m, "out/press-index.json".to_string(), "out/cli".to_string(), vec!["X /y".to_string()], false);
    assert_eq!(r.err(), Some(VerifyFailure::CargoCheckFailed));
    let r = verify_outcome(
        &m,
        "out/press-index.json".to_string(),
        "out/cli".to_string(),
        vec!["X /y".to_string(), "Z /w".to_string()],
        true,
    );
    assert_eq!(r.err(), Some(VerifyFailure::MissingOperations("X /y, Z /w".to_string())));
    let ok = verify_outcome(&m, "out/press-index.json".to_string(), "out/cli".to_string(), Vec::new(), true)
        .expect("report");
    assert_eq!(ok.operation_count, 1);
    assert_eq!(ok.crate_dir, "out/cli");
    assert!(ok.cargo_check_ok);
    assert!(ok.missing_in_spec.is_empty());
}

#[test]
fn placeholder_message_names_verb_and_target() {
    let c = Command::Generate { target: "notion".to_string() };
    assert_eq!(placeholder_message(&c), "printing-press-rs: generate for notion");
    assert_eq!(Command::Sniff { target: "x".to_string() }.verb(), "sniff");
    assert_eq!(Command::Dogfood { target: "y".to_string() }.target(), "y");
}
