use printing_press_rs::spec::{
    Components, Info, MediaType, OpenApiSpec, Operation, Parameter, PathItem, RequestBody, Schema,
    SchemaProperties, SecurityScheme, Server, OAuthFlows,
};
use printing_press_rs::names::sanitize_identifier;
use printing_press_rs::ordered_map::NamedMap;

fn schema(t: &str) -> Schema {
    Schema {
        schema_type: t.to_string(),
        properties: SchemaProperties::new(),
        required: Vec::new(),
        ref_path: None,
    }
}

fn reference(name: &str) -> Schema {
    Schema {
        schema_type: String::new(),
        properties: SchemaProperties::new(),
        required: Vec::new(),
        ref_path: Some(format!("#/components/schemas/{name}")),
    }
}

fn param(name: &str, location: &str, required: bool, t: &str) -> Parameter {
    Parameter {
        name: name.to_string(),
        location: location.to_string(),
        required,
        schema: schema(t),
    }
}

fn op(id: &str, summary: &str, tag: &str, parameters: Vec<Parameter>, body: Option<RequestBody>) -> Operation {
    Operation {
        operation_id: Some(id.to_string()),
        summary: Some(summary.to_string()),
        description: None,
        tags: vec![tag.to_string()],
        parameters,
        request_body: body,
        security: None,
    }
}

fn empty_item() -> PathItem {
    PathItem {
        parameters: Vec::new(),
        get: None,
        post: None,
        put: None,
        patch: None,
        delete: None,
    }
}

fn json_body(s: Schema) -> RequestBody {
    let mut content = NamedMap::new();
    content.insert("application/json".to_string(), MediaType { schema: s });
    RequestBody { required: true, content }
}

/// A cut of the Swagger petstore (OpenAPI 3) document.
fn petstore() -> OpenApiSpec {
    let mut pet_props = SchemaProperties::new();
    pet_props.insert("id".to_string(), schema("integer"));
    pet_props.insert("name".to_string(), schema("string"));
    pet_props.insert("photoUrls".to_string(), schema("array"));
    pet_props.insert("status".to_string(), schema("string"));
    let pet = Schema {
        schema_type: "object".to_string(),
        properties: pet_props,
        required: vec!["name".to_string(), "photoUrls".to_string()],
        ref_path: None,
    };
    let mut schemas = NamedMap::new();
    schemas.insert("Pet".to_string(), pet);

    let mut paths = NamedMap::new();
    let mut pet_path = empty_item();
    pet_path.put = Some(op("updatePet", "Update an existing pet", "pet", Vec::new(), Some(json_body(reference("Pet")))));
    pet_path.post = Some(op("addPet", "Add a new pet to the store", "pet", Vec::new(), Some(json_body(reference("Pet")))));
    paths.insert("/pet".to_string(), pet_path);

    let mut by_status = empty_item();
    by_status.get = Some(op(
        "findPetsByStatus",
        "Finds Pets by status",
        "pet",
        vec![param("status", "query", false, "string")],
        None,
    ));
    paths.insert("/pet/findByStatus".to_string(), by_status);

    let mut by_id = empty_item();
    by_id.get = Some(op("getPetById", "Find pet by ID", "pet", vec![param("petId", "path", true, "integer")], None));
    by_id.delete = Some(op(
        "deletePet",
        "Deletes a pet",
        "pet",
        vec![param("api_key", "header", false, "string"), param("petId", "path", true, "integer")],
        None,
    ));
    paths.insert("/pet/{petId}".to_string(), by_id);

    let mut schemes = NamedMap::new();
    schemes.insert(
        "api_key".to_string(),
        SecurityScheme {
            scheme_type: "apiKey".to_string(),
            location: "header".to_string(),
            name: "api_key".to_string(),
            flows: OAuthFlows { client_credentials: None },
            auth_vars: Vec::new(),
        },
    );

    OpenApiSpec {
        openapi: "3.0.2".to_string(),
        info: Info {
            title: "Swagger Petstore - OpenAPI 3.0".to_string(),
            description: String::new(),
            version: "1.0.17".to_string(),
        },
        servers: vec![Server { url: "/api/v3".to_string() }],
        security: Vec::new(),
        components: Components { security_schemes: schemes, schemas },
        paths,
    }
}

#[test]
fn parses_fixture_spec_and_discovers_operations() {
    let spec = petstore();
    let operations = spec.operations();

    assert!(!operations.is_empty());
    assert!(operations
        .iter()
        .any(|op| op.method == "GET" && op.path == "/pet/{petId}"));
    assert_eq!(spec.base_url(), "/api/v3");
}

#[test]
fn operations_follow_path_order_then_method_order() {
    let spec = petstore();
    let listed: Vec<(String, String)> = spec
        .operations()
        .into_iter()
        .map(|op| (op.method, op.path))
        .collect();
    let expected: Vec<(String, String)> = vec![
        ("POST", "/pet"),
        ("PUT", "/pet"),
        ("GET", "/pet/findByStatus"),
        ("GET", "/pet/{petId}"),
        ("DELETE", "/pet/{petId}"),
    ]
    .into_iter()
    .map(|(m, p)| (m.to_string(), p.to_string()))
    .collect();
    assert_eq!(listed, expected);
}

#[test]
fn operation_records_carry_fields() {
    let spec = petstore();
    let ops = spec.operations();
    let get = &ops[3];
    assert_eq!(get.command_name, "get-pet-by-id");
    assert_eq!(get.operation_id, "getPetById");
    assert_eq!(get.summary, "Find pet by ID");
    assert_eq!(get.tag, "pet");
    assert!(!get.has_body);
    assert_eq!(get.path_params, vec!["petId".to_string()]);
    assert!(get.query_params.is_empty());
    assert_eq!(get.path_fields.len(), 1);
    assert_eq!(get.path_fields[0].name, "petId");
    assert_eq!(get.path_fields[0].flag_name, "pet-id");
    assert_eq!(get.path_fields[0].rust_name, "path_pet_id");
    assert!(get.path_fields[0].required);
    assert_eq!(get.path_fields[0].field_type, "integer");
    assert!(!get.requires_auth);

    let find = &ops[2];
    assert_eq!(find.query_params, vec!["status".to_string()]);
    assert_eq!(find.query_fields[0].rust_name, "query_status");
    assert_eq!(find.query_fields[0].field_type, "string");

    let delete = &ops[4];
    // header parameters are neither path nor query fields
    assert_eq!(delete.path_params, vec!["petId".to_string()]);
    assert!(delete.query_params.is_empty());
}

#[test]
fn body_fields_follow_schema_references() {
    let spec = petstore();
    let ops = spec.operations();
    let add = &ops[0];
    assert_eq!(add.command_name, "add-pet");
    assert!(add.has_body);
    let names: Vec<&str> = add.body_fields.iter().map(|f| f.name.as_str()).collect();
    assert_eq!(names, vec!["id", "name", "photoUrls", "status"]);
    let photo = &add.body_fields[2];
    assert_eq!(photo.flag_name, "photo-urls");
    assert_eq!(photo.rust_name, "body_photo_urls");
    assert!(photo.required);
    assert_eq!(photo.field_type, "string");
    assert_eq!(add.body_fields[0].field_type, "integer");
    assert!(!add.body_fields[0].required);
}

#[test]
fn title_and_base_url_defaults() {
    let mut spec = petstore();
    assert_eq!(spec.title_or_default(), "Swagger Petstore - OpenAPI 3.0");
    spec.info.title = "   ".to_string();
    assert_eq!(spec.title_or_default(), "Printed API");
    spec.servers = vec![Server { url: " ".to_string() }, Server { url: "https://api.example.com".to_string() }];
    assert_eq!(spec.base_url(), "https://api.example.com");
    spec.servers = Vec::new();
    assert_eq!(spec.base_url(), "https://example.invalid");
}

#[test]
fn auth_model_uses_first_scheme_without_requirements() {
    let spec = petstore();
    let model = spec.auth_model().expect("a scheme is defined");
    assert_eq!(model.scheme_name, "api_key");
    assert_eq!(model.kind, "apiKey");
    assert_eq!(model.header_name, "api_key");
    assert!(model.token_url.is_none());
    assert!(model.env_vars.is_empty());
}

#[test]
fn every_record_is_consistent() {
    let spec = petstore();
    let ops = spec.operations();
    assert_eq!(ops.len(), 5);
    for op in &ops {
        assert_eq!(op.command_name, sanitize_identifier(&op.operation_id));
        let path_names: Vec<String> = op.path_fields.iter().map(|f| f.name.clone()).collect();
        assert_eq!(op.path_params, path_names);
        let query_names: Vec<String> = op.query_fields.iter().map(|f| f.name.clone()).collect();
        assert_eq!(op.query_params, query_names);
        assert!(["GET", "POST", "PUT", "PATCH", "DELETE"].contains(&op.method.as_str()));
    }
}

#[test]
fn cloned_schema_keeps_names_types_and_nested_properties() {
    let mut deeper = SchemaProperties::new();
    deeper.insert("leaf".to_string(), schema("boolean"));
    let mut middle = schema("object");
    middle.properties = deeper;
    let mut props = SchemaProperties::new();
    props.insert("c".to_string(), middle);
    props.insert("b".to_string(), schema("string"));
    props.insert("a".to_string(), schema("integer"));
    let outer = Schema {
        schema_type: "object".to_string(),
        properties: props,
        required: vec!["a".to_string()],
        ref_path: Some("#/components/schemas/Pet".to_string()),
    };
    let copy = outer.clone();
    assert_eq!(copy.schema_type, "object");
    assert_eq!(copy.required, vec!["a".to_string()]);
    assert_eq!(copy.ref_path.as_deref(), Some("#/components/schemas/Pet"));
    assert_eq!(copy.properties.len(), 3);
    let nested = copy.properties.get("c").expect("nested property");
    assert_eq!(nested.schema_type, "object");
    assert_eq!(nested.properties.key_at(0), "leaf");
    assert_eq!(nested.properties.value_at(0).schema_type, "boolean");
    assert_eq!(copy.properties.key_at(0), "a");
    assert_eq!(copy.properties.key_at(1), "b");
    assert_eq!(copy.properties.get("b").map(|s| s.schema_type.as_str()), Some("string"));

    let mut map = NamedMap::new();
    map.insert("z".to_string(), 1u64);
    map.insert("m".to_string(), 2u64);
    let map_copy = map.clone();
    assert_eq!(map_copy.keys(), vec!["m".to_string(), "z".to_string()]);
    assert_eq!(map_copy.get("z"), Some(&1u64));
}
