use printing_press_rs::catalog::{
    catalog_file_name, resolve_catalog_target, resolve_local_target, resolve_remote_target,
    slug_from_url, CatalogEntry, ParsedUrl, ResolvedTarget, ResolvedTargetKind,
};
use printing_press_rs::pipeline::{
    default_output_dir, is_remote_target, spec_format, validate_spec, SpecError, SpecFormat,
    WorkspacePaths,
};
use printing_press_rs::spec::{Components, Info, OpenApiSpec, PathItem};
use printing_press_rs::ordered_map::NamedMap;
use printing_press_rs::slug::slugify;

#[test]
fn local_targets_use_the_file_stem() {
    let t = resolve_local_target("specs/Petstore API.yaml", Some("Petstore API"), "/abs/specs/Petstore API.yaml");
    assert_eq!(t.kind, ResolvedTargetKind::LocalFile);
    assert_eq!(t.name, "Petstore API");
    assert_eq!(t.slug, "petstore-api");
    assert_eq!(t.display_name, "Petstore Api");
    assert_eq!(t.description.as_deref(), Some("Local spec file"));
    assert_eq!(t.spec_ref(), Some("/abs/specs/Petstore API.yaml"));
    assert!(t.homepage.is_none());

    let u = resolve_local_target("x", None, "/abs/x");
    assert_eq!(u.name, "local-spec");
    assert_eq!(u.slug, "local-spec");
    assert_eq!(u.display_name, "Local Spec");
}

#[test]
fn remote_spec_urls_are_specs() {
    let t = resolve_remote_target("https://example.com/specs/petstore.yaml").expect("a URL");
    assert_eq!(t.kind, ResolvedTargetKind::RemoteSpec);
    assert_eq!(t.slug, "petstore");
    assert_eq!(t.name, "petstore");
    assert_eq!(t.display_name, "Petstore");
    assert_eq!(t.description.as_deref(), Some("Remote spec URL"));
    assert_eq!(t.spec_ref(), Some("https://example.com/specs/petstore.yaml"));
    assert_eq!(t.homepage.as_deref(), Some("https://example.com/specs/petstore.yaml"));
}

#[test]
fn website_urls_use_host_when_path_is_empty() {
    let t = resolve_remote_target("https://www.notion.so/").expect("a URL");
    assert_eq!(t.kind, ResolvedTargetKind::Url);
    assert_eq!(t.slug, "www-notion-so");
    assert_eq!(t.description.as_deref(), Some("Website target"));
    assert!(t.spec_ref().is_none());

    let o = resolve_remote_target("https://api.example.com/openapi").expect("a URL");
    assert_eq!(o.kind, ResolvedTargetKind::RemoteSpec);
    assert_eq!(o.slug, "openapi");
}

#[test]
fn names_that_are_not_urls_are_not_remote_targets() {
    assert!(resolve_remote_target("notion").is_none());
    assert!(resolve_remote_target("").is_none());
}

#[test]
fn url_slugs_drop_spec_extensions() {
    let u = ParsedUrl {
        path_segments: Some(vec!["v1".to_string(), "api.json".to_string(), String::new()]),
        host: Some("example.com".to_string()),
    };
    assert_eq!(slug_from_url(&u), "api");
    let only_ext = ParsedUrl {
        path_segments: Some(vec![".yaml".to_string()]),
        host: None,
    };
    assert_eq!(slug_from_url(&only_ext), "target");
    let no_base = ParsedUrl { path_segments: None, host: Some("Mail.Example".to_string()) };
    assert_eq!(slug_from_url(&no_base), "mail-example");
}

fn entry(display: Option<&str>) -> CatalogEntry {
    CatalogEntry {
        name: "Stripe Payments".to_string(),
        display_name: display.map(|d| d.to_string()),
        description: Some("Payments API".to_string()),
        category: Some("payments".to_string()),
        spec_url: Some("https://example.com/stripe.yaml".to_string()),
        spec_format: Some("openapi3".to_string()),
        homepage: Some("https://stripe.com".to_string()),
    }
}

#[test]
fn catalog_entries_resolve() {
    let t: ResolvedTarget = resolve_catalog_target("stripe", &entry(None));
    assert_eq!(t.kind, ResolvedTargetKind::Catalog);
    assert_eq!(t.input, "stripe");
    assert_eq!(t.name, "Stripe Payments");
    assert_eq!(t.slug, "stripe-payments");
    assert_eq!(t.display_name, "Stripe Payments");
    assert_eq!(t.description.as_deref(), Some("Payments API"));
    assert_eq!(t.spec_ref(), Some("https://example.com/stripe.yaml"));
    assert_eq!(t.homepage.as_deref(), Some("https://stripe.com"));
    let d = resolve_catalog_target("stripe", &entry(Some("Stripe")));
    assert_eq!(d.display_name, "Stripe");
    assert_eq!(catalog_file_name("stripe"), "stripe.yaml");
}

#[test]
fn remote_targets_are_http_urls() {
    assert!(is_remote_target("https://example.com/a.yaml"));
    assert!(is_remote_target("http://example.com"));
    assert!(!is_remote_target("ftp://example.com"));
    assert!(!is_remote_target("./specs/http.yaml"));
}

#[test]
fn spec_format_looks_at_first_character() {
    assert_eq!(spec_format("  \n\t{\"openapi\": \"3.0.0\"}"), SpecFormat::Json);
    assert_eq!(spec_format("openapi: 3.0.0\n"), SpecFormat::Yaml);
    assert_eq!(spec_format(""), SpecFormat::Yaml);
    assert_eq!(spec_format("\u{2003}{"), SpecFormat::Json);
}

fn bare_spec() -> OpenApiSpec {
    OpenApiSpec {
        openapi: "3.0.0".to_string(),
        info: Info { title: String::new(), description: String::new(), version: String::new() },
        servers: Vec::new(),
        security: Vec::new(),
        components: Components { security_schemes: NamedMap::new(), schemas: NamedMap::new() },
        paths: NamedMap::new(),
    }
}

#[test]
fn specs_without_paths_are_refused() {
    assert_eq!(validate_spec(bare_spec()).err(), Some(SpecError::NoPaths));
    let mut spec = bare_spec();
    spec.paths.insert(
        "/a".to_string(),
        PathItem { parameters: Vec::new(), get: None, post: None, put: None, patch: None, delete: None },
    );
    assert!(validate_spec(spec).is_ok());
}

#[test]
fn default_output_dir_joins_the_slug() {
    let paths = WorkspacePaths { repo_root: "/repo".to_string(), library_root: "/repo/rust-port-out".to_string() };
    assert_eq!(default_output_dir(&paths, "notion"), "/repo/rust-port-out/notion");
}

#[test]
fn default_output_dir_places_the_cli_under_the_library_root() {
    let paths = WorkspacePaths { repo_root: "/repo".to_string(), library_root: "/repo/rust-port-out".to_string() };
    assert_eq!(default_output_dir(&paths, "petstore"), "/repo/rust-port-out/petstore");
    let trailing = WorkspacePaths { repo_root: "/repo".to_string(), library_root: "/repo/out/".to_string() };
    assert_eq!(default_output_dir(&trailing, "petstore"), "/repo/out/petstore");
    let empty = WorkspacePaths { repo_root: "/repo".to_string(), library_root: String::new() };
    assert_eq!(default_output_dir(&empty, "petstore"), "petstore");
}

#[test]
fn display_names_turn_back_into_slugs() {
    let local = resolve_local_target("a", Some("My--Cool API v2"), "/abs/a");
    assert_eq!(local.display_name, "My Cool Api V2");
    assert_eq!(slugify(&local.display_name), local.slug);
    let remote = resolve_remote_target("https://example.com/v1/Big_Spec.json").expect("a URL");
    assert_eq!(slugify(&remote.display_name), remote.slug);
}
