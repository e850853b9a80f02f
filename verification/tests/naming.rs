use printing_press_rs::names::{fallback_operation_id, sanitize_identifier, split_words, upper_snake};
use printing_press_rs::slug::{humanize_slug, slugify};

#[test]
fn split_words_breaks_on_case_and_punctuation() {
    assert_eq!(split_words("petId"), vec!["pet", "id"]);
    assert_eq!(split_words("api_key"), vec!["api", "key"]);
    assert_eq!(split_words("getHTTPResponse"), vec!["get", "httpresponse"]);
    assert_eq!(split_words("X-Rate-Limit"), vec!["x", "rate", "limit"]);
    assert_eq!(split_words("v2Items"), vec!["v2items"]);
    assert_eq!(split_words("v2items"), vec!["v2items"]);
}

#[test]
fn split_words_falls_back_to_value() {
    assert_eq!(split_words(""), vec!["value"]);
    assert_eq!(split_words("--- !!"), vec!["value"]);
    assert_eq!(split_words("é"), vec!["value"]);
}

#[test]
fn sanitize_identifier_is_kebab_case() {
    assert_eq!(sanitize_identifier("findPetsByStatus"), "find-pets-by-status");
    assert_eq!(sanitize_identifier("  Hello, World! "), "hello-world");
    assert_eq!(sanitize_identifier(""), "value");
    let once = sanitize_identifier("createUser_v2");
    assert_eq!(sanitize_identifier(&once), once);
}

#[test]
fn upper_snake_joins_with_underscores() {
    assert_eq!(upper_snake("apiKey"), "API_KEY");
    assert_eq!(upper_snake("client-id"), "CLIENT_ID");
    assert_eq!(upper_snake(""), "VALUE");
}

#[test]
fn upper_snake_is_the_upper_cased_identifier_with_underscores() {
    for input in ["--a--b--", "apiKey", "Client ID", "", "x_y-z", "HTTPServer2"] {
        let expected = sanitize_identifier(input).replace('-', "_").to_ascii_uppercase();
        let got = upper_snake(input);
        assert_eq!(got, expected);
        assert!(!got.is_empty());
        assert!(!got.starts_with('_') && !got.ends_with('_') && !got.contains("__"));
    }
    assert_eq!(upper_snake("--a--b--"), "A_B");
}

#[test]
fn fallback_operation_id_uses_method_and_path() {
    assert_eq!(fallback_operation_id("GET", "/pet/{petId}"), "get-pet-pet-id");
    assert_eq!(fallback_operation_id("DELETE", "/"), "delete");
}

#[test]
fn slugify_collapses_and_trims() {
    assert_eq!(slugify("Notion API"), "notion-api");
    assert_eq!(slugify("  --Hello__World--  "), "hello-world");
    assert_eq!(slugify("petstore.yaml"), "petstore-yaml");
    assert_eq!(slugify("ÄÖÜ"), "printed-api");
    assert_eq!(slugify(""), "printed-api");
}

#[test]
fn slugify_is_idempotent_on_examples() {
    for input in ["Notion API", "", "a--b", "-x-", "Stripe v2 (beta)"] {
        let once = slugify(input);
        assert_eq!(slugify(&once), once);
    }
}

#[test]
fn humanize_slug_capitalizes_pieces() {
    assert_eq!(humanize_slug("notion-api"), "Notion Api");
    assert_eq!(humanize_slug("--a--b-"), "A B");
    assert_eq!(humanize_slug("2fa-setup"), "2fa Setup");
    assert_eq!(humanize_slug(""), "");
}

#[test]
fn slugify_undoes_humanize_on_examples() {
    for input in ["notion-api", "printed-api", "a-b-c", "v2"] {
        assert_eq!(slugify(&humanize_slug(input)), input);
    }
}
