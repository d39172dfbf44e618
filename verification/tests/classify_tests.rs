use url_dedup::classify::classify;
use url_dedup::fingerprint::fingerprint;
use url_dedup::Category;

#[test]
fn fingerprint_is_idempotent() {
    let h1 = fingerprint("{\"a\":1}");
    let h2 = fingerprint("{\"a\":1}");
    assert_eq!(h1, h2);
}

#[test]
fn fingerprints_differ_for_different_content() {
    let h1 = fingerprint("{\"a\":1}");
    let h2 = fingerprint("{\"a\":2}");
    assert_ne!(h1, h2);
}

#[test]
fn format_insensitive_fingerprints() {
    let a = classify("{\"a\": 1, \"b\": 2}").unwrap();
    let b = classify("{ \"b\" : 2,\n  \"a\" : 1 }").unwrap();
    assert_eq!(a.0, Category::Json);
    assert_eq!(b.0, Category::Json);
    assert_eq!(a.1, b.1);
    assert_eq!(fingerprint(&a.1), fingerprint(&b.1));
}

#[test]
fn json_canonical_form_is_normalized() {
    let (cat, canon) = classify("{ \"b\" : 2, \"a\" : 1 }").unwrap();
    assert_eq!(cat, Category::Json);
    assert_eq!(canon, "{\"a\":1,\"b\":2}");
}

#[test]
fn yaml_canonical_form_is_normalized() {
    let (cat, canon) = classify("key:     value").unwrap();
    assert_eq!(cat, Category::Yaml);
    assert_eq!(canon, "key: value\n");
}

#[test]
fn empty_body_is_unclassified() {
    assert!(classify("").is_none());
}

#[test]
fn blank_body_is_unclassified() {
    assert!(classify(" \t\r\n  ").is_none());
}

#[test]
fn size_limit_marker_rejected_despite_valid_json() {
    let body = "{\"note\": \"Package size exceeded the configured limit of 50 MB\"}";
    assert!(classify(body).is_none());
}

#[test]
fn size_limit_marker_rejected_in_plain_text() {
    let body = "Error: Package size exceeded the configured limit of 50 MB.";
    assert!(classify(body).is_none());
}

#[test]
fn json_takes_precedence_over_yaml() {
    // valid JSON is also valid YAML; the classifier must say JSON
    let (cat, _) = classify("{\"a\": 1}").unwrap();
    assert_eq!(cat, Category::Json);
    let (cat2, _) = classify("[1, 2, 3]").unwrap();
    assert_eq!(cat2, Category::Json);
}

#[test]
fn yaml_only_body_is_yaml() {
    let (cat, _) = classify("name: test\nvalue: 1\n").unwrap();
    assert_eq!(cat, Category::Yaml);
}

#[test]
fn html_error_page_is_unclassified() {
    let body = "<html><body>Error: [500</body></html>";
    assert!(classify(body).is_none());
}

#[test]
fn category_names_are_the_published_keys() {
    assert_eq!(url_dedup::category_name(Category::Json), "json");
    assert_eq!(url_dedup::category_name(Category::Yaml), "yaml");
}
