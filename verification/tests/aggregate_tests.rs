use url_dedup::aggregate::{extract_unique_urls, FetchOutcome};

fn success(url: &str, body: &str) -> FetchOutcome {
    FetchOutcome::Success { url: String::from(url), body: String::from(body) }
}

#[test]
fn five_urls_scenario() {
    // two byte-identical JSON bodies, one reordered copy, one YAML document,
    // one unparseable error page
    let outcomes = vec![
        success("http://a.example/1", "{\"a\": 1, \"b\": 2}"),
        success("http://a.example/2", "{\"a\": 1, \"b\": 2}"),
        success("http://a.example/3", "{\"b\": 2, \"a\": 1}"),
        success("http://a.example/4", "name: test\nvalue: 1\n"),
        success("http://a.example/5", "<html><body>Error: [500</body></html>"),
    ];
    let r = extract_unique_urls(outcomes);
    assert_eq!(r.json_urls, vec![String::from("http://a.example/1")]);
    assert_eq!(r.yaml_urls, vec![String::from("http://a.example/4")]);
    assert_eq!(r.json_count, 1);
    assert_eq!(r.yaml_count, 1);
}

#[test]
fn all_fetches_fail() {
    let outcomes = vec![
        FetchOutcome::Failure,
        FetchOutcome::Failure,
        FetchOutcome::Failure,
        FetchOutcome::Failure,
        FetchOutcome::Failure,
    ];
    let r = extract_unique_urls(outcomes);
    assert!(r.json_urls.is_empty());
    assert!(r.yaml_urls.is_empty());
    assert_eq!(r.json_count, 0);
    assert_eq!(r.yaml_count, 0);
}

#[test]
fn no_outcomes_at_all() {
    let r = extract_unique_urls(Vec::new());
    assert!(r.json_urls.is_empty());
    assert!(r.yaml_urls.is_empty());
    assert_eq!(r.json_count, 0);
    assert_eq!(r.yaml_count, 0);
}

#[test]
fn duplicate_content_keeps_first_url() {
    let outcomes = vec![
        success("http://b.example/first", "[1, 2]"),
        success("http://b.example/second", "[1, 2]"),
    ];
    let r = extract_unique_urls(outcomes);
    assert_eq!(r.json_urls, vec![String::from("http://b.example/first")]);
    assert_eq!(r.json_count, 1);
}

#[test]
fn distinct_content_keeps_both_urls() {
    let outcomes = vec![
        success("http://b.example/first", "[1, 2]"),
        success("http://b.example/second", "[3, 4]"),
    ];
    let r = extract_unique_urls(outcomes);
    assert_eq!(
        r.json_urls,
        vec![String::from("http://b.example/first"), String::from("http://b.example/second")]
    );
    assert_eq!(r.json_count, 2);
}

#[test]
fn no_url_in_both_categories() {
    let outcomes = vec![
        success("http://c.example/j1", "{\"x\": 1}"),
        success("http://c.example/y1", "x: 1\ny: 2\n"),
        success("http://c.example/j2", "{\"x\": 2}"),
        success("http://c.example/y2", "x: 2\ny: 3\n"),
    ];
    let r = extract_unique_urls(outcomes);
    for u in &r.json_urls {
        assert!(!r.yaml_urls.contains(u));
    }
    assert_eq!(r.json_urls.len(), 2);
    assert_eq!(r.yaml_urls.len(), 2);
}

#[test]
fn same_url_with_two_bodies_listed_once() {
    let outcomes = vec![
        success("http://d.example/u", "{\"x\": 1}"),
        success("http://d.example/u", "{\"x\": 2}"),
    ];
    let r = extract_unique_urls(outcomes);
    assert_eq!(r.json_urls, vec![String::from("http://d.example/u")]);
    assert_eq!(r.json_count, 2);
}

#[test]
fn guarded_bodies_never_reach_a_category() {
    let outcomes = vec![
        success("http://e.example/blank", "   \n  "),
        success("http://e.example/limit", "Package size exceeded the configured limit of 50 MB"),
        success("http://e.example/ok", "{\"x\": 1}"),
    ];
    let r = extract_unique_urls(outcomes);
    assert_eq!(r.json_urls, vec![String::from("http://e.example/ok")]);
    assert_eq!(r.json_count, 1);
    assert!(r.yaml_urls.is_empty());
    assert_eq!(r.yaml_count, 0);
}

#[test]
fn failures_are_dropped_among_successes() {
    let outcomes = vec![
        FetchOutcome::Failure,
        success("http://f.example/ok", "{\"x\": 1}"),
        FetchOutcome::Failure,
    ];
    let r = extract_unique_urls(outcomes);
    assert_eq!(r.json_urls, vec![String::from("http://f.example/ok")]);
    assert_eq!(r.json_count, 1);
}
