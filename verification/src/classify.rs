//! Content classification: a fetched body is first held against the guard
//! (blank bodies and provider size-limit pages are rejected), then tried as
//! JSON and, failing that, as YAML.  A classified body comes back with its
//! canonical serialized form, on which fingerprints are computed.

use vstd::prelude::*;
use crate::Category;
use crate::text::{all_space, contains_seq, is_all_space, contains_str};

verus! {

/// The marker a provider puts in a placeholder page when the requested
/// package was too large; such a page is never real content.
pub open spec fn spec_size_limit_marker() -> Seq<char> {
    "Package size exceeded the configured limit of 50 MB"@
}

/// The size-limit marker as an executable string.
pub fn size_limit_marker() -> (m: &'static str)
    ensures
        m@ == spec_size_limit_marker(),
{
    "Package size exceeded the configured limit of 50 MB"
}

/// A body the guard rejects: blank, or carrying the size-limit marker.
/// Such a body is excluded from classification whatever else it holds.
pub open spec fn guard_rejects(body: Seq<char>) -> bool {
    all_space(body) || contains_seq(body, spec_size_limit_marker())
}

/// Does the guard reject this body?
pub fn guard_rejects_body(body: &str) -> (r: bool)
    ensures
        r == guard_rejects(body@),
{
    is_all_space(body) || contains_str(body, size_limit_marker())
}

/// The canonical JSON form of a text, if the text parses as JSON; `None`
/// otherwise.  A function of the text alone.
pub uninterp spec fn json_canon(s: Seq<char>) -> Option<Seq<char>>;

/// The canonical YAML form of a text, if the text parses as YAML; `None`
/// otherwise.  A function of the text alone.
pub uninterp spec fn yaml_canon(s: Seq<char>) -> Option<Seq<char>>;

/// Relies on serde_json::from_str::<Value> and serde_json::to_string: both
/// depend on the input text alone, parsing accepts exactly the JSON grammar,
/// and serializing a parsed value writes one canonical string for it (object
/// keys are kept sorted by serde_json's default map).
#[verifier::external_body]
fn json_canonical(s: &str) -> (r: Option<String>)
    ensures
        json_canon(s@) == (match r {
            Some(c) => Some(c@),
            None => None::<Seq<char>>,
        }),
{
    match serde_json::from_str::<serde_json::Value>(s) {
        Ok(v) => serde_json::to_string(&v).ok(),
        Err(_) => None,
    }
}

/// Relies on serde_yaml::from_str::<Value> and serde_yaml::to_string: both
/// depend on the input text alone, parsing accepts exactly the YAML grammar,
/// and serializing a parsed value writes one canonical string for it.
#[verifier::external_body]
fn yaml_canonical(s: &str) -> (r: Option<String>)
    ensures
        yaml_canon(s@) == (match r {
            Some(c) => Some(c@),
            None => None::<Seq<char>>,
        }),
{
    match serde_yaml::from_str::<serde_yaml::Value>(s) {
        Ok(v) => serde_yaml::to_string(&v).ok(),
        Err(_) => None,
    }
}

/// What classification returns for a body: nothing when the guard rejects it
/// or neither grammar accepts it, else the matched category and the body's
/// canonical form.  JSON is tried before YAML: much JSON is also well-formed
/// YAML, and the fixed precedence keeps such bodies in one category.
pub open spec fn classified(body: Seq<char>) -> Option<(Category, Seq<char>)> {
    if guard_rejects(body) {
        None
    } else {
        match json_canon(body) {
            Some(c) => Some((Category::Json, c)),
            None => match yaml_canon(body) {
                Some(c) => Some((Category::Yaml, c)),
                None => None,
            },
        }
    }
}

/// Classify a fetched body, returning the matched category and the canonical
/// form the fingerprint is computed over, or `None` for an unclassified body.
pub fn classify(body: &str) -> (r: Option<(Category, String)>)
    ensures
        classified(body@) == (match r {
            Some((cat, c)) => Some((cat, c@)),
            None => None::<(Category, Seq<char>)>,
        }),
{
    if guard_rejects_body(body) {
        return None;
    }
    match json_canonical(body) {
        Some(c) => Some((Category::Json, c)),
        None => match yaml_canonical(body) {
            Some(c) => Some((Category::Yaml, c)),
            None => None,
        },
    }
}

/// Guard correctness: a blank body, and a body holding the size-limit
/// marker, are unclassified whatever otherwise-valid content they carry.
pub proof fn lemma_guard_rejects_unclassified(body: Seq<char>)
    requires
        all_space(body) || contains_seq(body, spec_size_limit_marker()),
    ensures
        classified(body) is None,
{
}

/// Precedence: a body the guard admits that is canonical under both the JSON
/// and the YAML grammar is classified as JSON.
pub proof fn lemma_json_precedence(body: Seq<char>)
    requires
        !guard_rejects(body),
        json_canon(body) is Some,
        yaml_canon(body) is Some,
    ensures
        (classified(body) matches Some(p) && p.0 == Category::Json),
{
}

} // verus!
