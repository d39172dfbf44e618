//! Deduplication of fetched URL content by canonical fingerprint.
//!
//! Candidate URLs are fetched elsewhere; this library takes the fetch
//! outcomes, classifies each body as JSON or YAML, canonicalizes it,
//! fingerprints the canonical form, and keeps, per category, the first
//! URL seen for each distinct fingerprint.

use vstd::prelude::*;

pub mod aggregate;
pub mod classify;
pub mod fingerprint;
pub mod paths;
pub mod text;

verus! {

/// The closed set of content categories a fetched body can fall into.
/// A body that parses under neither grammar is unclassified and dropped.
#[derive(Clone, Copy, Debug, PartialEq, Eq, Structural)]
pub enum Category {
    Json,
    Yaml,
}

/// The name a category's result list is published under.
pub open spec fn spec_category_name(cat: Category) -> Seq<char> {
    match cat {
        Category::Json => "json"@,
        Category::Yaml => "yaml"@,
    }
}

/// The publishable name of a category.
pub fn category_name(cat: Category) -> (r: &'static str)
    ensures
        r@ == spec_category_name(cat),
{
    match cat {
        Category::Json => "json",
        Category::Yaml => "yaml",
    }
}

} // verus!
