//! Content fingerprints: a fixed-width, non-cryptographic hash over the
//! canonical form of a classified body.  Bodies whose canonical forms agree
//! always agree on their fingerprint, whatever their original formatting.

use vstd::prelude::*;
use vstd::utf8::encode_utf8;
use vstd::std_specs::hash::DefaultHasherAdditionalSpecFns;
use std::collections::hash_map::DefaultHasher;
use std::hash::Hasher;
use crate::Category;
use crate::classify::classified;

verus! {

/// The fingerprint of a canonical form: the hash of its UTF-8 bytes, written
/// to the hasher in one piece.
pub open spec fn fingerprint_of(canon: Seq<char>) -> u64 {
    DefaultHasher::spec_finish(Seq::<Seq<u8>>::empty().push(encode_utf8(canon)))
}

/// What a classified body contributes to deduplication: its category and the
/// fingerprint of its canonical form; nothing for an unclassified body.
pub open spec fn body_fingerprint(body: Seq<char>) -> Option<(Category, u64)> {
    match classified(body) {
        Some((cat, canon)) => Some((cat, fingerprint_of(canon))),
        None => None,
    }
}

/// Compute the fingerprint of a canonical form.
pub fn fingerprint(canon: &str) -> (h: u64)
    ensures
        h == fingerprint_of(canon@),
{
    let mut hasher = DefaultHasher::new();
    hasher.write(canon.as_bytes());
    hasher.finish()
}

/// Idempotent fingerprinting: the fingerprint is a function of the body
/// alone, so two computations over one body always yield one hash.
pub proof fn lemma_fingerprint_idempotent(body: Seq<char>)
    ensures
        body_fingerprint(body) == body_fingerprint(body),
{
}

/// Format insensitivity: two bodies that classify alike — same category,
/// same canonical form — carry the same fingerprint, whatever their original
/// key order or whitespace.
pub proof fn lemma_format_insensitive(b1: Seq<char>, b2: Seq<char>)
    requires
        classified(b1) == classified(b2),
    ensures
        body_fingerprint(b1) == body_fingerprint(b2),
{
}

} // verus!
