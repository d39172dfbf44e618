//! The one piece of the file-discovery side that is pure computation: given
//! a base directory and the path of a file under it, the name of the first
//! folder of the file's path relative to the base.  Paths are plain strings
//! with `/` separating their components.

use vstd::prelude::*;
use vstd::string::StrSliceExecFns;
use vstd::string::StringExecFns;
use crate::text::{is_prefix, starts_with};

verus! {

/// After stripping `base` off the front of `file`, the cut must fall on a
/// component boundary: `base` is empty or ends in `/`, or the remainder is
/// empty or starts with `/`.
pub open spec fn path_boundary_ok(base: Seq<char>, file: Seq<char>) -> bool {
    ||| base.len() == 0
    ||| base[base.len() - 1] == '/'
    ||| file.len() == base.len()
    ||| file[base.len() as int] == '/'
}

/// The length of the leading run of non-separator characters.
pub open spec fn nonslash_run(s: Seq<char>) -> int
    decreases s.len(),
{
    if s.len() == 0 || s[0] == '/' {
        0
    } else {
        1 + nonslash_run(s.skip(1))
    }
}

/// The first path component of `s`: what stands between the leading
/// separators, if any, and the next separator or the end; `None` when
/// nothing does.
pub open spec fn first_segment(s: Seq<char>) -> Option<Seq<char>>
    decreases s.len(),
{
    if s.len() == 0 {
        None
    } else if s[0] == '/' {
        first_segment(s.skip(1))
    } else {
        Some(s.take(nonslash_run(s)))
    }
}

/// The first folder of `file` relative to `base`: the first component of
/// what follows the `base` prefix, or `None` when `base` is no prefix of
/// `file`, the cut misses a component boundary, or nothing follows.
pub open spec fn first_folder(base: Seq<char>, file: Seq<char>) -> Option<Seq<char>> {
    if is_prefix(base, file) && path_boundary_ok(base, file) {
        first_segment(file.skip(base.len() as int))
    } else {
        None
    }
}

proof fn lemma_nonslash_run_exact(s: Seq<char>, l: int)
    requires
        0 <= l <= s.len(),
        forall|t: int| 0 <= t < l ==> s[t] != '/',
        l == s.len() || s[l] == '/',
    ensures
        nonslash_run(s) == l,
    decreases l,
{
    if l == 0 {
        if s.len() > 0 {
            assert(s[0] == '/');
        }
    } else {
        assert(s[0] != '/');
        assert forall|t: int| 0 <= t < l - 1 implies s.skip(1)[t] != '/' by {
            assert(s.skip(1)[t] == s[t + 1]);
        }
        if l < s.len() {
            assert(s.skip(1)[l - 1] == s[l]);
        }
        lemma_nonslash_run_exact(s.skip(1), l - 1);
    }
}

/// The first folder of `file_path` under `base_dir`, as a fresh string.
pub fn get_first_folder(base_dir: &str, file_path: &str) -> (r: Option<String>)
    ensures
        first_folder(base_dir@, file_path@) == (match r {
            Some(seg) => Some(seg@),
            None => None::<Seq<char>>,
        }),
{
    if !starts_with(file_path, base_dir) {
        return None;
    }
    let n = file_path.unicode_len();
    let blen = base_dir.unicode_len();
    let boundary = blen == 0 || base_dir.get_char(blen - 1) == '/' || n == blen
        || file_path.get_char(blen) == '/';
    if !boundary {
        return None;
    }
    let mut i: usize = blen;
    while i < n && file_path.get_char(i) == '/'
        invariant
            blen <= i <= n,
            n == file_path@.len(),
            blen == base_dir@.len(),
            first_segment(file_path@.skip(blen as int)) == first_segment(
                file_path@.skip(i as int),
            ),
        decreases n - i,
    {
        proof {
            assert(file_path@.skip(i as int).skip(1) =~= file_path@.skip(i + 1));
        }
        i = i + 1;
    }
    if i == n {
        return None;
    }
    let mut j: usize = i;
    while j < n && file_path.get_char(j) != '/'
        invariant
            i <= j <= n,
            i < n,
            n == file_path@.len(),
            file_path@[i as int] != '/',
            forall|t: int| i <= t < j ==> file_path@[t] != '/',
        decreases n - j,
    {
        j = j + 1;
    }
    proof {
        let rest = file_path@.skip(i as int);
        assert forall|t: int| 0 <= t < j - i implies rest[t] != '/' by {
            assert(rest[t] == file_path@[i + t]);
        }
        if j < n {
            assert(rest[j - i] == file_path@[j as int]);
        }
        lemma_nonslash_run_exact(rest, j - i);
        assert(rest.take(j - i) =~= file_path@.subrange(i as int, j as int));
    }
    let seg = file_path.substring_char(i, j);
    Some(String::from_str(seg))
}

} // verus!
