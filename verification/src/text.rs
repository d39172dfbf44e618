//! Character-sequence utilities: white-space tests, substring search and
//! prefix tests, stated over `Seq<char>` views.

use vstd::prelude::*;
use vstd::string::StrSliceExecFns;

verus! {

/// The Unicode white-space characters, as `str::trim` treats them.
pub open spec fn is_space_char(c: char) -> bool {
    ||| c == ' '
    ||| c == '\t'
    ||| c == '\n'
    ||| c == '\r'
    ||| c == '\u{b}'
    ||| c == '\u{c}'
    ||| c == '\u{85}'
    ||| c == '\u{a0}'
    ||| c == '\u{1680}'
    ||| c == '\u{2000}'
    ||| c == '\u{2001}'
    ||| c == '\u{2002}'
    ||| c == '\u{2003}'
    ||| c == '\u{2004}'
    ||| c == '\u{2005}'
    ||| c == '\u{2006}'
    ||| c == '\u{2007}'
    ||| c == '\u{2008}'
    ||| c == '\u{2009}'
    ||| c == '\u{200a}'
    ||| c == '\u{2028}'
    ||| c == '\u{2029}'
    ||| c == '\u{202f}'
    ||| c == '\u{205f}'
    ||| c == '\u{3000}'
}

/// A sequence is blank when every character is white space; trimming such a
/// sequence leaves nothing.
pub open spec fn all_space(s: Seq<char>) -> bool {
    forall|i: int| 0 <= i < s.len() ==> is_space_char(s[i])
}

/// `m` occurs in `s` starting at position `k`.
pub open spec fn occurs_at(s: Seq<char>, m: Seq<char>, k: int) -> bool {
    0 <= k && k + m.len() <= s.len() && s.subrange(k, k + m.len() as int) == m
}

/// `m` occurs somewhere in `s`.
pub open spec fn contains_seq(s: Seq<char>, m: Seq<char>) -> bool {
    exists|k: int| occurs_at(s, m, k)
}

/// `p` is a prefix of `s`.
pub open spec fn is_prefix(p: Seq<char>, s: Seq<char>) -> bool {
    p.len() <= s.len() && s.subrange(0, p.len() as int) == p
}

/// Does this character count as white space?
pub fn is_space(c: char) -> (r: bool)
    ensures
        r == is_space_char(c),
{
    c == ' ' || c == '\t' || c == '\n' || c == '\r' || c == '\u{b}' || c == '\u{c}'
        || c == '\u{85}' || c == '\u{a0}' || c == '\u{1680}' || c == '\u{2000}' || c == '\u{2001}'
        || c == '\u{2002}' || c == '\u{2003}' || c == '\u{2004}' || c == '\u{2005}'
        || c == '\u{2006}' || c == '\u{2007}' || c == '\u{2008}' || c == '\u{2009}'
        || c == '\u{200a}' || c == '\u{2028}' || c == '\u{2029}' || c == '\u{202f}'
        || c == '\u{205f}' || c == '\u{3000}'
}

/// Is every character of `s` white space?  True in particular of the empty
/// string.
pub fn is_all_space(s: &str) -> (r: bool)
    ensures
        r == all_space(s@),
{
    let n = s.unicode_len();
    let mut i: usize = 0;
    while i < n
        invariant
            0 <= i <= n,
            n == s@.len(),
            forall|j: int| 0 <= j < i ==> is_space_char(s@[j]),
        decreases n - i,
    {
        let c = s.get_char(i);
        if !is_space(c) {
            return false;
        }
        i = i + 1;
    }
    true
}

/// Does `m` occur in `s` starting at `k`?  The bounds are the caller's duty.
fn matches_at(s: &str, n: usize, m: &str, mlen: usize, k: usize) -> (r: bool)
    requires
        n == s@.len(),
        mlen == m@.len(),
        k + mlen <= n,
    ensures
        r == occurs_at(s@, m@, k as int),
{
    let mut j: usize = 0;
    while j < mlen
        invariant
            0 <= j <= mlen,
            n == s@.len(),
            mlen == m@.len(),
            k + mlen <= n,
            forall|t: int| 0 <= t < j ==> s@[k + t] == m@[t],
        decreases mlen - j,
    {
        let cs = s.get_char(k + j);
        let cm = m.get_char(j);
        if cs != cm {
            proof {
                assert(!occurs_at(s@, m@, k as int)) by {
                    if occurs_at(s@, m@, k as int) {
                        assert(s@.subrange(k as int, k + mlen as int)[j as int] == m@[j as int]);
                    }
                }
            }
            return false;
        }
        j = j + 1;
    }
    proof {
        assert(s@.subrange(k as int, k + mlen as int) =~= m@);
    }
    true
}

/// Does `m` occur anywhere in `s`?
pub fn contains_str(s: &str, m: &str) -> (r: bool)
    ensures
        r == contains_seq(s@, m@),
{
    let n = s.unicode_len();
    let mlen = m.unicode_len();
    if mlen > n {
        proof {
            assert(forall|k: int| !occurs_at(s@, m@, k));
        }
        return false;
    }
    if mlen == 0 {
        proof {
            assert(s@.subrange(0, 0) =~= m@);
            assert(occurs_at(s@, m@, 0));
        }
        return true;
    }
    let last = n - mlen;
    let mut k: usize = 0;
    while k <= last
        invariant
            0 <= k <= last + 1,
            last == n - mlen,
            1 <= mlen <= n,
            n == s@.len(),
            mlen == m@.len(),
            forall|t: int| 0 <= t < k ==> !occurs_at(s@, m@, t),
        decreases last + 1 - k,
    {
        if matches_at(s, n, m, mlen, k) {
            return true;
        }
        k = k + 1;
    }
    proof {
        assert(forall|t: int| #[trigger] occurs_at(s@, m@, t) ==> 0 <= t <= last) by {
            assert(forall|t: int| occurs_at(s@, m@, t) ==> 0 <= t && t + m@.len() <= s@.len());
        }
        assert(forall|t: int| !occurs_at(s@, m@, t));
    }
    false
}

/// Is `p` a prefix of `s`?
pub fn starts_with(s: &str, p: &str) -> (r: bool)
    ensures
        r == is_prefix(p@, s@),
{
    let n = s.unicode_len();
    let plen = p.unicode_len();
    if plen > n {
        return false;
    }
    let mut j: usize = 0;
    while j < plen
        invariant
            0 <= j <= plen,
            plen <= n,
            n == s@.len(),
            plen == p@.len(),
            forall|t: int| 0 <= t < j ==> s@[t] == p@[t],
        decreases plen - j,
    {
        let cs = s.get_char(j);
        let cp = p.get_char(j);
        if cs != cp {
            proof {
                assert(!is_prefix(p@, s@)) by {
                    if is_prefix(p@, s@) {
                        assert(s@.subrange(0, p@.len() as int)[j as int] == p@[j as int]);
                    }
                }
            }
            return false;
        }
        j = j + 1;
    }
    proof {
        assert(s@.subrange(0, p@.len() as int) =~= p@);
    }
    true
}

} // verus!
