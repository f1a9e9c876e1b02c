//! Byte-string searching: prefixes, suffixes, substrings.

use vstd::prelude::*;
use vstd::slice::slice_index_get;

verus! {

/// Does `s` begin with `p`?
pub open spec fn spec_starts_with(s: Seq<u8>, p: Seq<u8>) -> bool {
    s.len() >= p.len() && s.subrange(0, p.len() as int) == p
}

/// Does `s` end with `p`?
pub open spec fn spec_ends_with(s: Seq<u8>, p: Seq<u8>) -> bool {
    s.len() >= p.len() && s.subrange(s.len() - p.len(), s.len() as int) == p
}

/// Does `p` occur anywhere in `s`?
pub open spec fn spec_contains(s: Seq<u8>, p: Seq<u8>) -> bool {
    exists|i: int| 0 <= i <= s.len() - p.len() && #[trigger] s.subrange(i, i + p.len()) == p
}

/// Does `s[at..at+p.len()]` equal `p`?
fn matches_at(s: &[u8], at: usize, p: &[u8]) -> (r: bool)
    requires
        at + p@.len() <= s@.len(),
    ensures
        r == (s@.subrange(at as int, at + p@.len()) == p@),
{
    let m = p.len();
    let n = s.len();
    let mut j: usize = 0;
    while j < m
        invariant
            0 <= j <= m,
            m == p@.len(),
            n == s@.len(),
            at + m <= n,
            forall|k: int| 0 <= k < j ==> s@[at + k] == p@[k],
        decreases m - j,
    {
        if *slice_index_get(s, at + j) != *slice_index_get(p, j) {
            proof {
                assert(s@.subrange(at as int, at + p@.len())[j as int] != p@[j as int]);
            }
            return false;
        }
        j = j + 1;
    }
    proof {
        assert(s@.subrange(at as int, at + p@.len()) =~= p@);
    }
    true
}

/// Does `s` begin with `p`?
pub fn starts_with(s: &[u8], p: &[u8]) -> (r: bool)
    ensures
        r == spec_starts_with(s@, p@),
{
    if p.len() > s.len() {
        return false;
    }
    matches_at(s, 0, p)
}

/// Does `s` end with `p`?
pub fn ends_with(s: &[u8], p: &[u8]) -> (r: bool)
    ensures
        r == spec_ends_with(s@, p@),
{
    if p.len() > s.len() {
        return false;
    }
    matches_at(s, s.len() - p.len(), p)
}

/// Does `p` occur anywhere in `s`?
pub fn contains(s: &[u8], p: &[u8]) -> (r: bool)
    ensures
        r == spec_contains(s@, p@),
{
    if p.len() > s.len() {
        proof {
            assert(!spec_contains(s@, p@)) by {
                if spec_contains(s@, p@) {
                    let i = choose|i: int|
                        0 <= i <= s@.len() - p@.len() && #[trigger] s@.subrange(i, i + p@.len())
                            == p@;
                    assert(false);
                }
            }
        }
        return false;
    }
    if p.len() == 0 {
        proof {
            assert(s@.subrange(0, 0 + p@.len() as int) =~= p@);
            assert(spec_contains(s@, p@));
        }
        return true;
    }
    let last = s.len() - p.len();
    let mut i: usize = 0;
    loop
        invariant
            0 <= i <= last + 1,
            last == s@.len() - p@.len(),
            1 <= p@.len() <= s@.len(),
            last < usize::MAX,
            forall|k: int| 0 <= k < i ==> #[trigger] s@.subrange(k, k + p@.len()) != p@,
        decreases last + 1 - i,
    {
        if i > last {
            proof {
                assert(!spec_contains(s@, p@)) by {
                    if spec_contains(s@, p@) {
                        let w = choose|w: int|
                            0 <= w <= s@.len() - p@.len() && #[trigger] s@.subrange(
                                w,
                                w + p@.len(),
                            ) == p@;
                        assert(s@.subrange(w, w + p@.len()) != p@);
                    }
                }
            }
            return false;
        }
        if matches_at(s, i, p) {
            proof {
                assert(spec_contains(s@, p@)) by {
                    assert(0 <= i as int <= s@.len() - p@.len() && s@.subrange(
                        i as int,
                        i + p@.len(),
                    ) == p@);
                }
            }
            return true;
        }
        i = i + 1;
    }
}

} // verus!
