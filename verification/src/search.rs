//! First occurrence of a byte pattern inside a buffer, used to locate the
//! code's true base address within a raw container.

use vstd::prelude::*;

verus! {

/// Whether `needle` occurs in `haystack` starting at position `i`.
pub open spec fn matches_at(haystack: Seq<u8>, needle: Seq<u8>, i: int) -> bool {
    &&& 0 <= i
    &&& i + needle.len() <= haystack.len()
    &&& haystack.subrange(i, i + needle.len()) == needle
}

/// Whether `needle` occurs at `i` and nowhere earlier.
pub open spec fn first_match_at(haystack: Seq<u8>, needle: Seq<u8>, i: int) -> bool {
    &&& matches_at(haystack, needle, i)
    &&& forall|j: int| 0 <= j < i ==> !matches_at(haystack, needle, j)
}

/// At most one position can carry the first match.
pub proof fn lemma_first_match_unique(haystack: Seq<u8>, needle: Seq<u8>, i: int, j: int)
    requires
        first_match_at(haystack, needle, i),
        first_match_at(haystack, needle, j),
    ensures
        i == j,
{
    if i < j {
        assert(!matches_at(haystack, needle, i));
    }
    if j < i {
        assert(!matches_at(haystack, needle, j));
    }
}

/// Whether `needle` occurs at `i`, checked byte by byte.
fn is_match_at(haystack: &Vec<u8>, needle: &Vec<u8>, i: usize) -> (r: bool)
    requires
        i + needle@.len() <= haystack@.len(),
    ensures
        r == matches_at(haystack@, needle@, i as int),
{
    let n = needle.len();
    let h = haystack.len();
    let mut k: usize = 0;
    while k < n
        invariant
            n == needle@.len(),
            h == haystack@.len(),
            i + n <= h,
            k <= n,
            forall|t: int| 0 <= t < k ==> haystack@[i + t] == needle@[t],
        decreases n - k,
    {
        if haystack[i + k] != needle[k] {
            proof {
                let window = haystack@.subrange(i as int, i + needle@.len());
                assert(window[k as int] == haystack@[i + k]);
                assert(window != needle@);
            }
            return false;
        }
        k = k + 1;
    }
    proof {
        assert(haystack@.subrange(i as int, i + needle@.len()) =~= needle@);
    }
    true
}

/// Finds the position of the first occurrence of `needle` in `haystack`,
/// or returns None exactly when it occurs nowhere. The empty pattern
/// occurs at position zero.
pub fn find_pattern(haystack: &Vec<u8>, needle: &Vec<u8>) -> (r: Option<usize>)
    ensures
        match r {
            Some(i) => first_match_at(haystack@, needle@, i as int),
            None => forall|j: int| !matches_at(haystack@, needle@, j),
        },
{
    let h = haystack.len();
    let n = needle.len();
    if n > h {
        return None;
    }
    if n == 0 {
        proof {
            assert(haystack@.subrange(0, 0) =~= needle@);
        }
        return Some(0);
    }
    let mut i: usize = 0;
    while i <= h - n
        invariant
            h == haystack@.len(),
            n == needle@.len(),
            1 <= n <= h,
            i <= h - n + 1,
            forall|j: int| 0 <= j < i ==> !matches_at(haystack@, needle@, j),
        decreases h - n + 1 - i,
    {
        if is_match_at(haystack, needle, i) {
            return Some(i);
        }
        i = i + 1;
    }
    None
}

} // verus!
