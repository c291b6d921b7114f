//! Searching in byte strings. Paths and names are handled as their UTF-8
//! bytes; the patterns looked for are ASCII, and an ASCII byte in UTF-8 text
//! is always the character of that value.

use vstd::prelude::*;
use vstd::slice::*;

verus! {

/// Whether `pattern` stands in `b` at position `at`.
pub open spec fn occurs_at(b: Seq<u8>, at: int, pattern: Seq<u8>) -> bool {
    &&& 0 <= at
    &&& at + pattern.len() <= b.len()
    &&& b.subrange(at, at + pattern.len()) == pattern
}

/// Whether `pattern` stands somewhere in `b`.
pub open spec fn occurs_in(b: Seq<u8>, pattern: Seq<u8>) -> bool {
    exists|at: int| occurs_at(b, at, pattern)
}

/// Whether `b` ends with `pattern`.
pub open spec fn has_suffix(b: Seq<u8>, pattern: Seq<u8>) -> bool {
    occurs_at(b, b.len() - pattern.len(), pattern)
}

/// Whether `pattern` stands in `b` at position `at`.
pub fn matches_at(b: &[u8], at: usize, pattern: &[u8]) -> (r: bool)
    ensures
        r == occurs_at(b@, at as int, pattern@),
{
    let n: usize = pattern.len();
    if b.len() < n || at > b.len() - n {
        return false;
    }
    let mut i: usize = 0;
    while i < n
        invariant
            i <= n,
            n == pattern@.len(),
            at + n <= b@.len(),
            at + n <= usize::MAX,
            forall|j: int| 0 <= j < i ==> b@[at + j] == pattern@[j],
        decreases n - i,
    {
        if b[at + i] != pattern[i] {
            assert(b@.subrange(at as int, at + n)[i as int] != pattern@[i as int]);
            return false;
        }
        i = i + 1;
    }
    assert(b@.subrange(at as int, at + n) =~= pattern@);
    true
}

/// Whether `b` opens with `pattern`.
pub fn starts_with(b: &[u8], pattern: &[u8]) -> (r: bool)
    ensures
        r == pattern@.is_prefix_of(b@),
{
    let r = matches_at(b, 0, pattern);
    r
}

/// Whether `b` ends with `pattern`.
pub fn ends_with(b: &[u8], pattern: &[u8]) -> (r: bool)
    ensures
        r == has_suffix(b@, pattern@),
{
    if b.len() < pattern.len() {
        return false;
    }
    matches_at(b, b.len() - pattern.len(), pattern)
}

/// Whether `pattern` stands somewhere in `b`.
pub fn contains(b: &[u8], pattern: &[u8]) -> (r: bool)
    ensures
        r == occurs_in(b@, pattern@),
{
    let n: usize = pattern.len();
    if b.len() < n {
        return false;
    }
    let last: usize = b.len() - n;
    let mut at: usize = 0;
    loop
        invariant
            at <= last,
            last + n == b@.len(),
            n == pattern@.len(),
            forall|k: int| 0 <= k < at ==> !occurs_at(b@, k, pattern@),
        decreases last - at,
    {
        if matches_at(b, at, pattern) {
            return true;
        }
        if at == last {
            return false;
        }
        at = at + 1;
    }
}

/// A copy of the bytes.
pub fn to_vec(b: &[u8]) -> (v: Vec<u8>)
    ensures
        v@ == b@,
{
    slice_to_vec(b)
}

/// Whether two byte strings are the same.
pub fn same(a: &[u8], b: &[u8]) -> (r: bool)
    ensures
        r == (a@ == b@),
{
    if a.len() != b.len() {
        return false;
    }
    let r = matches_at(a, 0, b);
    proof {
        assert(a@.subrange(0, a@.len() as int) =~= a@);
    }
    r
}

} // verus!
