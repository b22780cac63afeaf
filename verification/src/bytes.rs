//! Small operations on byte strings that the rest of the crate shares.
use vstd::prelude::*;

verus! {

/// Whether `pat` occurs in `s` at index `at`.
pub open spec fn occurs_at(s: Seq<u8>, at: int, pat: Seq<u8>) -> bool {
    &&& 0 <= at
    &&& at + pat.len() <= s.len()
    &&& s.subrange(at, at + pat.len()) == pat
}

/// The least index at or after `from` at which `pat` occurs in `s`, if any.
pub open spec fn find_from(s: Seq<u8>, from: int, pat: Seq<u8>) -> Option<int>
    decreases s.len() - from,
{
    if occurs_at(s, from, pat) {
        Some(from)
    } else if from < 0 || from >= s.len() {
        None
    } else {
        find_from(s, from + 1, pat)
    }
}

/// `find_from` returns the first occurrence: nothing occurs before it, and
/// nothing occurs at all where it returns `None`.
pub proof fn lemma_find_from_is_first(s: Seq<u8>, from: int, pat: Seq<u8>)
    requires
        0 <= from,
    ensures
        match find_from(s, from, pat) {
            Some(q) => from <= q && occurs_at(s, q, pat) && forall|k: int|
                from <= k < q ==> !occurs_at(s, k, pat),
            None => forall|k: int| from <= k ==> !occurs_at(s, k, pat),
        },
    decreases s.len() - from,
{
    if occurs_at(s, from, pat) {
    } else if from >= s.len() {
    } else {
        lemma_find_from_is_first(s, from + 1, pat);
    }
}

/// Whether `pat` occurs in `s` at index `at`.
pub fn occurs(s: &[u8], at: usize, pat: &[u8]) -> (r: bool)
    ensures
        r == occurs_at(s@, at as int, pat@),
{
    if pat.len() > s.len() || at > s.len() - pat.len() {
        return false;
    }
    let mut i: usize = 0;
    while i < pat.len()
        invariant
            i <= pat.len(),
            at + pat.len() <= s.len(),
            forall|k: int| 0 <= k < i ==> s@[at + k] == pat@[k],
        decreases pat.len() - i,
    {
        if s[at + i] != pat[i] {
            assert(s@.subrange(at as int, at + pat.len())[i as int] == s@[at + i]);
            return false;
        }
        i += 1;
    }
    assert(s@.subrange(at as int, at + pat.len()) =~= pat@);
    true
}

/// Index of the first occurrence of `pat` in `s` at or after `from`.
pub fn find(s: &[u8], from: usize, pat: &[u8]) -> (r: Option<usize>)
    ensures
        match r {
            Some(q) => find_from(s@, from as int, pat@) == Some(q as int),
            None => find_from(s@, from as int, pat@).is_none(),
        },
{
    let mut i: usize = from;
    loop
        invariant
            from <= i,
            find_from(s@, from as int, pat@) == find_from(s@, i as int, pat@),
        decreases s.len() - i,
    {
        if occurs(s, i, pat) {
            return Some(i);
        }
        if i >= s.len() {
            return None;
        }
        i += 1;
    }
}

/// Appends `s` to `out`.
pub fn append(out: &mut Vec<u8>, s: &[u8])
    ensures
        final(out)@ == old(out)@ + s@,
{
    let mut i: usize = 0;
    while i < s.len()
        invariant
            i <= s.len(),
            out@ == old(out)@ + s@.subrange(0, i as int),
        decreases s.len() - i,
    {
        out.push(s[i]);
        i += 1;
        assert(s@.subrange(0, i as int) == s@.subrange(0, i - 1).push(s@[i - 1]));
    }
    assert(s@.subrange(0, i as int) == s@);
}

} // verus!
