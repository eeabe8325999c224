//! Searching and comparing byte sequences.

use vstd::prelude::*;

verus! {

/// The index of the first occurrence of `b` in `s`, or `s.len()` if there is none.
pub open spec fn first_index(s: Seq<u8>, b: u8) -> int
    decreases s.len(),
{
    if s.len() == 0 {
        0
    } else if s[0] == b {
        0
    } else {
        1 + first_index(s.drop_first(), b)
    }
}

/// `b` occurs nowhere in `s`.
pub open spec fn free_of(s: Seq<u8>, b: u8) -> bool {
    forall|i: int| 0 <= i < s.len() ==> s[i] != b
}

/// `first_index` is in range, points at `b` when it is inside `s`, and nothing
/// before it is `b`.
pub proof fn lemma_first_index(s: Seq<u8>, b: u8)
    ensures
        0 <= first_index(s, b) <= s.len(),
        first_index(s, b) < s.len() ==> s[first_index(s, b)] == b,
        free_of(s.take(first_index(s, b)), b),
    decreases s.len(),
{
    if s.len() > 0 && s[0] != b {
        let t = s.drop_first();
        lemma_first_index(t, b);
        let k = first_index(t, b);
        let head = s.take(k + 1);
        assert forall|i: int| 0 <= i < head.len() implies head[i] != b by {
            if i > 0 {
                assert(head[i] == t.take(k)[i - 1]);
            }
        }
    }
}

/// An index that holds `b` and has no `b` before it is the first index of `b`.
pub proof fn lemma_first_index_is(s: Seq<u8>, b: u8, i: int)
    requires
        0 <= i <= s.len(),
        free_of(s.take(i), b),
        i < s.len() ==> s[i] == b,
    ensures
        first_index(s, b) == i,
    decreases s.len(),
{
    if s.len() == 0 {
    } else if i == 0 {
    } else {
        assert(s.take(i)[0] == s[0]);
        let t = s.drop_first();
        let head = t.take(i - 1);
        assert forall|j: int| 0 <= j < head.len() implies head[j] != b by {
            assert(head[j] == s.take(i)[j + 1]);
        }
        lemma_first_index_is(t, b, i - 1);
    }
}

/// Finds the first `b` in `s` at or after `from`.
pub fn find_byte(s: &[u8], from: usize, b: u8) -> (at: usize)
    requires
        from <= s.len(),
    ensures
        at == from + first_index(s@.skip(from as int), b),
        from <= at <= s.len(),
{
    let ghost tail = s@.skip(from as int);
    let mut i: usize = from;
    while i < s.len() && s[i] != b
        invariant
            from <= i <= s.len(),
            tail == s@.skip(from as int),
            free_of(tail.take(i - from), b),
        decreases s.len() - i,
    {
        proof {
            let seen = tail.take(i + 1 - from);
            assert forall|j: int| 0 <= j < seen.len() implies seen[j] != b by {
                if j < i - from {
                    assert(tail.take(i - from)[j] == tail[j]);
                }
            }
        }
        i = i + 1;
    }
    proof {
        lemma_first_index_is(tail, b, i - from);
    }
    i
}

/// Whether two byte slices hold the same bytes.
pub fn bytes_equal(a: &[u8], b: &[u8]) -> (same: bool)
    ensures
        same == (a@ == b@),
{
    if a.len() != b.len() {
        return false;
    }
    let mut i: usize = 0;
    while i < a.len()
        invariant
            a.len() == b.len(),
            i <= a.len(),
            forall|j: int| 0 <= j < i ==> a@[j] == b@[j],
        decreases a.len() - i,
    {
        if a[i] != b[i] {
            return false;
        }
        i = i + 1;
    }
    assert(a@ =~= b@);
    true
}

} // verus!
