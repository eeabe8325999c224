//! Filling in the placeholders of a template.

use vstd::prelude::*;

verus! {

/// `s` with every occurrence of `pattern` replaced by `with`. Occurrences are
/// taken from left to right and do not overlap. An empty pattern occurs
/// nowhere.
pub open spec fn replace_all(s: Seq<u8>, pattern: Seq<u8>, with: Seq<u8>) -> Seq<u8>
    decreases s.len(),
{
    if pattern.len() == 0 || s.len() == 0 {
        s
    } else if pattern.is_prefix_of(s) {
        with + replace_all(s.skip(pattern.len() as int), pattern, with)
    } else {
        seq![s[0]] + replace_all(s.skip(1), pattern, with)
    }
}

/// `pattern` occurs in `s` at some index.
pub open spec fn occurs(pattern: Seq<u8>, s: Seq<u8>) -> bool {
    exists|at: int| 0 <= at <= s.len() && pattern.is_prefix_of(#[trigger] s.skip(at))
}

/// Where the pattern does not occur, nothing is replaced.
pub proof fn lemma_replace_all_without_occurrence(s: Seq<u8>, pattern: Seq<u8>, with: Seq<u8>)
    requires
        !occurs(pattern, s),
    ensures
        replace_all(s, pattern, with) == s,
    decreases s.len(),
{
    if pattern.len() > 0 && s.len() > 0 {
        assert(s.skip(0) =~= s);
        let tail = s.skip(1);
        assert forall|at: int| 0 <= at <= tail.len() implies !pattern.is_prefix_of(
            #[trigger] tail.skip(at),
        ) by {
            assert(tail.skip(at) =~= s.skip(at + 1));
        }
        lemma_replace_all_without_occurrence(tail, pattern, with);
        assert(seq![s[0]] + tail =~= s);
    }
}

/// Whether `pattern` stands in `s` at index `at`.
fn stands_at(s: &[u8], at: usize, pattern: &[u8]) -> (yes: bool)
    requires
        at <= s.len(),
    ensures
        yes == pattern@.is_prefix_of(s@.skip(at as int)),
{
    let m = pattern.len();
    if m > s.len() - at {
        return false;
    }
    let ghost tail = s@.skip(at as int);
    let mut k: usize = 0;
    while k < m
        invariant
            k <= m,
            m == pattern.len(),
            at + m <= s.len(),
            tail == s@.skip(at as int),
            forall|j: int| 0 <= j < k ==> pattern@[j] == tail[j],
        decreases m - k,
    {
        if s[at + k] != pattern[k] {
            proof {
                assert(tail[k as int] == s@[at + k]);
                assert(tail.subrange(0, m as int)[k as int] == tail[k as int]);
            }
            return false;
        }
        proof {
            assert(tail[k as int] == s@[at + k]);
        }
        k = k + 1;
    }
    assert(pattern@ =~= tail.subrange(0, m as int));
    true
}

/// Replaces every occurrence of `pattern` in `s` by `with`.
pub fn replace_all_bytes(s: &[u8], pattern: &[u8], with: &[u8]) -> (out: Vec<u8>)
    ensures
        out@ == replace_all(s@, pattern@, with@),
{
    let n = s.len();
    let m = pattern.len();
    if m == 0 {
        return vstd::slice::slice_to_vec(s);
    }
    let mut out: Vec<u8> = Vec::new();
    let mut i: usize = 0;
    assert(s@.skip(0) =~= s@);
    assert(out@ + replace_all(s@, pattern@, with@) =~= replace_all(s@, pattern@, with@));
    while i < n
        invariant
            i <= n,
            n == s.len(),
            m == pattern.len(),
            m > 0,
            out@ + replace_all(s@.skip(i as int), pattern@, with@) == replace_all(
                s@,
                pattern@,
                with@,
            ),
        decreases n - i,
    {
        let ghost rest = s@.skip(i as int);
        let ghost done = out@;
        if stands_at(s, i, pattern) {
            out.extend_from_slice(with);
            proof {
                assert(rest.skip(m as int) =~= s@.skip(i + m));
                assert(out@ + replace_all(s@.skip(i + m), pattern@, with@) =~= done + replace_all(
                    rest,
                    pattern@,
                    with@,
                ));
            }
            i = i + m;
        } else {
            out.push(s[i]);
            proof {
                assert(rest[0] == s@[i as int]);
                assert(rest.skip(1) =~= s@.skip(i + 1));
                assert(out@ + replace_all(s@.skip(i + 1), pattern@, with@) =~= done + replace_all(
                    rest,
                    pattern@,
                    with@,
                ));
            }
            i = i + 1;
        }
    }
    assert(s@.skip(n as int) =~= Seq::<u8>::empty());
    assert(out@ + Seq::<u8>::empty() =~= out@);
    out
}

} // verus!
