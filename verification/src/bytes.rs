//! Pieces of byte strings: what it is for one byte string to stand at a
//! place in another.

use vstd::prelude::*;

verus! {

/// `p` stands in `s` at index `i`.
pub open spec fn has_at(s: Seq<u8>, i: int, p: Seq<u8>) -> bool {
    &&& 0 <= i
    &&& i + p.len() <= s.len()
    &&& s.subrange(i, i + p.len()) == p
}

/// The bytes of a piece that stands in `s` are bytes of `s`.
pub proof fn lemma_has_at_index(s: Seq<u8>, i: int, p: Seq<u8>, k: int)
    requires
        has_at(s, i, p),
        0 <= k < p.len(),
    ensures
        s[i + k] == p[k],
{
    assert(s.subrange(i, i + p.len())[k] == s[i + k]);
}

/// Two pieces stand one after the other exactly when their concatenation
/// stands there.
pub proof fn lemma_has_at_parts(s: Seq<u8>, i: int, p: Seq<u8>, q: Seq<u8>)
    ensures
        has_at(s, i, p + q) <==> has_at(s, i, p) && has_at(s, i + p.len(), q),
{
    if has_at(s, i, p + q) {
        assert forall|k: int| 0 <= k < p.len() implies s[i + k] == p[k] by {
            lemma_has_at_index(s, i, p + q, k);
        }
        assert(s.subrange(i, i + p.len()) =~= p);
        assert forall|k: int| 0 <= k < q.len() implies s[i + p.len() + k] == q[k] by {
            lemma_has_at_index(s, i, p + q, p.len() + k);
        }
        assert(s.subrange(i + p.len(), i + p.len() + q.len()) =~= q);
    }
    if has_at(s, i, p) && has_at(s, i + p.len(), q) {
        assert forall|k: int| 0 <= k < (p + q).len() implies s[i + k] == (p + q)[k] by {
            if k < p.len() {
                lemma_has_at_index(s, i, p, k);
            } else {
                lemma_has_at_index(s, i + p.len(), q, k - p.len());
            }
        }
        assert(s.subrange(i, i + (p + q).len()) =~= p + q);
    }
}

/// A piece that stands at the start of `s` and is as long as `s` is `s`.
pub proof fn lemma_has_at_whole(s: Seq<u8>, p: Seq<u8>)
    ensures
        has_at(s, 0, p) && p.len() == s.len() <==> s == p,
{
    if has_at(s, 0, p) && p.len() == s.len() {
        assert(s.subrange(0, s.len() as int) =~= s);
    }
    if s == p {
        assert(s.subrange(0, s.len() as int) =~= s);
    }
}

/// A piece that stands in `s` stands in every extension of `s`.
pub proof fn lemma_has_at_extend(s: Seq<u8>, more: Seq<u8>, i: int, p: Seq<u8>)
    requires
        has_at(s, i, p),
    ensures
        has_at(s + more, i, p),
{
    assert((s + more).subrange(i, i + p.len()) =~= s.subrange(i, i + p.len()));
}

/// What is appended to `s` stands at the end of `s`.
pub proof fn lemma_has_at_end(s: Seq<u8>, p: Seq<u8>)
    ensures
        has_at(s + p, s.len() as int, p),
{
    assert((s + p).subrange(s.len() as int, (s.len() + p.len()) as int) =~= p);
}

/// Whether `p` stands in `s` at index `at`.
pub fn holds_at(s: &[u8], at: usize, p: &[u8]) -> (r: bool)
    ensures
        r == has_at(s@, at as int, p@),
{
    if p.len() > s.len() || at > s.len() - p.len() {
        return false;
    }
    let mut k: usize = 0;
    while k < p.len()
        invariant
            k <= p.len(),
            at + p.len() <= s.len(),
            forall|j: int| 0 <= j < k ==> s@[at + j] == p@[j],
        decreases p.len() - k,
    {
        if s[at + k] != p[k] {
            assert(s@.subrange(at as int, at + p.len())[k as int] == s@[at + k]);
            return false;
        }
        k += 1;
    }
    assert(s@.subrange(at as int, at + p.len()) =~= p@);
    true
}

} // verus!
