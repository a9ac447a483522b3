//! The bytes that the live records take in a log: the sum, over the keys
//! that have a value, of the length of each key's record and its line feed.

use crate::log::CommandPos;
use vstd::prelude::*;

verus! {

/// The bytes that the records at `entries` take in a log, line feeds
/// included, summed over the keys `order`.
pub open spec fn live_bytes(entries: Map<Seq<char>, CommandPos>, order: Seq<Seq<char>>) -> nat
    decreases order.len(),
{
    if order.len() == 0 {
        0
    } else {
        live_bytes(entries, order.drop_last()) + entries[order.last()].len as nat + 1
    }
}

/// One more key adds the bytes of its record.
pub proof fn lemma_live_bytes_push(
    entries: Map<Seq<char>, CommandPos>,
    order: Seq<Seq<char>>,
    key: Seq<char>,
)
    ensures
        live_bytes(entries, order.push(key)) == live_bytes(entries, order) + entries[key].len + 1,
{
    assert(order.push(key).drop_last() =~= order);
}

/// The sum depends on the entries of the keys it runs over, and on no
/// others.
pub proof fn lemma_live_bytes_agree(
    a: Map<Seq<char>, CommandPos>,
    b: Map<Seq<char>, CommandPos>,
    order: Seq<Seq<char>>,
)
    requires
        forall|i: int| 0 <= i < order.len() ==> a[#[trigger] order[i]] == b[order[i]],
    ensures
        live_bytes(a, order) == live_bytes(b, order),
    decreases order.len(),
{
    if order.len() > 0 {
        let shorter = order.drop_last();
        assert forall|i: int| 0 <= i < shorter.len() implies a[#[trigger] shorter[i]]
            == b[shorter[i]] by {
            assert(shorter[i] == order[i]);
        }
        lemma_live_bytes_agree(a, b, shorter);
        assert(a[order[order.len() - 1]] == b[order[order.len() - 1]]);
    }
}

/// A new position for a key that occurs once changes the sum by the
/// difference of the two lengths.
pub proof fn lemma_live_bytes_replace(
    entries: Map<Seq<char>, CommandPos>,
    order: Seq<Seq<char>>,
    t: int,
    at: CommandPos,
)
    requires
        order.no_duplicates(),
        0 <= t < order.len(),
    ensures
        live_bytes(entries.insert(order[t], at), order) + entries[order[t]].len == live_bytes(
            entries,
            order,
        ) + at.len,
    decreases order.len(),
{
    let shorter = order.drop_last();
    let changed = entries.insert(order[t], at);
    if t == order.len() - 1 {
        assert forall|i: int| 0 <= i < shorter.len() implies changed[#[trigger] shorter[i]]
            == entries[shorter[i]] by {
            assert(shorter[i] == order[i]);
        }
        lemma_live_bytes_agree(changed, entries, shorter);
    } else {
        assert(shorter[t] == order[t]);
        assert(shorter.no_duplicates()) by {
            assert forall|i: int, j: int|
                0 <= i < shorter.len() && 0 <= j < shorter.len() && i != j implies shorter[i]
                != shorter[j] by {
                assert(shorter[i] == order[i] && shorter[j] == order[j]);
            }
        }
        lemma_live_bytes_replace(entries, shorter, t, at);
        assert(order[order.len() - 1] != order[t]);
    }
}

/// Putting another key in the place of one changes the sum by the
/// difference of their lengths.
pub proof fn lemma_live_bytes_update(
    entries: Map<Seq<char>, CommandPos>,
    order: Seq<Seq<char>>,
    t: int,
    key: Seq<char>,
)
    requires
        0 <= t < order.len(),
    ensures
        live_bytes(entries, order.update(t, key)) + entries[order[t]].len == live_bytes(
            entries,
            order,
        ) + entries[key].len,
    decreases order.len(),
{
    let shorter = order.drop_last();
    if t == order.len() - 1 {
        assert(order.update(t, key).drop_last() =~= shorter);
    } else {
        assert(order.update(t, key).drop_last() =~= shorter.update(t, key));
        assert(shorter[t] == order[t]);
        lemma_live_bytes_update(entries, shorter, t, key);
    }
}

/// Taking out the key at `t` by moving the last key into its place takes
/// the bytes of that key's record out of the sum.
pub proof fn lemma_live_bytes_swap_remove(
    entries: Map<Seq<char>, CommandPos>,
    order: Seq<Seq<char>>,
    t: int,
)
    requires
        0 <= t < order.len(),
    ensures
        live_bytes(entries, order.update(t, order.last()).drop_last()) + entries[order[t]].len + 1
            == live_bytes(entries, order),
{
    let shorter = order.drop_last();
    if t == order.len() - 1 {
        assert(order.update(t, order.last()).drop_last() =~= shorter);
    } else {
        assert(order.update(t, order.last()).drop_last() =~= shorter.update(t, order.last()));
        assert(shorter[t] == order[t]);
        lemma_live_bytes_update(entries, shorter, t, order.last());
    }
}

/// The sum over the first keys is no more than the sum over all.
pub proof fn lemma_live_bytes_prefix(
    entries: Map<Seq<char>, CommandPos>,
    order: Seq<Seq<char>>,
    n: int,
)
    requires
        0 <= n <= order.len(),
    ensures
        live_bytes(entries, order.take(n)) <= live_bytes(entries, order),
    decreases order.len() - n,
{
    if n < order.len() {
        lemma_live_bytes_prefix(entries, order, n + 1);
        assert(order.take(n + 1).drop_last() =~= order.take(n));
    } else {
        assert(order.take(n) =~= order);
    }
}

/// Where the record of each key takes at least `shortest` bytes, line feed
/// included, the records of all keys take at least that many times their
/// number.
pub proof fn lemma_live_bytes_at_least(
    entries: Map<Seq<char>, CommandPos>,
    order: Seq<Seq<char>>,
    shortest: nat,
)
    requires
        forall|i: int| 0 <= i < order.len() ==> shortest <= entries[#[trigger] order[i]].len + 1,
    ensures
        shortest * order.len() <= live_bytes(entries, order),
    decreases order.len(),
{
    if order.len() > 0 {
        let fewer = order.drop_last();
        assert forall|i: int| 0 <= i < fewer.len() implies shortest <= entries[
        #[trigger] fewer[i]].len + 1 by {
            assert(fewer[i] == order[i]);
        }
        lemma_live_bytes_at_least(entries, fewer, shortest);
        assert(shortest <= entries[order[order.len() - 1]].len + 1);
        assert(shortest * order.len() == shortest * fewer.len() + shortest) by (nonlinear_arith)
            requires
                order.len() == fewer.len() + 1,
        ;
    } else {
        assert(shortest * order.len() == 0) by (nonlinear_arith)
            requires
                order.len() == 0,
        ;
    }
}

} // verus!
