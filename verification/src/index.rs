//! The index of the store: for each key that has a value, where its record
//! lies in the log.
//!
//! Lookup is by hashing. Beside the hash map the index keeps its keys in a
//! vector, each entry of the map holding the place of its key there, so that
//! the keys can be walked in a fixed order and a key can still be taken out
//! in constant time.

use crate::live::{
    lemma_live_bytes_agree, lemma_live_bytes_push, lemma_live_bytes_replace,
    lemma_live_bytes_swap_remove, live_bytes,
};
use crate::log::CommandPos;
use vstd::hash_map::StringHashMap;
use vstd::prelude::*;

verus! {

/// An entry of the hash map: the position of the key's record, and the
/// place of the key in the vector of keys.
#[derive(Clone, Copy)]
struct Slot {
    at: CommandPos,
    slot: usize,
}

/// A map from keys to positions in the log that can be walked in the order
/// of its keys.
pub(crate) struct Index {
    map: StringHashMap<Slot>,
    keys: Vec<String>,
}

impl Index {
    /// The position of each key.
    pub(crate) closed spec fn entries(&self) -> Map<Seq<char>, CommandPos> {
        Map::new(|k: Seq<char>| self.map@.contains_key(k), |k: Seq<char>| self.map@[k].at)
    }

    /// The keys in the order in which `key_at` gives them.
    pub(crate) closed spec fn order(&self) -> Seq<Seq<char>> {
        Seq::new(self.keys@.len(), |i: int| self.keys@[i]@)
    }

    /// The hash map and the vector hold the same keys, each once, and each
    /// entry of the map knows the place of its key.
    pub(crate) closed spec fn wf(&self) -> bool {
        &&& forall|i: int|
            0 <= i < self.keys@.len() ==> self.map@.contains_key((#[trigger] self.keys@[i])@)
                && self.map@[self.keys@[i]@].slot == i
        &&& forall|k: Seq<char>| #[trigger]
            self.map@.contains_key(k) ==> self.map@[k].slot < self.keys@.len()
                && self.keys@[self.map@[k].slot as int]@ == k
    }

    /// The bytes that the records of all keys take in a log.
    pub(crate) open spec fn total(&self) -> nat {
        live_bytes(self.entries(), self.order())
    }

    /// The order holds the keys that have a position, each once.
    pub(crate) proof fn order_lists_keys(&self)
        requires
            self.wf(),
        ensures
            self.order().no_duplicates(),
            forall|k: Seq<char>| self.entries().contains_key(k) <==> self.order().contains(k),
            self.entries().dom().finite(),
            self.entries().dom().len() == self.order().len(),
    {
        let order = self.order();
        assert forall|k: Seq<char>| self.entries().contains_key(k) implies order.contains(k) by {
            assert(order[self.map@[k].slot as int] == k);
        }
        assert forall|k: Seq<char>| order.contains(k) implies self.entries().contains_key(k) by {
            let i = choose|i: int| 0 <= i < order.len() && order[i] == k;
            assert(self.map@.contains_key(self.keys@[i]@));
        }
        assert forall|i: int, j: int|
            0 <= i < order.len() && 0 <= j < order.len() && i != j implies order[i]
            != order[j] by {
            assert(self.map@[self.keys@[i]@].slot == i);
            assert(self.map@[self.keys@[j]@].slot == j);
        }
        assert(order.to_set() =~= self.entries().dom());
        order.unique_seq_to_set();
        vstd::seq_lib::seq_to_set_is_finite(order);
    }

    /// An index without keys.
    pub(crate) fn new() -> (r: Index)
        ensures
            r.wf(),
            r.entries() == Map::<Seq<char>, CommandPos>::empty(),
            r.order() == Seq::<Seq<char>>::empty(),
    {
        let r = Index { map: StringHashMap::new(), keys: Vec::new() };
        assert(r.entries() =~= Map::<Seq<char>, CommandPos>::empty());
        assert(r.order() =~= Seq::<Seq<char>>::empty());
        r
    }

    /// How many keys have a position.
    pub(crate) fn len(&self) -> (n: usize)
        ensures
            n == self.order().len(),
    {
        self.keys.len()
    }

    /// The position of `key`, `None` where it has none.
    pub(crate) fn get(&self, key: &str) -> (r: Option<CommandPos>)
        ensures
            match r {
                Some(at) => self.entries().contains_key(key@) && self.entries()[key@] == at,
                None => !self.entries().contains_key(key@),
            },
    {
        match self.map.get(key) {
            Some(entry) => Some(entry.at),
            None => None,
        }
    }

    /// Whether `key` has a position.
    pub(crate) fn contains_key(&self, key: &str) -> (r: bool)
        ensures
            r == self.entries().contains_key(key@),
    {
        self.map.contains_key(key)
    }

    /// The key at place `i` of the order.
    pub(crate) fn key_at(&self, i: usize) -> (key: &String)
        requires
            i < self.order().len(),
        ensures
            key@ == self.order()[i as int],
    {
        &self.keys[i]
    }

    /// Gives `key` the position `at`. A key that had none goes to the end of
    /// the order; a key that had one keeps its place.
    pub(crate) fn insert(&mut self, key: String, at: CommandPos)
        requires
            old(self).wf(),
        ensures
            final(self).wf(),
            final(self).entries() == old(self).entries().insert(key@, at),
            final(self).order() == if old(self).entries().contains_key(key@) {
                old(self).order()
            } else {
                old(self).order().push(key@)
            },
            final(self).total() + (if old(self).entries().contains_key(key@) {
                old(self).entries()[key@].len + 1
            } else {
                0
            }) == old(self).total() + at.len + 1,
    {
        proof {
            old(self).order_lists_keys();
        }
        let found: Option<usize> = match self.map.get(key.as_str()) {
            Some(entry) => Some(entry.slot),
            None => None,
        };
        match found {
            Some(slot) => {
                self.map.insert(key, Slot { at, slot });
                proof {
                    assert(self.entries() =~= old(self).entries().insert(key@, at));
                    assert(self.order() =~= old(self).order());
                    assert(old(self).order()[slot as int] == key@);
                    lemma_live_bytes_replace(
                        old(self).entries(),
                        old(self).order(),
                        slot as int,
                        at,
                    );
                }
            },
            None => {
                let slot: usize = self.keys.len();
                self.keys.push(key.clone());
                self.map.insert(key, Slot { at, slot });
                proof {
                    assert(self.entries() =~= old(self).entries().insert(key@, at));
                    assert(self.order() =~= old(self).order().push(key@));
                    lemma_live_bytes_push(self.entries(), old(self).order(), key@);
                    let before = old(self).order();
                    assert forall|i: int| 0 <= i < before.len() implies self.entries()[
                    #[trigger] before[i]] == old(self).entries()[before[i]] by {
                        assert(before.contains(before[i]));
                    }
                    lemma_live_bytes_agree(
                        self.entries(),
                        old(self).entries(),
                        old(self).order(),
                    );
                }
            },
        }
    }

    /// Takes `key` and its position out. The last key of the order moves
    /// into its place.
    pub(crate) fn remove(&mut self, key: &str)
        requires
            old(self).wf(),
        ensures
            final(self).wf(),
            final(self).entries() == old(self).entries().remove(key@),
            final(self).order() == if old(self).entries().contains_key(key@) {
                old(self).order().update(
                    old(self).order().index_of(key@),
                    old(self).order().last(),
                ).drop_last()
            } else {
                old(self).order()
            },
            final(self).total() + (if old(self).entries().contains_key(key@) {
                old(self).entries()[key@].len + 1
            } else {
                0
            }) == old(self).total(),
    {
        proof {
            old(self).order_lists_keys();
        }
        let found: Option<usize> = match self.map.get(key) {
            Some(entry) => Some(entry.slot),
            None => None,
        };
        match found {
            None => {
                proof {
                    assert(self.entries() =~= old(self).entries().remove(key@));
                }
            },
            Some(slot) => {
                let ghost before = old(self).order();
                let ghost swapped = before.update(slot as int, before.last()).drop_last();
                proof {
                    assert(before[slot as int] == key@);
                    assert(before.index_of(key@) == slot);
                }
                self.map.remove(key);
                self.keys.swap_remove(slot);
                if slot < self.keys.len() {
                    let moved: String = self.keys[slot].clone();
                    let at: CommandPos = match self.map.get(moved.as_str()) {
                        Some(entry) => entry.at,
                        None => vstd::pervasive::unreached(),
                    };
                    self.map.insert(moved, Slot { at, slot });
                }
                proof {
                    assert(self.order() =~= swapped);
                    assert(self.entries() =~= old(self).entries().remove(key@));
                    lemma_live_bytes_swap_remove(old(self).entries(), before, slot as int);
                    assert forall|i: int| 0 <= i < swapped.len() implies self.entries()[
                    #[trigger] swapped[i]] == old(self).entries()[swapped[i]] by {
                        if i == slot {
                            assert(swapped[i] == before[before.len() - 1]);
                        } else {
                            assert(swapped[i] == before[i]);
                        }
                    }
                    lemma_live_bytes_agree(self.entries(), old(self).entries(), swapped);
                }
            },
        }
    }
}

} // verus!
