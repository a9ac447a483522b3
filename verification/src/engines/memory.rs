//! The log engine over a log that is held in memory.
//!
//! `MemoryStore` does for itself what `KvStore` asks of its caller: it
//! appends each record to its log, reads values back from the log, and
//! rewrites the log when `set` says so. What `KvStore` promises of these
//! steps is enough to prove that the whole is a store: `get` returns the
//! value that was set, and never fails.

use crate::bytes::lemma_has_at_parts;
use crate::codec::{decoding_of_encoding, encoding};
use crate::command::CommandView;
use crate::engine::KvsEngine;
use crate::engines::kvs::KvStore;
use crate::error::KvsError;
use crate::log::{
    copied, lemma_copied_push, lemma_log_bytes_push, log_bytes, parse_log, replay,
    replay_is_sound, CommandPos, LINE_FEED,
};
use vstd::prelude::*;
use vstd::slice::slice_subrange;

verus! {

/// Whether each of the positions `from` lies within a log of `len` bytes.
spec fn all_within(from: Seq<CommandPos>, len: nat) -> bool {
    forall|j: int| 0 <= j < from.len() ==> (#[trigger] from[j]).pos + from[j].len <= len
}

/// Copies the records that lie at the positions `from` of `log`, a line
/// feed after each.
fn copy_records(log: &[u8], from: &Vec<CommandPos>) -> (fresh: Vec<u8>)
    requires
        all_within(from@, log@.len()),
    ensures
        fresh@ == copied(log@, from@),
{
    let mut fresh: Vec<u8> = Vec::new();
    let mut j: usize = 0;
    assert(from@.take(0) =~= Seq::<CommandPos>::empty());
    while j < from.len()
        invariant
            j <= from.len(),
            all_within(from@, log@.len()),
            fresh@ == copied(log@, from@.take(j as int)),
        decreases from.len() - j,
    {
        let at: CommandPos = from[j];
        proof {
            assert(at == from@[j as int]);
            assert(at.pos + at.len <= log.len());
            lemma_copied_push(log@, from@.take(j as int), at);
            assert(from@.take(j + 1) =~= from@.take(j as int).push(at));
        }
        let ghost before = fresh@;
        let record = slice_subrange(log, at.pos as usize, (at.pos + at.len) as usize);
        fresh.extend_from_slice(record);
        fresh.push(LINE_FEED);
        assert(fresh@ =~= before + log@.subrange(at.pos as int, at.pos + at.len) + seq![
            LINE_FEED,
        ]);
        j += 1;
    }
    assert(from@.take(from.len() as int) =~= from@);
    fresh
}

/// A log engine with its log in memory.
pub struct MemoryStore {
    store: KvStore,
    log: Vec<u8>,
}

impl View for MemoryStore {
    type V = Map<Seq<char>, Seq<char>>;

    /// The value of each key that has one.
    open spec fn view(&self) -> Map<Seq<char>, Seq<char>> {
        replay(self.history()).contents
    }
}

impl MemoryStore {
    /// The log that is held is the log that the engine knows.
    #[verifier::type_invariant]
    spec fn holds(self) -> bool {
        self.store.wf() && self.log@ == self.store.log()
    }

    /// The records of the log, oldest first.
    pub closed spec fn history(&self) -> Seq<CommandView> {
        self.store.history()
    }

    /// The log that is held is the log that the engine knows. This holds
    /// of every store that the functions of this type hand out and leave
    /// behind.
    pub closed spec fn wf(&self) -> bool {
        self.store.wf() && self.log@ == self.store.log()
    }

    /// The bytes of the log.
    pub open spec fn log(&self) -> Seq<u8> {
        log_bytes(self.history())
    }

    /// A store without keys, over an empty log.
    pub fn new() -> (r: MemoryStore)
        ensures
            r.wf(),
            r.history() == Seq::<CommandView>::empty(),
    {
        MemoryStore { store: KvStore::new(), log: Vec::new() }
    }

    /// The store that the log `log` gives; an error exactly when the bytes
    /// are no log.
    pub fn open(log: Vec<u8>) -> (r: Result<MemoryStore, KvsError>)
        ensures
            match r {
                Ok(opened) => opened.wf() && parse_log(log@) == Some(opened.history())
                    && opened.log() == log@,
                Err(e) => e is Corruption && parse_log(log@) is None,
            },
    {
        match KvStore::open(log.as_slice()) {
            Ok(store) => Ok(MemoryStore { store, log }),
            Err(e) => Err(e),
        }
    }

    /// The bytes of the log.
    pub fn bytes(&self) -> (r: &[u8])
        ensures
            r@ == self.log(),
    {
        proof {
            use_type_invariant(self);
        }
        self.log.as_slice()
    }

    /// How many keys have a value.
    pub fn len(&self) -> (keys: usize)
        ensures
            self@.dom().finite(),
            keys == self@.dom().len(),
    {
        self.store.len()
    }

    /// The value of `key`, `None` where it has none.
    pub fn value(&self, key: &str) -> (r: Option<String>)
        ensures
            match r {
                Some(value) => self@.contains_key(key@) && self@[key@] == value@,
                None => !self@.contains_key(key@),
            },
    {
        proof {
            use_type_invariant(self);
        }
        match self.store.locate(key) {
            None => None,
            Some(at) => {
                let ghost record = CommandView::Put { key: key@, value: self@[key@] };
                proof {
                    lemma_has_at_parts(self.log@, at.pos as int, encoding(record), seq![LINE_FEED]);
                    decoding_of_encoding(record);
                    assert(self.log@.len() == self.log.len());
                }
                let read = slice_subrange(
                    self.log.as_slice(),
                    at.pos as usize,
                    (at.pos + at.len) as usize,
                );
                match KvStore::value_of(read) {
                    Ok(value) => Some(value),
                    Err(e) => vstd::pervasive::unreached(),
                }
            },
        }
    }
}

impl MemoryStore {
    /// The log that a store holds is read back as the records that the
    /// store knows: `open` on the bytes of a store returns a store with the
    /// same records, and so with the same value for each key.
    pub proof fn reopens(&self)
        requires
            self.wf(),
        ensures
            parse_log(self.log()) == Some(self.history()),
    {
        self.store.reopens();
    }
}

impl KvsEngine for MemoryStore {
    /// The value of `key`. The store is not changed, and the call does not
    /// fail.
    fn get(&mut self, key: String) -> (r: Result<Option<String>, KvsError>)
        ensures
            final(self).wf(),
            *final(self) == *old(self),
            match r {
                Ok(Some(value)) => old(self)@.contains_key(key@) && old(self)@[key@] == value@,
                Ok(None) => !old(self)@.contains_key(key@),
                Err(e) => false,
            },
    {
        proof {
            use_type_invariant(&*self);
        }
        Ok(self.value(key.as_str()))
    }

    /// Gives `key` the value `value`. The call fails only where the log
    /// would grow past what the position counter can hold, and then
    /// nothing changes.
    fn set(&mut self, key: String, value: String) -> (r: Result<(), KvsError>)
        ensures
            final(self).wf(),
            match r {
                Ok(done) => final(self)@ == old(self)@.insert(key@, value@),
                Err(e) => e is LogTooLarge && *final(self) == *old(self),
            },
            r is Ok <==> old(self).log().len() + encoding(
                CommandView::Put { key: key@, value: value@ },
            ).len() + 1 <= u64::MAX,
    {
        proof {
            use_type_invariant(&*self);
            lemma_log_bytes_push(
                self.history(),
                CommandView::Put { key: key@, value: value@ },
            );
        }
        let mut taken = MemoryStore::new();
        std::mem::swap(self, &mut taken);
        let MemoryStore { store, log } = taken;
        let mut store = store;
        let mut log = log;
        let ghost grown = store.history().push(CommandView::Put { key: key@, value: value@ });
        match store.set(key, value) {
            Err(e) => {
                *self = MemoryStore { store, log };
                Err(e)
            },
            Ok(outcome) => {
                log.extend_from_slice(outcome.record.as_slice());
                log.push(LINE_FEED);
                assert(log@ =~= log_bytes(grown));
                match outcome.compaction {
                    None => {},
                    Some(from) => {
                        proof {
                            replay_is_sound(grown);
                            assert forall|j: int| 0 <= j < from@.len() implies (
                            #[trigger] from@[j]).pos + from@[j].len <= log@.len() by {
                                let written = store.history()[j];
                                assert(from@[j] == replay(grown).index[written->Put_key]);
                            }
                        }
                        log = copy_records(log.as_slice(), &from);
                    },
                }
                *self = MemoryStore { store, log };
                Ok(())
            },
        }
    }

    /// Takes `key` and its value away. `KeyNotFound` where the key has no
    /// value; nothing changes then, nor where the log would grow past what
    /// the position counter can hold.
    fn remove(&mut self, key: String) -> (r: Result<(), KvsError>)
        ensures
            final(self).wf(),
            match r {
                Ok(done) => old(self)@.contains_key(key@) && final(self)@ == old(self)@.remove(
                    key@,
                ),
                Err(e) => *final(self) == *old(self) && if old(self)@.contains_key(key@) {
                    e is LogTooLarge
                } else {
                    e is KeyNotFound
                },
            },
    {
        proof {
            use_type_invariant(&*self);
            lemma_log_bytes_push(self.history(), CommandView::Remove { key: key@ });
        }
        let mut taken = MemoryStore::new();
        std::mem::swap(self, &mut taken);
        let MemoryStore { store, log } = taken;
        let mut store = store;
        let mut log = log;
        match store.remove(key) {
            Err(e) => {
                *self = MemoryStore { store, log };
                Err(e)
            },
            Ok(record) => {
                log.extend_from_slice(record.as_slice());
                log.push(LINE_FEED);
                assert(log@ =~= store.log());
                *self = MemoryStore { store, log };
                Ok(())
            },
        }
    }
}

} // verus!
