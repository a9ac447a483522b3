//! The log engine: what it knows of its log, and what it decides.
//!
//! The store holds no file. It holds the index, the two counters, and, as a
//! ghost, the records that its log holds. Its operations say which bytes
//! the caller has to append to the log and which bytes it has to read from
//! it, and they are proved over the log that results when the caller does
//! so.
//!
//! `State` holds the fields and does the work, under the condition that it
//! is well-formed. `KvStore` wraps a `State` that is well-formed always,
//! so its functions ask nothing of their caller.

use crate::bytes::{has_at, lemma_has_at_parts};
use crate::codec::{decoding, encoding, encoding_of_decoding, put_record, remove_record};
use crate::command::{Command, CommandView};
use crate::error::KvsError;
use crate::index::Index;
use crate::live::{lemma_live_bytes_at_least, lemma_live_bytes_prefix, live_bytes};
use crate::log::{
    all_records, compaction_bounds_log, compaction_due, copied, find_line_end, followed_by,
    is_record, lemma_copied_push, lemma_log_bytes_len, lemma_log_bytes_push, lemma_parse_step,
    lemma_replay_push, lemma_value_was_set, line, log_bytes, log_bytes_of_parse, no_removes,
    parse_from, parse_log, parse_of_log_bytes, position_holds_record, puts, replay,
    replay_counts, replay_is_sound, CommandPos, LINE_FEED,
};
use vstd::prelude::*;
use vstd::slice::slice_subrange;

verus! {

/// What `set` asks of its caller.
pub struct SetOutcome {
    /// The record to append to the log, a line feed after it.
    pub record: Vec<u8>,
    /// `Some` where the store rewrites its log. The new log is made of the
    /// records that lie at these positions of the log as it is after the
    /// append, in this order, a line feed after each.
    pub compaction: Option<Vec<CommandPos>>,
}

/// Whether `from` holds, for each record of `h` in turn, the position that
/// `index` has for the key of that record, all of `h` being `Set` records.
pub open spec fn positions_of(
    h: Seq<CommandView>,
    index: Map<Seq<char>, CommandPos>,
    from: Seq<CommandPos>,
) -> bool {
    &&& from.len() == h.len()
    &&& forall|j: int|
        0 <= j < h.len() ==> (#[trigger] h[j]) is Put && index.contains_key(h[j]->Put_key)
            && from[j] == index[h[j]->Put_key]
}

/// What `locate` returns for `key` in a store whose log holds the
/// records `h`: `None` where the key has no value; else the position that
/// reading the log gives the key, which is where the log holds the line of
/// the `Set` record that gave the key its value.
pub open spec fn located(h: Seq<CommandView>, key: Seq<char>, r: Option<CommandPos>) -> bool {
    match r {
        Some(at) => {
            let record = CommandView::Put { key, value: replay(h).contents[key] };
            &&& replay(h).contents.contains_key(key)
            &&& at == replay(h).index[key]
            &&& at.len == encoding(record).len()
            &&& has_at(log_bytes(h), at.pos as int, line(record))
        },
        None => !replay(h).contents.contains_key(key),
    }
}

/// What `set` of `key` to `value` returns and leaves behind, in a store
/// whose log holds the records `before`; `after` are the records of the
/// log once the caller has done what the result asks for.
///
/// The call fails exactly when the log would grow past what the position
/// counter can hold, and then nothing changes. Otherwise the result holds
/// the `Set` record to append, the key has the new value, and every other
/// key the value it had. The log is rewritten exactly when, after the
/// append, there are more than half as many superseded records as keys
/// with a value. If it is not, the log is the old log and the new record.
/// If it is, the log is what copying the records at the returned
/// positions gives: one `Set` record for each key with a value, at the
/// position that the key had, and no superseded record.
pub open spec fn set_leaves(
    before: Seq<CommandView>,
    key: Seq<char>,
    value: Seq<char>,
    r: Result<SetOutcome, KvsError>,
    after: Seq<CommandView>,
) -> bool {
    let put = CommandView::Put { key, value };
    let grown = before.push(put);
    match r {
        Ok(out) => {
            &&& log_bytes(grown).len() <= u64::MAX
            &&& out.record@ == encoding(put)
            &&& replay(after).contents == replay(before).contents.insert(key, value)
            &&& 2 * replay(after).redundant <= replay(after).contents.dom().len()
            &&& match out.compaction {
                None => !compaction_due(replay(grown)) && after == grown,
                Some(from) => {
                    &&& compaction_due(replay(grown))
                    &&& log_bytes(after) == copied(log_bytes(grown), from@)
                    &&& replay(after).redundant == 0
                    &&& after.len() == replay(after).contents.dom().len()
                    &&& positions_of(after, replay(grown).index, from@)
                },
            }
        },
        Err(e) => {
            &&& e is LogTooLarge
            &&& log_bytes(grown).len() > u64::MAX
            &&& after == before
        },
    }
}

/// What `remove` of `key` returns and leaves behind, in a store whose log
/// holds the records `before`; `after` are the records of the log once the
/// caller has appended what the result holds.
///
/// Where the key has no value the result is `KeyNotFound`. Where the log
/// would grow past what the position counter can hold, it is
/// `LogTooLarge`. In both cases nothing changes. Otherwise the result is
/// the `Remove` record to append, the key has no value, and every other
/// key the value it had.
pub open spec fn remove_leaves(
    before: Seq<CommandView>,
    key: Seq<char>,
    r: Result<Vec<u8>, KvsError>,
    after: Seq<CommandView>,
) -> bool {
    let gone = CommandView::Remove { key };
    let grown = before.push(gone);
    match r {
        Ok(record) => {
            &&& replay(before).contents.contains_key(key)
            &&& log_bytes(grown).len() <= u64::MAX
            &&& record@ == encoding(gone)
            &&& after == grown
            &&& replay(after).contents == replay(before).contents.remove(key)
        },
        Err(e) => {
            &&& after == before
            &&& if replay(before).contents.contains_key(key) {
                e is LogTooLarge && log_bytes(grown).len() > u64::MAX
            } else {
                e is KeyNotFound
            }
        },
    }
}

/// What the log engine holds: the index, the count of superseded records,
/// the length of the log, and the records of the log.
struct State {
    index: Index,
    num_unnecessary_entries: u64,
    write_pos: u64,
    history: Ghost<Seq<CommandView>>,
}

impl View for State {
    type V = Map<Seq<char>, Seq<char>>;

    closed spec fn view(&self) -> Map<Seq<char>, Seq<char>> {
        replay(self.history()).contents
    }
}

impl State {
    spec fn history(&self) -> Seq<CommandView> {
        self.history@
    }

    spec fn log(&self) -> Seq<u8> {
        log_bytes(self.history())
    }

    spec fn positions(&self) -> Map<Seq<char>, CommandPos> {
        replay(self.history()).index
    }

    spec fn redundant(&self) -> nat {
        replay(self.history()).redundant
    }

    /// The index and the counters are what reading the log from its start
    /// gives, and the log holds `Set` and `Remove` records only.
    spec fn wf(&self) -> bool {
        &&& self.index.wf()
        &&& self.index.entries() == replay(self.history@).index
        &&& self.num_unnecessary_entries == replay(self.history@).redundant
        &&& self.write_pos == log_bytes(self.history@).len()
        &&& all_records(self.history@)
        &&& self.index.total() <= self.write_pos
    }

    /// The state over an empty log.
    fn new() -> (store: State)
        ensures
            store.wf(),
            store.history() == Seq::<CommandView>::empty(),
    {
        State {
            index: Index::new(),
            num_unnecessary_entries: 0,
            write_pos: 0,
            history: Ghost(Seq::empty()),
        }
    }

    /// Takes note of a `Set` record of `len` bytes at the end of the log.
    fn note_put(&mut self, key: String, value: Ghost<Seq<char>>, len: u64)
        requires
            old(self).wf(),
            len == encoding(CommandView::Put { key: key@, value: value@ }).len(),
            old(self).log().len() + len + 1 <= u64::MAX,
        ensures
            final(self).wf(),
            final(self).history() == old(self).history().push(
                CommandView::Put { key: key@, value: value@ },
            ),
    {
        let ghost put = CommandView::Put { key: key@, value: value@ };
        let ghost grown = self.history@.push(put);
        proof {
            lemma_log_bytes_push(self.history@, put);
            lemma_replay_push(self.history@, put);
            replay_counts(grown);
            lemma_log_bytes_len(grown);
            self.index.order_lists_keys();
        }
        if self.index.contains_key(key.as_str()) {
            self.num_unnecessary_entries = self.num_unnecessary_entries + 1;
        }
        self.index.insert(key, CommandPos { pos: self.write_pos, len });
        self.write_pos = self.write_pos + len + 1;
        self.history = Ghost(grown);
        proof {
            assert(grown[grown.len() - 1] == put);
            assert forall|i: int| 0 <= i < grown.len() implies is_record(#[trigger] grown[i]) by {
                if i < grown.len() - 1 {
                    assert(grown[i] == old(self).history@[i]);
                }
            }
        }
    }

    /// Takes note of a `Remove` record of `len` bytes at the end of the log.
    fn note_remove(&mut self, key: &str, len: u64)
        requires
            old(self).wf(),
            len == encoding(CommandView::Remove { key: key@ }).len(),
            old(self).log().len() + len + 1 <= u64::MAX,
        ensures
            final(self).wf(),
            final(self).history() == old(self).history().push(CommandView::Remove { key: key@ }),
    {
        let ghost gone = CommandView::Remove { key: key@ };
        let ghost grown = self.history@.push(gone);
        proof {
            lemma_log_bytes_push(self.history@, gone);
            lemma_replay_push(self.history@, gone);
        }
        self.index.remove(key);
        self.write_pos = self.write_pos + len + 1;
        self.history = Ghost(grown);
        proof {
            assert(grown[grown.len() - 1] == gone);
            assert forall|i: int| 0 <= i < grown.len() implies is_record(#[trigger] grown[i]) by {
                if i < grown.len() - 1 {
                    assert(grown[i] == old(self).history@[i]);
                }
            }
        }
    }

    /// Reads a log from its start.
    fn open(log: &[u8]) -> (r: Result<State, KvsError>)
        ensures
            match r {
                Ok(store) => store.wf() && parse_log(log@) == Some(store.history()) && store.log()
                    == log@,
                Err(e) => e is Corruption && parse_log(log@) is None,
            },
    {
        let mut store = State::new();
        let mut off: usize = 0;
        assert(Seq::<CommandView>::empty() + parse_from(log@, 0).unwrap() =~= parse_from(
            log@,
            0,
        ).unwrap());
        while off < log.len()
            invariant
                off <= log.len(),
                store.wf(),
                store.log().len() == off,
                parse_from(log@, 0) == followed_by(store.history(), parse_from(log@, off as int)),
            decreases log.len() - off,
        {
            let end: usize = find_line_end(log, off);
            if end >= log.len() {
                return Err(KvsError::Corruption);
            }
            let record = slice_subrange(log, off, end);
            let len: u64 = (end - off) as u64;
            let ghost before = store.history();
            match Command::decode(record) {
                None => {
                    return Err(KvsError::Corruption);
                },
                Some(Command::Get { key }) => {
                    return Err(KvsError::Corruption);
                },
                Some(Command::Put { key, value }) => {
                    proof {
                        encoding_of_decoding(record@);
                        lemma_parse_step(log@, off as int, before);
                    }
                    store.note_put(key, Ghost(value@), len);
                },
                Some(Command::Remove { key }) => {
                    proof {
                        encoding_of_decoding(record@);
                        lemma_parse_step(log@, off as int, before);
                    }
                    store.note_remove(key.as_str(), len);
                },
            }
            proof {
                lemma_log_bytes_push(before, decoding(record@).unwrap());
            }
            off = end + 1;
        }
        proof {
            assert(store.history() + Seq::<CommandView>::empty() =~= store.history());
            log_bytes_of_parse(log@);
        }
        Ok(store)
    }

    /// Where the live record of `key` lies in the log.
    fn locate(&self, key: &str) -> (r: Option<CommandPos>)
        requires
            self.wf(),
        ensures
            located(self.history(), key@, r),
    {
        proof {
            replay_is_sound(self.history());
        }
        self.index.get(key)
    }

    /// How many keys have a value.
    fn len(&self) -> (keys: usize)
        requires
            self.wf(),
        ensures
            self@.dom().finite(),
            keys == self@.dom().len(),
    {
        proof {
            self.index.order_lists_keys();
            replay_is_sound(self.history@);
        }
        self.index.len()
    }

    /// Whether the log is due for a rewrite.
    fn should_compact(&self) -> (due: bool)
        requires
            self.wf(),
        ensures
            due == compaction_due(replay(self.history())),
    {
        proof {
            self.index.order_lists_keys();
        }
        let keys: usize = self.index.len();
        keys > 0 && self.num_unnecessary_entries > (keys as u64) / 2
    }

    /// Rewrites the log so that it holds the live record of each key and
    /// nothing else. Returns where these records lie in the log as it was,
    /// in the order in which the new log holds them.
    fn compact(&mut self) -> (from: Vec<CommandPos>)
        requires
            old(self).wf(),
        ensures
            final(self).wf(),
            final(self)@ == old(self)@,
            final(self).redundant() == 0,
            final(self).log() == copied(old(self).log(), from@),
            final(self).history().len() == old(self)@.dom().len(),
            positions_of(final(self).history(), old(self).positions(), from@),
    {
        let keys: usize = self.index.len();
        let mut fresh = Index::new();
        let mut from: Vec<CommandPos> = Vec::new();
        let mut off: u64 = 0;
        let mut j: usize = 0;
        let ghost mut h: Seq<CommandView> = Seq::empty();
        let ghost order = self.index.order();
        let ghost known = replay(self.history@);
        proof {
            self.index.order_lists_keys();
            replay_is_sound(self.history@);
            assert(order.take(0) =~= Seq::<Seq<char>>::empty());
        }
        while j < keys
            invariant
                j <= keys,
                keys == order.len(),
                self.wf(),
                order == self.index.order(),
                known == replay(self.history@),
                self.index.entries() == known.index,
                self.index.total() <= log_bytes(self.history@).len() <= u64::MAX,
                order.no_duplicates(),
                forall|k: Seq<char>| known.index.contains_key(k) <==> order.contains(k),
                known.index.dom() == known.contents.dom(),
                forall|k: Seq<char>| #[trigger]
                    known.index.contains_key(k) ==> {
                        let record = CommandView::Put { key: k, value: known.contents[k] };
                        &&& has_at(
                            log_bytes(self.history@),
                            known.index[k].pos as int,
                            line(record),
                        )
                        &&& known.index[k].len == encoding(record).len()
                    },
                fresh.wf(),
                fresh.entries() == replay(h).index,
                fresh.order() == order.take(j as int),
                fresh.total() == off,
                replay(h).redundant == 0,
                forall|k: Seq<char>|
                    replay(h).contents.contains_key(k) <==> order.take(j as int).contains(k),
                forall|k: Seq<char>| #[trigger]
                    replay(h).contents.contains_key(k) ==> replay(h).contents[k]
                        == known.contents[k],
                off == log_bytes(h).len(),
                off == live_bytes(known.index, order.take(j as int)),
                log_bytes(h) == copied(log_bytes(self.history@), from@),
                h.len() == j,
                positions_of(h, known.index, from@),
            decreases keys - j,
        {
            let key: &String = self.index.key_at(j);
            proof {
                assert(order.contains(order[j as int]));
            }
            let at: CommandPos = match self.index.get(key.as_str()) {
                Some(at) => at,
                None => vstd::pervasive::unreached(),
            };
            let ghost put = CommandView::Put { key: key@, value: known.contents[key@] };
            let ghost log = log_bytes(self.history@);
            proof {
                let next = order.take(j + 1);
                assert(next.drop_last() =~= order.take(j as int));
                assert(next.last() == key@);
                lemma_live_bytes_prefix(known.index, order, j + 1);
                fresh.order_lists_keys();
                let prior = order.take(j as int);
                assert(!prior.contains(key@)) by {
                    if prior.contains(key@) {
                        let i = choose|i: int| 0 <= i < prior.len() && prior[i] == key@;
                        assert(order[i] == order[j as int]);
                    }
                }
                lemma_has_at_parts(log, at.pos as int, encoding(put), seq![LINE_FEED]);
                assert(log.subrange(at.pos as int, at.pos + at.len) == encoding(put));
                lemma_copied_push(log, from@, at);
                lemma_log_bytes_push(h, put);
                lemma_replay_push(h, put);
            }
            from.push(at);
            fresh.insert(key.clone(), CommandPos { pos: off, len: at.len });
            off = off + at.len + 1;
            proof {
                let longer = h.push(put);
                let prior = order.take(j as int);
                let next = order.take(j + 1);
                assert(log_bytes(longer) =~= copied(log, from@));
                assert(next[j as int] == key@);
                assert forall|k: Seq<char>|
                    replay(longer).contents.contains_key(k) <==> next.contains(k) by {
                    if next.contains(k) {
                        let i = choose|i: int| 0 <= i < next.len() && next[i] == k;
                        if i < j {
                            assert(prior[i] == k);
                        }
                    }
                    if prior.contains(k) {
                        let i = choose|i: int| 0 <= i < prior.len() && prior[i] == k;
                        assert(next[i] == k);
                    }
                }
                assert forall|i: int| 0 <= i < longer.len() implies (#[trigger] longer[i]) is Put
                    && known.index.contains_key(longer[i]->Put_key) && from@[i]
                    == known.index[longer[i]->Put_key] by {
                    if i < h.len() {
                        assert(longer[i] == h[i]);
                    }
                }
                h = longer;
            }
            j = j + 1;
        }
        proof {
            assert(order.take(keys as int) =~= order);
            assert(replay(h).contents =~= known.contents);
            vstd::seq_lib::seq_to_set_is_finite(order);
        }
        self.index = fresh;
        self.num_unnecessary_entries = 0;
        self.write_pos = off;
        self.history = Ghost(h);
        from
    }

    /// Gives `key` the value `value`.
    fn set(&mut self, key: String, value: String) -> (r: Result<SetOutcome, KvsError>)
        requires
            old(self).wf(),
        ensures
            final(self).wf(),
            set_leaves(old(self).history(), key@, value@, r, final(self).history()),
            r is Err ==> *final(self) == *old(self),
    {
        let record = put_record(key.as_str(), value.as_str());
        let ghost put = CommandView::Put { key: key@, value: value@ };
        let ghost name = key@;
        proof {
            lemma_log_bytes_push(self.history@, put);
            lemma_replay_push(self.history@, put);
        }
        if record.len() as u64 >= u64::MAX - self.write_pos {
            return Err(KvsError::LogTooLarge);
        }
        self.note_put(key, Ghost(value@), record.len() as u64);
        proof {
            replay_is_sound(self.history@);
            replay_counts(self.history@);
            assert(self@.dom().contains(name));
        }
        let compaction = if self.should_compact() {
            Some(self.compact())
        } else {
            None
        };
        Ok(SetOutcome { record, compaction })
    }

    /// Takes `key` and its value away.
    fn remove(&mut self, key: String) -> (r: Result<Vec<u8>, KvsError>)
        requires
            old(self).wf(),
        ensures
            final(self).wf(),
            remove_leaves(old(self).history(), key@, r, final(self).history()),
            r is Err ==> *final(self) == *old(self),
    {
        let ghost gone = CommandView::Remove { key: key@ };
        proof {
            replay_is_sound(self.history@);
            lemma_log_bytes_push(self.history@, gone);
            lemma_replay_push(self.history@, gone);
        }
        if !self.index.contains_key(key.as_str()) {
            return Err(KvsError::KeyNotFound);
        }
        let record = remove_record(key.as_str());
        if record.len() as u64 >= u64::MAX - self.write_pos {
            return Err(KvsError::LogTooLarge);
        }
        self.note_remove(key.as_str(), record.len() as u64);
        Ok(record)
    }
}

/// The log engine.
pub struct KvStore {
    state: State,
}

impl View for KvStore {
    type V = Map<Seq<char>, Seq<char>>;

    /// The value of each key that has one.
    open spec fn view(&self) -> Map<Seq<char>, Seq<char>> {
        replay(self.history()).contents
    }
}

impl KvStore {
    /// Every store is well-formed.
    #[verifier::type_invariant]
    spec fn holds(self) -> bool {
        self.state.wf()
    }

    /// The records that the log holds, oldest first.
    pub closed spec fn history(&self) -> Seq<CommandView> {
        self.state.history@
    }

    /// The bytes of the log.
    pub open spec fn log(&self) -> Seq<u8> {
        log_bytes(self.history())
    }

    /// Where the live record of each key lies in the log.
    pub open spec fn positions(&self) -> Map<Seq<char>, CommandPos> {
        replay(self.history()).index
    }

    /// How many records of the log were superseded by a later `Set`.
    pub open spec fn redundant(&self) -> nat {
        replay(self.history()).redundant
    }

    /// The keys that have a value, each once, in the order in which a
    /// rewrite of the log would hold their records.
    pub closed spec fn keys(&self) -> Seq<Seq<char>> {
        self.state.index.order()
    }

    /// The bytes that the live records take in the log, the line feed after
    /// each included.
    pub open spec fn live_bytes(&self) -> nat {
        live_bytes(self.positions(), self.keys())
    }

    /// The index and the counters are what reading the log from its start
    /// gives, and the log holds `Set` and `Remove` records only. This holds
    /// of every store that the functions of this type hand out and leave
    /// behind.
    pub closed spec fn wf(&self) -> bool {
        self.state.wf()
    }
}

impl KvStore {
    /// A store over an empty log.
    pub fn new() -> (store: KvStore)
        ensures
            store.wf(),
            store.history() == Seq::<CommandView>::empty(),
    {
        KvStore { state: State::new() }
    }

    /// Reads a log from its start and returns the store that knows it.
    ///
    /// `log` is all the bytes of the log file; a file that does not exist
    /// yet is the empty log. The result is an error exactly when the bytes
    /// are no log: some line is no written command, or is a `Get`, or the
    /// last line lacks its line feed.
    pub fn open(log: &[u8]) -> (r: Result<KvStore, KvsError>)
        ensures
            match r {
                Ok(store) => store.wf() && parse_log(log@) == Some(store.history()) && store.log()
                    == log@,
                Err(e) => e is Corruption && parse_log(log@) is None,
            },
    {
        match State::open(log) {
            Ok(state) => Ok(KvStore { state }),
            Err(e) => Err(e),
        }
    }

    /// Where the live record of `key` lies in the log, `None` where the key
    /// has no value. At that position the log holds the `Set` record that
    /// gave the key its value.
    pub fn locate(&self, key: &str) -> (r: Option<CommandPos>)
        ensures
            located(self.history(), key@, r),
    {
        proof {
            use_type_invariant(self);
        }
        self.state.locate(key)
    }

    /// The value that a record read from the log holds. An error where the
    /// bytes are no written command, or are not a `Set`.
    pub fn value_of(record: &[u8]) -> (r: Result<String, KvsError>)
        ensures
            match r {
                Ok(value) => decoding(record@) is Some && decoding(record@).unwrap() is Put
                    && decoding(record@).unwrap()->value == value@,
                Err(e) => e is Corruption && !(decoding(record@) is Some && decoding(
                    record@,
                ).unwrap() is Put),
            },
    {
        match Command::decode(record) {
            Some(Command::Put { key, value }) => Ok(value),
            _ => Err(KvsError::Corruption),
        }
    }

    /// How many keys have a value.
    pub fn len(&self) -> (keys: usize)
        ensures
            self@.dom().finite(),
            keys == self@.dom().len(),
    {
        proof {
            use_type_invariant(self);
        }
        self.state.len()
    }

    /// The length of the log: where the next record will lie.
    pub fn write_position(&self) -> (at: u64)
        ensures
            at == self.log().len(),
    {
        proof {
            use_type_invariant(self);
        }
        self.state.write_pos
    }

    /// How many records of the log were superseded by a later `Set`.
    pub fn redundant_entries(&self) -> (count: u64)
        ensures
            count == self.redundant(),
    {
        proof {
            use_type_invariant(self);
        }
        self.state.num_unnecessary_entries
    }
}

impl KvStore {
    /// Gives `key` the value `value`.
    ///
    /// Returns the record that the caller has to append to the log, and,
    /// where the log is then due for a rewrite, how to rewrite it. The
    /// store is then as if both had been done. The result is an error, and
    /// the store unchanged, exactly when the log would grow past what the
    /// position counter can hold.
    pub fn set(&mut self, key: String, value: String) -> (r: Result<SetOutcome, KvsError>)
        ensures
            final(self).wf(),
            set_leaves(old(self).history(), key@, value@, r, final(self).history()),
            r is Err ==> *final(self) == *old(self),
    {
        proof {
            use_type_invariant(&*self);
        }
        let mut taken = KvStore::new();
        std::mem::swap(self, &mut taken);
        let mut state = taken.state;
        let r = state.set(key, value);
        *self = KvStore { state };
        r
    }

    /// Takes `key` and its value away.
    ///
    /// Where the key has no value the result is `KeyNotFound` and nothing
    /// changes. Otherwise the result is the record that the caller has to
    /// append to the log, and the store is as if it had been appended;
    /// unless the log would grow past what the position counter can hold,
    /// which is an error that leaves the store unchanged.
    pub fn remove(&mut self, key: String) -> (r: Result<Vec<u8>, KvsError>)
        ensures
            final(self).wf(),
            remove_leaves(old(self).history(), key@, r, final(self).history()),
            r is Err ==> *final(self) == *old(self),
    {
        proof {
            use_type_invariant(&*self);
        }
        let mut taken = KvStore::new();
        std::mem::swap(self, &mut taken);
        let mut state = taken.state;
        let r = state.remove(key);
        *self = KvStore { state };
        r
    }
}

impl KvStore {
    /// The log of a store is read back as the records that the store
    /// knows. So `open` on the bytes that a store has had written returns a
    /// store with the same records, and with them the same values, the
    /// same positions and the same count of superseded records.
    pub proof fn reopens(&self)
        requires
            self.wf(),
        ensures
            self.log().len() <= u64::MAX,
            parse_log(self.log()) == Some(self.history()),
    {
        parse_of_log_bytes(self.history());
    }

    /// For each key that has a value, the bytes that lie in the log at the
    /// key's position are read as the `Set` of that key to that value, and
    /// a line feed follows them. So the value that `set` gave a key is the
    /// value that `value_of` finds where `locate` points, until the key is
    /// set again or removed.
    pub proof fn reads_what_was_set(&self, key: Seq<char>)
        requires
            self.wf(),
            self@.contains_key(key),
        ensures
            ({
                let at = self.positions()[key];
                let record = CommandView::Put { key, value: self@[key] };
                &&& self.positions().contains_key(key)
                &&& at.pos + at.len < self.log().len()
                &&& decoding(self.log().subrange(at.pos as int, at.pos + at.len)) == Some(record)
                &&& self.log()[at.pos + at.len] == LINE_FEED
            }),
    {
        position_holds_record(self.history(), key);
    }

    /// The keys with a value and the superseded records together are no
    /// more than the `Set` records of the log, and exactly as many where
    /// the log holds no `Remove`.
    pub proof fn counts_set_records(&self)
        requires
            self.wf(),
        ensures
            self@.dom().finite(),
            self@.dom().len() + self.redundant() <= puts(self.history()),
            no_removes(self.history()) ==> self@.dom().len() + self.redundant() == puts(
                self.history(),
            ),
    {
        replay_is_sound(self.history());
        replay_counts(self.history());
    }

    /// `keys` lists the keys that have a value, each once.
    pub proof fn keys_are_the_live_keys(&self)
        requires
            self.wf(),
        ensures
            self.keys().no_duplicates(),
            forall|key: Seq<char>| self@.contains_key(key) <==> self.keys().contains(key),
            self@.dom().finite(),
            self.keys().len() == self@.dom().len(),
    {
        self.state.index.order_lists_keys();
        replay_is_sound(self.history());
    }

    /// The live records are part of the log.
    pub proof fn live_bytes_are_in_the_log(&self)
        requires
            self.wf(),
        ensures
            self.live_bytes() <= self.log().len(),
    {
    }

    /// What compaction is for. After a `set` the store has at most half as
    /// many superseded records as keys with a value. Where its log then
    /// holds no `Remove`, the log is at most one and a half times as long
    /// as its longest line times the number of keys with a value.
    pub proof fn log_stays_bounded(&self, longest: nat)
        requires
            self.wf(),
            2 * self.redundant() <= self@.dom().len(),
            no_removes(self.history()),
            forall|i: int|
                0 <= i < self.history().len() ==> line(#[trigger] self.history()[i]).len()
                    <= longest,
        ensures
            2 * self.log().len() <= 3 * longest * self@.dom().len(),
    {
        replay_is_sound(self.history());
        compaction_bounds_log(self.history(), longest);
    }

    /// The bound on the size of the log, in bytes. After a `set` the store
    /// has at most half as many superseded records as keys with a value.
    /// Where its log then holds no `Remove`, and no line of it is more than
    /// twice as long as another, the log is at most three times as long as
    /// its live records together.
    pub proof fn log_is_within_three_times_the_live_bytes(&self, shortest: nat)
        requires
            self.wf(),
            2 * self.redundant() <= self@.dom().len(),
            no_removes(self.history()),
            forall|i: int|
                0 <= i < self.history().len() ==> shortest <= line(
                    #[trigger] self.history()[i],
                ).len() <= 2 * shortest,
        ensures
            self.log().len() <= 3 * self.live_bytes(),
    {
        let h = self.history();
        let keys = self.keys();
        let known = replay(h);
        self.keys_are_the_live_keys();
        replay_is_sound(h);
        compaction_bounds_log(h, 2 * shortest);
        assert forall|i: int| 0 <= i < keys.len() implies shortest <= known.index[
        #[trigger] keys[i]].len + 1 by {
            let key = keys[i];
            assert(keys.contains(key));
            lemma_value_was_set(h, key);
            let record = CommandView::Put { key, value: known.contents[key] };
            let j = choose|j: int| 0 <= j < h.len() && #[trigger] h[j] == record;
            assert(shortest <= line(h[j]).len());
            assert(known.index.contains_key(key));
        }
        lemma_live_bytes_at_least(known.index, keys, shortest);
        let size = self.log().len();
        let live = self.live_bytes();
        let count = keys.len();
        assert(size <= 3 * live) by (nonlinear_arith)
            requires
                2 * size <= 3 * (2 * shortest) * count,
                shortest * count <= live,
        ;
    }
}

} // verus!
