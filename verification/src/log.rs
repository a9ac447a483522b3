//! The log as a mathematical object.
//!
//! A log is a sequence of records, each the written form of a `Set` or a
//! `Remove` followed by one line feed. `log_bytes` gives the bytes of a log
//! from its records, `parse_log` the records from the bytes, and `replay`
//! what a store knows once it has read the records in order: where the live
//! record of each key lies, which value each key has, and how many records
//! were superseded.

use crate::bytes::{
    has_at, lemma_has_at_end, lemma_has_at_extend, lemma_has_at_index, lemma_has_at_parts,
    lemma_has_at_whole,
};
use crate::codec::{
    decoding, decoding_of_encoding, encoding, encoding_is_one_line, encoding_of_decoding,
};
use crate::command::CommandView;
use vstd::prelude::*;

verus! {

/// The line feed, which ends each record of the log.
pub const LINE_FEED: u8 = 0x0a;

/// Where a record lies in the log: the offset of its first byte and its
/// length in bytes, the line feed after it not counted.
#[derive(Debug, Clone, Copy, PartialEq, Eq, Structural)]
pub struct CommandPos {
    pub pos: u64,
    pub len: u64,
}

/// Whether a command is one that a log holds.
pub open spec fn is_record(c: CommandView) -> bool {
    !(c is Get)
}

/// Whether all of `h` are commands that a log holds.
pub open spec fn all_records(h: Seq<CommandView>) -> bool {
    forall|i: int| 0 <= i < h.len() ==> is_record(#[trigger] h[i])
}

/// A record as it stands in the log: its written form and a line feed.
pub open spec fn line(c: CommandView) -> Seq<u8> {
    encoding(c) + seq![LINE_FEED]
}

/// The bytes of the log that holds the records `h`, oldest first.
pub open spec fn log_bytes(h: Seq<CommandView>) -> Seq<u8>
    decreases h.len(),
{
    if h.len() == 0 {
        Seq::empty()
    } else {
        log_bytes(h.drop_last()) + line(h.last())
    }
}

/// What is known after reading a log.
pub struct Replay {
    /// For each key that has a value, where its latest `Set` record lies.
    pub index: Map<Seq<char>, CommandPos>,
    /// For each key that has a value, that value.
    pub contents: Map<Seq<char>, Seq<char>>,
    /// How many `Set` records were read for a key that had a value then.
    pub redundant: nat,
}

/// What is known before anything is read.
pub open spec fn nothing() -> Replay {
    Replay { index: Map::empty(), contents: Map::empty(), redundant: 0 }
}

/// What is known after reading the record `c` at offset `offset`, when
/// `prev` was known before.
pub open spec fn apply(prev: Replay, offset: nat, c: CommandView) -> Replay {
    match c {
        CommandView::Put { key, value } => Replay {
            index: prev.index.insert(
                key,
                CommandPos { pos: offset as u64, len: encoding(c).len() as u64 },
            ),
            contents: prev.contents.insert(key, value),
            redundant: if prev.index.contains_key(key) {
                prev.redundant + 1
            } else {
                prev.redundant
            },
        },
        CommandView::Remove { key } => Replay {
            index: prev.index.remove(key),
            contents: prev.contents.remove(key),
            redundant: prev.redundant,
        },
        CommandView::Get { key } => prev,
    }
}

/// What is known after reading the records `h` from the start of a log.
pub open spec fn replay(h: Seq<CommandView>) -> Replay
    decreases h.len(),
{
    if h.len() == 0 {
        nothing()
    } else {
        apply(replay(h.drop_last()), log_bytes(h.drop_last()).len(), h.last())
    }
}

/// How many of `h` are `Set` records.
pub open spec fn puts(h: Seq<CommandView>) -> nat
    decreases h.len(),
{
    if h.len() == 0 {
        0
    } else if h.last() is Put {
        puts(h.drop_last()) + 1
    } else {
        puts(h.drop_last())
    }
}

/// Whether `h` holds no `Remove`.
pub open spec fn no_removes(h: Seq<CommandView>) -> bool {
    forall|i: int| 0 <= i < h.len() ==> !(#[trigger] h[i] is Remove)
}

/// Whether a store that knows `r` rewrites its log: it has keys, and more
/// than half as many superseded records as keys.
pub open spec fn compaction_due(r: Replay) -> bool {
    r.index.dom().len() > 0 && 2 * r.redundant > r.index.dom().len()
}

/// The log that results from copying, out of `log` and in the order of
/// `from`, the bytes at each of the positions `from`, a line feed after
/// each.
pub open spec fn copied(log: Seq<u8>, from: Seq<CommandPos>) -> Seq<u8>
    decreases from.len(),
{
    if from.len() == 0 {
        Seq::empty()
    } else {
        copied(log, from.drop_last()) + log.subrange(
            from.last().pos as int,
            from.last().pos + from.last().len,
        ) + seq![LINE_FEED]
    }
}

/// The index of the first line feed of `s` at or after `i`; the length of
/// `s` where there is none.
pub open spec fn line_end(s: Seq<u8>, i: int) -> int
    decreases s.len() - i,
{
    if i < 0 || i >= s.len() {
        s.len() as int
    } else if s[i] == LINE_FEED {
        i
    } else {
        line_end(s, i + 1)
    }
}

/// The records of the log `s` from offset `i` on. `None` where the bytes
/// from `i` on are not a sequence of records: a line is no written command,
/// or is a `Get`, or the last line has no line feed.
pub open spec fn parse_from(s: Seq<u8>, i: int) -> Option<Seq<CommandView>>
    decreases s.len() - i,
{
    if i < 0 || i >= s.len() {
        Some(Seq::empty())
    } else {
        let end = line_end(s, i);
        if end < i || end >= s.len() {
            None
        } else {
            match decoding(s.subrange(i, end)) {
                Some(c) => if is_record(c) {
                    match parse_from(s, end + 1) {
                        Some(rest) => Some(seq![c] + rest),
                        None => None,
                    }
                } else {
                    None
                },
                None => None,
            }
        }
    }
}

/// The records of the log `s`, `None` where `s` is no log.
pub open spec fn parse_log(s: Seq<u8>) -> Option<Seq<CommandView>> {
    parse_from(s, 0)
}

/// The records `done` followed by the records `rest`, where there are any.
pub open spec fn followed_by(done: Seq<CommandView>, rest: Option<Seq<CommandView>>) -> Option<
    Seq<CommandView>,
> {
    match rest {
        Some(more) => Some(done + more),
        None => None,
    }
}

/// The index of the first line feed of `s` at or after `from`; the length
/// of `s` where there is none.
pub fn find_line_end(s: &[u8], from: usize) -> (end: usize)
    ensures
        end == line_end(s@, from as int),
        end <= s.len(),
        from <= s.len() ==> from <= end,
{
    if from >= s.len() {
        return s.len();
    }
    let mut i: usize = from;
    while i < s.len() && s[i] != LINE_FEED
        invariant
            from <= i <= s.len(),
            line_end(s@, from as int) == line_end(s@, i as int),
        decreases s.len() - i,
    {
        i += 1;
    }
    i
}

/// A record that is appended adds its line to the log.
pub proof fn lemma_log_bytes_push(h: Seq<CommandView>, c: CommandView)
    ensures
        log_bytes(h.push(c)) == log_bytes(h) + line(c),
        log_bytes(h.push(c)).len() == log_bytes(h).len() + encoding(c).len() + 1,
{
    assert(h.push(c).drop_last() =~= h);
}

/// What is known after one more record.
pub proof fn lemma_replay_push(h: Seq<CommandView>, c: CommandView)
    ensures
        replay(h.push(c)) == apply(replay(h), log_bytes(h).len(), c),
{
    assert(h.push(c).drop_last() =~= h);
}

/// The log of two runs of records is the log of the first followed by
/// the log of the second.
pub proof fn lemma_log_bytes_concat(a: Seq<CommandView>, b: Seq<CommandView>)
    ensures
        log_bytes(a + b) == log_bytes(a) + log_bytes(b),
    decreases b.len(),
{
    if b.len() == 0 {
        assert(a + b =~= a);
        assert(log_bytes(a) + log_bytes(b) =~= log_bytes(a));
    } else {
        assert((a + b).drop_last() =~= a + b.drop_last());
        lemma_log_bytes_concat(a, b.drop_last());
        assert(log_bytes(a + b) =~= log_bytes(a) + log_bytes(b));
    }
}

/// The log of a record followed by others starts with the record's line.
pub proof fn lemma_log_bytes_cons(c: CommandView, rest: Seq<CommandView>)
    ensures
        log_bytes(seq![c] + rest) == line(c) + log_bytes(rest),
{
    lemma_log_bytes_concat(seq![c], rest);
    assert(seq![c].drop_last() =~= Seq::<CommandView>::empty());
    assert(log_bytes(seq![c].drop_last()) =~= Seq::<u8>::empty());
    assert(log_bytes(seq![c]) =~= line(c));
}

/// A log holds at least one byte for each record.
pub proof fn lemma_log_bytes_len(h: Seq<CommandView>)
    ensures
        h.len() <= log_bytes(h).len(),
    decreases h.len(),
{
    if h.len() > 0 {
        lemma_log_bytes_len(h.drop_last());
    }
}

/// A log is as long as its lines together, so no longer than its longest
/// line times the number of its records.
pub proof fn lemma_log_len_bound(h: Seq<CommandView>, longest: nat)
    requires
        forall|i: int| 0 <= i < h.len() ==> line(#[trigger] h[i]).len() <= longest,
    ensures
        log_bytes(h).len() <= longest * h.len(),
    decreases h.len(),
{
    if h.len() > 0 {
        let before = h.drop_last();
        assert forall|i: int| 0 <= i < before.len() implies line(#[trigger] before[i]).len()
            <= longest by {
            assert(before[i] == h[i]);
        }
        lemma_log_len_bound(before, longest);
        assert(line(h[h.len() - 1]).len() <= longest);
        assert(longest * h.len() == longest * before.len() + longest) by (nonlinear_arith)
            requires
                h.len() == before.len() + 1,
        ;
    }
}

/// One more position adds the bytes that lie there, and a line feed.
pub proof fn lemma_copied_push(log: Seq<u8>, from: Seq<CommandPos>, at: CommandPos)
    ensures
        copied(log, from.push(at)) == copied(log, from) + log.subrange(
            at.pos as int,
            at.pos + at.len,
        ) + seq![LINE_FEED],
{
    assert(from.push(at).drop_last() =~= from);
}

/// The end of a line lies at or after its start, no line feed lies
/// before it, and it is a line feed unless the bytes end first.
pub proof fn lemma_line_end_bounds(s: Seq<u8>, i: int)
    requires
        0 <= i <= s.len(),
    ensures
        i <= line_end(s, i) <= s.len(),
        forall|k: int| i <= k < line_end(s, i) ==> s[k] != LINE_FEED,
        line_end(s, i) < s.len() ==> s[line_end(s, i)] == LINE_FEED,
    decreases s.len() - i,
{
    if i < s.len() && s[i] != LINE_FEED {
        lemma_line_end_bounds(s, i + 1);
    }
}

/// The first line feed after bytes that hold none is the end of the line.
pub proof fn lemma_line_end_is(s: Seq<u8>, i: int, end: int)
    requires
        0 <= i <= end < s.len(),
        forall|k: int| i <= k < end ==> s[k] != LINE_FEED,
        s[end] == LINE_FEED,
    ensures
        line_end(s, i) == end,
    decreases end - i,
{
    if i < end {
        lemma_line_end_is(s, i + 1, end);
    }
}

/// Reading on from `i`, past the record that stands there.
pub proof fn lemma_parse_step(s: Seq<u8>, i: int, done: Seq<CommandView>)
    requires
        0 <= i < s.len(),
        line_end(s, i) < s.len(),
        decoding(s.subrange(i, line_end(s, i))) is Some,
        is_record(decoding(s.subrange(i, line_end(s, i))).unwrap()),
    ensures
        followed_by(done, parse_from(s, i)) == followed_by(
            done.push(decoding(s.subrange(i, line_end(s, i))).unwrap()),
            parse_from(s, line_end(s, i) + 1),
        ),
{
    lemma_line_end_bounds(s, i);
    let end = line_end(s, i);
    let c = decoding(s.subrange(i, end)).unwrap();
    match parse_from(s, end + 1) {
        Some(rest) => {
            assert(done + (seq![c] + rest) =~= done.push(c) + rest);
        },
        None => {},
    }
}

/// Where the log of `h` stands at the end of `s`, `h` is what is read
/// there.
proof fn lemma_parse_written(s: Seq<u8>, i: int, h: Seq<CommandView>)
    requires
        has_at(s, i, log_bytes(h)),
        i + log_bytes(h).len() == s.len(),
        all_records(h),
    ensures
        parse_from(s, i) == Some(h),
    decreases h.len(),
{
    if h.len() == 0 {
        assert(h =~= Seq::<CommandView>::empty());
    } else {
        let c = h[0];
        let rest = h.drop_first();
        assert(h =~= seq![c] + rest);
        lemma_log_bytes_cons(c, rest);
        lemma_has_at_parts(s, i, line(c), log_bytes(rest));
        lemma_has_at_parts(s, i, encoding(c), seq![LINE_FEED]);
        let end = i + encoding(c).len();
        lemma_has_at_index(s, end, seq![LINE_FEED], 0);
        encoding_is_one_line(c);
        assert forall|k: int| i <= k < end implies s[k] != LINE_FEED by {
            lemma_has_at_index(s, i, encoding(c), k - i);
        }
        lemma_line_end_is(s, i, end);
        decoding_of_encoding(c);
        assert(all_records(rest)) by {
            assert forall|j: int| 0 <= j < rest.len() implies is_record(#[trigger] rest[j]) by {
                assert(rest[j] == h[j + 1]);
            }
        }
        lemma_parse_written(s, end + 1, rest);
    }
}

/// What is read from `i` on is a run of records whose log stands there
/// and ends `s`.
proof fn lemma_written_parse(s: Seq<u8>, i: int)
    requires
        0 <= i <= s.len(),
        parse_from(s, i) is Some,
    ensures
        all_records(parse_from(s, i).unwrap()),
        has_at(s, i, log_bytes(parse_from(s, i).unwrap())),
        i + log_bytes(parse_from(s, i).unwrap()).len() == s.len(),
    decreases s.len() - i,
{
    let h = parse_from(s, i).unwrap();
    if i >= s.len() {
        assert(s.subrange(i, i) =~= log_bytes(h));
    } else {
        let end = line_end(s, i);
        lemma_line_end_bounds(s, i);
        let c = decoding(s.subrange(i, end)).unwrap();
        let rest = parse_from(s, end + 1).unwrap();
        lemma_written_parse(s, end + 1);
        encoding_of_decoding(s.subrange(i, end));
        assert(s.subrange(end, end + 1) =~= seq![LINE_FEED]);
        lemma_has_at_parts(s, i, encoding(c), seq![LINE_FEED]);
        lemma_log_bytes_cons(c, rest);
        lemma_has_at_parts(s, i, line(c), log_bytes(rest));
        assert(all_records(h)) by {
            assert forall|j: int| 0 <= j < h.len() implies is_record(#[trigger] h[j]) by {
                if j > 0 {
                    assert(h[j] == rest[j - 1]);
                }
            }
        }
    }
}

/// A log without `Remove` holds `Set` records only.
proof fn lemma_puts_without_removes(h: Seq<CommandView>)
    requires
        all_records(h),
        no_removes(h),
    ensures
        puts(h) == h.len(),
    decreases h.len(),
{
    if h.len() > 0 {
        let before = h.drop_last();
        assert forall|i: int| 0 <= i < before.len() implies is_record(#[trigger] before[i]) && !(
        before[i] is Remove) by {
            assert(before[i] == h[i]);
        }
        lemma_puts_without_removes(before);
        assert(is_record(h[h.len() - 1]) && !(h[h.len() - 1] is Remove));
    }
}

/// The value of a key is the value of a `Set` record of the log.
pub proof fn lemma_value_was_set(h: Seq<CommandView>, key: Seq<char>)
    requires
        replay(h).contents.contains_key(key),
    ensures
        exists|i: int|
            0 <= i < h.len() && #[trigger] h[i] == (CommandView::Put {
                key,
                value: replay(h).contents[key],
            }),
    decreases h.len(),
{
    if h.len() > 0 {
        let before = h.drop_last();
        let c = h.last();
        let record = CommandView::Put { key, value: replay(h).contents[key] };
        if c == record {
            assert(h[h.len() - 1] == record);
        } else {
            assert(replay(before).contents.contains_key(key));
            assert(replay(before).contents[key] == replay(h).contents[key]);
            lemma_value_was_set(before, key);
            let i = choose|i: int| 0 <= i < before.len() && #[trigger] before[i] == record;
            assert(h[i] == record);
        }
    }
}

/// The bytes of a log are read back as its records.
pub proof fn parse_of_log_bytes(h: Seq<CommandView>)
    requires
        all_records(h),
    ensures
        parse_log(log_bytes(h)) == Some(h),
{
    lemma_has_at_whole(log_bytes(h), log_bytes(h));
    lemma_parse_written(log_bytes(h), 0, h);
}

/// Bytes that are read as records are the log of these records, and none of
/// them is a `Get`.
pub proof fn log_bytes_of_parse(s: Seq<u8>)
    requires
        parse_log(s) is Some,
    ensures
        log_bytes(parse_log(s).unwrap()) == s,
        all_records(parse_log(s).unwrap()),
{
    lemma_written_parse(s, 0);
    lemma_has_at_whole(s, log_bytes(parse_log(s).unwrap()));
}

/// What `replay` knows is true of the log: the keys with a position are the
/// keys with a value, and at the position of each stands the `Set` record
/// that gave the key its value.
pub proof fn replay_is_sound(h: Seq<CommandView>)
    requires
        log_bytes(h).len() <= u64::MAX,
    ensures
        replay(h).index.dom() == replay(h).contents.dom(),
        replay(h).index.dom().finite(),
        forall|k: Seq<char>| #[trigger]
            replay(h).index.contains_key(k) ==> {
                let record = CommandView::Put { key: k, value: replay(h).contents[k] };
                &&& has_at(log_bytes(h), replay(h).index[k].pos as int, line(record))
                &&& replay(h).index[k].len == encoding(record).len()
            },
    decreases h.len(),
{
    if h.len() > 0 {
        let before = h.drop_last();
        let c = h.last();
        assert(before.push(c) =~= h);
        lemma_log_bytes_push(before, c);
        replay_is_sound(before);
        let prev = replay(before);
        let now = replay(h);
        assert(now.index.dom() =~= now.contents.dom());
        assert forall|k: Seq<char>| #[trigger] now.index.contains_key(k) implies {
            let record = CommandView::Put { key: k, value: now.contents[k] };
            &&& has_at(log_bytes(h), now.index[k].pos as int, line(record))
            &&& now.index[k].len == encoding(record).len()
        } by {
            let record = CommandView::Put { key: k, value: now.contents[k] };
            if c is Put && c->Put_key == k {
                assert(record == c);
                lemma_has_at_end(log_bytes(before), line(c));
            } else {
                assert(prev.index.contains_key(k));
                lemma_has_at_extend(
                    log_bytes(before),
                    line(c),
                    prev.index[k].pos as int,
                    line(record),
                );
            }
        }
    } else {
        assert(replay(h).index.dom() =~= replay(h).contents.dom());
    }
}

/// The keys with a value and the superseded records together are no more
/// than the `Set` records of the log, and exactly as many where the log
/// holds no `Remove`.
pub proof fn replay_counts(h: Seq<CommandView>)
    ensures
        replay(h).index.dom().finite(),
        replay(h).index.dom().len() + replay(h).redundant <= puts(h),
        puts(h) <= h.len(),
        no_removes(h) && all_records(h) ==> replay(h).index.dom().len() + replay(h).redundant
            == puts(h),
    decreases h.len(),
{
    if h.len() > 0 {
        let before = h.drop_last();
        replay_counts(before);
        if no_removes(h) && all_records(h) {
            assert(no_removes(before)) by {
                assert forall|i: int| 0 <= i < before.len() implies !(#[trigger] before[i]
                    is Remove) by {
                    assert(before[i] == h[i]);
                }
            }
            assert(all_records(before)) by {
                assert forall|i: int| 0 <= i < before.len() implies is_record(
                    #[trigger] before[i],
                ) by {
                    assert(before[i] == h[i]);
                }
            }
            assert(!(h[h.len() - 1] is Remove));
            assert(is_record(h[h.len() - 1]));
        }
    }
}

/// At the position of each key that has a value, the log holds a line
/// that is read as the `Set` of that key to that value.
pub proof fn position_holds_record(h: Seq<CommandView>, key: Seq<char>)
    requires
        log_bytes(h).len() <= u64::MAX,
        replay(h).contents.contains_key(key),
    ensures
        ({
            let at = replay(h).index[key];
            let record = CommandView::Put { key, value: replay(h).contents[key] };
            &&& replay(h).index.contains_key(key)
            &&& at.pos + at.len < log_bytes(h).len()
            &&& log_bytes(h).subrange(at.pos as int, at.pos + at.len) == encoding(record)
            &&& decoding(log_bytes(h).subrange(at.pos as int, at.pos + at.len)) == Some(record)
            &&& log_bytes(h)[at.pos + at.len] == LINE_FEED
        }),
{
    replay_is_sound(h);
    let at = replay(h).index[key];
    let record = CommandView::Put { key, value: replay(h).contents[key] };
    assert(replay(h).index.contains_key(key));
    lemma_has_at_parts(log_bytes(h), at.pos as int, encoding(record), seq![LINE_FEED]);
    lemma_has_at_index(log_bytes(h), at.pos + at.len, seq![LINE_FEED], 0);
    decoding_of_encoding(record);
}

/// A `Set` for a key that was just set supersedes the earlier record: the
/// log holds both records, the key has the later value, its position is
/// that of the later record, and one more record is superseded.
pub proof fn overwrite_keeps_both_records(
    h: Seq<CommandView>,
    key: Seq<char>,
    first: Seq<char>,
    second: Seq<char>,
)
    requires
        log_bytes(
            h.push(CommandView::Put { key, value: first }).push(
                CommandView::Put { key, value: second },
            ),
        ).len() <= u64::MAX,
    ensures
        ({
            let a = CommandView::Put { key, value: first };
            let b = CommandView::Put { key, value: second };
            let once = h.push(a);
            let twice = once.push(b);
            &&& log_bytes(twice) == log_bytes(h) + line(a) + line(b)
            &&& replay(twice).contents[key] == second
            &&& replay(twice).index[key].pos == log_bytes(h).len() + line(a).len()
            &&& replay(twice).index[key].len == encoding(b).len()
            &&& replay(twice).redundant == replay(once).redundant + 1
        }),
{
    let a = CommandView::Put { key, value: first };
    let b = CommandView::Put { key, value: second };
    lemma_log_bytes_push(h, a);
    lemma_log_bytes_push(h.push(a), b);
    lemma_replay_push(h, a);
    lemma_replay_push(h.push(a), b);
}

/// After a `Remove` the key has neither a value nor a position, and this
/// is also what is known when the log is read again from its start.
pub proof fn removed_key_is_gone(h: Seq<CommandView>, key: Seq<char>)
    requires
        all_records(h),
    ensures
        ({
            let after = h.push(CommandView::Remove { key });
            &&& !replay(after).contents.contains_key(key)
            &&& !replay(after).index.contains_key(key)
            &&& parse_log(log_bytes(after)) == Some(after)
        }),
{
    let gone = CommandView::Remove { key };
    let after = h.push(gone);
    lemma_replay_push(h, gone);
    assert(all_records(after)) by {
        assert forall|i: int| 0 <= i < after.len() implies is_record(#[trigger] after[i]) by {
            if i < h.len() {
                assert(after[i] == h[i]);
            }
        }
    }
    parse_of_log_bytes(after);
}

/// The bound that compaction keeps. Where a log holds no `Remove`, and at
/// most half as many superseded records as keys with a value, it is at
/// most one and a half times as long as the longest of its lines times the
/// number of keys with a value.
pub proof fn compaction_bounds_log(h: Seq<CommandView>, longest: nat)
    requires
        all_records(h),
        no_removes(h),
        forall|i: int| 0 <= i < h.len() ==> line(#[trigger] h[i]).len() <= longest,
        2 * replay(h).redundant <= replay(h).index.dom().len(),
    ensures
        2 * log_bytes(h).len() <= 3 * longest * replay(h).index.dom().len(),
{
    lemma_log_len_bound(h, longest);
    lemma_puts_without_removes(h);
    replay_counts(h);
    let keys = replay(h).index.dom().len();
    let size = log_bytes(h).len();
    let records = h.len();
    assert(2 * size <= 3 * longest * keys) by (nonlinear_arith)
        requires
            size <= longest * records,
            2 * records <= 3 * keys,
    ;
}

} // verus!
