//! String literals of the record format: how the bytes of a key or a value are
//! written between double quotes, and how they are read back.
//!
//! A byte is written as itself unless it is a double quote, a backslash or a
//! control byte below `0x20`. Those are written as a backslash sequence, so a
//! written string holds no raw line feed and no raw double quote. The reader
//! accepts exactly what the writer produces.

use crate::bytes::has_at;
use vstd::prelude::*;

verus! {

/// The double quote.
pub const QUOTE: u8 = 0x22;

/// The backslash.
pub const BACKSLASH: u8 = 0x5c;

/// The lower-case hexadecimal digit for `n`, where `n < 16`.
pub open spec fn hex_digit(n: u8) -> u8 {
    if n < 10 {
        (0x30 + n) as u8
    } else {
        (0x57 + n) as u8
    }
}

/// The value of a lower-case hexadecimal digit, `None` for any other byte.
pub open spec fn hex_value(c: u8) -> Option<u8> {
    if 0x30 <= c <= 0x39 {
        Some((c - 0x30) as u8)
    } else if 0x61 <= c <= 0x66 {
        Some((c - 0x57) as u8)
    } else {
        None
    }
}

/// The letter that follows the backslash in the two-byte form of `b`, where
/// `b` has one.
pub open spec fn short_escape(b: u8) -> Option<u8> {
    if b == 0x22 {
        Some(0x22u8)
    } else if b == 0x5c {
        Some(0x5cu8)
    } else if b == 0x08 {
        Some(0x62u8)
    } else if b == 0x09 {
        Some(0x74u8)
    } else if b == 0x0a {
        Some(0x6eu8)
    } else if b == 0x0c {
        Some(0x66u8)
    } else if b == 0x0d {
        Some(0x72u8)
    } else {
        None
    }
}

/// The written form of one byte.
pub open spec fn escape_byte(b: u8) -> Seq<u8> {
    match short_escape(b) {
        Some(letter) => seq![BACKSLASH, letter],
        None => if b < 0x20 {
            seq![BACKSLASH, 0x75u8, 0x30u8, 0x30u8, hex_digit(b / 16), hex_digit(b % 16)]
        } else {
            seq![b]
        },
    }
}

/// The written form of a string's bytes, without the enclosing quotes.
pub open spec fn escape(s: Seq<u8>) -> Seq<u8>
    decreases s.len(),
{
    if s.len() == 0 {
        Seq::empty()
    } else {
        escape_byte(s[0]) + escape(s.drop_first())
    }
}

/// What the reader recognises at index `i` of `s`: the byte that is written
/// there and the width of its written form. `None` where no written byte
/// starts, which includes the closing quote.
pub open spec fn read_byte(s: Seq<u8>, i: int) -> Option<(u8, int)> {
    if i < 0 || i >= s.len() {
        None
    } else if s[i] == BACKSLASH {
        if i + 1 >= s.len() {
            None
        } else if s[i + 1] == 0x22 {
            Some((0x22u8, 2int))
        } else if s[i + 1] == 0x5c {
            Some((0x5cu8, 2int))
        } else if s[i + 1] == 0x62 {
            Some((0x08u8, 2int))
        } else if s[i + 1] == 0x74 {
            Some((0x09u8, 2int))
        } else if s[i + 1] == 0x6e {
            Some((0x0au8, 2int))
        } else if s[i + 1] == 0x66 {
            Some((0x0cu8, 2int))
        } else if s[i + 1] == 0x72 {
            Some((0x0du8, 2int))
        } else if s[i + 1] == 0x75 && i + 5 < s.len() && s[i + 2] == 0x30 && s[i + 3] == 0x30 && (
        s[i + 4] == 0x30 || s[i + 4] == 0x31) {
            match hex_value(s[i + 5]) {
                Some(low) => {
                    let b = ((s[i + 4] - 0x30) * 16 + low) as u8;
                    if short_escape(b) is None {
                        Some((b, 6int))
                    } else {
                        None
                    }
                },
                None => None,
            }
        } else {
            None
        }
    } else if s[i] == QUOTE || s[i] < 0x20 {
        None
    } else {
        Some((s[i], 1int))
    }
}

/// Reads the written string that starts at index `i` of `s` and runs to its
/// closing quote: the bytes it stands for, and the index just past the
/// closing quote. `None` where no complete written string starts at `i`.
pub open spec fn unescape_from(s: Seq<u8>, i: int) -> Option<(Seq<u8>, int)>
    decreases s.len() - i,
{
    if i < 0 || i >= s.len() {
        None
    } else if s[i] == QUOTE {
        Some((Seq::empty(), i + 1))
    } else {
        match read_byte(s, i) {
            None => None,
            Some((b, width)) => if width >= 1 {
                match unescape_from(s, i + width) {
                    None => None,
                    Some((rest, end)) => Some((seq![b] + rest, end)),
                }
            } else {
                None
            },
        }
    }
}

/// `r` with `p` put before the bytes it holds.
pub open spec fn prepend(p: Seq<u8>, r: Option<(Seq<u8>, int)>) -> Option<(Seq<u8>, int)> {
    match r {
        None => None,
        Some((rest, end)) => Some((p + rest, end)),
    }
}

/// The lower-case hexadecimal digit for `n`.
fn hex_digit_of(n: u8) -> (c: u8)
    requires
        n < 16,
    ensures
        c == hex_digit(n),
{
    if n < 10 {
        0x30 + n
    } else {
        0x57 + n
    }
}

/// Appends the written form of `s` to `out`.
pub fn write_escaped(out: &mut Vec<u8>, s: &[u8])
    ensures
        final(out)@ == old(out)@ + escape(s@),
{
    let mut i: usize = 0;
    assert(s@.take(0) =~= Seq::<u8>::empty());
    assert(out@ =~= out@ + escape(s@.take(0)));
    while i < s.len()
        invariant
            i <= s.len(),
            out@ == old(out)@ + escape(s@.take(i as int)),
        decreases s.len() - i,
    {
        let b: u8 = s[i];
        proof {
            lemma_escape_push(s@.take(i as int), b);
            assert(s@.take(i + 1) =~= s@.take(i as int).push(b));
        }
        let ghost before = out@;
        if b == 0x22 {
            out.push(BACKSLASH);
            out.push(0x22);
        } else if b == 0x5c {
            out.push(BACKSLASH);
            out.push(0x5c);
        } else if b == 0x08 {
            out.push(BACKSLASH);
            out.push(0x62);
        } else if b == 0x09 {
            out.push(BACKSLASH);
            out.push(0x74);
        } else if b == 0x0a {
            out.push(BACKSLASH);
            out.push(0x6e);
        } else if b == 0x0c {
            out.push(BACKSLASH);
            out.push(0x66);
        } else if b == 0x0d {
            out.push(BACKSLASH);
            out.push(0x72);
        } else if b < 0x20 {
            out.push(BACKSLASH);
            out.push(0x75);
            out.push(0x30);
            out.push(0x30);
            out.push(hex_digit_of(b / 16));
            out.push(hex_digit_of(b % 16));
        } else {
            out.push(b);
        }
        assert(out@ =~= before + escape_byte(b));
        i += 1;
    }
    assert(s@.take(s.len() as int) =~= s@);
}

/// Reads the written string that starts at index `start` of `s`, just past
/// its opening quote. Returns the bytes it stands for and the index just
/// past its closing quote, or `None` where `s` holds no complete written
/// string there.
pub fn read_quoted(s: &[u8], start: usize) -> (r: Option<(Vec<u8>, usize)>)
    ensures
        match r {
            Some((bytes, end)) => unescape_from(s@, start as int) == Some((bytes@, end as int)),
            None => unescape_from(s@, start as int) is None,
        },
{
    let mut out: Vec<u8> = Vec::new();
    let mut i: usize = start;
    assert(out@ + Seq::<u8>::empty() =~= out@);
    proof {
        match unescape_from(s@, start as int) {
            None => {},
            Some((rest, end)) => {
                assert(out@ + rest =~= rest);
            },
        }
    }
    loop
        invariant
            start <= i,
            unescape_from(s@, start as int) == prepend(out@, unescape_from(s@, i as int)),
        decreases s.len() - i,
    {
        if i >= s.len() {
            return None;
        }
        let c: u8 = s[i];
        if c == QUOTE {
            assert(out@ + Seq::<u8>::empty() =~= out@);
            return Some((out, i + 1));
        }
        let b: u8;
        let width: usize;
        if c == BACKSLASH {
            if i + 1 >= s.len() {
                return None;
            }
            let d: u8 = s[i + 1];
            if d == 0x22 {
                b = 0x22;
                width = 2;
            } else if d == 0x5c {
                b = 0x5c;
                width = 2;
            } else if d == 0x62 {
                b = 0x08;
                width = 2;
            } else if d == 0x74 {
                b = 0x09;
                width = 2;
            } else if d == 0x6e {
                b = 0x0a;
                width = 2;
            } else if d == 0x66 {
                b = 0x0c;
                width = 2;
            } else if d == 0x72 {
                b = 0x0d;
                width = 2;
            } else if d == 0x75 && s.len() - i > 5 && s[i + 2] == 0x30 && s[i + 3] == 0x30 && (s[i
                + 4] == 0x30 || s[i + 4] == 0x31) {
                let high: u8 = s[i + 4] - 0x30;
                let e: u8 = s[i + 5];
                let low: u8;
                if 0x30 <= e && e <= 0x39 {
                    low = e - 0x30;
                } else if 0x61 <= e && e <= 0x66 {
                    low = e - 0x57;
                } else {
                    return None;
                }
                b = high * 16 + low;
                if b == 0x08 || b == 0x09 || b == 0x0a || b == 0x0c || b == 0x0d {
                    return None;
                }
                width = 6;
            } else {
                return None;
            }
        } else if c < 0x20 {
            return None;
        } else {
            b = c;
            width = 1;
        }
        proof {
            assert(read_byte(s@, i as int) == Some((b, width as int)));
            lemma_prepend_step(s@, i as int, out@);
        }
        out.push(b);
        i = i + width;
    }
}

/// A digit is read as the value it was written for.
pub proof fn lemma_hex_round_trip(n: u8)
    requires
        n < 16,
    ensures
        hex_value(hex_digit(n)) == Some(n),
{
}

/// A value is written as the digit it was read from.
pub proof fn lemma_hex_canonical(c: u8)
    requires
        hex_value(c) is Some,
    ensures
        hex_value(c).unwrap() < 16,
        hex_digit(hex_value(c).unwrap()) == c,
{
}

/// The reader recognises the written form of any byte, wherever it stands.
pub proof fn lemma_read_written_byte(s: Seq<u8>, i: int, b: u8)
    requires
        has_at(s, i, escape_byte(b)),
    ensures
        read_byte(s, i) == Some((b, escape_byte(b).len() as int)),
        s[i] != QUOTE,
{
    let e = escape_byte(b);
    assert forall|k: int| 0 <= k < e.len() implies s[i + k] == e[k] by {
        assert(s.subrange(i, i + e.len())[k] == s[i + k]);
    }
    assert(s[i] == e[0]);
    if short_escape(b) is Some {
        assert(s[i + 1] == e[1]);
    } else if b < 0x20 {
        assert(s[i + 1] == e[1]);
        assert(s[i + 2] == e[2]);
        assert(s[i + 3] == e[3]);
        assert(s[i + 4] == e[4]);
        assert(s[i + 5] == e[5]);
        lemma_hex_round_trip(b / 16);
        lemma_hex_round_trip(b % 16);
        assert(b / 16 == 0 || b / 16 == 1);
    }
}

/// What the reader recognises is the written form of the byte it reports.
pub proof fn lemma_read_byte_is_written(s: Seq<u8>, i: int)
    requires
        read_byte(s, i) is Some,
    ensures
        ({
            let (b, width) = read_byte(s, i).unwrap();
            &&& width == escape_byte(b).len()
            &&& has_at(s, i, escape_byte(b))
        }),
{
    let (b, width) = read_byte(s, i).unwrap();
    if s[i] == BACKSLASH && s[i + 1] == 0x75 {
        lemma_hex_canonical(s[i + 5]);
    }
    assert(s.subrange(i, i + width) =~= escape_byte(b));
}

/// The written form of two runs of bytes is the written form of the
/// first followed by that of the second.
pub proof fn lemma_escape_concat(a: Seq<u8>, b: Seq<u8>)
    ensures
        escape(a + b) == escape(a) + escape(b),
    decreases a.len(),
{
    if a.len() == 0 {
        assert(a + b =~= b);
        assert(escape(a) + escape(b) =~= escape(b));
    } else {
        assert((a + b).drop_first() =~= a.drop_first() + b);
        lemma_escape_concat(a.drop_first(), b);
        assert(escape(a + b) =~= escape(a) + escape(b));
    }
}

/// One more byte adds its written form.
pub proof fn lemma_escape_push(a: Seq<u8>, b: u8)
    ensures
        escape(a.push(b)) == escape(a) + escape_byte(b),
{
    lemma_escape_concat(a, seq![b]);
    assert(a.push(b) =~= a + seq![b]);
    assert(seq![b].drop_first() =~= Seq::<u8>::empty());
    assert(escape(seq![b].drop_first()) =~= Seq::<u8>::empty());
    assert(escape(seq![b]) =~= escape_byte(b));
}

/// The written form holds no line feed.
pub proof fn lemma_escape_no_line_feed(s: Seq<u8>)
    ensures
        forall|i: int| 0 <= i < escape(s).len() ==> escape(s)[i] != 0x0a,
    decreases s.len(),
{
    if s.len() > 0 {
        lemma_escape_no_line_feed(s.drop_first());
        let first = escape_byte(s[0]);
        let rest = escape(s.drop_first());
        assert forall|i: int| 0 <= i < escape(s).len() implies escape(s)[i] != 0x0a by {
            if i < first.len() {
                assert(escape(s)[i] == first[i]);
            } else {
                assert(escape(s)[i] == rest[i - first.len()]);
            }
        }
    }
}

/// Reading one byte and going on is reading from where the byte starts.
proof fn lemma_prepend_step(s: Seq<u8>, i: int, out: Seq<u8>)
    requires
        0 <= i < s.len(),
        s[i] != QUOTE,
        read_byte(s, i) is Some,
    ensures
        ({
            let (b, width) = read_byte(s, i).unwrap();
            prepend(out, unescape_from(s, i)) == prepend(out.push(b), unescape_from(s, i + width))
        }),
{
    let (b, width) = read_byte(s, i).unwrap();
    match unescape_from(s, i + width) {
        None => {},
        Some((rest, end)) => {
            assert(out + (seq![b] + rest) =~= out.push(b) + rest);
        },
    }
}

/// Reading back: where the written form of `b` stands at `i`, followed by a
/// quote, the reader returns `b` and stops just past that quote.
pub proof fn lemma_unescape_escape(s: Seq<u8>, i: int, b: Seq<u8>)
    requires
        has_at(s, i, escape(b) + seq![QUOTE]),
    ensures
        unescape_from(s, i) == Some((b, i + escape(b).len() + 1)),
    decreases b.len(),
{
    let w = escape(b) + seq![QUOTE];
    assert forall|k: int| 0 <= k < w.len() implies s[i + k] == w[k] by {
        assert(s.subrange(i, i + w.len())[k] == s[i + k]);
    }
    if b.len() == 0 {
        assert(s[i] == w[0]);
        assert(Seq::<u8>::empty() =~= b);
    } else {
        let first = escape_byte(b[0]);
        let rest = b.drop_first();
        let tail = escape(rest) + seq![QUOTE];
        assert(w =~= first + tail);
        assert forall|k: int| 0 <= k < first.len() implies s[i + k] == first[k] by {
            assert(w[k] == first[k]);
        }
        assert(s.subrange(i, i + first.len()) =~= first);
        lemma_read_written_byte(s, i, b[0]);
        assert forall|k: int| 0 <= k < tail.len() implies s[i + first.len() + k] == tail[k] by {
            assert(w[first.len() + k] == tail[k]);
        }
        assert(s.subrange(i + first.len(), i + first.len() + tail.len()) =~= tail);
        lemma_unescape_escape(s, i + first.len(), rest);
        assert(seq![b[0]] + rest =~= b);
    }
}

/// The reader accepts only what the writer produces: what it read, written
/// again and closed by a quote, is what stands in `s`.
pub proof fn lemma_escape_unescape(s: Seq<u8>, i: int)
    requires
        unescape_from(s, i) is Some,
    ensures
        ({
            let (b, end) = unescape_from(s, i).unwrap();
            &&& end == i + escape(b).len() + 1
            &&& has_at(s, i, escape(b) + seq![QUOTE])
        }),
    decreases s.len() - i,
{
    let (b, end) = unescape_from(s, i).unwrap();
    if s[i] == QUOTE {
        assert(s.subrange(i, i + 1) =~= escape(b) + seq![QUOTE]);
    } else {
        let (first, width) = read_byte(s, i).unwrap();
        lemma_read_byte_is_written(s, i);
        lemma_escape_unescape(s, i + width);
        let (rest, end2) = unescape_from(s, i + width).unwrap();
        assert(b =~= seq![first] + rest);
        assert(b.drop_first() =~= rest);
        assert(s.subrange(i, end) =~= s.subrange(i, i + width) + s.subrange(i + width, end));
        assert(s.subrange(i, end) =~= escape(b) + seq![QUOTE]);
    }
}

} // verus!
