//! The written form of commands and responses.
//!
//! A command is written as one line of text without its line feed, such as
//! `{"Set":{"key":"a","value":"1"}}`. `encoding` says which bytes a command is
//! written as, `decoding` which command some bytes are read as. Reading
//! accepts exactly what writing produces, so each is the inverse of the
//! other; the laws at the end of this file say so.

use crate::bytes::{has_at, holds_at, lemma_has_at_index, lemma_has_at_parts, lemma_has_at_whole};
use crate::command::{Command, CommandView, ResponseView, ServerResponse};
use crate::json::{
    escape, lemma_escape_no_line_feed, lemma_escape_unescape, lemma_unescape_escape, read_quoted,
    unescape_from, write_escaped, QUOTE,
};
use crate::pieces::{
    close, close_bytes, found_close, found_close_bytes, found_head, found_head_bytes, get_head,
    get_head_bytes, not_found, not_found_bytes, put_head, put_head_bytes, remove_failure,
    remove_failure_bytes, remove_head, remove_head_bytes, remove_success, remove_success_bytes,
    set_failure, set_failure_bytes, set_success, set_success_bytes, value_sep, value_sep_bytes,
};
use crate::text::{lemma_bytes_of_text, lemma_text_of_bytes, text_of, to_text};
use vstd::prelude::*;
use vstd::utf8::encode_utf8;

verus! {

/// A string as it is written after its opening quote: its bytes escaped, then
/// the closing quote.
pub open spec fn written(t: Seq<char>) -> Seq<u8> {
    escape(encode_utf8(t)) + seq![QUOTE]
}

/// The bytes that a command is written as.
#[verifier::opaque]
pub open spec fn encoding(c: CommandView) -> Seq<u8> {
    match c {
        CommandView::Put { key, value } => put_head() + written(key) + value_sep() + written(value)
            + close(),
        CommandView::Get { key } => get_head() + written(key) + close(),
        CommandView::Remove { key } => remove_head() + written(key) + close(),
    }
}

/// Reads the string written at index `i` of `s`, just past its opening
/// quote: the string, and the index just past its closing quote.
pub open spec fn read_text(s: Seq<u8>, i: int) -> Option<(Seq<char>, int)> {
    match unescape_from(s, i) {
        Some((bytes, end)) => match text_of(bytes) {
            Some(t) => Some((t, end)),
            None => None,
        },
        None => None,
    }
}

/// Reads the key of a command with one field: the key written at `i`, if
/// `s` ends right after it with the closing braces.
pub open spec fn read_key_only(s: Seq<u8>, i: int) -> Option<Seq<char>> {
    match read_text(s, i) {
        Some((key, end)) => if has_at(s, end, close()) && end + close().len() == s.len() {
            Some(key)
        } else {
            None
        },
        None => None,
    }
}

/// Reads the key and the value of a `Set` record whose key is written at
/// `i`.
pub open spec fn read_key_value(s: Seq<u8>, i: int) -> Option<(Seq<char>, Seq<char>)> {
    match read_text(s, i) {
        Some((key, mid)) => if has_at(s, mid, value_sep()) {
            match read_text(s, mid + value_sep().len()) {
                Some((value, end)) => if has_at(s, end, close()) && end + close().len()
                    == s.len() {
                    Some((key, value))
                } else {
                    None
                },
                None => None,
            }
        } else {
            None
        },
        None => None,
    }
}

/// The command that the bytes `s` are read as, `None` where they are not the
/// written form of any command.
#[verifier::opaque]
pub open spec fn decoding(s: Seq<u8>) -> Option<CommandView> {
    if has_at(s, 0, put_head()) {
        match read_key_value(s, put_head().len() as int) {
            Some((key, value)) => Some(CommandView::Put { key, value }),
            None => None,
        }
    } else if has_at(s, 0, get_head()) {
        match read_key_only(s, get_head().len() as int) {
            Some(key) => Some(CommandView::Get { key }),
            None => None,
        }
    } else if has_at(s, 0, remove_head()) {
        match read_key_only(s, remove_head().len() as int) {
            Some(key) => Some(CommandView::Remove { key }),
            None => None,
        }
    } else {
        None
    }
}

/// The bytes that a response is written as.
#[verifier::opaque]
pub open spec fn response_encoding(r: ResponseView) -> Seq<u8> {
    match r {
        ResponseView::GetResponse(Some(value)) => found_head() + written(value) + found_close(),
        ResponseView::GetResponse(None) => not_found(),
        ResponseView::RemoveSuccess => remove_success(),
        ResponseView::RemoveFailure => remove_failure(),
        ResponseView::SetSuccess => set_success(),
        ResponseView::SetFailure => set_failure(),
    }
}

/// The response that the bytes `s` are read as, `None` where they are not
/// the written form of any response.
#[verifier::opaque]
pub open spec fn response_decoding(s: Seq<u8>) -> Option<ResponseView> {
    if has_at(s, 0, found_head()) {
        match read_text(s, found_head().len() as int) {
            Some((value, end)) => if has_at(s, end, found_close()) && end + found_close().len()
                == s.len() {
                Some(ResponseView::GetResponse(Some(value)))
            } else {
                None
            },
            None => None,
        }
    } else if s == not_found() {
        Some(ResponseView::GetResponse(None))
    } else if s == remove_success() {
        Some(ResponseView::RemoveSuccess)
    } else if s == remove_failure() {
        Some(ResponseView::RemoveFailure)
    } else if s == set_success() {
        Some(ResponseView::SetSuccess)
    } else if s == set_failure() {
        Some(ResponseView::SetFailure)
    } else {
        None
    }
}

/// Appends a string as it is written after its opening quote.
fn write_text(out: &mut Vec<u8>, t: &str)
    ensures
        final(out)@ == old(out)@ + written(t@),
{
    write_escaped(out, t.as_bytes());
    out.push(QUOTE);
    assert(out@ =~= old(out)@ + written(t@));
}

/// Reads the string written at index `start` of `s`.
fn read_string(s: &[u8], start: usize) -> (r: Option<(String, usize)>)
    ensures
        match r {
            Some((t, end)) => read_text(s@, start as int) == Some((t@, end as int)),
            None => read_text(s@, start as int) is None,
        },
{
    match read_quoted(s, start) {
        None => None,
        Some((bytes, end)) => match to_text(bytes) {
            Some(t) => Some((t, end)),
            None => None,
        },
    }
}

/// Whether `s` ends at index `end` but for the piece `p`.
fn ends_with_at(s: &[u8], end: usize, p: &[u8]) -> (r: bool)
    ensures
        r == (has_at(s@, end as int, p@) && end + p@.len() == s@.len()),
{
    holds_at(s, end, p) && s.len() - end == p.len()
}

/// Whether `s` is the piece `p`.
fn is_piece(s: &[u8], p: &[u8]) -> (r: bool)
    ensures
        r == (s@ == p@),
{
    proof {
        lemma_has_at_whole(s@, p@);
    }
    s.len() == p.len() && holds_at(s, 0, p)
}

fn decode_key_only(s: &[u8], start: usize) -> (r: Option<String>)
    ensures
        match r {
            Some(key) => read_key_only(s@, start as int) == Some(key@),
            None => read_key_only(s@, start as int) is None,
        },
{
    match read_string(s, start) {
        None => None,
        Some((key, end)) => {
            let tail = close_bytes();
            if ends_with_at(s, end, &tail) {
                Some(key)
            } else {
                None
            }
        },
    }
}

fn decode_key_value(s: &[u8], start: usize) -> (r: Option<(String, String)>)
    ensures
        match r {
            Some((key, value)) => read_key_value(s@, start as int) == Some((key@, value@)),
            None => read_key_value(s@, start as int) is None,
        },
{
    match read_string(s, start) {
        None => None,
        Some((key, mid)) => {
            let sep = value_sep_bytes();
            if !holds_at(s, mid, &sep) {
                return None;
            }
            assert(mid + value_sep().len() <= s.len());
            match read_string(s, mid + sep.len()) {
                None => None,
                Some((value, end)) => {
                    let tail = close_bytes();
                    if ends_with_at(s, end, &tail) {
                        Some((key, value))
                    } else {
                        None
                    }
                },
            }
        },
    }
}

/// Writes a `Set` record for `key` and `value`.
pub fn put_record(key: &str, value: &str) -> (out: Vec<u8>)
    ensures
        out@ == encoding(CommandView::Put { key: key@, value: value@ }),
{
    proof {
        reveal(encoding);
    }
    let mut out: Vec<u8> = Vec::new();
    let head = put_head_bytes();
    let sep = value_sep_bytes();
    let tail = close_bytes();
    out.extend_from_slice(&head);
    write_text(&mut out, key);
    out.extend_from_slice(&sep);
    write_text(&mut out, value);
    out.extend_from_slice(&tail);
    assert(out@ =~= encoding(CommandView::Put { key: key@, value: value@ }));
    out
}

/// Writes a `Get` request for `key`.
pub fn get_request(key: &str) -> (out: Vec<u8>)
    ensures
        out@ == encoding(CommandView::Get { key: key@ }),
{
    proof {
        reveal(encoding);
    }
    let mut out: Vec<u8> = Vec::new();
    let head = get_head_bytes();
    let tail = close_bytes();
    out.extend_from_slice(&head);
    write_text(&mut out, key);
    out.extend_from_slice(&tail);
    assert(out@ =~= encoding(CommandView::Get { key: key@ }));
    out
}

/// Writes a `Remove` record for `key`.
pub fn remove_record(key: &str) -> (out: Vec<u8>)
    ensures
        out@ == encoding(CommandView::Remove { key: key@ }),
{
    proof {
        reveal(encoding);
    }
    let mut out: Vec<u8> = Vec::new();
    let head = remove_head_bytes();
    let tail = close_bytes();
    out.extend_from_slice(&head);
    write_text(&mut out, key);
    out.extend_from_slice(&tail);
    assert(out@ =~= encoding(CommandView::Remove { key: key@ }));
    out
}

impl Command {
    /// Writes the command: the bytes of its one line, without a line feed.
    pub fn encode(&self) -> (out: Vec<u8>)
        ensures
            out@ == encoding(self@),
    {
        match self {
            Command::Put { key, value } => put_record(key.as_str(), value.as_str()),
            Command::Get { key } => get_request(key.as_str()),
            Command::Remove { key } => remove_record(key.as_str()),
        }
    }

    /// Reads a command from the bytes of one line, without its line feed.
    /// `None` where the bytes are not the written form of a command.
    pub fn decode(bytes: &[u8]) -> (r: Option<Command>)
        ensures
            match r {
                Some(c) => decoding(bytes@) == Some(c@),
                None => decoding(bytes@) is None,
            },
    {
        proof {
            reveal(decoding);
        }
        let put = put_head_bytes();
        let get = get_head_bytes();
        let remove = remove_head_bytes();
        if holds_at(bytes, 0, &put) {
            match decode_key_value(bytes, put.len()) {
                Some((key, value)) => Some(Command::Put { key, value }),
                None => None,
            }
        } else if holds_at(bytes, 0, &get) {
            match decode_key_only(bytes, get.len()) {
                Some(key) => Some(Command::Get { key }),
                None => None,
            }
        } else if holds_at(bytes, 0, &remove) {
            match decode_key_only(bytes, remove.len()) {
                Some(key) => Some(Command::Remove { key }),
                None => None,
            }
        } else {
            None
        }
    }
}

impl ServerResponse {
    /// Writes the response: the bytes of its one line, without a line feed.
    pub fn encode(&self) -> (out: Vec<u8>)
        ensures
            out@ == response_encoding(self@),
    {
        proof {
            reveal(response_encoding);
        }
        let mut out: Vec<u8> = Vec::new();
        match self {
            ServerResponse::GetResponse(Some(value)) => {
                let head = found_head_bytes();
                let tail = found_close_bytes();
                out.extend_from_slice(&head);
                write_text(&mut out, value.as_str());
                out.extend_from_slice(&tail);
                assert(out@ =~= response_encoding(self@));
            },
            ServerResponse::GetResponse(None) => {
                let whole = not_found_bytes();
                out.extend_from_slice(&whole);
                assert(out@ =~= response_encoding(self@));
            },
            ServerResponse::RemoveSuccess => {
                let whole = remove_success_bytes();
                out.extend_from_slice(&whole);
                assert(out@ =~= response_encoding(self@));
            },
            ServerResponse::RemoveFailure => {
                let whole = remove_failure_bytes();
                out.extend_from_slice(&whole);
                assert(out@ =~= response_encoding(self@));
            },
            ServerResponse::SetSuccess => {
                let whole = set_success_bytes();
                out.extend_from_slice(&whole);
                assert(out@ =~= response_encoding(self@));
            },
            ServerResponse::SetFailure => {
                let whole = set_failure_bytes();
                out.extend_from_slice(&whole);
                assert(out@ =~= response_encoding(self@));
            },
        }
        out
    }

    /// Reads a response from the bytes of one line, without its line feed.
    /// `None` where the bytes are not the written form of a response.
    pub fn decode(bytes: &[u8]) -> (r: Option<ServerResponse>)
        ensures
            match r {
                Some(response) => response_decoding(bytes@) == Some(response@),
                None => response_decoding(bytes@) is None,
            },
    {
        proof {
            reveal(response_decoding);
        }
        let head = found_head_bytes();
        if holds_at(bytes, 0, &head) {
            match read_string(bytes, head.len()) {
                None => None,
                Some((value, end)) => {
                    let tail = found_close_bytes();
                    if ends_with_at(bytes, end, &tail) {
                        Some(ServerResponse::GetResponse(Some(value)))
                    } else {
                        None
                    }
                },
            }
        } else if is_piece(bytes, &not_found_bytes()) {
            Some(ServerResponse::GetResponse(None))
        } else if is_piece(bytes, &remove_success_bytes()) {
            Some(ServerResponse::RemoveSuccess)
        } else if is_piece(bytes, &remove_failure_bytes()) {
            Some(ServerResponse::RemoveFailure)
        } else if is_piece(bytes, &set_success_bytes()) {
            Some(ServerResponse::SetSuccess)
        } else if is_piece(bytes, &set_failure_bytes()) {
            Some(ServerResponse::SetFailure)
        } else {
            None
        }
    }
}

/// A written string is read back as the string, up to just past its closing
/// quote.
pub proof fn lemma_read_written(s: Seq<u8>, i: int, t: Seq<char>)
    requires
        has_at(s, i, written(t)),
    ensures
        read_text(s, i) == Some((t, i + written(t).len())),
{
    lemma_unescape_escape(s, i, encode_utf8(t));
    lemma_text_of_bytes(t);
}

/// What is read as a string is that string's written form.
pub proof fn lemma_written_read(s: Seq<u8>, i: int)
    requires
        read_text(s, i) is Some,
    ensures
        ({
            let (t, end) = read_text(s, i).unwrap();
            &&& end == i + written(t).len()
            &&& has_at(s, i, written(t))
        }),
{
    lemma_escape_unescape(s, i);
    let (bytes, end) = unescape_from(s, i).unwrap();
    lemma_bytes_of_text(bytes);
}

/// A command with one field is read back: its head stands at the start,
/// and its key is read after the head.
proof fn lemma_decoding_of_one_field(s: Seq<u8>, head: Seq<u8>, key: Seq<char>)
    requires
        s == head + written(key) + close(),
    ensures
        has_at(s, 0, head),
        read_key_only(s, head.len() as int) == Some(key),
{
    lemma_has_at_whole(s, s);
    lemma_has_at_parts(s, 0, head + written(key), close());
    lemma_has_at_parts(s, 0, head, written(key));
    lemma_read_written(s, head.len() as int, key);
}

/// What is read as a command with one field is that command's written
/// form.
proof fn lemma_encoding_of_one_field(s: Seq<u8>, head: Seq<u8>)
    requires
        has_at(s, 0, head),
        read_key_only(s, head.len() as int) is Some,
    ensures
        s == head + written(read_key_only(s, head.len() as int).unwrap()) + close(),
{
    let key = read_key_only(s, head.len() as int).unwrap();
    lemma_written_read(s, head.len() as int);
    lemma_has_at_parts(s, 0, head, written(key));
    lemma_has_at_parts(s, 0, head + written(key), close());
    lemma_has_at_whole(s, head + written(key) + close());
}

/// A command that is written and then read is the same command.
pub proof fn decoding_of_encoding(c: CommandView)
    ensures
        decoding(encoding(c)) == Some(c),
{
    reveal(encoding);
    reveal(decoding);
    let s = encoding(c);
    match c {
        CommandView::Put { key, value } => {
            let a = put_head() + written(key);
            let b = a + value_sep();
            let d = b + written(value);
            lemma_has_at_whole(s, s);
            lemma_has_at_parts(s, 0, d, close());
            lemma_has_at_parts(s, 0, b, written(value));
            lemma_has_at_parts(s, 0, a, value_sep());
            lemma_has_at_parts(s, 0, put_head(), written(key));
            lemma_read_written(s, put_head().len() as int, key);
            lemma_read_written(s, b.len() as int, value);
        },
        CommandView::Get { key } => {
            lemma_decoding_of_one_field(s, get_head(), key);
            lemma_has_at_index(s, 0, get_head(), 2);
            if has_at(s, 0, put_head()) {
                lemma_has_at_index(s, 0, put_head(), 2);
            }
        },
        CommandView::Remove { key } => {
            lemma_decoding_of_one_field(s, remove_head(), key);
            lemma_has_at_index(s, 0, remove_head(), 2);
            if has_at(s, 0, put_head()) {
                lemma_has_at_index(s, 0, put_head(), 2);
            }
            if has_at(s, 0, get_head()) {
                lemma_has_at_index(s, 0, get_head(), 2);
            }
        },
    }
}

/// Bytes that are read as a command are that command's written form: no two
/// byte strings are read as the same command.
pub proof fn encoding_of_decoding(s: Seq<u8>)
    requires
        decoding(s) is Some,
    ensures
        encoding(decoding(s).unwrap()) == s,
{
    reveal(encoding);
    reveal(decoding);
    if has_at(s, 0, put_head()) {
        let start = put_head().len() as int;
        let (key, value) = read_key_value(s, start).unwrap();
        lemma_written_read(s, start);
        let mid = start + written(key).len();
        lemma_written_read(s, mid + value_sep().len());
        let a = put_head() + written(key);
        let b = a + value_sep();
        let d = b + written(value);
        lemma_has_at_parts(s, 0, put_head(), written(key));
        lemma_has_at_parts(s, 0, a, value_sep());
        lemma_has_at_parts(s, 0, b, written(value));
        lemma_has_at_parts(s, 0, d, close());
        lemma_has_at_whole(s, d + close());
    } else if has_at(s, 0, get_head()) {
        lemma_encoding_of_one_field(s, get_head());
    } else {
        lemma_encoding_of_one_field(s, remove_head());
    }
}

/// Two commands with the same written form are the same command.
pub proof fn encoding_is_injective(a: CommandView, b: CommandView)
    requires
        encoding(a) == encoding(b),
    ensures
        a == b,
{
    decoding_of_encoding(a);
    decoding_of_encoding(b);
}

/// The written form of a command holds no line feed, so it is one line.
pub proof fn encoding_is_one_line(c: CommandView)
    ensures
        forall|i: int| 0 <= i < encoding(c).len() ==> encoding(c)[i] != 0x0a,
{
    reveal(encoding);
    match c {
        CommandView::Put { key, value } => {
            lemma_escape_no_line_feed(encode_utf8(key));
            lemma_escape_no_line_feed(encode_utf8(value));
        },
        CommandView::Get { key } => {
            lemma_escape_no_line_feed(encode_utf8(key));
        },
        CommandView::Remove { key } => {
            lemma_escape_no_line_feed(encode_utf8(key));
        },
    }
}

/// A response that is written and then read is the same response.
pub proof fn response_decoding_of_encoding(r: ResponseView)
    ensures
        response_decoding(response_encoding(r)) == Some(r),
{
    reveal(response_encoding);
    reveal(response_decoding);
    let s = response_encoding(r);
    match r {
        ResponseView::GetResponse(Some(value)) => {
            lemma_has_at_whole(s, s);
            lemma_has_at_parts(s, 0, found_head() + written(value), found_close());
            lemma_has_at_parts(s, 0, found_head(), written(value));
            lemma_read_written(s, found_head().len() as int, value);
        },
        ResponseView::GetResponse(None) => {
            if has_at(s, 0, found_head()) {
                lemma_has_at_index(s, 0, found_head(), 15);
            }
        },
        _ => {
            if has_at(s, 0, found_head()) {
                lemma_has_at_index(s, 0, found_head(), 0);
            }
            assert(remove_success()[7] != remove_failure()[7]);
            assert(set_success()[4] != set_failure()[4]);
            assert(remove_success()[1] != set_success()[1]);
            assert(not_found()[0] != remove_success()[0]);
            assert(not_found()[0] != set_success()[0]);
        },
    }
}

/// Bytes that are read as a response are that response's written form.
pub proof fn response_encoding_of_decoding(s: Seq<u8>)
    requires
        response_decoding(s) is Some,
    ensures
        response_encoding(response_decoding(s).unwrap()) == s,
{
    reveal(response_encoding);
    reveal(response_decoding);
    if has_at(s, 0, found_head()) {
        let start = found_head().len() as int;
        let (value, end) = read_text(s, start).unwrap();
        lemma_written_read(s, start);
        lemma_has_at_parts(s, 0, found_head(), written(value));
        lemma_has_at_parts(s, 0, found_head() + written(value), found_close());
        lemma_has_at_whole(s, found_head() + written(value) + found_close());
    }
}

/// The written form of a response holds no line feed.
pub proof fn response_encoding_is_one_line(r: ResponseView)
    ensures
        forall|i: int|
            0 <= i < response_encoding(r).len() ==> response_encoding(r)[i] != 0x0a,
{
    reveal(response_encoding);
    match r {
        ResponseView::GetResponse(Some(value)) => {
            lemma_escape_no_line_feed(encode_utf8(value));
        },
        _ => {},
    }
}

} // verus!
