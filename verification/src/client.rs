//! The client's part of the protocol: the line that carries a command, and
//! what the line that came back means.

use crate::codec::{encoding, response_decoding};
use crate::command::{Command, ResponseView, ServerResponse};
use crate::error::KvsError;
use crate::log::LINE_FEED;
use crate::wire::{framed, strip_line_feed, text_view, unframed};
use vstd::prelude::*;

verus! {

/// The line that carries `command` to the server.
pub fn write_request(command: &Command) -> (line: Vec<u8>)
    ensures
        line@ == framed(encoding(command@)),
{
    let mut line = command.encode();
    line.push(LINE_FEED);
    line
}

/// What the server's answer means to the caller of a command: the value
/// of a `Get`, `None` after a `Set` or a `Remove` that was carried out or
/// a `Set` that was not, and `KeyNotFound` after a `Remove` that was not.
/// What is no written response is a protocol error.
pub fn read_response(received: &[u8]) -> (r: Result<Option<String>, KvsError>)
    ensures
        match response_decoding(unframed(received@)) {
            None => r is Err && r.unwrap_err() is Protocol,
            Some(ResponseView::GetResponse(value)) => r is Ok && text_view(r.unwrap()) == value,
            Some(ResponseView::RemoveFailure) => r is Err && r.unwrap_err() is KeyNotFound,
            Some(other) => r is Ok && r.unwrap() is None,
        },
{
    match ServerResponse::decode(strip_line_feed(received)) {
        None => Err(KvsError::Protocol),
        Some(ServerResponse::GetResponse(value)) => Ok(value),
        Some(ServerResponse::RemoveFailure) => Err(KvsError::KeyNotFound),
        Some(other) => Ok(None),
    }
}

} // verus!
