//! The server's part of the protocol: from the line that a connection sent
//! to the line that is sent back.

use crate::codec::response_encoding;
use crate::command::{Command, CommandView, ResponseView, ServerResponse};
use crate::engine::KvsEngine;
use crate::error::KvsError;
use crate::log::LINE_FEED;
use crate::wire::{framed, request_of, strip_line_feed, text_view};
use vstd::prelude::*;

verus! {

/// Whether `response` is of the kind that answers `request`.
pub open spec fn answers(request: CommandView, response: ResponseView) -> bool {
    match request {
        CommandView::Get { key } => response is GetResponse,
        CommandView::Put { key, value } => response is SetSuccess || response is SetFailure,
        CommandView::Remove { key } => response is RemoveSuccess || response is RemoveFailure,
    }
}

/// Reads the request that a received line holds.
pub fn read_request(line: &[u8]) -> (r: Result<Command, KvsError>)
    ensures
        match r {
            Ok(command) => request_of(line@) == Some(command@),
            Err(e) => e is Protocol && request_of(line@) is None,
        },
{
    match Command::decode(strip_line_feed(line)) {
        Some(command) => Ok(command),
        None => Err(KvsError::Protocol),
    }
}

/// The line that carries `response`.
pub fn write_response(response: &ServerResponse) -> (line: Vec<u8>)
    ensures
        line@ == framed(response_encoding(response@)),
{
    let mut line = response.encode();
    line.push(LINE_FEED);
    line
}

/// The answer to `Get`, given what the engine returned: its value goes to
/// the client, its error ends the request.
pub fn get_response(outcome: Result<Option<String>, KvsError>) -> (r: Result<
    ServerResponse,
    KvsError,
>)
    ensures
        match outcome {
            Ok(value) => r is Ok && r.unwrap()@ == ResponseView::GetResponse(text_view(value)),
            Err(e) => r == Err::<ServerResponse, KvsError>(e),
        },
{
    match outcome {
        Ok(value) => Ok(ServerResponse::GetResponse(value)),
        Err(e) => Err(e),
    }
}

/// The answer to `Set`, given what the engine returned. A failure of the
/// engine is reported to the client, but for corruption, which ends the
/// request.
pub fn set_response(outcome: Result<(), KvsError>) -> (r: Result<ServerResponse, KvsError>)
    ensures
        match outcome {
            Ok(done) => r is Ok && r.unwrap()@ == ResponseView::SetSuccess,
            Err(e) => if e is Corruption {
                r == Err::<ServerResponse, KvsError>(e)
            } else {
                r is Ok && r.unwrap()@ == ResponseView::SetFailure
            },
        },
{
    match outcome {
        Ok(done) => Ok(ServerResponse::SetSuccess),
        Err(KvsError::Corruption) => Err(KvsError::Corruption),
        Err(other) => Ok(ServerResponse::SetFailure),
    }
}

/// The answer to `Remove`, given what the engine returned. A failure of
/// the engine, a key without a value among them, is reported to the
/// client, but for corruption, which ends the request.
pub fn remove_response(outcome: Result<(), KvsError>) -> (r: Result<ServerResponse, KvsError>)
    ensures
        match outcome {
            Ok(done) => r is Ok && r.unwrap()@ == ResponseView::RemoveSuccess,
            Err(e) => if e is Corruption {
                r == Err::<ServerResponse, KvsError>(e)
            } else {
                r is Ok && r.unwrap()@ == ResponseView::RemoveFailure
            },
        },
{
    match outcome {
        Ok(done) => Ok(ServerResponse::RemoveSuccess),
        Err(KvsError::Corruption) => Err(KvsError::Corruption),
        Err(other) => Ok(ServerResponse::RemoveFailure),
    }
}

/// Serves one request: reads it from the received line, has the engine
/// carry it out, and returns the line to send back.
///
/// A line that holds no request is a protocol error, and the engine is not
/// called. Otherwise the result is a response of the kind that answers the
/// request, with a line feed after it; or an error, which comes from the
/// engine and is either its failure at a `Get` or corruption.
pub fn handle_client_request<E: KvsEngine>(engine: &mut E, line: &[u8]) -> (r: Result<
    Vec<u8>,
    KvsError,
>)
    ensures
        match request_of(line@) {
            None => r is Err && r.unwrap_err() is Protocol && *final(engine) == *old(engine),
            Some(request) => match r {
                Ok(sent) => exists|response: ResponseView|
                    answers(request, response) && sent@ == framed(
                        #[trigger] response_encoding(response),
                    ),
                Err(e) => request is Get || e is Corruption,
            },
        },
{
    let command = match read_request(line) {
        Ok(command) => command,
        Err(e) => {
            return Err(e);
        },
    };
    let answer = match command {
        Command::Get { key } => get_response(engine.get(key)),
        Command::Put { key, value } => set_response(engine.set(key, value)),
        Command::Remove { key } => remove_response(engine.remove(key)),
    };
    match answer {
        Ok(response) => Ok(write_response(&response)),
        Err(e) => Err(e),
    }
}

/// Whether an error that ended a request also ends the server. A request
/// that was malformed ends its connection only; any other error, which
/// comes from the engine, ends the server.
pub fn ends_server(error: &KvsError) -> (r: bool)
    ensures
        r == !(error is Protocol),
{
    match error {
        KvsError::Protocol => false,
        _ => true,
    }
}

} // verus!
