//! Lines on the wire: a request or a response travels as its written
//! form with a line feed after it.

use crate::codec::{
    decoding, decoding_of_encoding, encoding, response_decoding, response_decoding_of_encoding,
    response_encoding,
};
use crate::command::{CommandView, ResponseView};
use crate::log::LINE_FEED;
use vstd::prelude::*;
use vstd::slice::slice_subrange;

verus! {

/// A written request or response as it travels: with a line feed after it.
pub open spec fn framed(body: Seq<u8>) -> Seq<u8> {
    body + seq![LINE_FEED]
}

/// What was received, without the line feed that ends it. What ends
/// without one, because the stream ended first, stands as it is.
pub open spec fn unframed(line: Seq<u8>) -> Seq<u8> {
    if line.len() > 0 && line.last() == LINE_FEED {
        line.drop_last()
    } else {
        line
    }
}

/// The request that a received line holds, `None` where it holds none.
pub open spec fn request_of(line: Seq<u8>) -> Option<CommandView> {
    decoding(unframed(line))
}

/// A string, or none, as contracts see it.
pub open spec fn text_view(value: Option<String>) -> Option<Seq<char>> {
    match value {
        Some(text) => Some(text@),
        None => None,
    }
}

/// Takes the line feed off the end of a received line.
pub fn strip_line_feed(line: &[u8]) -> (body: &[u8])
    ensures
        body@ == unframed(line@),
{
    let n: usize = line.len();
    if n > 0 && line[n - 1] == LINE_FEED {
        slice_subrange(line, 0, n - 1)
    } else {
        line
    }
}

/// Framing is undone by unframing.
pub proof fn unframed_of_framed(body: Seq<u8>)
    ensures
        unframed(framed(body)) == body,
{
    assert(framed(body).drop_last() =~= body);
}

/// What the client writes for a command is what the server reads as that
/// command.
pub proof fn request_is_read_as_written(command: CommandView)
    ensures
        request_of(framed(encoding(command))) == Some(command),
{
    unframed_of_framed(encoding(command));
    decoding_of_encoding(command);
}

/// What the server writes for a response is what the client reads as that
/// response.
pub proof fn response_is_read_as_written(response: ResponseView)
    ensures
        response_decoding(unframed(framed(response_encoding(response)))) == Some(response),
{
    unframed_of_framed(response_encoding(response));
    response_decoding_of_encoding(response);
}

} // verus!
