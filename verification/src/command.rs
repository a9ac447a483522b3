//! Requests and responses, and what each of them is in contracts.

use vstd::prelude::*;

verus! {

/// A command of the store. `Put` and `Remove` are also the records of the
/// log; `Get` is a request only. `Put` is the command that sets a key; in its
/// written form its tag is `Set`.
#[derive(Debug, PartialEq, Eq)]
pub enum Command {
    /// Give `key` the value `value`.
    Put { key: String, value: String },
    /// Ask for the value of `key`.
    Get { key: String },
    /// Take `key` and its value away.
    Remove { key: String },
}

/// A command as contracts see it: the same variants over character
/// sequences.
pub enum CommandView {
    Put { key: Seq<char>, value: Seq<char> },
    Get { key: Seq<char> },
    Remove { key: Seq<char> },
}

impl View for Command {
    type V = CommandView;

    open spec fn view(&self) -> CommandView {
        match self {
            Command::Put { key, value } => CommandView::Put { key: key@, value: value@ },
            Command::Get { key } => CommandView::Get { key: key@ },
            Command::Remove { key } => CommandView::Remove { key: key@ },
        }
    }
}

/// What the server answers.
#[derive(Debug, PartialEq, Eq)]
pub enum ServerResponse {
    /// The answer to `Get`: the value, or `None` where the key has none.
    GetResponse(Option<String>),
    /// The key and its value were taken away.
    RemoveSuccess,
    /// The key was not taken away.
    RemoveFailure,
    /// The key has the new value.
    SetSuccess,
    /// The key was not given the new value.
    SetFailure,
}

/// A response as contracts see it.
pub enum ResponseView {
    GetResponse(Option<Seq<char>>),
    RemoveSuccess,
    RemoveFailure,
    SetSuccess,
    SetFailure,
}

impl View for ServerResponse {
    type V = ResponseView;

    open spec fn view(&self) -> ResponseView {
        match self {
            ServerResponse::GetResponse(Some(value)) => ResponseView::GetResponse(Some(value@)),
            ServerResponse::GetResponse(None) => ResponseView::GetResponse(None),
            ServerResponse::RemoveSuccess => ResponseView::RemoveSuccess,
            ServerResponse::RemoveFailure => ResponseView::RemoveFailure,
            ServerResponse::SetSuccess => ResponseView::SetSuccess,
            ServerResponse::SetFailure => ResponseView::SetFailure,
        }
    }
}

} // verus!
