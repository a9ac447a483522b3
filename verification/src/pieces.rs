//! The fixed pieces of the written forms: the bytes that stand around the
//! keys and values of commands and responses.

use vstd::prelude::*;

verus! {

/// The opening of a `Set` record, up to the opening quote of its key:
/// `{"Set":{"key":"`.
pub open spec fn put_head() -> Seq<u8> {
    seq![
        '{' as u8, '"' as u8, 'S' as u8, 'e' as u8, 't' as u8, '"' as u8,
        ':' as u8, '{' as u8, '"' as u8, 'k' as u8, 'e' as u8, 'y' as u8,
        '"' as u8, ':' as u8, '"' as u8,
    ]
}

pub(crate) fn put_head_bytes() -> (r: [u8; 15])
    ensures
        r@ == put_head(),
{
    let r: [u8; 15] = [
        '{' as u8, '"' as u8, 'S' as u8, 'e' as u8, 't' as u8, '"' as u8,
        ':' as u8, '{' as u8, '"' as u8, 'k' as u8, 'e' as u8, 'y' as u8,
        '"' as u8, ':' as u8, '"' as u8,
    ];
    assert(r@ =~= put_head());
    r
}

/// The opening of a `Get` request: `{"Get":{"key":"`.
pub open spec fn get_head() -> Seq<u8> {
    seq![
        '{' as u8, '"' as u8, 'G' as u8, 'e' as u8, 't' as u8, '"' as u8,
        ':' as u8, '{' as u8, '"' as u8, 'k' as u8, 'e' as u8, 'y' as u8,
        '"' as u8, ':' as u8, '"' as u8,
    ]
}

pub(crate) fn get_head_bytes() -> (r: [u8; 15])
    ensures
        r@ == get_head(),
{
    let r: [u8; 15] = [
        '{' as u8, '"' as u8, 'G' as u8, 'e' as u8, 't' as u8, '"' as u8,
        ':' as u8, '{' as u8, '"' as u8, 'k' as u8, 'e' as u8, 'y' as u8,
        '"' as u8, ':' as u8, '"' as u8,
    ];
    assert(r@ =~= get_head());
    r
}

/// The opening of a `Remove` record: `{"Remove":{"key":"`.
pub open spec fn remove_head() -> Seq<u8> {
    seq![
        '{' as u8, '"' as u8, 'R' as u8, 'e' as u8, 'm' as u8, 'o' as u8,
        'v' as u8, 'e' as u8, '"' as u8, ':' as u8, '{' as u8, '"' as u8,
        'k' as u8, 'e' as u8, 'y' as u8, '"' as u8, ':' as u8, '"' as u8,
    ]
}

pub(crate) fn remove_head_bytes() -> (r: [u8; 18])
    ensures
        r@ == remove_head(),
{
    let r: [u8; 18] = [
        '{' as u8, '"' as u8, 'R' as u8, 'e' as u8, 'm' as u8, 'o' as u8,
        'v' as u8, 'e' as u8, '"' as u8, ':' as u8, '{' as u8, '"' as u8,
        'k' as u8, 'e' as u8, 'y' as u8, '"' as u8, ':' as u8, '"' as u8,
    ];
    assert(r@ =~= remove_head());
    r
}

/// What stands between the closing quote of the key and the opening quote
/// of the value: `,"value":"`.
pub open spec fn value_sep() -> Seq<u8> {
    seq![
        ',' as u8, '"' as u8, 'v' as u8, 'a' as u8, 'l' as u8, 'u' as u8,
        'e' as u8, '"' as u8, ':' as u8, '"' as u8,
    ]
}

pub(crate) fn value_sep_bytes() -> (r: [u8; 10])
    ensures
        r@ == value_sep(),
{
    let r: [u8; 10] = [
        ',' as u8, '"' as u8, 'v' as u8, 'a' as u8, 'l' as u8, 'u' as u8,
        'e' as u8, '"' as u8, ':' as u8, '"' as u8,
    ];
    assert(r@ =~= value_sep());
    r
}

/// What closes a command after the last closing quote: `}}`.
pub open spec fn close() -> Seq<u8> {
    seq![
        '}' as u8, '}' as u8,
    ]
}

pub(crate) fn close_bytes() -> (r: [u8; 2])
    ensures
        r@ == close(),
{
    let r: [u8; 2] = [
        '}' as u8, '}' as u8,
    ];
    assert(r@ =~= close());
    r
}

/// The opening of a response that carries a value: `{"GetResponse":"`.
pub open spec fn found_head() -> Seq<u8> {
    seq![
        '{' as u8, '"' as u8, 'G' as u8, 'e' as u8, 't' as u8, 'R' as u8,
        'e' as u8, 's' as u8, 'p' as u8, 'o' as u8, 'n' as u8, 's' as u8,
        'e' as u8, '"' as u8, ':' as u8, '"' as u8,
    ]
}

pub(crate) fn found_head_bytes() -> (r: [u8; 16])
    ensures
        r@ == found_head(),
{
    let r: [u8; 16] = [
        '{' as u8, '"' as u8, 'G' as u8, 'e' as u8, 't' as u8, 'R' as u8,
        'e' as u8, 's' as u8, 'p' as u8, 'o' as u8, 'n' as u8, 's' as u8,
        'e' as u8, '"' as u8, ':' as u8, '"' as u8,
    ];
    assert(r@ =~= found_head());
    r
}

/// What closes a response that carries a value: `}`.
pub open spec fn found_close() -> Seq<u8> {
    seq![
        '}' as u8,
    ]
}

pub(crate) fn found_close_bytes() -> (r: [u8; 1])
    ensures
        r@ == found_close(),
{
    let r: [u8; 1] = [
        '}' as u8,
    ];
    assert(r@ =~= found_close());
    r
}

/// The response to `Get` for a key without a value:
/// `{"GetResponse":null}`.
pub open spec fn not_found() -> Seq<u8> {
    seq![
        '{' as u8, '"' as u8, 'G' as u8, 'e' as u8, 't' as u8, 'R' as u8,
        'e' as u8, 's' as u8, 'p' as u8, 'o' as u8, 'n' as u8, 's' as u8,
        'e' as u8, '"' as u8, ':' as u8, 'n' as u8, 'u' as u8, 'l' as u8,
        'l' as u8, '}' as u8,
    ]
}

pub(crate) fn not_found_bytes() -> (r: [u8; 20])
    ensures
        r@ == not_found(),
{
    let r: [u8; 20] = [
        '{' as u8, '"' as u8, 'G' as u8, 'e' as u8, 't' as u8, 'R' as u8,
        'e' as u8, 's' as u8, 'p' as u8, 'o' as u8, 'n' as u8, 's' as u8,
        'e' as u8, '"' as u8, ':' as u8, 'n' as u8, 'u' as u8, 'l' as u8,
        'l' as u8, '}' as u8,
    ];
    assert(r@ =~= not_found());
    r
}

/// `"RemoveSuccess"`, quotes included.
pub open spec fn remove_success() -> Seq<u8> {
    seq![
        '"' as u8, 'R' as u8, 'e' as u8, 'm' as u8, 'o' as u8, 'v' as u8,
        'e' as u8, 'S' as u8, 'u' as u8, 'c' as u8, 'c' as u8, 'e' as u8,
        's' as u8, 's' as u8, '"' as u8,
    ]
}

pub(crate) fn remove_success_bytes() -> (r: [u8; 15])
    ensures
        r@ == remove_success(),
{
    let r: [u8; 15] = [
        '"' as u8, 'R' as u8, 'e' as u8, 'm' as u8, 'o' as u8, 'v' as u8,
        'e' as u8, 'S' as u8, 'u' as u8, 'c' as u8, 'c' as u8, 'e' as u8,
        's' as u8, 's' as u8, '"' as u8,
    ];
    assert(r@ =~= remove_success());
    r
}

/// `"RemoveFailure"`, quotes included.
pub open spec fn remove_failure() -> Seq<u8> {
    seq![
        '"' as u8, 'R' as u8, 'e' as u8, 'm' as u8, 'o' as u8, 'v' as u8,
        'e' as u8, 'F' as u8, 'a' as u8, 'i' as u8, 'l' as u8, 'u' as u8,
        'r' as u8, 'e' as u8, '"' as u8,
    ]
}

pub(crate) fn remove_failure_bytes() -> (r: [u8; 15])
    ensures
        r@ == remove_failure(),
{
    let r: [u8; 15] = [
        '"' as u8, 'R' as u8, 'e' as u8, 'm' as u8, 'o' as u8, 'v' as u8,
        'e' as u8, 'F' as u8, 'a' as u8, 'i' as u8, 'l' as u8, 'u' as u8,
        'r' as u8, 'e' as u8, '"' as u8,
    ];
    assert(r@ =~= remove_failure());
    r
}

/// `"SetSuccess"`, quotes included.
pub open spec fn set_success() -> Seq<u8> {
    seq![
        '"' as u8, 'S' as u8, 'e' as u8, 't' as u8, 'S' as u8, 'u' as u8,
        'c' as u8, 'c' as u8, 'e' as u8, 's' as u8, 's' as u8, '"' as u8,
    ]
}

pub(crate) fn set_success_bytes() -> (r: [u8; 12])
    ensures
        r@ == set_success(),
{
    let r: [u8; 12] = [
        '"' as u8, 'S' as u8, 'e' as u8, 't' as u8, 'S' as u8, 'u' as u8,
        'c' as u8, 'c' as u8, 'e' as u8, 's' as u8, 's' as u8, '"' as u8,
    ];
    assert(r@ =~= set_success());
    r
}

/// `"SetFailure"`, quotes included.
pub open spec fn set_failure() -> Seq<u8> {
    seq![
        '"' as u8, 'S' as u8, 'e' as u8, 't' as u8, 'F' as u8, 'a' as u8,
        'i' as u8, 'l' as u8, 'u' as u8, 'r' as u8, 'e' as u8, '"' as u8,
    ]
}

pub(crate) fn set_failure_bytes() -> (r: [u8; 12])
    ensures
        r@ == set_failure(),
{
    let r: [u8; 12] = [
        '"' as u8, 'S' as u8, 'e' as u8, 't' as u8, 'F' as u8, 'a' as u8,
        'i' as u8, 'l' as u8, 'u' as u8, 'r' as u8, 'e' as u8, '"' as u8,
    ];
    assert(r@ =~= set_failure());
    r
}

} // verus!
