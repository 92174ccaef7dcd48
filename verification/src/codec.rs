//! How a record is laid out in the bytes that the store keeps for it.
//!
//! A record is stored under its identifier, so the bytes hold the other
//! fields only: one byte for the completion flag (0 or 1), the creation and
//! update times as eight little-endian bytes each, and the text in UTF-8 up
//! to the end. No record takes more than [`MAX_RECORD_SIZE`] bytes.

use crate::types::{Todo, TodoId, TodoView};
use vstd::bytes::{
    lemma_auto_spec_u64_to_from_le_bytes, spec_u64_from_le_bytes, spec_u64_to_le_bytes,
    u64_from_le_bytes, u64_to_le_bytes,
};
use vstd::prelude::*;
use vstd::slice::{slice_subrange, slice_to_vec};
use vstd::string::StrSliceExecFns;
use vstd::utf8::{
    decode_utf8, decode_utf8_encode_utf8, encode_utf8, encode_utf8_decode_utf8,
    encode_utf8_valid_utf8, valid_utf8,
};

verus! {

/// The number of bytes that come before the text.
pub const RECORD_HEADER_LENGTH: usize = 17;

/// The greatest number of bytes that the store keeps for a record.
pub const MAX_RECORD_SIZE: usize = 1024;

/// The byte that stands for a completion flag.
pub open spec fn flag_byte(completed: bool) -> u8 {
    if completed {
        1
    } else {
        0
    }
}

/// The bytes that the store keeps for `todo`.
pub open spec fn encode_record(todo: TodoView) -> Seq<u8> {
    seq![flag_byte(todo.completed)] + spec_u64_to_le_bytes(todo.created_at) + spec_u64_to_le_bytes(
        todo.updated_at,
    ) + encode_utf8(todo.text)
}

/// The record that `bytes` hold under `id`, if they hold one: there must be a
/// whole header and no more than [`MAX_RECORD_SIZE`] bytes, the flag must be
/// 0 or 1, and the rest must be UTF-8.
pub open spec fn decode_record(id: TodoId, bytes: Seq<u8>) -> Option<TodoView> {
    if bytes.len() < RECORD_HEADER_LENGTH || bytes.len() > MAX_RECORD_SIZE || bytes[0] > 1
        || !valid_utf8(bytes.subrange(RECORD_HEADER_LENGTH as int, bytes.len() as int)) {
        None
    } else {
        Some(
            TodoView {
                id,
                text: decode_utf8(bytes.subrange(RECORD_HEADER_LENGTH as int, bytes.len() as int)),
                completed: bytes[0] == 1,
                created_at: spec_u64_from_le_bytes(bytes.subrange(1, 9)),
                updated_at: spec_u64_from_le_bytes(bytes.subrange(9, 17)),
            },
        )
    }
}

/// The encoding is a header followed by the text in UTF-8.
pub proof fn lemma_encoded_length(todo: TodoView)
    ensures
        encode_record(todo).len() == RECORD_HEADER_LENGTH + encode_utf8(todo.text).len(),
{
    lemma_auto_spec_u64_to_from_le_bytes();
}

/// Decoding what was encoded gives the record back, if the record is not
/// too large to be kept.
pub proof fn lemma_decode_encode(todo: TodoView)
    requires
        RECORD_HEADER_LENGTH + encode_utf8(todo.text).len() <= MAX_RECORD_SIZE,
    ensures
        decode_record(todo.id, encode_record(todo)) == Some(todo),
{
    lemma_auto_spec_u64_to_from_le_bytes();
    let bytes = encode_record(todo);
    let text = encode_utf8(todo.text);
    assert(bytes.subrange(1, 9) =~= spec_u64_to_le_bytes(todo.created_at));
    assert(bytes.subrange(9, 17) =~= spec_u64_to_le_bytes(todo.updated_at));
    assert(bytes.subrange(RECORD_HEADER_LENGTH as int, bytes.len() as int) =~= text);
    encode_utf8_valid_utf8(todo.text);
    encode_utf8_decode_utf8(todo.text);
}

/// Encoding what was decoded gives the bytes back: a record has one
/// encoding.
pub proof fn lemma_encode_decode(id: TodoId, bytes: Seq<u8>)
    requires
        decode_record(id, bytes) is Some,
    ensures
        encode_record(decode_record(id, bytes)->0) == bytes,
{
    lemma_auto_spec_u64_to_from_le_bytes();
    let todo = decode_record(id, bytes)->0;
    let text = bytes.subrange(RECORD_HEADER_LENGTH as int, bytes.len() as int);
    decode_utf8_encode_utf8(text);
    assert(spec_u64_to_le_bytes(todo.created_at) == bytes.subrange(1, 9));
    assert(spec_u64_to_le_bytes(todo.updated_at) == bytes.subrange(9, 17));
    assert(encode_record(todo) =~= bytes);
}

/// Calls `String::from_utf8`, which accepts exactly the byte strings that are
/// well-formed UTF-8 and then gives the text that they encode.
#[verifier::external_body]
fn text_from_utf8(bytes: Vec<u8>) -> (text: Option<String>)
    ensures
        match text {
            Some(decoded) => valid_utf8(bytes@) && decoded@ == decode_utf8(bytes@),
            None => !valid_utf8(bytes@),
        },
{
    String::from_utf8(bytes).ok()
}

/// The bytes that the store keeps for `todo`.
pub fn encode_todo(todo: &Todo) -> (bytes: Vec<u8>)
    ensures
        bytes@ == encode_record(todo@),
{
    let mut bytes: Vec<u8> = Vec::new();
    bytes.push(if todo.completed { 1u8 } else { 0u8 });
    let mut created = u64_to_le_bytes(todo.created_at);
    bytes.append(&mut created);
    let mut updated = u64_to_le_bytes(todo.updated_at);
    bytes.append(&mut updated);
    let mut text = todo.text.as_str().as_bytes_vec();
    bytes.append(&mut text);
    bytes
}

/// The record that `bytes` hold under `id`, or `None` where they hold none.
pub fn decode_todo(id: TodoId, bytes: &[u8]) -> (todo: Option<Todo>)
    ensures
        match todo {
            Some(decoded) => decode_record(id, bytes@) == Some(decoded@),
            None => decode_record(id, bytes@) is None,
        },
{
    if bytes.len() < RECORD_HEADER_LENGTH || bytes.len() > MAX_RECORD_SIZE {
        return None;
    }
    let flag: u8 = bytes[0];
    if flag > 1 {
        return None;
    }
    let created_at: u64 = u64_from_le_bytes(slice_subrange(bytes, 1, 9));
    let updated_at: u64 = u64_from_le_bytes(slice_subrange(bytes, 9, 17));
    let text_bytes = slice_to_vec(slice_subrange(bytes, RECORD_HEADER_LENGTH, bytes.len()));
    match text_from_utf8(text_bytes) {
        Some(text) => Some(Todo { id, text, completed: flag == 1, created_at, updated_at }),
        None => None,
    }
}

} // verus!
