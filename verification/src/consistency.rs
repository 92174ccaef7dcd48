//! What holds of a store that only this service has written, and why every
//! operation keeps it so.

use crate::codec::{
    decode_record, encode_record, lemma_decode_encode, lemma_encoded_length, MAX_RECORD_SIZE,
};
use crate::service::{changed, create_step, delete_step, read_reply, update_step};
use crate::storage::StoreState;
use crate::text::{lemma_trimmed_is_acceptable, text_error};
use crate::types::{TodoId, TodoView};
use vstd::prelude::*;

verus! {

/// Whether `todo` is a record as the service writes them: its text is
/// acceptable, and it was not updated before it was created.
pub open spec fn valid_record(todo: TodoView) -> bool {
    text_error(todo.text) is None && todo.created_at <= todo.updated_at
}

/// Whether there are finitely many records and each identifier in use was
/// handed out by the counter.
pub open spec fn ids_issued(store: StoreState) -> bool {
    &&& store.records.dom().finite()
    &&& forall|id: TodoId| #[trigger] store.records.dom().contains(id) ==> 1 <= id <= store.last_id()
}

/// Whether the store is as the service leaves it when its clock stands at
/// `clock`: the identifiers in use were issued, and the bytes under each hold
/// a valid record that was last written at or before `clock`.
pub open spec fn consistent(store: StoreState, clock: u64) -> bool {
    &&& ids_issued(store)
    &&& forall|id: TodoId| #[trigger]
        store.records.dom().contains(id) ==> {
            &&& decode_record(id, store.records[id]) is Some
            &&& valid_record(decode_record(id, store.records[id])->0)
            &&& decode_record(id, store.records[id])->0.updated_at <= clock
        }
}

/// The store that holds nothing.
pub open spec fn empty_store() -> StoreState {
    StoreState { records: Map::empty(), counter: None }
}

/// The empty store is consistent at any time.
pub proof fn lemma_empty_is_consistent(clock: u64)
    ensures
        consistent(empty_store(), clock),
{
}

/// A consistent store stays consistent while the clock moves on.
pub proof fn lemma_consistent_later(store: StoreState, clock: u64, later: u64)
    requires
        consistent(store, clock),
        clock <= later,
    ensures
        consistent(store, later),
{
}

/// Writing the counter cell of a store that has none keeps the store
/// consistent.
pub proof fn lemma_init_keeps_consistent(store: StoreState, clock: u64)
    requires
        consistent(store, clock),
    ensures
        consistent(store.with_counter(store.last_id()), clock),
{
}

/// The bytes of a valid record fit in [`MAX_RECORD_SIZE`] and hold that
/// record.
pub proof fn lemma_valid_record_is_kept(todo: TodoView)
    requires
        valid_record(todo),
    ensures
        encode_record(todo).len() <= MAX_RECORD_SIZE,
        decode_record(todo.id, encode_record(todo)) == Some(todo),
{
    lemma_encoded_length(todo);
    lemma_decode_encode(todo);
}

/// Creating a record keeps the store consistent, as long as the clock does
/// not run backwards.
pub proof fn lemma_create_keeps_consistent(store: StoreState, clock: u64, text: Seq<char>, now: u64)
    requires
        consistent(store, clock),
        clock <= now,
    ensures
        consistent(create_step(store, text, now).store, now),
{
    let step = create_step(store, text, now);
    if step.reply is Ok {
        let todo = step.reply->Ok_0;
        lemma_trimmed_is_acceptable(text);
        lemma_valid_record_is_kept(todo);
    }
}

/// Changing a record keeps the store consistent, as long as the clock does
/// not run backwards.
pub proof fn lemma_update_keeps_consistent(
    store: StoreState,
    clock: u64,
    id: TodoId,
    text: Option<Seq<char>>,
    completed: Option<bool>,
    now: u64,
)
    requires
        consistent(store, clock),
        clock <= now,
    ensures
        consistent(update_step(store, id, text, completed, now).store, now),
{
    let step = update_step(store, id, text, completed, now);
    if step.store != store {
        let old_todo = read_reply(store, id)->Ok_0;
        let todo = changed(old_todo, text, completed, now);
        assert(step.store == store.with_record(id, encode_record(todo)));
        assert(store.records.dom().contains(id));
        if text is Some {
            lemma_trimmed_is_acceptable(text->0);
        }
        lemma_valid_record_is_kept(todo);
        assert(step.store.records.dom() =~= store.records.dom());
    }
}

/// Whatever the clock does, the identifiers in use stay issued.
pub proof fn lemma_ids_stay_issued(
    store: StoreState,
    id: TodoId,
    text: Seq<char>,
    new_text: Option<Seq<char>>,
    completed: Option<bool>,
    now: u64,
)
    requires
        ids_issued(store),
    ensures
        ids_issued(create_step(store, text, now).store),
        ids_issued(update_step(store, id, new_text, completed, now).store),
        ids_issued(delete_step(store, id).store),
        ids_issued(store.with_counter(store.last_id())),
{
    let updated = update_step(store, id, new_text, completed, now).store;
    assert(updated.records.dom() =~= store.records.dom());
}

/// Removing a record keeps the store consistent.
pub proof fn lemma_delete_keeps_consistent(store: StoreState, clock: u64, id: TodoId)
    requires
        consistent(store, clock),
    ensures
        consistent(delete_step(store, id).store, clock),
{
}

} // verus!
