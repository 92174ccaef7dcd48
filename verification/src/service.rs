//! The six operations of the service. Each is stated as a function of the
//! store's value, and the executable operation is proved to compute it.

use crate::codec::{
    decode_record, decode_todo, encode_record, encode_todo, lemma_encode_decode,
    lemma_encoded_length,
};
use crate::consistency::{
    consistent, lemma_create_keeps_consistent, lemma_update_keeps_consistent,
};
use crate::listing::{
    distinct_ids, listing, page_of, paginate, pagination_error, records_of, validate_pagination,
};
use crate::storage::{get_next_todo_id, StoreState, TodoStore};
use crate::text::{lemma_trimmed_is_shorter, text_error, trim_text, trimmed, validate_todo_text};
use crate::types::{
    delete_reply, page_reply, todo_reply, todo_views, CreateTodoInput, DeleteResult, PageView,
    PaginationInput, Todo, TodoId, TodoResult, TodoView, TodosResult, UpdateTodoInput,
};
use vstd::prelude::*;

verus! {

/// What is reported where no record is kept under the identifier.
pub open spec fn not_found_message() -> Seq<char> {
    "Todo not found"@
}

/// What is reported where the bytes kept for a record do not hold one.
pub open spec fn corrupt_message() -> Seq<char> {
    "Todo data is corrupt"@
}

/// What is reported where the counter has reached the greatest identifier.
pub open spec fn exhausted_message() -> Seq<char> {
    "Todo identifiers are exhausted"@
}

/// The store after an operation, with the operation's reply.
pub struct Step<T> {
    pub store: StoreState,
    pub reply: Result<T, Seq<char>>,
}

/// The reply to reading `id`: the record kept under it.
pub open spec fn read_reply(store: StoreState, id: TodoId) -> Result<TodoView, Seq<char>> {
    if !store.records.dom().contains(id) {
        Err(not_found_message())
    } else {
        match decode_record(id, store.records[id]) {
            Some(todo) => Ok(todo),
            None => Err(corrupt_message()),
        }
    }
}

/// Creating a record with `text` at time `now`. A refused text changes
/// nothing. Otherwise the record gets the identifier after the last one, the
/// trimmed text, and `now` as both of its times; the counter moves on and the
/// record is kept.
pub open spec fn create_step(store: StoreState, text: Seq<char>, now: u64) -> Step<TodoView> {
    match text_error(text) {
        Some(reason) => Step { store, reply: Err(reason) },
        None => if store.last_id() == u64::MAX {
            Step { store, reply: Err(exhausted_message()) }
        } else {
            let todo = TodoView {
                id: (store.last_id() + 1) as u64,
                text: trimmed(text),
                completed: false,
                created_at: now,
                updated_at: now,
            };
            Step {
                store: store.with_counter(todo.id).with_record(todo.id, encode_record(todo)),
                reply: Ok(todo),
            }
        },
    }
}

/// The record `todo` after a change that carries `text` and `completed`, made
/// at time `now`.
pub open spec fn changed(
    todo: TodoView,
    text: Option<Seq<char>>,
    completed: Option<bool>,
    now: u64,
) -> TodoView {
    TodoView {
        id: todo.id,
        text: match text {
            Some(new_text) => trimmed(new_text),
            None => todo.text,
        },
        completed: match completed {
            Some(flag) => flag,
            None => todo.completed,
        },
        created_at: todo.created_at,
        updated_at: now,
    }
}

/// Changing the record under `id` at time `now`. The record must be there,
/// and a text that comes with the request must be acceptable: otherwise
/// nothing changes. A request without text and flag changes nothing either
/// and replies with the record as it is.
pub open spec fn update_step(
    store: StoreState,
    id: TodoId,
    text: Option<Seq<char>>,
    completed: Option<bool>,
    now: u64,
) -> Step<TodoView> {
    match read_reply(store, id) {
        Err(reason) => Step { store, reply: Err(reason) },
        Ok(todo) => if text is Some && text_error(text->0) is Some {
            Step { store, reply: Err(text_error(text->0)->0) }
        } else if text is None && completed is None {
            Step { store, reply: Ok(todo) }
        } else {
            let new_todo = changed(todo, text, completed, now);
            Step { store: store.with_record(id, encode_record(new_todo)), reply: Ok(new_todo) }
        },
    }
}

/// Removing the record under `id`.
pub open spec fn delete_step(store: StoreState, id: TodoId) -> Step<bool> {
    if store.records.dom().contains(id) {
        Step { store: store.without_record(id), reply: Ok(true) }
    } else {
        Step { store, reply: Err(not_found_message()) }
    }
}

/// Whether the bytes kept under every identifier hold a record.
pub open spec fn all_decodable(store: StoreState) -> bool {
    forall|id: TodoId| #[trigger]
        store.records.dom().contains(id) ==> decode_record(id, store.records[id]) is Some
}

/// The records that the store keeps, each under its identifier.
pub open spec fn decoded(store: StoreState) -> Map<TodoId, TodoView> {
    Map::new(
        |id: TodoId| store.records.dom().contains(id),
        |id: TodoId| decode_record(id, store.records[id])->0,
    )
}

/// The reply to a request for the page at `offset` of at most `limit`
/// records: the page cut from the listing of all records.
pub open spec fn list_reply(store: StoreState, offset: u64, limit: u64) -> Result<
    PageView,
    Seq<char>,
> {
    match pagination_error(limit) {
        Some(reason) => Err(reason),
        None => if all_decodable(store) {
            Ok(page_of(listing(decoded(store)), offset, limit))
        } else {
            Err(corrupt_message())
        },
    }
}

/// The number of records that the store keeps.
pub open spec fn count_reply(store: StoreState) -> nat {
    store.records.dom().len()
}

/// Creates a record with the text of `input` at time `now`.
pub fn create_todo(store: &mut TodoStore, input: CreateTodoInput, now: u64) -> (reply: TodoResult)
    ensures
        final(store)@ == create_step(old(store)@, input.text@, now).store,
        todo_reply(reply) == create_step(old(store)@, input.text@, now).reply,
        forall|clock: u64| #[trigger]
            consistent(old(store)@, clock) && clock <= now ==> consistent(final(store)@, now),
{
    proof {
        assert forall|clock: u64| #[trigger]
            consistent(old(store)@, clock) && clock <= now implies consistent(
            create_step(old(store)@, input.text@, now).store,
            now,
        ) by {
            lemma_create_keeps_consistent(old(store)@, clock, input.text@, now);
        }
    }
    if let Err(err) = validate_todo_text(input.text.as_str()) {
        return Err(err);
    }
    if store.last_id() == u64::MAX {
        return Err("Todo identifiers are exhausted".to_owned());
    }
    let id: TodoId = get_next_todo_id(store);
    let todo = Todo {
        id,
        text: trim_text(input.text.as_str()),
        completed: false,
        created_at: now,
        updated_at: now,
    };
    proof {
        lemma_trimmed_is_shorter(input.text@);
        lemma_encoded_length(todo@);
    }
    store.write_bytes(id, encode_todo(&todo));
    Ok(todo)
}

/// Reads the record under `id`.
pub fn get_todo_by_id(store: &TodoStore, id: TodoId) -> (reply: TodoResult)
    ensures
        todo_reply(reply) == read_reply(store@, id),
{
    match store.read_bytes(id) {
        Some(bytes) => match decode_todo(id, bytes.as_slice()) {
            Some(todo) => Ok(todo),
            None => Err("Todo data is corrupt".to_owned()),
        },
        None => Err("Todo not found".to_owned()),
    }
}

/// Every record of the store, in increasing order of the identifiers; or
/// `None` where some bytes of the store hold no record.
fn load_all_todos(store: &TodoStore) -> (loaded: Option<Vec<Todo>>)
    ensures
        match loaded {
            Some(todos) => {
                &&& all_decodable(store@)
                &&& distinct_ids(todo_views(todos@))
                &&& records_of(todo_views(todos@)) == decoded(store@)
            },
            None => !all_decodable(store@),
        },
{
    let pairs = store.all_bytes();
    let mut todos: Vec<Todo> = Vec::new();
    let mut i: usize = 0;
    while i < pairs.len()
        invariant
            i <= pairs.len(),
            todos@.len() == i,
            forall|k: int|
                0 <= k < i ==> decode_record(pairs@[k].0, pairs@[k].1@) == Some(
                    (#[trigger] todos@[k])@,
                ),
            forall|k: int|
                0 <= k < pairs@.len() ==> store@.records.dom().contains((#[trigger] pairs@[k]).0)
                    && store@.records[pairs@[k].0] == pairs@[k].1@,
        decreases pairs.len() - i,
    {
        match decode_todo(pairs[i].0, pairs[i].1.as_slice()) {
            Some(todo) => {
                todos.push(todo);
            },
            None => {
                proof {
                    assert(store@.records.dom().contains(pairs@[i as int].0));
                }
                return None;
            },
        }
        i = i + 1;
    }
    proof {
        let views = todo_views(todos@);
        assert forall|k: int| 0 <= k < views.len() implies (#[trigger] views[k]).id
            == pairs@[k].0 by {
            assert(decode_record(pairs@[k].0, pairs@[k].1@) == Some(todos@[k]@));
        }
        assert(distinct_ids(views)) by {
            assert forall|a: int, b: int| 0 <= a < b < views.len() implies (#[trigger] views[a]).id
                != (#[trigger] views[b]).id by {
                assert(pairs@[a].0 < pairs@[b].0);
            }
        }
        assert forall|id: TodoId| #[trigger]
            store@.records.dom().contains(id) implies decode_record(id, store@.records[id])
            == Some(records_of(views)[id]) && records_of(views).dom().contains(id) by {
            let k = choose|k: int| 0 <= k < pairs@.len() && (#[trigger] pairs@[k]).0 == id;
            assert(decode_record(pairs@[k].0, pairs@[k].1@) == Some(todos@[k]@));
            assert(views[k].id == id);
            let c = choose|c: int| 0 <= c < views.len() && (#[trigger] views[c]).id == id;
            assert(c == k) by {
                if c < k {
                    assert(views[c].id != views[k].id);
                }
                if k < c {
                    assert(views[k].id != views[c].id);
                }
            }
        }
        assert forall|id: TodoId| #[trigger]
            records_of(views).dom().contains(id) implies store@.records.dom().contains(id) by {
            let c = choose|c: int| 0 <= c < views.len() && (#[trigger] views[c]).id == id;
            assert(pairs@[c].0 == id);
        }
        assert(records_of(views) =~= decoded(store@));
    }
    Some(todos)
}

/// Cuts the requested page from the listing of all records, newest first.
pub fn get_all_todos_paginated(store: &TodoStore, pagination: PaginationInput) -> (reply:
    TodosResult)
    ensures
        page_reply(reply) == list_reply(store@, pagination.offset, pagination.limit),
{
    if let Err(err) = validate_pagination(&pagination) {
        return Err(err);
    }
    match load_all_todos(store) {
        Some(all_todos) => Ok(paginate(&all_todos, &pagination)),
        None => Err("Todo data is corrupt".to_owned()),
    }
}

/// Changes the record under the identifier of `input` at time `now`.
pub fn update_todo(store: &mut TodoStore, input: UpdateTodoInput, now: u64) -> (reply: TodoResult)
    ensures
        final(store)@ == update_step(
            old(store)@,
            input.id,
            input.new_text(),
            input.completed,
            now,
        ).store,
        todo_reply(reply) == update_step(
            old(store)@,
            input.id,
            input.new_text(),
            input.completed,
            now,
        ).reply,
        forall|clock: u64| #[trigger]
            consistent(old(store)@, clock) && clock <= now ==> consistent(final(store)@, now),
{
    proof {
        assert forall|clock: u64| #[trigger]
            consistent(old(store)@, clock) && clock <= now implies consistent(
            update_step(old(store)@, input.id, input.new_text(), input.completed, now).store,
            now,
        ) by {
            lemma_update_keeps_consistent(
                old(store)@,
                clock,
                input.id,
                input.new_text(),
                input.completed,
                now,
            );
        }
    }
    let mut todo = match get_todo_by_id(store, input.id) {
        Ok(found) => found,
        Err(err) => {
            return Err(err);
        },
    };
    proof {
        lemma_encode_decode(input.id, store@.records[input.id]);
        lemma_encoded_length(todo@);
    }
    let mut updated: bool = false;
    if let Some(text) = input.text {
        if let Err(err) = validate_todo_text(text.as_str()) {
            return Err(err);
        }
        todo.text = trim_text(text.as_str());
        proof {
            lemma_trimmed_is_shorter(text@);
        }
        updated = true;
    }
    if let Some(completed) = input.completed {
        todo.completed = completed;
        updated = true;
    }
    if updated {
        todo.updated_at = now;
        proof {
            lemma_encoded_length(todo@);
        }
        store.write_bytes(input.id, encode_todo(&todo));
    }
    Ok(todo)
}

/// Replaces the text of the record under `id` at time `now`.
pub fn update_todo_text(store: &mut TodoStore, id: TodoId, text: String, now: u64) -> (reply:
    TodoResult)
    ensures
        final(store)@ == update_step(old(store)@, id, Some(text@), None, now).store,
        todo_reply(reply) == update_step(old(store)@, id, Some(text@), None, now).reply,
        forall|clock: u64| #[trigger]
            consistent(old(store)@, clock) && clock <= now ==> consistent(final(store)@, now),
{
    let input = UpdateTodoInput { id, text: Some(text), completed: None };
    update_todo(store, input, now)
}

/// Sets the completion flag of the record under `id` at time `now`.
pub fn update_todo_completed(store: &mut TodoStore, id: TodoId, completed: bool, now: u64) -> (reply:
    TodoResult)
    ensures
        final(store)@ == update_step(old(store)@, id, None, Some(completed), now).store,
        todo_reply(reply) == update_step(old(store)@, id, None, Some(completed), now).reply,
        forall|clock: u64| #[trigger]
            consistent(old(store)@, clock) && clock <= now ==> consistent(final(store)@, now),
{
    let input = UpdateTodoInput { id, text: None, completed: Some(completed) };
    update_todo(store, input, now)
}

/// Removes the record under `id`.
pub fn delete_todo_by_id(store: &mut TodoStore, id: TodoId) -> (reply: DeleteResult)
    ensures
        final(store)@ == delete_step(old(store)@, id).store,
        delete_reply(reply) == delete_step(old(store)@, id).reply,
        forall|clock: u64| #[trigger]
            consistent(old(store)@, clock) ==> consistent(final(store)@, clock),
{
    if store.remove_bytes(id) {
        Ok(true)
    } else {
        proof {
            assert(old(store)@.records.remove(id) =~= old(store)@.records);
        }
        Err("Todo not found".to_owned())
    }
}

/// Counts the records that the store keeps.
pub fn get_todo_count(store: &TodoStore) -> (count: u64)
    ensures
        count == count_reply(store@),
{
    store.record_count()
}

} // verus!
