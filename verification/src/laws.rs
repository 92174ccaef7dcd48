//! What the operations promise of one another: what is read after a write,
//! what a failure leaves behind, how the pages fit together, and how the
//! count follows the records.

use crate::codec::{lemma_decode_encode, lemma_encode_decode, lemma_encoded_length};
use crate::consistency::ids_issued;
use crate::listing::{
    distinct_ids, is_listing, listing, newer, page_of, records_of, MAX_PAGINATION_LIMIT,
};
use crate::service::{
    count_reply, create_step, decoded, delete_step, list_reply, not_found_message, read_reply,
    update_step,
};
use crate::storage::StoreState;
use crate::text::{lemma_trimmed_is_shorter, trimmed};
use crate::types::{PageView, TodoId, TodoView};
use vstd::prelude::*;
use vstd::seq_lib::seq_to_set_is_finite;

verus! {

/// Making sure of the counter cell twice is the same as doing it once: the
/// counter and the records stay as the first time left them.
pub proof fn lemma_init_is_idempotent(store: StoreState)
    ensures
        store.with_counter(store.last_id()).with_counter(
            store.with_counter(store.last_id()).last_id(),
        ) == store.with_counter(store.last_id()),
        store.with_counter(store.last_id()).last_id() == store.last_id(),
        store.with_counter(store.last_id()).records == store.records,
{
}

/// A record that was created is read back as it was returned: with the
/// trimmed text, not completed, and created and updated at the same time.
pub proof fn lemma_created_record_is_read(store: StoreState, text: Seq<char>, now: u64)
    requires
        create_step(store, text, now).reply is Ok,
    ensures
        ({
            let step = create_step(store, text, now);
            let todo = step.reply->Ok_0;
            &&& read_reply(step.store, todo.id) == Ok::<TodoView, Seq<char>>(todo)
            &&& todo.text == trimmed(text)
            &&& !todo.completed
            &&& todo.created_at == now
            &&& todo.updated_at == now
        }),
{
    let todo = create_step(store, text, now).reply->Ok_0;
    lemma_trimmed_is_shorter(text);
    lemma_decode_encode(todo);
}

/// A record that was changed is read back as it was returned.
pub proof fn lemma_changed_record_is_read(
    store: StoreState,
    id: TodoId,
    text: Option<Seq<char>>,
    completed: Option<bool>,
    now: u64,
)
    requires
        update_step(store, id, text, completed, now).reply is Ok,
    ensures
        ({
            let step = update_step(store, id, text, completed, now);
            read_reply(step.store, id) == step.reply
        }),
{
    let step = update_step(store, id, text, completed, now);
    if text is Some || completed is Some {
        let before = read_reply(store, id)->Ok_0;
        lemma_encode_decode(id, store.records[id]);
        lemma_encoded_length(before);
        if text is Some {
            lemma_trimmed_is_shorter(text->0);
        }
        lemma_decode_encode(step.reply->Ok_0);
    }
}

/// A change of the flag alone leaves the text and the time of creation as
/// they were, sets the flag, and moves the time of the update to `now`.
pub proof fn lemma_flag_update_keeps_text(
    store: StoreState,
    id: TodoId,
    completed: bool,
    now: u64,
)
    requires
        read_reply(store, id) is Ok,
    ensures
        ({
            let before = read_reply(store, id)->Ok_0;
            let step = update_step(store, id, None, Some(completed), now);
            &&& step.reply is Ok
            &&& step.reply->Ok_0.text == before.text
            &&& step.reply->Ok_0.completed == completed
            &&& step.reply->Ok_0.created_at == before.created_at
            &&& step.reply->Ok_0.updated_at == now
        }),
{
}

/// A record that is changed at or after the time of its creation was not
/// updated before it was created.
pub proof fn lemma_update_is_not_before_creation(
    store: StoreState,
    id: TodoId,
    text: Option<Seq<char>>,
    completed: Option<bool>,
    now: u64,
)
    requires
        read_reply(store, id) is Ok,
        read_reply(store, id)->Ok_0.created_at <= now,
        text is Some || completed is Some,
        update_step(store, id, text, completed, now).reply is Ok,
    ensures
        ({
            let after = update_step(store, id, text, completed, now).reply->Ok_0;
            &&& after.created_at == read_reply(store, id)->Ok_0.created_at
            &&& after.created_at <= after.updated_at
            &&& after.updated_at == now
        }),
{
}

/// A change that carries neither text nor flag leaves the store as it was and
/// replies as a read does: the time of the update stays.
pub proof fn lemma_empty_update_changes_nothing(store: StoreState, id: TodoId, now: u64)
    ensures
        update_step(store, id, None, None, now).store == store,
        update_step(store, id, None, None, now).reply == read_reply(store, id),
{
}

/// An operation that fails leaves the store as it was.
pub proof fn lemma_failure_changes_nothing(
    store: StoreState,
    id: TodoId,
    text: Seq<char>,
    new_text: Option<Seq<char>>,
    completed: Option<bool>,
    now: u64,
)
    ensures
        create_step(store, text, now).reply is Err ==> create_step(store, text, now).store
            == store,
        update_step(store, id, new_text, completed, now).reply is Err ==> update_step(
            store,
            id,
            new_text,
            completed,
            now,
        ).store == store,
        delete_step(store, id).reply is Err ==> delete_step(store, id).store == store,
{
}

/// After a record was removed, reading it finds nothing; and removing what
/// is not there finds nothing either.
pub proof fn lemma_removed_record_is_gone(store: StoreState, id: TodoId)
    ensures
        read_reply(delete_step(store, id).store, id) == Err::<TodoView, Seq<char>>(
            not_found_message(),
        ),
        !store.records.dom().contains(id) ==> delete_step(store, id).reply == Err::<
            bool,
            Seq<char>,
        >(not_found_message()),
{
}

/// Creating, changing or removing one record leaves what is read of every
/// other record as it was.
pub proof fn lemma_other_records_stay(
    store: StoreState,
    id: TodoId,
    other: TodoId,
    new_text: Option<Seq<char>>,
    completed: Option<bool>,
    now: u64,
)
    requires
        other != id,
    ensures
        read_reply(update_step(store, id, new_text, completed, now).store, other) == read_reply(
            store,
            other,
        ),
        read_reply(delete_step(store, id).store, other) == read_reply(store, other),
{
}

/// A page that starts at or after the end of the listing is empty, has
/// nothing after it, and still tells how long the listing is.
pub proof fn lemma_page_past_end(all: Seq<TodoView>, offset: u64, limit: u64)
    requires
        offset >= all.len(),
    ensures
        page_of(all, offset, limit) == (PageView {
            todos: Seq::empty(),
            total_count: all.len() as u64,
            has_more: false,
        }),
{
}

/// A page holds the records of the listing from `offset` on, `limit` of them
/// or as many as there are; and records follow it exactly when the listing
/// goes on after `offset + limit`.
pub proof fn lemma_page_size(all: Seq<TodoView>, offset: u64, limit: u64)
    ensures
        page_of(all, offset, limit).todos.len() == (if offset >= all.len() {
            0
        } else if offset + limit <= all.len() {
            limit as int
        } else {
            all.len() - offset
        }),
        page_of(all, offset, limit).has_more == (offset + limit < all.len()),
        page_of(all, offset, limit).total_count == all.len() as u64,
        forall|k: int|
            0 <= k < page_of(all, offset, limit).todos.len() ==> page_of(all, offset, limit).todos[k]
                == all[offset + k],
{
}

/// Two pages in a row read as one page of twice the size.
pub proof fn lemma_pages_join(all: Seq<TodoView>, size: u64)
    requires
        2 * size <= u64::MAX,
    ensures
        page_of(all, 0, size).todos + page_of(all, size, size).todos == page_of(
            all,
            0,
            (2 * size) as u64,
        ).todos,
{
    let first = page_of(all, 0, size).todos;
    let second = page_of(all, size, size).todos;
    let both = page_of(all, 0, (2 * size) as u64).todos;
    assert(first + second =~= both);
}

/// The same of the service's replies, for the page sizes that the service
/// accepts twice over: where the page of twice the size is granted, so are
/// the two pages, and they read as the one.
pub proof fn lemma_listed_pages_join(store: StoreState, size: u64)
    requires
        1 <= size,
        2 * size <= MAX_PAGINATION_LIMIT,
        list_reply(store, 0, (2 * size) as u64) is Ok,
    ensures
        list_reply(store, 0, size) is Ok,
        list_reply(store, size, size) is Ok,
        list_reply(store, 0, size)->Ok_0.todos + list_reply(store, size, size)->Ok_0.todos
            == list_reply(store, 0, (2 * size) as u64)->Ok_0.todos,
{
    lemma_pages_join(listing(decoded(store)), size);
}

/// How many records at the start of `all` are newer than `todo`.
pub open spec fn newer_prefix(all: Seq<TodoView>, todo: TodoView) -> nat
    decreases all.len(),
{
    if all.len() > 0 && newer(all[0], todo) {
        1 + newer_prefix(all.drop_first(), todo)
    } else {
        0
    }
}

/// The records counted by [`newer_prefix`] are newer than `todo`, and the one
/// after them, if there is one, is not.
proof fn lemma_newer_prefix(all: Seq<TodoView>, todo: TodoView)
    ensures
        newer_prefix(all, todo) <= all.len(),
        forall|i: int| 0 <= i < newer_prefix(all, todo) ==> newer(#[trigger] all[i], todo),
        newer_prefix(all, todo) < all.len() ==> !newer(all[newer_prefix(all, todo) as int], todo),
    decreases all.len(),
{
    if all.len() > 0 && newer(all[0], todo) {
        let rest = all.drop_first();
        lemma_newer_prefix(rest, todo);
        assert forall|i: int| 0 <= i < newer_prefix(all, todo) implies newer(
            #[trigger] all[i],
            todo,
        ) by {
            if i > 0 {
                assert(all[i] == rest[i - 1]);
            }
        }
        if newer_prefix(all, todo) < all.len() {
            assert(all[newer_prefix(all, todo) as int] == rest[newer_prefix(rest, todo) as int]);
        }
    }
}

/// Whether each record is kept under its own identifier.
pub open spec fn keyed_by_id(records: Map<TodoId, TodoView>) -> bool {
    forall|id: TodoId| #[trigger] records.dom().contains(id) ==> records[id].id == id
}

/// Finitely many records, each kept under its own identifier, have a
/// listing.
pub proof fn lemma_listing_exists(records: Map<TodoId, TodoView>)
    requires
        records.dom().finite(),
        keyed_by_id(records),
    ensures
        is_listing(listing(records), records),
    decreases records.dom().len(),
{
    if records.dom().len() == 0 {
        assert(is_listing(Seq::<TodoView>::empty(), records)) by {
            assert forall|id: TodoId| !records.dom().contains(id) by {
                if records.dom().contains(id) {
                    assert(records.dom().remove(id).len() + 1 == records.dom().len());
                }
            }
        }
    } else {
        let id = records.dom().choose();
        let todo = records[id];
        let rest = records.remove(id);
        assert(rest.dom() =~= records.dom().remove(id));
        lemma_listing_exists(rest);
        let others = listing(rest);
        lemma_newer_prefix(others, todo);
        let place = newer_prefix(others, todo) as int;
        let all = others.insert(place, todo);
        assert forall|i: int| 0 <= i < all.len() implies records.dom().contains(
            (#[trigger] all[i]).id,
        ) && records[all[i].id] == all[i] by {
            if i < place {
                assert(all[i] == others[i]);
                assert(rest.dom().contains(others[i].id));
            } else if i > place {
                assert(all[i] == others[i - 1]);
                assert(rest.dom().contains(others[i - 1].id));
            }
        }
        assert forall|i: int, j: int| 0 <= i < j < all.len() implies newer(
            #[trigger] all[i],
            #[trigger] all[j],
        ) by {
            if j < place {
                assert(all[i] == others[i] && all[j] == others[j]);
            } else if j == place {
                assert(all[i] == others[i]);
            } else if i > place {
                assert(all[i] == others[i - 1] && all[j] == others[j - 1]);
            } else if i < place {
                assert(all[i] == others[i] && all[j] == others[j - 1]);
            } else {
                assert(all[j] == others[j - 1]);
                assert(rest.dom().contains(others[place].id));
                assert(others[place].id != todo.id);
                assert(newer(todo, others[place]));
                if j - 1 > place {
                    assert(newer(others[place], others[j - 1]));
                }
            }
        }
        assert forall|key: TodoId| #[trigger] records.dom().contains(key) implies exists|i: int|
            0 <= i < all.len() && (#[trigger] all[i]).id == key by {
            if key == id {
                assert(all[place].id == key);
            } else {
                assert(rest.dom().contains(key));
                let i = choose|i: int| 0 <= i < others.len() && (#[trigger] others[i]).id == key;
                if i < place {
                    assert(all[i] == others[i]);
                } else {
                    assert(all[i + 1] == others[i]);
                }
            }
        }
        assert(is_listing(all, records));
    }
}

/// In the listing no record stands after one that was created earlier, and
/// every record of the store stands in it once.
pub proof fn lemma_listing_is_newest_first(records: Map<TodoId, TodoView>)
    requires
        records.dom().finite(),
        keyed_by_id(records),
    ensures
        forall|i: int, j: int|
            0 <= i < j < listing(records).len() ==> (#[trigger] listing(records)[i]).created_at
                >= (#[trigger] listing(records)[j]).created_at,
        forall|i: int, j: int|
            0 <= i < j < listing(records).len() ==> (#[trigger] listing(records)[i]).id
                != (#[trigger] listing(records)[j]).id,
        listing(records).len() == records.dom().len(),
{
    lemma_listing_exists(records);
    let all = listing(records);
    assert forall|i: int, j: int| 0 <= i < j < all.len() implies (#[trigger] all[i]).created_at
        >= (#[trigger] all[j]).created_at && all[i].id != all[j].id by {
        assert(newer(all[i], all[j]));
    }
    lemma_listing_length(all, records);
}

/// A listing is as long as there are records.
pub proof fn lemma_listing_length(all: Seq<TodoView>, records: Map<TodoId, TodoView>)
    requires
        records.dom().finite(),
        is_listing(all, records),
    ensures
        all.len() == records.dom().len(),
    decreases all.len(),
{
    if all.len() == 0 {
        assert forall|id: TodoId| !records.dom().contains(id) by {
            if records.dom().contains(id) {
                let i = choose|i: int| 0 <= i < all.len() && (#[trigger] all[i]).id == id;
            }
        }
        assert(records.dom() =~= Set::<TodoId>::empty());
    } else {
        let last = all.last();
        let before = all.drop_last();
        let rest = records.remove(last.id);
        assert(records.dom().contains(last.id));
        assert(rest.dom() =~= records.dom().remove(last.id));
        assert forall|i: int| 0 <= i < before.len() implies rest.dom().contains(
            (#[trigger] before[i]).id,
        ) && rest[before[i].id] == before[i] by {
            assert(before[i] == all[i]);
            assert(newer(all[i], all[all.len() - 1]));
        }
        assert forall|i: int, j: int| 0 <= i < j < before.len() implies newer(
            #[trigger] before[i],
            #[trigger] before[j],
        ) by {
            assert(before[i] == all[i] && before[j] == all[j]);
        }
        assert forall|key: TodoId| #[trigger] rest.dom().contains(key) implies exists|i: int|
            0 <= i < before.len() && (#[trigger] before[i]).id == key by {
            assert(records.dom().contains(key));
            let i = choose|i: int| 0 <= i < all.len() && (#[trigger] all[i]).id == key;
            assert(before[i] == all[i]);
        }
        lemma_listing_length(before, rest);
    }
}

/// Records with distinct identifiers have a listing, which holds each of
/// them once.
pub proof fn lemma_listing_of_todos(todos: Seq<TodoView>)
    requires
        distinct_ids(todos),
    ensures
        is_listing(listing(records_of(todos)), records_of(todos)),
        listing(records_of(todos)).len() == todos.len(),
        forall|i: int|
            0 <= i < todos.len() ==> listing(records_of(todos)).contains(#[trigger] todos[i]),
{
    let records = records_of(todos);
    let ids = todos.map_values(|todo: TodoView| todo.id);
    assert forall|i: int| 0 <= i < todos.len() implies records.dom().contains(
        (#[trigger] todos[i]).id,
    ) && records[todos[i].id] == todos[i] by {
        let id = todos[i].id;
        let c = choose|c: int| 0 <= c < todos.len() && (#[trigger] todos[c]).id == id;
        if c < i {
            assert(todos[c].id != todos[i].id);
        }
        if i < c {
            assert(todos[i].id != todos[c].id);
        }
    }
    assert(records.dom() =~= ids.to_set()) by {
        assert forall|id: TodoId| records.dom().contains(id) <==> ids.to_set().contains(id) by {
            if records.dom().contains(id) {
                let c = choose|c: int| 0 <= c < todos.len() && (#[trigger] todos[c]).id == id;
                assert(ids[c] == id);
            }
            if ids.to_set().contains(id) {
                let c = choose|c: int| 0 <= c < ids.len() && ids[c] == id;
                assert(todos[c].id == id);
            }
        }
    }
    seq_to_set_is_finite(ids);
    assert(ids.no_duplicates()) by {
        assert forall|i: int, j: int| 0 <= i < ids.len() && 0 <= j < ids.len() && i != j implies ids[i]
            != ids[j] by {
            if i < j {
                assert(todos[i].id != todos[j].id);
            } else {
                assert(todos[j].id != todos[i].id);
            }
        }
    }
    ids.unique_seq_to_set();
    assert(keyed_by_id(records)) by {
        assert forall|id: TodoId| #[trigger] records.dom().contains(id) implies records[id].id
            == id by {
            let c = choose|c: int| 0 <= c < todos.len() && (#[trigger] todos[c]).id == id;
        }
    }
    lemma_listing_exists(records);
    lemma_listing_length(listing(records), records);
    let all = listing(records);
    assert forall|i: int| 0 <= i < todos.len() implies all.contains(#[trigger] todos[i]) by {
        assert(records.dom().contains(todos[i].id));
        let k = choose|k: int| 0 <= k < all.len() && (#[trigger] all[k]).id == todos[i].id;
        assert(all[k] == todos[i]);
    }
}

/// The pages that the service grants are newest first: on a page no record
/// stands after one that was created earlier.
pub proof fn lemma_listed_page_is_newest_first(store: StoreState, offset: u64, limit: u64)
    requires
        store.records.dom().finite(),
        list_reply(store, offset, limit) is Ok,
    ensures
        ({
            let page = list_reply(store, offset, limit)->Ok_0;
            forall|i: int, j: int|
                0 <= i < j < page.todos.len() ==> newer(
                    #[trigger] page.todos[i],
                    #[trigger] page.todos[j],
                )
        }),
{
    let records = decoded(store);
    assert(records.dom() =~= store.records.dom());
    lemma_listing_exists(records);
    let all = listing(records);
    let page = page_of(all, offset, limit);
    assert forall|i: int, j: int| 0 <= i < j < page.todos.len() implies newer(
        #[trigger] page.todos[i],
        #[trigger] page.todos[j],
    ) by {
        assert(page.todos[i] == all[offset + i]);
        assert(page.todos[j] == all[offset + j]);
    }
}

/// A page that the service grants from at or after the end of the listing is
/// empty, has nothing after it, and tells how many records there are.
pub proof fn lemma_listed_page_past_end(store: StoreState, offset: u64, limit: u64)
    requires
        store.records.dom().finite(),
        list_reply(store, offset, limit) is Ok,
        count_reply(store) <= offset,
    ensures
        list_reply(store, offset, limit)->Ok_0 == (PageView {
            todos: Seq::empty(),
            total_count: count_reply(store) as u64,
            has_more: false,
        }),
{
    let records = decoded(store);
    assert(records.dom() =~= store.records.dom());
    lemma_listing_exists(records);
    lemma_listing_length(listing(records), records);
}

/// The number that a page reports is the number that counting reports.
pub proof fn lemma_listed_total_is_count(store: StoreState, offset: u64, limit: u64)
    requires
        store.records.dom().finite(),
        list_reply(store, offset, limit) is Ok,
        count_reply(store) <= u64::MAX,
    ensures
        list_reply(store, offset, limit)->Ok_0.total_count == count_reply(store),
{
    let records = decoded(store);
    assert(records.dom() =~= store.records.dom());
    lemma_listing_exists(records);
    lemma_listing_length(listing(records), records);
}

/// Where the identifiers in use were issued, a record that is created is one
/// more to count, a record that is removed is one less, and a change leaves
/// the count as it was.
pub proof fn lemma_count_follows_records(
    store: StoreState,
    id: TodoId,
    text: Seq<char>,
    new_text: Option<Seq<char>>,
    completed: Option<bool>,
    now: u64,
)
    requires
        ids_issued(store),
    ensures
        create_step(store, text, now).reply is Ok ==> count_reply(
            create_step(store, text, now).store,
        ) == count_reply(store) + 1,
        create_step(store, text, now).reply is Err ==> count_reply(
            create_step(store, text, now).store,
        ) == count_reply(store),
        delete_step(store, id).reply is Ok ==> count_reply(delete_step(store, id).store)
            == count_reply(store) - 1,
        delete_step(store, id).reply is Err ==> count_reply(delete_step(store, id).store)
            == count_reply(store),
        count_reply(update_step(store, id, new_text, completed, now).store) == count_reply(store),
{
    let updated = update_step(store, id, new_text, completed, now).store;
    assert(updated.records.dom() =~= store.records.dom());
    if create_step(store, text, now).reply is Ok {
        let todo = create_step(store, text, now).reply->Ok_0;
        assert(!store.records.dom().contains(todo.id));
    }
}

} // verus!
