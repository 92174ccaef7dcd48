//! Runs of requests: what holds of the store and of the identifiers handed
//! out, however creations, changes and removals follow one another.

use crate::consistency::{
    consistent, ids_issued, lemma_create_keeps_consistent, lemma_delete_keeps_consistent,
    lemma_ids_stay_issued, lemma_update_keeps_consistent,
};
use crate::laws::lemma_count_follows_records;
use crate::service::{count_reply, create_step, delete_step, update_step};
use crate::storage::StoreState;
use crate::types::TodoId;
use vstd::prelude::*;

verus! {

/// A request that may change the store. Reading, listing and counting change
/// nothing and are left out.
pub enum Request {
    Create { text: Seq<char>, now: u64 },
    Update { id: TodoId, new_text: Option<Seq<char>>, completed: Option<bool>, now: u64 },
    Delete { id: TodoId },
}

/// The store after `request`.
pub open spec fn apply(store: StoreState, request: Request) -> StoreState {
    match request {
        Request::Create { text, now } => create_step(store, text, now).store,
        Request::Update { id, new_text, completed, now } => update_step(
            store,
            id,
            new_text,
            completed,
            now,
        ).store,
        Request::Delete { id } => delete_step(store, id).store,
    }
}

/// The identifier that `request` hands out, if it is a creation that
/// succeeds.
pub open spec fn issued_id(store: StoreState, request: Request) -> Option<TodoId> {
    match request {
        Request::Create { text, now } => match create_step(store, text, now).reply {
            Ok(todo) => Some(todo.id),
            Err(_) => None,
        },
        _ => None,
    }
}

/// Whether `request` is a removal that succeeds.
pub open spec fn removes(store: StoreState, request: Request) -> bool {
    match request {
        Request::Delete { id } => delete_step(store, id).reply is Ok,
        _ => false,
    }
}

/// The store after `requests`, one after the other.
pub open spec fn run(store: StoreState, requests: Seq<Request>) -> StoreState
    decreases requests.len(),
{
    if requests.len() == 0 {
        store
    } else {
        apply(run(store, requests.drop_last()), requests.last())
    }
}

/// The identifiers that `requests` hand out, in the order of the requests.
pub open spec fn issued_ids(store: StoreState, requests: Seq<Request>) -> Seq<TodoId>
    decreases requests.len(),
{
    if requests.len() == 0 {
        Seq::empty()
    } else {
        let earlier = issued_ids(store, requests.drop_last());
        match issued_id(run(store, requests.drop_last()), requests.last()) {
            Some(id) => earlier.push(id),
            None => earlier,
        }
    }
}

/// How many of `requests` remove a record.
pub open spec fn removals(store: StoreState, requests: Seq<Request>) -> nat
    decreases requests.len(),
{
    if requests.len() == 0 {
        0
    } else {
        let earlier = removals(store, requests.drop_last());
        if removes(run(store, requests.drop_last()), requests.last()) {
            earlier + 1
        } else {
            earlier
        }
    }
}

/// Where the clock stands after `requests`, if it stood at `clock` before:
/// at the time of the last creation or change.
pub open spec fn clock_after(clock: u64, requests: Seq<Request>) -> u64
    decreases requests.len(),
{
    if requests.len() == 0 {
        clock
    } else {
        match requests.last() {
            Request::Create { now, .. } => now,
            Request::Update { now, .. } => now,
            Request::Delete { .. } => clock_after(clock, requests.drop_last()),
        }
    }
}

/// Whether the clock never runs backwards in `requests`, starting at `clock`.
pub open spec fn in_time_order(clock: u64, requests: Seq<Request>) -> bool
    decreases requests.len(),
{
    if requests.len() == 0 {
        true
    } else {
        &&& in_time_order(clock, requests.drop_last())
        &&& clock_after(clock, requests.drop_last()) <= clock_after(clock, requests)
    }
}

/// The identifiers that a run of requests hands out are strictly increasing,
/// whatever else the run creates, changes or removes: each is greater than
/// the one before and than the counter at the start, and none is greater than
/// the counter at the end. So no identifier is handed out twice.
pub proof fn lemma_ids_increase(store: StoreState, requests: Seq<Request>)
    ensures
        store.last_id() <= run(store, requests).last_id(),
        forall|i: int|
            0 <= i < issued_ids(store, requests).len() ==> store.last_id() < (
            #[trigger] issued_ids(store, requests)[i]) <= run(store, requests).last_id(),
        forall|i: int, j: int|
            0 <= i < j < issued_ids(store, requests).len() ==> (#[trigger] issued_ids(
                store,
                requests,
            )[i]) < (#[trigger] issued_ids(store, requests)[j]),
    decreases requests.len(),
{
    if requests.len() > 0 {
        let earlier = requests.drop_last();
        let before = run(store, earlier);
        let ids_before = issued_ids(store, earlier);
        let ids = issued_ids(store, requests);
        lemma_ids_increase(store, earlier);
        assert(before.last_id() <= apply(before, requests.last()).last_id());
        match issued_id(before, requests.last()) {
            Some(id) => {
                assert(ids == ids_before.push(id));
                assert(id == before.last_id() + 1);
                assert(run(store, requests).last_id() == id);
                assert forall|i: int| 0 <= i < ids.len() implies store.last_id() < (
                #[trigger] ids[i]) <= id by {
                    if i < ids_before.len() {
                        assert(ids[i] == ids_before[i]);
                    }
                }
                assert forall|i: int, j: int| 0 <= i < j < ids.len() implies (#[trigger] ids[i])
                    < (#[trigger] ids[j]) by {
                    assert(ids[i] == ids_before[i]);
                    if j < ids_before.len() {
                        assert(ids[j] == ids_before[j]);
                    }
                }
            },
            None => {
                assert(ids == ids_before);
            },
        }
    }
}

/// A run of requests in which the clock never runs backwards keeps a
/// consistent store consistent.
pub proof fn lemma_run_keeps_consistent(store: StoreState, clock: u64, requests: Seq<Request>)
    requires
        consistent(store, clock),
        in_time_order(clock, requests),
    ensures
        consistent(run(store, requests), clock_after(clock, requests)),
    decreases requests.len(),
{
    if requests.len() > 0 {
        let earlier = requests.drop_last();
        let before = run(store, earlier);
        let then = clock_after(clock, earlier);
        lemma_run_keeps_consistent(store, clock, earlier);
        match requests.last() {
            Request::Create { text, now } => {
                lemma_create_keeps_consistent(before, then, text, now);
            },
            Request::Update { id, new_text, completed, now } => {
                lemma_update_keeps_consistent(before, then, id, new_text, completed, now);
            },
            Request::Delete { id } => {
                lemma_delete_keeps_consistent(before, then, id);
            },
        }
    }
}

/// After any run of requests the store counts the records it counted before,
/// and those that the run created, less those that the run removed.
pub proof fn lemma_count_is_created_less_removed(store: StoreState, requests: Seq<Request>)
    requires
        ids_issued(store),
    ensures
        ids_issued(run(store, requests)),
        count_reply(run(store, requests)) == count_reply(store) + issued_ids(store, requests).len()
            - removals(store, requests),
    decreases requests.len(),
{
    if requests.len() > 0 {
        let earlier = requests.drop_last();
        let before = run(store, earlier);
        lemma_count_is_created_less_removed(store, earlier);
        match requests.last() {
            Request::Create { text, now } => {
                lemma_ids_stay_issued(before, 0, text, None, None, now);
                lemma_count_follows_records(before, 0, text, None, None, now);
            },
            Request::Update { id, new_text, completed, now } => {
                lemma_ids_stay_issued(before, id, Seq::empty(), new_text, completed, now);
                lemma_count_follows_records(before, id, Seq::empty(), new_text, completed, now);
            },
            Request::Delete { id } => {
                lemma_ids_stay_issued(before, id, Seq::empty(), None, None, 0);
                lemma_count_follows_records(before, id, Seq::empty(), None, None, 0);
            },
        }
    }
}

} // verus!
