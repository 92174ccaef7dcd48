//! The durable state: a stable map from record identifier to record bytes,
//! and a stable map that holds the identifier counter under a one-byte key.
//!
//! The maps are `StableBTreeMap`s of `ic_stable_structures`, which the
//! verifier cannot look into. What they hold is named by [`todo_entries`] and
//! [`id_entries`]; the functions in the first half of this file call the
//! maps' methods and state, unproved, what each call does to those contents.
//! Everything after them is verified against these statements.

use crate::codec::MAX_RECORD_SIZE;
use crate::consistency::consistent;
use crate::types::TodoId;
use ic_stable_structures::memory_manager::{MemoryId, MemoryManager, VirtualMemory};
use ic_stable_structures::{DefaultMemoryImpl, StableBTreeMap};
use vstd::prelude::*;

verus! {

/// The stable map from record identifier to record bytes: a `StableBTreeMap`
/// over a virtual memory. The verifier knows of it only what the functions
/// below state of [`todo_entries`].
#[verifier::external_body]
pub struct TodoStorage {
    inner: StableBTreeMap<TodoId, Vec<u8>, VirtualMemory<DefaultMemoryImpl>>,
}

/// The stable map that holds the identifier counter: a `StableBTreeMap` over
/// a virtual memory. The verifier knows of it only what the functions below
/// state of [`id_entries`].
#[verifier::external_body]
pub struct IdStorage {
    inner: StableBTreeMap<u8, TodoId, VirtualMemory<DefaultMemoryImpl>>,
}

/// The key-value pairs that a [`TodoStorage`] holds.
pub uninterp spec fn todo_entries(map: TodoStorage) -> Map<TodoId, Seq<u8>>;

/// The key-value pairs that an [`IdStorage`] holds.
pub uninterp spec fn id_entries(map: IdStorage) -> Map<u8, TodoId>;

/// The number of the virtual memory that a [`TodoStorage`] was opened over.
pub uninterp spec fn todo_memory_of(map: TodoStorage) -> u8;

/// The number of the virtual memory that an [`IdStorage`] was opened over.
pub uninterp spec fn id_memory_of(map: IdStorage) -> u8;

/// Opens the two maps over two virtual memories of one `MemoryManager`, which
/// is laid over `DefaultMemoryImpl::default()`: `MemoryManager::init`,
/// `MemoryManager::get` and `StableBTreeMap::init`. Each map lies over the
/// virtual memory whose number was given for it. A map that the memory
/// already holds is loaded, so nothing is claimed of the contents; the call
/// aborts where the memory holds a map in a layout that the crate does not
/// know. Memory number 255 is refused by `MemoryId::new`, and two maps over
/// one memory would overwrite each other.
#[verifier::external_body]
fn open_maps(todo_memory: u8, id_memory: u8) -> (maps: (TodoStorage, IdStorage))
    requires
        todo_memory != id_memory,
        todo_memory < 255,
        id_memory < 255,
    ensures
        todo_memory_of(maps.0) == todo_memory,
        id_memory_of(maps.1) == id_memory,
{
    let manager = MemoryManager::init(DefaultMemoryImpl::default());
    let todos = StableBTreeMap::init(manager.get(MemoryId::new(todo_memory)));
    let ids = StableBTreeMap::init(manager.get(MemoryId::new(id_memory)));
    (TodoStorage { inner: todos }, IdStorage { inner: ids })
}

/// Calls `StableBTreeMap::get`: the value under `key`, if the map holds one.
#[verifier::external_body]
fn todo_map_get(map: &TodoStorage, key: TodoId) -> (found: Option<Vec<u8>>)
    ensures
        match found {
            Some(bytes) => todo_entries(*map).dom().contains(key) && todo_entries(*map)[key]
                == bytes@,
            None => !todo_entries(*map).dom().contains(key),
        },
{
    map.inner.get(&key)
}

/// Calls `StableBTreeMap::insert`: afterwards the map holds `value` under
/// `key`, in place of what it held there, and is otherwise unchanged. The map
/// writes the length of a value in four bytes, so longer values are left
/// out. Like every write to the map, the call aborts if the stable memory
/// cannot grow.
#[verifier::external_body]
fn todo_map_insert(map: &mut TodoStorage, key: TodoId, value: Vec<u8>)
    requires
        value@.len() <= u32::MAX,
    ensures
        todo_entries(*final(map)) == todo_entries(*old(map)).insert(key, value@),
{
    map.inner.insert(key, value);
}

/// Calls `StableBTreeMap::remove`: afterwards the map holds nothing under
/// `key` and is otherwise unchanged; the value that it held is returned.
#[verifier::external_body]
fn todo_map_remove(map: &mut TodoStorage, key: TodoId) -> (removed: Option<Vec<u8>>)
    ensures
        todo_entries(*final(map)) == todo_entries(*old(map)).remove(key),
        match removed {
            Some(bytes) => todo_entries(*old(map)).dom().contains(key) && todo_entries(
                *old(map),
            )[key] == bytes@,
            None => !todo_entries(*old(map)).dom().contains(key),
        },
{
    map.inner.remove(&key)
}

/// Calls `StableBTreeMap::len`: the number of keys.
#[verifier::external_body]
fn todo_map_len(map: &TodoStorage) -> (count: u64)
    ensures
        count == todo_entries(*map).dom().len(),
{
    map.inner.len()
}

/// Calls `StableBTreeMap::iter` and collects what it yields: every pair of
/// the map, once, in increasing order of the keys.
#[verifier::external_body]
fn todo_map_iter(map: &TodoStorage) -> (pairs: Vec<(TodoId, Vec<u8>)>)
    ensures
        forall|i: int, j: int|
            0 <= i < j < pairs@.len() ==> (#[trigger] pairs@[i]).0 < (#[trigger] pairs@[j]).0,
        forall|i: int|
            0 <= i < pairs@.len() ==> todo_entries(*map).dom().contains((#[trigger] pairs@[i]).0)
                && todo_entries(*map)[pairs@[i].0] == pairs@[i].1@,
        forall|key: TodoId| #[trigger]
            todo_entries(*map).dom().contains(key) ==> exists|i: int|
                0 <= i < pairs@.len() && (#[trigger] pairs@[i]).0 == key,
{
    map.inner.iter().collect()
}

/// Calls `StableBTreeMap::get`: the value under `key`, if the map holds one.
#[verifier::external_body]
fn id_map_get(map: &IdStorage, key: u8) -> (found: Option<TodoId>)
    ensures
        match found {
            Some(value) => id_entries(*map).dom().contains(key) && id_entries(*map)[key] == value,
            None => !id_entries(*map).dom().contains(key),
        },
{
    map.inner.get(&key)
}

/// Calls `StableBTreeMap::insert`: afterwards the map holds `value` under
/// `key`, in place of what it held there, and is otherwise unchanged.
#[verifier::external_body]
fn id_map_insert(map: &mut IdStorage, key: u8, value: TodoId)
    ensures
        id_entries(*final(map)) == id_entries(*old(map)).insert(key, value),
{
    map.inner.insert(key, value);
}

/// The key under which the identifier counter is kept.
pub const TODO_COUNTER_KEY: u8 = 0;

/// The virtual memory that holds the records.
pub const TODO_MEMORY: u8 = 0;

/// The virtual memory that holds the identifier counter.
pub const ID_MEMORY: u8 = 1;

/// The value of a [`TodoStore`]: the bytes kept under each identifier, and
/// the counter cell, which is absent until it is first written.
pub struct StoreState {
    pub records: Map<TodoId, Seq<u8>>,
    pub counter: Option<TodoId>,
}

impl StoreState {
    /// The identifier that was handed out last: the counter, or 0 where the
    /// cell is absent.
    pub open spec fn last_id(self) -> TodoId {
        match self.counter {
            Some(id) => id,
            None => 0,
        }
    }

    /// The same records with the counter set to `id`.
    pub open spec fn with_counter(self, id: TodoId) -> StoreState {
        StoreState { records: self.records, counter: Some(id) }
    }

    /// The same counter with `bytes` kept under `id`.
    pub open spec fn with_record(self, id: TodoId, bytes: Seq<u8>) -> StoreState {
        StoreState { records: self.records.insert(id, bytes), counter: self.counter }
    }

    /// The same counter with nothing kept under `id`.
    pub open spec fn without_record(self, id: TodoId) -> StoreState {
        StoreState { records: self.records.remove(id), counter: self.counter }
    }
}

/// The durable state of the service.
pub struct TodoStore {
    todos: TodoStorage,
    ids: IdStorage,
}

impl View for TodoStore {
    type V = StoreState;

    closed spec fn view(&self) -> StoreState {
        StoreState {
            records: todo_entries(self.todos),
            counter: if id_entries(self.ids).dom().contains(TODO_COUNTER_KEY) {
                Some(id_entries(self.ids)[TODO_COUNTER_KEY])
            } else {
                None
            },
        }
    }
}

impl TodoStore {
    /// The number of the virtual memory in which the records lie.
    pub closed spec fn todo_memory(&self) -> u8 {
        todo_memory_of(self.todos)
    }

    /// The number of the virtual memory in which the counter lies.
    pub closed spec fn id_memory(&self) -> u8 {
        id_memory_of(self.ids)
    }

    /// Opens the store over the default memory: the records in virtual
    /// memory [`TODO_MEMORY`], the counter apart from them in virtual memory
    /// [`ID_MEMORY`]. What the memory holds is loaded, so nothing is promised
    /// of the records and the counter; every operation is verified for
    /// whatever store comes back. To be called once in a process: a second
    /// store over the same stable memory would share its bytes with the
    /// first.
    pub fn open() -> (store: TodoStore)
        ensures
            store.todo_memory() == TODO_MEMORY,
            store.id_memory() == ID_MEMORY,
    {
        let (todos, ids) = open_maps(TODO_MEMORY, ID_MEMORY);
        TodoStore { todos, ids }
    }

    /// The identifier that was handed out last.
    pub fn last_id(&self) -> (id: TodoId)
        ensures
            id == self@.last_id(),
    {
        match id_map_get(&self.ids, TODO_COUNTER_KEY) {
            Some(id) => id,
            None => 0,
        }
    }

    /// The bytes kept under `id`, if any.
    pub(crate) fn read_bytes(&self, id: TodoId) -> (found: Option<Vec<u8>>)
        ensures
            match found {
                Some(bytes) => self@.records.dom().contains(id) && self@.records[id] == bytes@,
                None => !self@.records.dom().contains(id),
            },
    {
        todo_map_get(&self.todos, id)
    }

    /// Keeps `bytes` under `id`.
    pub(crate) fn write_bytes(&mut self, id: TodoId, bytes: Vec<u8>)
        requires
            bytes@.len() <= MAX_RECORD_SIZE,
        ensures
            final(self)@ == old(self)@.with_record(id, bytes@),
    {
        todo_map_insert(&mut self.todos, id, bytes);
    }

    /// Drops what is kept under `id`, and says whether there was anything.
    pub(crate) fn remove_bytes(&mut self, id: TodoId) -> (removed: bool)
        ensures
            removed == old(self)@.records.dom().contains(id),
            final(self)@ == old(self)@.without_record(id),
    {
        todo_map_remove(&mut self.todos, id).is_some()
    }

    /// The number of identifiers under which something is kept.
    pub(crate) fn record_count(&self) -> (count: u64)
        ensures
            count == self@.records.dom().len(),
    {
        todo_map_len(&self.todos)
    }

    /// Everything that is kept, in increasing order of the identifiers.
    pub(crate) fn all_bytes(&self) -> (pairs: Vec<(TodoId, Vec<u8>)>)
        ensures
            forall|i: int, j: int|
                0 <= i < j < pairs@.len() ==> (#[trigger] pairs@[i]).0 < (#[trigger] pairs@[j]).0,
            forall|i: int|
                0 <= i < pairs@.len() ==> self@.records.dom().contains((#[trigger] pairs@[i]).0)
                    && self@.records[pairs@[i].0] == pairs@[i].1@,
            forall|key: TodoId| #[trigger]
                self@.records.dom().contains(key) ==> exists|i: int|
                    0 <= i < pairs@.len() && (#[trigger] pairs@[i]).0 == key,
    {
        todo_map_iter(&self.todos)
    }
}

/// Hands out the next identifier: one more than the last, which the counter
/// records before the identifier is used. The counter must not have reached
/// the greatest `u64`; [`TodoStore::last_id`] tells.
pub fn get_next_todo_id(store: &mut TodoStore) -> (id: TodoId)
    requires
        old(store)@.last_id() < u64::MAX,
    ensures
        id == old(store)@.last_id() + 1,
        final(store)@ == old(store)@.with_counter(id),
        forall|clock: u64| #[trigger]
            consistent(old(store)@, clock) ==> consistent(final(store)@, clock),
{
    let current_id: TodoId = store.last_id();
    let next_id: TodoId = current_id + 1;
    id_map_insert(&mut store.ids, TODO_COUNTER_KEY, next_id);
    next_id
}

/// Makes sure that the counter cell exists: an absent cell is written as 0,
/// a present one is left as it is.
pub fn init_storage(store: &mut TodoStore)
    ensures
        final(store)@ == old(store)@.with_counter(old(store)@.last_id()),
        forall|clock: u64| #[trigger]
            consistent(old(store)@, clock) ==> consistent(final(store)@, clock),
{
    if id_map_get(&store.ids, TODO_COUNTER_KEY).is_none() {
        id_map_insert(&mut store.ids, TODO_COUNTER_KEY, 0);
    }
}

} // verus!
