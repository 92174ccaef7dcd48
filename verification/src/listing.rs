//! The listing of all records, newest first, and the pages cut from it.

use crate::types::{todo_views, PageView, PaginationInput, Todo, TodoId, TodoView, TodosPage};
use vstd::multiset::{lemma_multiset_empty_len, Multiset};
use vstd::prelude::*;
use vstd::seq_lib::{lemma_multiset_commutative, to_multiset_build, to_multiset_contains, to_multiset_len};

verus! {

/// The greatest number of records on one page.
pub const MAX_PAGINATION_LIMIT: u64 = 100;

/// What is reported for a page of no records.
pub open spec fn zero_limit_message() -> Seq<char> {
    "Limit must be greater than 0"@
}

/// What is reported for a page of more than [`MAX_PAGINATION_LIMIT`] records.
pub open spec fn large_limit_message() -> Seq<char> {
    "Limit cannot exceed 100"@
}

/// Why a page of `limit` records is refused, if it is.
pub open spec fn pagination_error(limit: u64) -> Option<Seq<char>> {
    if limit == 0 {
        Some(zero_limit_message())
    } else if limit > MAX_PAGINATION_LIMIT {
        Some(large_limit_message())
    } else {
        None
    }
}

/// Accepts the page request or says why it is refused. Any offset is
/// accepted: one past the end asks for an empty page.
pub fn validate_pagination(pagination: &PaginationInput) -> (verdict: Result<(), String>)
    ensures
        match verdict {
            Ok(()) => pagination_error(pagination.limit) is None,
            Err(reason) => pagination_error(pagination.limit) == Some(reason@),
        },
{
    if pagination.limit == 0 {
        return Err("Limit must be greater than 0".to_owned());
    }
    if pagination.limit > MAX_PAGINATION_LIMIT {
        return Err("Limit cannot exceed 100".to_owned());
    }
    Ok(())
}

/// Whether `a` stands before `b` in the listing: the record created later
/// comes first, and of two created at the same time the one with the greater
/// identifier.
pub open spec fn newer(a: TodoView, b: TodoView) -> bool {
    a.created_at > b.created_at || (a.created_at == b.created_at && a.id > b.id)
}

/// Whether `all` lists the records of `records`: each entry is the record
/// kept under its identifier, every record is listed, and each entry is
/// newer than those after it.
pub open spec fn is_listing(all: Seq<TodoView>, records: Map<TodoId, TodoView>) -> bool {
    &&& forall|i: int|
        0 <= i < all.len() ==> records.dom().contains((#[trigger] all[i]).id) && records[all[i].id]
            == all[i]
    &&& forall|i: int, j: int| 0 <= i < j < all.len() ==> newer(#[trigger] all[i], #[trigger] all[j])
    &&& forall|id: TodoId| #[trigger]
        records.dom().contains(id) ==> exists|i: int|
            0 <= i < all.len() && (#[trigger] all[i]).id == id
}

/// The listing of `records`: all of them, newest first.
pub open spec fn listing(records: Map<TodoId, TodoView>) -> Seq<TodoView> {
    choose|all: Seq<TodoView>| is_listing(all, records)
}

/// The page that `offset` and `limit` cut from `all`: the records from
/// position `offset` up to `offset + limit`, as far as there are any.
pub open spec fn page_of(all: Seq<TodoView>, offset: u64, limit: u64) -> PageView {
    if offset >= all.len() {
        PageView { todos: Seq::empty(), total_count: all.len() as u64, has_more: false }
    } else {
        PageView {
            todos: all.subrange(
                offset as int,
                if offset + limit < all.len() {
                    offset + limit
                } else {
                    all.len() as int
                },
            ),
            total_count: all.len() as u64,
            has_more: offset + limit < all.len(),
        }
    }
}

/// Two listings of the same records agree up to any position that both
/// reach.
proof fn lemma_listings_agree(
    first: Seq<TodoView>,
    second: Seq<TodoView>,
    records: Map<TodoId, TodoView>,
    position: int,
)
    requires
        is_listing(first, records),
        is_listing(second, records),
        0 <= position < first.len(),
        position < second.len(),
    ensures
        first[position] == second[position],
    decreases position,
{
    assert forall|k: int| 0 <= k < position implies first[k] == second[k] by {
        lemma_listings_agree(first, second, records, k);
    }
    let a = first[position];
    let b = second[position];
    assert(records.dom().contains(a.id));
    let j = choose|j: int| 0 <= j < second.len() && (#[trigger] second[j]).id == a.id;
    assert(second[j] == a);
    assert(records.dom().contains(b.id));
    let i = choose|i: int| 0 <= i < first.len() && (#[trigger] first[i]).id == b.id;
    assert(first[i] == b);
    if j < position {
        assert(first[j] == second[j]);
        assert(newer(first[j], first[position]));
    }
    if i < position {
        assert(first[i] == second[i]);
        assert(newer(second[i], second[position]));
    }
    if j > position && i > position {
        assert(newer(second[position], second[j]));
        assert(newer(first[position], first[i]));
    }
}

/// Records have one listing.
pub proof fn lemma_listing_unique(
    first: Seq<TodoView>,
    second: Seq<TodoView>,
    records: Map<TodoId, TodoView>,
)
    requires
        is_listing(first, records),
        is_listing(second, records),
    ensures
        first == second,
{
    if first.len() < second.len() {
        let extra = second[first.len() as int];
        assert(records.dom().contains(extra.id));
        let i = choose|i: int| 0 <= i < first.len() && (#[trigger] first[i]).id == extra.id;
        lemma_listings_agree(first, second, records, i);
        assert(newer(second[i], second[first.len() as int]));
    }
    if second.len() < first.len() {
        let extra = first[second.len() as int];
        assert(records.dom().contains(extra.id));
        let i = choose|i: int| 0 <= i < second.len() && (#[trigger] second[i]).id == extra.id;
        lemma_listings_agree(first, second, records, i);
        assert(newer(first[i], first[second.len() as int]));
    }
    assert forall|k: int| 0 <= k < first.len() implies first[k] == second[k] by {
        lemma_listings_agree(first, second, records, k);
    }
    assert(first =~= second);
}

/// A sequence that lists the records is their listing.
pub proof fn lemma_listing_is(all: Seq<TodoView>, records: Map<TodoId, TodoView>)
    requires
        is_listing(all, records),
    ensures
        listing(records) == all,
{
    lemma_listing_unique(listing(records), all, records);
}

/// What the listing orders a record by, with the record's position among the
/// records that are being ordered.
#[derive(Clone, Copy)]
struct SortKey {
    created_at: u64,
    id: TodoId,
    position: usize,
}

/// Whether nothing forbids `a` to stand before `b`: `a` was created later,
/// or at the same time with an identifier that is not smaller.
spec fn may_precede(a: SortKey, b: SortKey) -> bool {
    a.created_at > b.created_at || (a.created_at == b.created_at && a.id >= b.id)
}

/// Whether each key may precede those after it.
spec fn keys_ordered(keys: Seq<SortKey>) -> bool {
    forall|i: int, j: int|
        0 <= i < j < keys.len() ==> may_precede(#[trigger] keys[i], #[trigger] keys[j])
}

/// Whether `a` may precede `b`.
fn key_may_precede(a: &SortKey, b: &SortKey) -> (yes: bool)
    ensures
        yes == may_precede(*a, *b),
{
    a.created_at > b.created_at || (a.created_at == b.created_at && a.id >= b.id)
}

/// Merges two ordered runs of keys into one.
fn merge_keys(left: &Vec<SortKey>, right: &Vec<SortKey>) -> (merged: Vec<SortKey>)
    requires
        keys_ordered(left@),
        keys_ordered(right@),
    ensures
        keys_ordered(merged@),
        merged@.to_multiset() == left@.to_multiset().add(right@.to_multiset()),
{
    let mut merged: Vec<SortKey> = Vec::new();
    let mut i: usize = 0;
    let mut j: usize = 0;
    proof {
        let nothing = Seq::<SortKey>::empty();
        assert(left@.take(0) =~= nothing);
        assert(right@.take(0) =~= nothing);
        assert(merged@ =~= nothing);
        to_multiset_len(nothing);
        lemma_multiset_empty_len(nothing.to_multiset());
        assert(Multiset::<SortKey>::empty().add(Multiset::empty()) =~= Multiset::empty());
    }
    while i < left.len() || j < right.len()
        invariant
            i <= left.len(),
            j <= right.len(),
            keys_ordered(left@),
            keys_ordered(right@),
            keys_ordered(merged@),
            merged@.to_multiset() == left@.take(i as int).to_multiset().add(
                right@.take(j as int).to_multiset(),
            ),
            forall|k: int|
                0 <= k < merged@.len() ==> (i < left.len() ==> may_precede(
                    #[trigger] merged@[k],
                    left@[i as int],
                )) && (j < right.len() ==> may_precede(merged@[k], right@[j as int])),
        decreases left.len() - i + right.len() - j,
    {
        let from_left: bool = if i == left.len() {
            false
        } else if j == right.len() {
            true
        } else {
            key_may_precede(&left[i], &right[j])
        };
        let ghost before = merged@;
        if from_left {
            let key: SortKey = left[i];
            merged.push(key);
            proof {
                assert(left@.take(i + 1) =~= left@.take(i as int).push(key));
                to_multiset_build(left@.take(i as int), key);
                to_multiset_build(before, key);
                assert(merged@.to_multiset() =~= left@.take(i + 1).to_multiset().add(
                    right@.take(j as int).to_multiset(),
                ));
            }
            i = i + 1;
        } else {
            let key: SortKey = right[j];
            merged.push(key);
            proof {
                assert(right@.take(j + 1) =~= right@.take(j as int).push(key));
                to_multiset_build(right@.take(j as int), key);
                to_multiset_build(before, key);
                assert(merged@.to_multiset() =~= left@.take(i as int).to_multiset().add(
                    right@.take(j + 1).to_multiset(),
                ));
            }
            j = j + 1;
        }
    }
    proof {
        assert(left@.take(i as int) =~= left@);
        assert(right@.take(j as int) =~= right@);
    }
    merged
}

/// Orders the keys so that each may precede those after it.
fn sort_keys(keys: Vec<SortKey>) -> (sorted: Vec<SortKey>)
    ensures
        keys_ordered(sorted@),
        sorted@.to_multiset() == keys@.to_multiset(),
    decreases keys@.len(),
{
    if keys.len() <= 1 {
        return keys;
    }
    let ghost whole = keys@;
    let middle: usize = keys.len() / 2;
    let mut left = keys;
    let right = left.split_off(middle);
    proof {
        assert(whole =~= left@ + right@);
        lemma_multiset_commutative(left@, right@);
    }
    let left_sorted = sort_keys(left);
    let right_sorted = sort_keys(right);
    merge_keys(&left_sorted, &right_sorted)
}

/// Whether no identifier occurs twice among `todos`.
pub open spec fn distinct_ids(todos: Seq<TodoView>) -> bool {
    forall|i: int, j: int|
        0 <= i < j < todos.len() ==> (#[trigger] todos[i]).id != (#[trigger] todos[j]).id
}

/// The records of `todos`, each under its identifier.
pub open spec fn records_of(todos: Seq<TodoView>) -> Map<TodoId, TodoView> {
    Map::new(
        |id: TodoId| exists|i: int| 0 <= i < todos.len() && (#[trigger] todos[i]).id == id,
        |id: TodoId| todos[choose|i: int| 0 <= i < todos.len() && (#[trigger] todos[i]).id == id],
    )
}

/// The keys by which `todos` are ordered, in the order of `todos`.
spec fn keys_of(todos: Seq<TodoView>) -> Seq<SortKey> {
    Seq::new(
        todos.len(),
        |i: int|
            SortKey { created_at: todos[i].created_at, id: todos[i].id, position: i as usize },
    )
}

/// The records of `todos` in the order of `sorted`.
spec fn arranged(todos: Seq<TodoView>, sorted: Seq<SortKey>) -> Seq<TodoView> {
    Seq::new(sorted.len(), |k: int| todos[sorted[k].position as int])
}

/// Ordering the keys of records with distinct identifiers arranges the
/// records as their listing.
proof fn lemma_arranged_is_listing(todos: Seq<TodoView>, sorted: Seq<SortKey>)
    requires
        todos.len() <= usize::MAX,
        distinct_ids(todos),
        keys_ordered(sorted),
        sorted.to_multiset() == keys_of(todos).to_multiset(),
    ensures
        sorted.len() == todos.len(),
        forall|k: int| 0 <= k < sorted.len() ==> (#[trigger] sorted[k]).position < todos.len(),
        is_listing(arranged(todos, sorted), records_of(todos)),
{
    let keys = keys_of(todos);
    let all = arranged(todos, sorted);
    let records = records_of(todos);
    to_multiset_len(sorted);
    to_multiset_len(keys);
    assert forall|k: int| 0 <= k < sorted.len() implies {
        let p = (#[trigger] sorted[k]).position as int;
        0 <= p < todos.len() && keys[p] == sorted[k]
    } by {
        assert(sorted.contains(sorted[k]));
        to_multiset_contains(sorted, sorted[k]);
        to_multiset_contains(keys, sorted[k]);
        let i = choose|i: int| 0 <= i < keys.len() && keys[i] == sorted[k];
        assert(keys[i].position == i);
    }
    assert(keys.no_duplicates());
    keys.lemma_multiset_has_no_duplicates();
    sorted.lemma_multiset_has_no_duplicates_conv();
    assert forall|i: int| 0 <= i < all.len() implies records.dom().contains((#[trigger] all[i]).id)
        && records[all[i].id] == all[i] by {
        let p = sorted[i].position as int;
        assert(todos[p].id == all[i].id);
    }
    assert forall|i: int, j: int| 0 <= i < j < all.len() implies newer(
        #[trigger] all[i],
        #[trigger] all[j],
    ) by {
        let p = sorted[i].position as int;
        let q = sorted[j].position as int;
        assert(may_precede(sorted[i], sorted[j]));
        assert(sorted[i] != sorted[j]);
        assert(p != q);
        assert(todos[p].id != todos[q].id);
    }
    assert forall|id: TodoId| #[trigger] records.dom().contains(id) implies exists|k: int|
        0 <= k < all.len() && (#[trigger] all[k]).id == id by {
        let i = choose|i: int| 0 <= i < todos.len() && (#[trigger] todos[i]).id == id;
        assert(keys.contains(keys[i]));
        to_multiset_contains(keys, keys[i]);
        to_multiset_contains(sorted, keys[i]);
        let k = choose|k: int| 0 <= k < sorted.len() && sorted[k] == keys[i];
        assert(all[k].id == id);
    }
}

/// The keys of `todos`, ordered as the listing orders the records.
fn ordered_keys(todos: &Vec<Todo>) -> (sorted: Vec<SortKey>)
    requires
        distinct_ids(todo_views(todos@)),
    ensures
        sorted@.len() == todos@.len(),
        forall|k: int| 0 <= k < sorted@.len() ==> (#[trigger] sorted@[k]).position < todos@.len(),
        is_listing(arranged(todo_views(todos@), sorted@), records_of(todo_views(todos@))),
{
    let mut keys: Vec<SortKey> = Vec::new();
    let mut i: usize = 0;
    while i < todos.len()
        invariant
            i <= todos.len(),
            keys@ == keys_of(todo_views(todos@)).take(i as int),
        decreases todos.len() - i,
    {
        let todo = &todos[i];
        keys.push(SortKey { created_at: todo.created_at, id: todo.id, position: i });
        proof {
            let all_keys = keys_of(todo_views(todos@));
            assert(keys@ =~= all_keys.take(i + 1));
        }
        i = i + 1;
    }
    proof {
        let all_keys = keys_of(todo_views(todos@));
        assert(keys@ =~= all_keys);
    }
    let sorted = sort_keys(keys);
    proof {
        lemma_arranged_is_listing(todo_views(todos@), sorted@);
    }
    sorted
}

/// The page that `pagination` cuts from the listing of `todos`. The request
/// is taken as it is: whether its limit is acceptable is for the caller to
/// decide.
pub fn paginate(todos: &Vec<Todo>, pagination: &PaginationInput) -> (page: TodosPage)
    requires
        distinct_ids(todo_views(todos@)),
    ensures
        page@ == page_of(
            listing(records_of(todo_views(todos@))),
            pagination.offset,
            pagination.limit,
        ),
{
    let sorted = ordered_keys(todos);
    let ghost all = arranged(todo_views(todos@), sorted@);
    proof {
        lemma_listing_is(all, records_of(todo_views(todos@)));
    }
    let total: usize = todos.len();
    let total_count: u64 = total as u64;
    if pagination.offset >= total_count {
        let page = TodosPage { todos: Vec::new(), total_count, has_more: false };
        proof {
            assert(page@.todos =~= Seq::<TodoView>::empty());
        }
        return page;
    }
    let start: usize = pagination.offset as usize;
    let left: usize = total - start;
    let end: usize = if pagination.limit < left as u64 {
        start + pagination.limit as usize
    } else {
        total
    };
    let mut picked: Vec<Todo> = Vec::new();
    let mut k: usize = start;
    while k < end
        invariant
            start <= k <= end <= total,
            total == todos@.len(),
            sorted@.len() == total,
            forall|n: int| 0 <= n < sorted@.len() ==> (#[trigger] sorted@[n]).position < total,
            all == arranged(todo_views(todos@), sorted@),
            todo_views(picked@) == all.subrange(start as int, k as int),
        decreases end - k,
    {
        let todo = todos[sorted[k].position].duplicate();
        let ghost before = picked@;
        let ghost value = todo@;
        picked.push(todo);
        proof {
            assert(all[k as int] == todo_views(todos@)[sorted@[k as int].position as int]);
            assert(all[k as int] == value);
            assert(todo_views(picked@) =~= todo_views(before).push(value));
            assert(todo_views(picked@) =~= all.subrange(start as int, k + 1));
        }
        k = k + 1;
    }
    TodosPage { todos: picked, total_count, has_more: end < total }
}

} // verus!
