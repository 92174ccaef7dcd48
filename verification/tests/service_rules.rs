use todo_ic::service::{
    create_todo, delete_todo_by_id, get_all_todos_paginated, get_todo_by_id, get_todo_count,
    update_todo, update_todo_completed, update_todo_text,
};
use todo_ic::storage::{get_next_todo_id, init_storage, TodoStore};
use todo_ic::types::{
    CreateTodoInput, DeleteResult, PaginationInput, Todo, TodoResult, TodosPage, TodosResult,
    UpdateTodoInput,
};

fn fresh() -> TodoStore {
    let mut store = TodoStore::open();
    init_storage(&mut store);
    store
}

fn create(store: &mut TodoStore, text: &str, now: u64) -> Todo {
    match create_todo(store, CreateTodoInput { text: text.to_string() }, now) {
        TodoResult::Ok(todo) => todo,
        TodoResult::Err(e) => panic!("create failed: {}", e),
    }
}

fn list(store: &TodoStore, offset: u64, limit: u64) -> TodosPage {
    match get_all_todos_paginated(store, PaginationInput { offset, limit }) {
        TodosResult::Ok(page) => page,
        TodosResult::Err(e) => panic!("list failed: {}", e),
    }
}

fn ids(todos: &[Todo]) -> Vec<u64> {
    todos.iter().map(|t| t.id).collect()
}

#[test]
fn a_store_opens_empty_with_the_counter_at_zero() {
    let mut store = TodoStore::open();
    assert_eq!(store.last_id(), 0);
    assert_eq!(get_todo_count(&store), 0);
    init_storage(&mut store);
    assert_eq!(store.last_id(), 0);
    assert_eq!(create(&mut store, "first", 1).id, 1);
}

#[test]
fn creating_works_without_initialising_the_counter() {
    let mut store = TodoStore::open();
    assert_eq!(create(&mut store, "first", 1).id, 1);
    assert_eq!(create(&mut store, "second", 2).id, 2);
}

#[test]
fn initialising_again_keeps_the_counter() {
    let mut store = fresh();
    create(&mut store, "a", 1);
    create(&mut store, "b", 2);
    init_storage(&mut store);
    init_storage(&mut store);
    assert_eq!(store.last_id(), 2);
    assert_eq!(create(&mut store, "c", 3).id, 3);
    assert_eq!(get_todo_count(&store), 3);
}

#[test]
fn next_identifier_is_one_more_than_the_last() {
    let mut store = fresh();
    assert_eq!(get_next_todo_id(&mut store), 1);
    assert_eq!(get_next_todo_id(&mut store), 2);
    assert_eq!(store.last_id(), 2);
    // An identifier that was handed out is skipped even if it was never used.
    assert_eq!(create(&mut store, "x", 1).id, 3);
}

#[test]
fn identifiers_increase_and_are_not_reused_after_removals() {
    let mut store = fresh();
    let mut seen: Vec<u64> = Vec::new();
    for round in 0..20u64 {
        let todo = create(&mut store, "todo", round);
        if let Some(last) = seen.last() {
            assert!(todo.id > *last);
        }
        seen.push(todo.id);
        if round % 3 == 0 {
            assert_eq!(delete_todo_by_id(&mut store, todo.id), DeleteResult::Ok(true));
        }
        if round % 5 == 0 && round > 0 {
            let _ = delete_todo_by_id(&mut store, seen[0]);
        }
    }
    assert_eq!(seen, (1..=20).collect::<Vec<u64>>());
}

#[test]
fn refused_texts_create_nothing() {
    let mut store = fresh();
    for text in ["", "   ", "\n\t"] {
        assert_eq!(
            create_todo(&mut store, CreateTodoInput { text: text.to_string() }, 5),
            TodoResult::Err("Todo text cannot be empty".to_string())
        );
    }
    assert_eq!(
        create_todo(&mut store, CreateTodoInput { text: "a".repeat(1001) }, 5),
        TodoResult::Err("Todo text cannot exceed 1000 characters".to_string())
    );
    assert_eq!(get_todo_count(&store), 0);
    // A refused creation uses up no identifier.
    assert_eq!(store.last_id(), 0);
    assert_eq!(create(&mut store, "ok", 6).id, 1);
}

#[test]
fn created_text_is_stored_trimmed() {
    let mut store = fresh();
    let todo = create(&mut store, " hello ", 42);
    assert_eq!(
        todo,
        Todo { id: 1, text: "hello".to_string(), completed: false, created_at: 42, updated_at: 42 }
    );
    assert_eq!(get_todo_by_id(&store, 1), TodoResult::Ok(todo));
}

#[test]
fn longest_text_is_stored_and_read_back() {
    let mut store = fresh();
    let text = "\u{20ac}".repeat(333);
    let todo = create(&mut store, &text, u64::MAX);
    assert_eq!(todo.text, text);
    assert_eq!(get_todo_by_id(&store, todo.id), TodoResult::Ok(todo));
}

#[test]
fn updating_the_flag_keeps_the_text_and_moves_the_update_time() {
    let mut store = fresh();
    let created = create(&mut store, "write tests", 100);
    let reply = update_todo(
        &mut store,
        UpdateTodoInput { id: created.id, text: None, completed: Some(true) },
        250,
    );
    let expected = Todo {
        id: created.id,
        text: "write tests".to_string(),
        completed: true,
        created_at: 100,
        updated_at: 250,
    };
    assert_eq!(reply, TodoResult::Ok(expected.clone()));
    assert!(expected.updated_at >= expected.created_at);
    assert_eq!(get_todo_by_id(&store, created.id), TodoResult::Ok(expected));
}

#[test]
fn updating_the_text_trims_it_and_keeps_the_flag() {
    let mut store = fresh();
    let created = create(&mut store, "draft", 1);
    update_todo(&mut store, UpdateTodoInput { id: 1, text: None, completed: Some(true) }, 2)
        .unwrap();
    let reply = update_todo(
        &mut store,
        UpdateTodoInput { id: 1, text: Some("  final  ".to_string()), completed: None },
        3,
    );
    let expected = Todo {
        id: created.id,
        text: "final".to_string(),
        completed: true,
        created_at: 1,
        updated_at: 3,
    };
    assert_eq!(reply, TodoResult::Ok(expected.clone()));
    assert_eq!(get_todo_by_id(&store, 1), TodoResult::Ok(expected));
}

#[test]
fn updating_nothing_leaves_the_record_as_it_is() {
    let mut store = fresh();
    let created = create(&mut store, "steady", 10);
    let reply =
        update_todo(&mut store, UpdateTodoInput { id: 1, text: None, completed: None }, 999);
    assert_eq!(reply, TodoResult::Ok(created.clone()));
    assert_eq!(get_todo_by_id(&store, 1), TodoResult::Ok(created));
}

#[test]
fn setting_the_flag_to_what_it_is_still_counts_as_an_update() {
    let mut store = fresh();
    create(&mut store, "steady", 10);
    let reply =
        update_todo(&mut store, UpdateTodoInput { id: 1, text: None, completed: Some(false) }, 11)
            .unwrap();
    assert!(!reply.completed);
    assert_eq!(reply.updated_at, 11);
}

#[test]
fn refused_text_aborts_the_whole_update() {
    let mut store = fresh();
    let created = create(&mut store, "keep me", 10);
    let reply = update_todo(
        &mut store,
        UpdateTodoInput { id: 1, text: Some("   ".to_string()), completed: Some(true) },
        20,
    );
    assert_eq!(reply, TodoResult::Err("Todo text cannot be empty".to_string()));
    let reply = update_todo(
        &mut store,
        UpdateTodoInput { id: 1, text: Some("b".repeat(1001)), completed: Some(true) },
        20,
    );
    assert_eq!(reply, TodoResult::Err("Todo text cannot exceed 1000 characters".to_string()));
    assert_eq!(get_todo_by_id(&store, 1), TodoResult::Ok(created));
}

#[test]
fn updating_an_unknown_record_finds_nothing() {
    let mut store = fresh();
    let reply = update_todo(
        &mut store,
        UpdateTodoInput { id: 4, text: Some("".to_string()), completed: None },
        1,
    );
    assert_eq!(reply, TodoResult::Err("Todo not found".to_string()));
    assert_eq!(get_todo_count(&store), 0);
}

#[test]
fn removed_record_is_gone() {
    let mut store = fresh();
    create(&mut store, "a", 1);
    create(&mut store, "b", 2);
    assert_eq!(delete_todo_by_id(&mut store, 1), DeleteResult::Ok(true));
    assert_eq!(get_todo_by_id(&store, 1), TodoResult::Err("Todo not found".to_string()));
    assert_eq!(delete_todo_by_id(&mut store, 1), DeleteResult::Err("Todo not found".to_string()));
    assert_eq!(delete_todo_by_id(&mut store, 77), DeleteResult::Err("Todo not found".to_string()));
    assert!(get_todo_by_id(&store, 2).is_ok());
}

#[test]
fn count_follows_creations_and_removals() {
    let mut store = fresh();
    let mut expected: u64 = 0;
    for round in 0..30u64 {
        create(&mut store, "todo", round);
        expected += 1;
        assert_eq!(get_todo_count(&store), expected);
        if round % 4 == 1 {
            assert!(delete_todo_by_id(&mut store, round).is_ok());
            expected -= 1;
            assert_eq!(get_todo_count(&store), expected);
            assert!(delete_todo_by_id(&mut store, round).is_err());
            assert_eq!(get_todo_count(&store), expected);
        }
        let _ = update_todo(
            &mut store,
            UpdateTodoInput { id: round + 1, text: None, completed: Some(true) },
            round,
        );
        assert_eq!(get_todo_count(&store), expected);
        assert_eq!(list(&store, 0, 1).total_count, expected);
    }
}

#[test]
fn listing_an_empty_store_gives_an_empty_page() {
    let store = fresh();
    assert_eq!(list(&store, 0, 10), TodosPage { todos: vec![], total_count: 0, has_more: false });
}

#[test]
fn listing_past_the_end_gives_an_empty_page_with_the_total() {
    let mut store = fresh();
    for i in 0..3u64 {
        create(&mut store, "todo", i);
    }
    for offset in [3u64, 4, 1 << 40, u64::MAX] {
        assert_eq!(
            list(&store, offset, 10),
            TodosPage { todos: vec![], total_count: 3, has_more: false }
        );
    }
}

#[test]
fn listing_refuses_limits_out_of_range() {
    let mut store = fresh();
    create(&mut store, "todo", 1);
    assert_eq!(
        get_all_todos_paginated(&store, PaginationInput { offset: 0, limit: 0 }),
        TodosResult::Err("Limit must be greater than 0".to_string())
    );
    assert_eq!(
        get_all_todos_paginated(&store, PaginationInput { offset: 0, limit: 101 }),
        TodosResult::Err("Limit cannot exceed 100".to_string())
    );
    assert_eq!(list(&store, 0, 100).todos.len(), 1);
}

#[test]
fn listing_is_ordered_by_creation_time_newest_first() {
    let mut store = fresh();
    for now in [30u64, 10, 50, 20, 40] {
        create(&mut store, "todo", now);
    }
    let page = list(&store, 0, 10);
    assert_eq!(ids(&page.todos), vec![3, 5, 1, 4, 2]);
    assert_eq!(
        page.todos.iter().map(|t| t.created_at).collect::<Vec<u64>>(),
        vec![50, 40, 30, 20, 10]
    );
    assert_eq!(page.total_count, 5);
    assert!(!page.has_more);
}

#[test]
fn updates_do_not_move_a_record_in_the_listing() {
    let mut store = fresh();
    for now in [1u64, 2, 3] {
        create(&mut store, "todo", now);
    }
    update_todo(&mut store, UpdateTodoInput { id: 1, text: None, completed: Some(true) }, 100)
        .unwrap();
    assert_eq!(ids(&list(&store, 0, 10).todos), vec![3, 2, 1]);
}

#[test]
fn records_created_at_the_same_time_list_by_descending_identifier() {
    let mut store = fresh();
    for _ in 0..4 {
        create(&mut store, "todo", 5);
    }
    create(&mut store, "later", 6);
    assert_eq!(ids(&list(&store, 0, 10).todos), vec![5, 4, 3, 2, 1]);
}

#[test]
fn successive_pages_partition_the_listing() {
    let mut store = fresh();
    for i in 0..23u64 {
        create(&mut store, "todo", (i * 37) % 101);
    }
    for size in [1u64, 2, 5, 10, 11, 12, 23, 50] {
        let first = list(&store, 0, size);
        let second = list(&store, size, size);
        let both = list(&store, 0, 2 * size);
        let mut joined = first.todos.clone();
        joined.extend(second.todos.clone());
        assert_eq!(joined, both.todos, "size {}", size);
        assert_eq!(first.has_more, size < 23);
        assert_eq!(both.has_more, 2 * size < 23);
    }
}

#[test]
fn has_more_tells_whether_records_follow_the_page() {
    let mut store = fresh();
    for i in 0..5u64 {
        create(&mut store, "todo", i);
    }
    assert!(list(&store, 0, 4).has_more);
    assert!(!list(&store, 0, 5).has_more);
    assert!(list(&store, 3, 1).has_more);
    assert!(!list(&store, 4, 1).has_more);
    assert_eq!(ids(&list(&store, 4, 1).todos), vec![1]);
}

#[test]
fn end_to_end_life_of_a_record() {
    let mut store = fresh();
    let created = create(&mut store, "Learn X", 1_000);
    match get_todo_by_id(&store, created.id) {
        TodoResult::Ok(todo) => {
            assert_eq!(todo.text, "Learn X");
            assert!(!todo.completed);
        }
        TodoResult::Err(e) => panic!("read failed: {}", e),
    }
    update_todo(
        &mut store,
        UpdateTodoInput { id: created.id, text: None, completed: Some(true) },
        2_000,
    )
    .unwrap();
    match get_todo_by_id(&store, created.id) {
        TodoResult::Ok(todo) => {
            assert_eq!(todo.text, "Learn X");
            assert!(todo.completed);
        }
        TodoResult::Err(e) => panic!("read failed: {}", e),
    }
    assert_eq!(delete_todo_by_id(&mut store, created.id), DeleteResult::Ok(true));
    assert_eq!(get_todo_by_id(&store, created.id), TodoResult::Err("Todo not found".to_string()));
    assert_eq!(get_todo_count(&store), 0);
}

#[test]
fn two_stores_do_not_share_records() {
    let mut first = fresh();
    let second = fresh();
    create(&mut first, "only here", 1);
    assert_eq!(get_todo_count(&first), 1);
    assert_eq!(get_todo_count(&second), 0);
}

#[test]
fn many_records_survive_the_tree_growing() {
    let mut store = fresh();
    for i in 1..=500u64 {
        create(&mut store, &format!("  todo number {}  ", i), i);
    }
    for i in (1..=500u64).step_by(2) {
        assert_eq!(delete_todo_by_id(&mut store, i), DeleteResult::Ok(true));
    }
    assert_eq!(get_todo_count(&store), 250);
    for i in 1..=500u64 {
        let reply = get_todo_by_id(&store, i);
        if i % 2 == 0 {
            assert_eq!(reply.unwrap().text, format!("todo number {}", i));
        } else {
            assert_eq!(reply, TodoResult::Err("Todo not found".to_string()));
        }
    }
    let page = list(&store, 0, 100);
    assert_eq!(page.total_count, 250);
    assert!(page.has_more);
    assert_eq!(page.todos[0].id, 500);
    assert_eq!(page.todos[99].id, 302);
}

#[test]
fn text_and_flag_can_be_updated_on_their_own() {
    let mut store = fresh();
    create(&mut store, "first draft", 1);
    let reply = update_todo_text(&mut store, 1, " second draft ".to_string(), 2).unwrap();
    assert_eq!(reply.text, "second draft");
    assert!(!reply.completed);
    assert_eq!((reply.created_at, reply.updated_at), (1, 2));
    let reply = update_todo_completed(&mut store, 1, true, 3).unwrap();
    assert_eq!(reply.text, "second draft");
    assert!(reply.completed);
    assert_eq!((reply.created_at, reply.updated_at), (1, 3));
    assert_eq!(
        update_todo_text(&mut store, 1, " ".to_string(), 4),
        TodoResult::Err("Todo text cannot be empty".to_string())
    );
    assert_eq!(
        update_todo_completed(&mut store, 2, true, 4),
        TodoResult::Err("Todo not found".to_string())
    );
    assert_eq!(get_todo_by_id(&store, 1), TodoResult::Ok(reply));
}
