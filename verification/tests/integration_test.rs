use std::time::{SystemTime, UNIX_EPOCH};

use todo_ic::service::{
    create_todo, delete_todo_by_id, get_all_todos_paginated, get_todo_by_id, get_todo_count,
    update_todo,
};
use todo_ic::storage::{init_storage, TodoStore};
use todo_ic::types::{
    CreateTodoInput, DeleteResult, PaginationInput, Todo, TodoResult, TodosResult,
    UpdateTodoInput,
};

struct TodoService {
    store: TodoStore,
}

impl TodoService {
    fn new() -> Self {
        let mut store = TodoStore::open();
        init_storage(&mut store);
        Self { store }
    }

    fn get_current_time() -> u64 {
        SystemTime::now().duration_since(UNIX_EPOCH).unwrap().as_nanos() as u64
    }

    fn add_todo(&mut self, input: CreateTodoInput) -> TodoResult {
        create_todo(&mut self.store, input, Self::get_current_time())
    }

    fn get_todo(&self, id: u64) -> TodoResult {
        get_todo_by_id(&self.store, id)
    }

    fn get_all_todos(&self, pagination: PaginationInput) -> TodosResult {
        get_all_todos_paginated(&self.store, pagination)
    }

    fn update_todo(&mut self, input: UpdateTodoInput) -> TodoResult {
        update_todo(&mut self.store, input, Self::get_current_time())
    }

    fn delete_todo(&mut self, id: u64) -> DeleteResult {
        delete_todo_by_id(&mut self.store, id)
    }

    fn get_todo_count(&self) -> u64 {
        get_todo_count(&self.store)
    }
}

fn create_test_service() -> TodoService {
    TodoService::new()
}

fn create_sample_todo(service: &mut TodoService, text: &str) -> Todo {
    let input = CreateTodoInput { text: text.to_string() };
    match service.add_todo(input) {
        TodoResult::Ok(todo) => todo,
        TodoResult::Err(e) => panic!("Failed to create todo: {}", e),
    }
}

#[test]
fn test_add_todo_success() {
    let mut service = create_test_service();
    let input = CreateTodoInput { text: "Learn Rust".to_string() };

    let result = service.add_todo(input);

    match result {
        TodoResult::Ok(todo) => {
            assert_eq!(todo.id, 1);
            assert_eq!(todo.text, "Learn Rust");
            assert!(!todo.completed);
            assert!(todo.created_at > 0);
            assert_eq!(todo.created_at, todo.updated_at);
        }
        TodoResult::Err(e) => panic!("Expected success, got error: {}", e),
    }
}

#[test]
fn test_add_todo_empty_text() {
    let mut service = create_test_service();
    let input = CreateTodoInput { text: "".to_string() };

    let result = service.add_todo(input);

    match result {
        TodoResult::Ok(_) => panic!("Expected error for empty text"),
        TodoResult::Err(e) => assert_eq!(e, "Todo text cannot be empty"),
    }
}

#[test]
fn test_get_todo_success() {
    let mut service = create_test_service();
    let created_todo = create_sample_todo(&mut service, "Test todo");

    let result = service.get_todo(created_todo.id);

    match result {
        TodoResult::Ok(todo) => {
            assert_eq!(todo.id, created_todo.id);
            assert_eq!(todo.text, created_todo.text);
        }
        TodoResult::Err(e) => panic!("Expected success, got error: {}", e),
    }
}

#[test]
fn test_get_todo_not_found() {
    let service = create_test_service();

    let result = service.get_todo(999);

    match result {
        TodoResult::Ok(_) => panic!("Expected error for non-existent todo"),
        TodoResult::Err(e) => assert_eq!(e, "Todo not found"),
    }
}

#[test]
fn test_get_all_todos_empty() {
    let service = create_test_service();
    let pagination = PaginationInput { offset: 0, limit: 10 };

    let result = service.get_all_todos(pagination);

    match result {
        TodosResult::Ok(page) => {
            assert_eq!(page.todos.len(), 0);
            assert_eq!(page.total_count, 0);
            assert!(!page.has_more);
        }
        TodosResult::Err(e) => panic!("Expected success, got error: {}", e),
    }
}

#[test]
fn test_pagination_limit_zero() {
    let service = create_test_service();
    let pagination = PaginationInput { offset: 0, limit: 0 };

    let result = service.get_all_todos(pagination);

    match result {
        TodosResult::Ok(_) => panic!("Expected error for limit 0"),
        TodosResult::Err(e) => assert_eq!(e, "Limit must be greater than 0"),
    }
}

#[test]
fn test_update_todo_text() {
    let mut service = create_test_service();
    let created_todo = create_sample_todo(&mut service, "Original text");

    let input = UpdateTodoInput {
        id: created_todo.id,
        text: Some("Updated text".to_string()),
        completed: None,
    };

    let result = service.update_todo(input);

    match result {
        TodoResult::Ok(todo) => {
            assert_eq!(todo.text, "Updated text");
            assert!(todo.updated_at >= created_todo.updated_at);
        }
        TodoResult::Err(e) => panic!("Expected success, got error: {}", e),
    }
}

#[test]
fn test_delete_todo_success() {
    let mut service = create_test_service();
    let created_todo = create_sample_todo(&mut service, "To be deleted");

    let result = service.delete_todo(created_todo.id);

    match result {
        DeleteResult::Ok(deleted) => {
            assert!(deleted);
            match service.get_todo(created_todo.id) {
                TodoResult::Err(e) => assert_eq!(e, "Todo not found"),
                TodoResult::Ok(_) => panic!("Todo should be deleted"),
            }
        }
        DeleteResult::Err(e) => panic!("Expected success, got error: {}", e),
    }
}

#[test]
fn test_delete_todo_not_found() {
    let mut service = create_test_service();

    let result = service.delete_todo(999);

    match result {
        DeleteResult::Ok(_) => panic!("Expected error for non-existent todo"),
        DeleteResult::Err(e) => assert_eq!(e, "Todo not found"),
    }
}

#[test]
fn test_crud_workflow() {
    let mut service = create_test_service();

    let todo = create_sample_todo(&mut service, "Learn Rust");
    assert_eq!(todo.text, "Learn Rust");
    assert!(!todo.completed);

    match service.get_todo(todo.id) {
        TodoResult::Ok(retrieved) => assert_eq!(retrieved.id, todo.id),
        TodoResult::Err(e) => panic!("Should retrieve todo: {}", e),
    }

    let update_input = UpdateTodoInput {
        id: todo.id,
        text: Some("Master Rust".to_string()),
        completed: Some(true),
    };

    match service.update_todo(update_input) {
        TodoResult::Ok(updated) => {
            assert_eq!(updated.text, "Master Rust");
            assert!(updated.completed);
        }
        TodoResult::Err(e) => panic!("Should update todo: {}", e),
    }

    match service.delete_todo(todo.id) {
        DeleteResult::Ok(_) => {}
        DeleteResult::Err(e) => panic!("Should delete todo: {}", e),
    }

    match service.get_todo(todo.id) {
        TodoResult::Err(e) => assert_eq!(e, "Todo not found"),
        TodoResult::Ok(_) => panic!("Todo should be deleted"),
    }
}

#[test]
fn test_get_todo_count() {
    let mut service = create_test_service();
    assert_eq!(service.get_todo_count(), 0);

    create_sample_todo(&mut service, "First");
    assert_eq!(service.get_todo_count(), 1);

    create_sample_todo(&mut service, "Second");
    assert_eq!(service.get_todo_count(), 2);

    let _ = service.delete_todo(1);
    assert_eq!(service.get_todo_count(), 1);
}
