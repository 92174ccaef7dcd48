//! The records, requests and replies of the to-do service, each with the
//! mathematical value that contracts speak of.

use vstd::prelude::*;

verus! {

/// Identifier of a record. Identifiers are handed out in increasing order and
/// are never reused.
pub type TodoId = u64;

/// One to-do record.
#[derive(Clone, Debug, PartialEq, Eq)]
pub struct Todo {
    pub id: TodoId,
    pub text: String,
    pub completed: bool,
    pub created_at: u64,
    pub updated_at: u64,
}

/// The value of a [`Todo`]: the same fields, with the text as a sequence of
/// characters.
pub struct TodoView {
    pub id: TodoId,
    pub text: Seq<char>,
    pub completed: bool,
    pub created_at: u64,
    pub updated_at: u64,
}

impl View for Todo {
    type V = TodoView;

    open spec fn view(&self) -> TodoView {
        TodoView {
            id: self.id,
            text: self.text@,
            completed: self.completed,
            created_at: self.created_at,
            updated_at: self.updated_at,
        }
    }
}

impl Todo {
    /// A copy of the record with the same value.
    pub fn duplicate(&self) -> (copy: Todo)
        ensures
            copy@ == self@,
    {
        Todo {
            id: self.id,
            text: self.text.clone(),
            completed: self.completed,
            created_at: self.created_at,
            updated_at: self.updated_at,
        }
    }
}

/// The values of a run of records.
pub open spec fn todo_views(todos: Seq<Todo>) -> Seq<TodoView> {
    todos.map_values(|todo: Todo| todo@)
}

/// Request to create a record.
#[derive(Debug)]
pub struct CreateTodoInput {
    pub text: String,
}

/// Request to change a record: each field that is present replaces the
/// stored one.
#[derive(Debug)]
pub struct UpdateTodoInput {
    pub id: TodoId,
    pub text: Option<String>,
    pub completed: Option<bool>,
}

impl UpdateTodoInput {
    /// The new text, if the request carries one.
    pub open spec fn new_text(&self) -> Option<Seq<char>> {
        match self.text {
            Some(text) => Some(text@),
            None => None,
        }
    }
}

/// Request for one page of the listing.
#[derive(Debug)]
pub struct PaginationInput {
    pub offset: u64,
    pub limit: u64,
}

/// One page of the listing, with the size of the whole listing and whether
/// records follow the page.
#[derive(Debug, PartialEq)]
pub struct TodosPage {
    pub todos: Vec<Todo>,
    pub total_count: u64,
    pub has_more: bool,
}

/// The value of a [`TodosPage`].
pub struct PageView {
    pub todos: Seq<TodoView>,
    pub total_count: u64,
    pub has_more: bool,
}

impl View for TodosPage {
    type V = PageView;

    open spec fn view(&self) -> PageView {
        PageView {
            todos: todo_views(self.todos@),
            total_count: self.total_count,
            has_more: self.has_more,
        }
    }
}

/// Reply that carries one record, or the reason why there is none.
pub type TodoResult = Result<Todo, String>;

/// Reply that carries one page, or the reason why there is none.
pub type TodosResult = Result<TodosPage, String>;

/// Reply to a removal: whether a record was removed, or the reason why none
/// was.
pub type DeleteResult = Result<bool, String>;

/// The value of a [`TodoResult`].
pub open spec fn todo_reply(reply: TodoResult) -> Result<TodoView, Seq<char>> {
    match reply {
        Ok(todo) => Ok(todo@),
        Err(reason) => Err(reason@),
    }
}

/// The value of a [`TodosResult`].
pub open spec fn page_reply(reply: TodosResult) -> Result<PageView, Seq<char>> {
    match reply {
        Ok(page) => Ok(page@),
        Err(reason) => Err(reason@),
    }
}

/// The value of a [`DeleteResult`].
pub open spec fn delete_reply(reply: DeleteResult) -> Result<bool, Seq<char>> {
    match reply {
        Ok(removed) => Ok(removed),
        Err(reason) => Err(reason@),
    }
}

} // verus!
