//! The task record: an identifier, a validated priority, and a title.

use vstd::prelude::*;
use crate::priority::Priority;

verus! {

/// One task record. Identity is `id`; the store keys records by it.
pub struct Todo {
    pub id: usize,
    pub priority: Priority,
    pub title: String,
}

/// The mathematical image of a record: plain numbers and a character
/// sequence.
pub ghost struct TodoView {
    pub id: int,
    pub priority: int,
    pub title: Seq<char>,
}

impl View for Todo {
    type V = TodoView;

    open spec fn view(&self) -> TodoView {
        TodoView { id: self.id as int, priority: self.priority@, title: self.title@ }
    }
}

impl Clone for Todo {
    fn clone(&self) -> (r: Self)
        ensures
            r@ == self@,
    {
        Todo { id: self.id, priority: self.priority, title: self.title.clone() }
    }
}

} // verus!
