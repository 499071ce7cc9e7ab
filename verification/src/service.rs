//! The request handlers and their wiring: routing a method and path to the
//! store operation it names, and shaping the response. `spec_handle` is the
//! functional model of the whole service; `Service::handle` is proved equal
//! to it.

use vstd::prelude::*;
use vstd::string::StrSliceExecFns;
use crate::json::{list_json, parse_todo_text, todo_json};
use crate::num::spec_parse_usize;
use crate::record::{Todo, TodoView};
use crate::store::{has_key, map_of, spec_insert, spec_remove, unique_keys, values_of, TodoStore};

verus! {

/// The request methods the service routes.
#[derive(Clone, Copy, Debug)]
pub enum Method {
    Get,
    Post,
    Put,
    Delete,
}

/// A finished response: a status code and the body text.
pub struct Response {
    pub status: u16,
    pub body: String,
}

/// The uniform acknowledgment body for successful writes.
pub open spec fn ok_body() -> Seq<char> {
    "{\"status\":\"ok\"}"@
}

/// The uniform body of the not-found handler.
pub open spec fn not_found_body() -> Seq<char> {
    "{\"status\":\"error\",\"reason\":\"Resource was not found.\"}"@
}

/// The body sent with a malformed or missing request body.
pub open spec fn bad_request_body() -> Seq<char> {
    "{\"status\":\"error\",\"reason\":\"Bad request.\"}"@
}

/// The id named by a path of the form `/<number>`.
pub open spec fn spec_path_id(p: Seq<char>) -> Option<nat> {
    if p.len() >= 2 && p[0] == '/' {
        spec_parse_usize(p.subrange(1, p.len() as int))
    } else {
        None
    }
}

/// The view of an optional request body.
pub open spec fn opt_str_view(b: Option<&str>) -> Option<Seq<char>> {
    match b {
        Some(s) => Some(s@),
        None => None,
    }
}

/// What the service does with one request: the status code, the body, and
/// the store the request leaves behind.
pub open spec fn spec_handle(
    m: Method,
    path: Seq<char>,
    body: Option<Seq<char>>,
    store: Seq<(int, TodoView)>,
) -> (int, Seq<char>, Seq<(int, TodoView)>) {
    match m {
        Method::Get => {
            if path == seq!['/'] {
                (200, list_json(values_of(store)), store)
            } else {
                match spec_path_id(path) {
                    Some(id) => if map_of(store).contains_key(id as int) {
                        (200, todo_json(map_of(store)[id as int]), store)
                    } else {
                        (404, not_found_body(), store)
                    },
                    None => (404, not_found_body(), store),
                }
            }
        },
        Method::Post => {
            if path == seq!['/'] {
                match body {
                    None => (400, bad_request_body(), store),
                    Some(b) => match parse_todo_text(b) {
                        None => (400, bad_request_body(), store),
                        Some(t) => (200, ok_body(), spec_insert(store, t.id, t)),
                    },
                }
            } else {
                (404, not_found_body(), store)
            }
        },
        Method::Put => {
            match spec_path_id(path) {
                Some(id) => match body {
                    None => (400, bad_request_body(), store),
                    Some(b) => match parse_todo_text(b) {
                        None => (400, bad_request_body(), store),
                        Some(t) => if map_of(store).contains_key(id as int) {
                            (200, ok_body(), spec_insert(store, id as int, t))
                        } else {
                            (404, not_found_body(), store)
                        },
                    },
                },
                None => (404, not_found_body(), store),
            }
        },
        Method::Delete => {
            match spec_path_id(path) {
                Some(id) => (200, ok_body(), spec_remove(store, id as int)),
                None => (404, not_found_body(), store),
            }
        },
    }
}

/// Every stored record as one JSON array; an empty store yields `[]`.
pub fn index(todos: &TodoStore) -> (r: String)
    ensures
        r@ == list_json(values_of(todos@)),
{
    let all = todos.list();
    crate::json::todos_to_json(&all)
}

/// The stored record under the id, if any.
pub fn get_single_todo(id: usize, todos: &TodoStore) -> (r: Option<Todo>)
    requires
        todos.wf(),
    ensures
        match r {
            Some(t) => map_of(todos@).contains_key(id as int) && t@ == map_of(todos@)[id as int],
            None => !map_of(todos@).contains_key(id as int),
        },
{
    todos.get(id)
}

/// Stores the record under its own id, inserting or overwriting, and
/// acknowledges unconditionally.
pub fn add_todo(todo: Todo, todos: &mut TodoStore) -> (r: String)
    requires
        old(todos).wf(),
    ensures
        final(todos).wf(),
        final(todos)@ == spec_insert(old(todos)@, todo.id as int, todo@),
        map_of(final(todos)@) == map_of(old(todos)@).insert(todo.id as int, todo@),
        r@ == ok_body(),
{
    todos.insert(todo);
    ok()
}

/// Removes the id if present and acknowledges either way: deletion is
/// idempotent and never an error.
pub fn delete_todo(id: usize, todos: &mut TodoStore) -> (r: String)
    requires
        old(todos).wf(),
    ensures
        final(todos).wf(),
        final(todos)@ == spec_remove(old(todos)@, id as int),
        map_of(final(todos)@) == map_of(old(todos)@).remove(id as int),
        r@ == ok_body(),
{
    todos.delete(id);
    ok()
}

/// Replaces the record under `id` with the body's record exactly as given,
/// only if the id is already present; otherwise reports absence and leaves
/// the store unchanged.
pub fn update_todo(id: usize, todo: Todo, todos: &mut TodoStore) -> (r: Option<String>)
    requires
        old(todos).wf(),
    ensures
        final(todos).wf(),
        (r is Some) == map_of(old(todos)@).contains_key(id as int),
        r matches Some(b) ==> b@ == ok_body() && final(todos)@ == spec_insert(
            old(todos)@,
            id as int,
            todo@,
        ) && map_of(final(todos)@) == map_of(old(todos)@).insert(id as int, todo@),
        r is None ==> final(todos)@ == old(todos)@,
{
    if todos.update(id, todo) {
        Some(ok())
    } else {
        None
    }
}

/// The process-wide fallback for anything absent: a uniform error body.
pub fn not_found() -> (r: String)
    ensures
        r@ == not_found_body(),
{
    "{\"status\":\"error\",\"reason\":\"Resource was not found.\"}".to_owned()
}

/// The body sent with a malformed or missing request body.
pub fn bad_request() -> (r: String)
    ensures
        r@ == bad_request_body(),
{
    "{\"status\":\"error\",\"reason\":\"Bad request.\"}".to_owned()
}

/// The uniform acknowledgment body.
fn ok() -> (r: String)
    ensures
        r@ == ok_body(),
{
    "{\"status\":\"ok\"}".to_owned()
}

/// True of the root path `/`.
fn is_root(p: &str) -> (r: bool)
    ensures
        r == (p@ == seq!['/']),
{
    let n = p.unicode_len();
    if n == 1 && p.get_char(0) == '/' {
        proof {
            assert(p@ =~= seq!['/']);
        }
        true
    } else {
        proof {
            if p@ == seq!['/'] {
                assert(p@.len() == 1 && p@[0] == '/');
            }
        }
        false
    }
}

/// The id named by a path of the form `/<number>`.
fn parse_path_id(p: &str) -> (r: Option<usize>)
    ensures
        match spec_path_id(p@) {
            Some(v) => r matches Some(u) && u as nat == v,
            None => r is None,
        },
{
    let n = p.unicode_len();
    if n < 2 || p.get_char(0) != '/' {
        return None;
    }
    let rest = p.substring_char(1, n);
    crate::num::parse_usize(rest)
}

/// The service: the record store behind its lock, ready to answer requests.
pub struct Service {
    store: TodoStore,
}

impl View for Service {
    type V = Seq<(int, TodoView)>;

    closed spec fn view(&self) -> Seq<(int, TodoView)> {
        self.store@
    }
}

impl Service {
    /// The service's invariant: the store keys are unique.
    pub open spec fn wf(&self) -> bool {
        unique_keys(self@)
    }

    /// Answers one request: exactly the routing and handler behaviour that
    /// `spec_handle` states, body checks before existence checks.
    pub fn handle(&mut self, method: Method, path: &str, body: Option<&str>) -> (r: Response)
        requires
            old(self).wf(),
        ensures
            final(self).wf(),
            r.status as int == spec_handle(method, path@, opt_str_view(body), old(self)@).0,
            r.body@ == spec_handle(method, path@, opt_str_view(body), old(self)@).1,
            final(self)@ == spec_handle(method, path@, opt_str_view(body), old(self)@).2,
    {
        match method {
            Method::Get => {
                if is_root(path) {
                    Response { status: 200, body: index(&self.store) }
                } else {
                    match parse_path_id(path) {
                        Some(id) => match get_single_todo(id, &self.store) {
                            Some(t) => Response { status: 200, body: crate::json::todo_to_json(&t) },
                            None => Response { status: 404, body: not_found() },
                        },
                        None => Response { status: 404, body: not_found() },
                    }
                }
            },
            Method::Post => {
                if is_root(path) {
                    match body {
                        None => Response { status: 400, body: bad_request() },
                        Some(b) => match crate::json::parse_todo(b) {
                            None => Response { status: 400, body: bad_request() },
                            Some(t) => {
                                let ack = add_todo(t, &mut self.store);
                                Response { status: 200, body: ack }
                            },
                        },
                    }
                } else {
                    Response { status: 404, body: not_found() }
                }
            },
            Method::Put => {
                match parse_path_id(path) {
                    Some(id) => match body {
                        None => Response { status: 400, body: bad_request() },
                        Some(b) => match crate::json::parse_todo(b) {
                            None => Response { status: 400, body: bad_request() },
                            Some(t) => match update_todo(id, t, &mut self.store) {
                                Some(ack) => Response { status: 200, body: ack },
                                None => Response { status: 404, body: not_found() },
                            },
                        },
                    },
                    None => Response { status: 404, body: not_found() },
                }
            },
            Method::Delete => {
                match parse_path_id(path) {
                    Some(id) => {
                        let ack = delete_todo(id, &mut self.store);
                        Response { status: 200, body: ack }
                    },
                    None => Response { status: 404, body: not_found() },
                }
            },
        }
    }
}

/// Two identical delete requests in a row: the second answers with the very
/// same status and body as the first, and leaves the store exactly as the
/// first left it.
pub proof fn lemma_delete_request_idempotent(path: Seq<char>, store: Seq<(int, TodoView)>)
    requires
        unique_keys(store),
    ensures
        ({
            let first = spec_handle(Method::Delete, path, None, store);
            let second = spec_handle(Method::Delete, path, None, first.2);
            second == first
        }),
{
    match spec_path_id(path) {
        Some(id) => {
            crate::store::lemma_delete_idempotent(store, id as int);
        },
        None => {},
    }
}

/// Builds the whole service over a fresh, empty store.
pub fn rocket() -> (r: Service)
    ensures
        r.wf(),
        r@ == Seq::<(int, TodoView)>::empty(),
{
    Service { store: TodoStore::new() }
}

} // verus!
