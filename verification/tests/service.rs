use todo::rocket;
use todo::service::Method;

#[test]
fn bad_get_put() {
    let mut service = rocket();

    // Try to get a record with an ID that doesn't exist.
    let res = service.handle(Method::Get, "/99", None);
    assert_eq!(res.status, 404);

    let body = res.body;
    assert!(body.contains("error"));
    assert!(body.contains("Resource was not found."));

    // Try to get a record with an invalid ID.
    let res = service.handle(Method::Get, "/hi", None);
    assert_eq!(res.status, 404);
    let body = res.body;
    assert!(body.contains("error"));

    // Try to put a record without a proper body.
    let res = service.handle(Method::Put, "/80", None);
    assert_eq!(res.status, 400);

    // Try to put a record for an ID that doesn't exist.
    let res = service.handle(
        Method::Put,
        "/80",
        Some(r#"{ "id": 80, "title": "todo-1", "priority": 4 }"#),
    );
    assert_eq!(res.status, 404);
}

#[test]
fn post_get_put_get() {
    let mut service = rocket();

    // Check that no todo exists at default.
    let res = service.handle(Method::Get, "/", None);
    assert_eq!(res.status, 200);
    let body = res.body;
    assert_eq!(body, "[]");

    // Check that a todo with ID 1 doesn't exist.
    let res = service.handle(Method::Get, "/1", None);
    assert_eq!(res.status, 404);

    // Add a new todo with ID 1.
    let res = service.handle(
        Method::Post,
        "/",
        Some(r#"{ "id": 1, "title": "write tests", "priority": 4 }"#),
    );
    assert_eq!(res.status, 200);

    // Check that the todo exists with the correct contents.
    let res = service.handle(Method::Get, "/1", None);
    assert_eq!(res.status, 200);
    let body = res.body;
    assert!(body.contains("write tests"));

    // Change the todo.
    let res = service.handle(
        Method::Put,
        "/1",
        Some(r#"{ "id": 1, "title": "write tests updated", "priority": 3 }"#),
    );
    assert_eq!(res.status, 200);

    // Check that the todo exists with the updated contents.
    let res = service.handle(Method::Get, "/1", None);
    assert_eq!(res.status, 200);
    let body = res.body;
    assert!(!body.contains("Hello, world!"));
    assert!(body.contains("write tests updated"));
}

#[test]
fn empty_store_lists_empty_array() {
    let mut service = rocket();
    let res = service.handle(Method::Get, "/", None);
    assert_eq!(res.status, 200);
    assert_eq!(res.body, "[]");
}

#[test]
fn post_then_get_returns_record() {
    let mut service = rocket();
    let res = service.handle(
        Method::Post,
        "/",
        Some(r#"{"id":1,"title":"write tests","priority":4}"#),
    );
    assert_eq!(res.status, 200);
    assert_eq!(res.body, r#"{"status":"ok"}"#);
    let res = service.handle(Method::Get, "/1", None);
    assert_eq!(res.status, 200);
    assert_eq!(res.body, r#"{"id":1,"priority":4,"title":"write tests"}"#);
}

#[test]
fn get_missing_id_gives_not_found_body() {
    let mut service = rocket();
    let res = service.handle(Method::Get, "/99", None);
    assert_eq!(res.status, 404);
    assert!(res.body.contains("Resource was not found."));
}

#[test]
fn put_never_created_id_gives_not_found() {
    let mut service = rocket();
    let res = service.handle(
        Method::Put,
        "/80",
        Some(r#"{"id":80,"title":"todo-1","priority":4}"#),
    );
    assert_eq!(res.status, 404);
    let res = service.handle(Method::Get, "/", None);
    assert_eq!(res.body, "[]");
}

#[test]
fn malformed_post_body_gives_bad_request() {
    let mut service = rocket();
    let res = service.handle(Method::Post, "/", Some("not json at all"));
    assert_eq!(res.status, 400);
    let res = service.handle(Method::Post, "/", Some(r#"{"id":1,"title":"x"}"#));
    assert_eq!(res.status, 400);
    let res = service.handle(Method::Post, "/", Some(r#"{"id":1,"title":"x","priority":9}"#));
    assert_eq!(res.status, 400);
    let res = service.handle(Method::Get, "/", None);
    assert_eq!(res.body, "[]");
}

#[test]
fn delete_is_idempotent_over_requests() {
    let mut service = rocket();
    let res = service.handle(
        Method::Post,
        "/",
        Some(r#"{"id":7,"title":"gone soon","priority":2}"#),
    );
    assert_eq!(res.status, 200);
    let first = service.handle(Method::Delete, "/7", None);
    let second = service.handle(Method::Delete, "/7", None);
    assert_eq!(first.status, 200);
    assert_eq!(second.status, 200);
    assert_eq!(first.body, second.body);
    assert_eq!(first.body, r#"{"status":"ok"}"#);
    let res = service.handle(Method::Get, "/7", None);
    assert_eq!(res.status, 404);
}

#[test]
fn unrouted_paths_give_not_found() {
    let mut service = rocket();
    let res = service.handle(Method::Post, "/5", Some(r#"{"id":5,"title":"x","priority":1}"#));
    assert_eq!(res.status, 404);
    let res = service.handle(Method::Delete, "/", None);
    assert_eq!(res.status, 404);
    let res = service.handle(Method::Put, "/", Some(r#"{"id":5,"title":"x","priority":1}"#));
    assert_eq!(res.status, 404);
}
