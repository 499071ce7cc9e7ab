use todo::priority::Priority;
use todo::record::Todo;
use todo::store::TodoStore;

fn make_todo(id: usize, priority: usize, title: &str) -> Todo {
    Todo { id, priority: Priority::new(priority).unwrap(), title: title.to_string() }
}

#[test]
fn insert_then_get_round_trips() {
    let mut store = TodoStore::new();
    store.insert(make_todo(4, 2, "water the plants"));
    let got = store.get(4).unwrap();
    assert_eq!(got.id, 4);
    assert_eq!(got.priority.get(), 2);
    assert_eq!(got.title, "water the plants");
}

#[test]
fn insert_overwrites_same_id() {
    let mut store = TodoStore::new();
    store.insert(make_todo(4, 2, "first"));
    store.insert(make_todo(4, 5, "second"));
    let got = store.get(4).unwrap();
    assert_eq!(got.title, "second");
    assert_eq!(got.priority.get(), 5);
    assert_eq!(store.list().len(), 1);
}

#[test]
fn delete_twice_is_the_same_as_once() {
    let mut store = TodoStore::new();
    store.insert(make_todo(1, 1, "a"));
    store.insert(make_todo(2, 2, "b"));
    store.delete(1);
    let after_first: Vec<usize> = store.list().iter().map(|t| t.id).collect();
    store.delete(1);
    let after_second: Vec<usize> = store.list().iter().map(|t| t.id).collect();
    assert_eq!(after_first, after_second);
    assert_eq!(after_first, vec![2]);
}

#[test]
fn delete_absent_id_is_a_no_op() {
    let mut store = TodoStore::new();
    store.insert(make_todo(1, 1, "a"));
    store.delete(99);
    assert_eq!(store.list().len(), 1);
}

#[test]
fn update_missing_id_fails_and_changes_nothing() {
    let mut store = TodoStore::new();
    store.insert(make_todo(1, 1, "keep me"));
    let ok = store.update(80, make_todo(80, 4, "never stored"));
    assert!(!ok);
    let listed = store.list();
    assert_eq!(listed.len(), 1);
    assert_eq!(listed[0].id, 1);
    assert_eq!(listed[0].title, "keep me");
}

#[test]
fn update_present_id_replaces_the_record() {
    let mut store = TodoStore::new();
    store.insert(make_todo(1, 1, "old"));
    let ok = store.update(1, make_todo(1, 3, "new"));
    assert!(ok);
    let got = store.get(1).unwrap();
    assert_eq!(got.title, "new");
    assert_eq!(got.priority.get(), 3);
}

#[test]
fn fresh_store_lists_nothing_and_distinct_inserts_count() {
    let mut store = TodoStore::new();
    assert_eq!(store.list().len(), 0);
    for id in 0..10usize {
        store.insert(make_todo(id, 1 + id % 5, "task"));
    }
    assert_eq!(store.list().len(), 10);
}
