use todo::json::{escape, parse_todo, todo_to_json, todos_to_json};
use todo::num::{parse_usize, usize_to_string};
use todo::priority::Priority;
use todo::record::Todo;

fn make_todo(id: usize, priority: usize, title: &str) -> Todo {
    Todo { id, priority: Priority::new(priority).unwrap(), title: title.to_string() }
}

#[test]
fn record_prints_as_compact_json() {
    let t = make_todo(1, 4, "write tests");
    assert_eq!(todo_to_json(&t), r#"{"id":1,"priority":4,"title":"write tests"}"#);
}

#[test]
fn list_prints_as_json_array() {
    assert_eq!(todos_to_json(&Vec::new()), "[]");
    let ts = vec![make_todo(1, 1, "a"), make_todo(2, 5, "b")];
    assert_eq!(
        todos_to_json(&ts),
        r#"[{"id":1,"priority":1,"title":"a"},{"id":2,"priority":5,"title":"b"}]"#
    );
}

#[test]
fn titles_are_escaped() {
    assert_eq!(escape("plain"), "plain");
    assert_eq!(escape("say \"hi\""), "say \\\"hi\\\"");
    assert_eq!(escape("back\\slash"), "back\\\\slash");
    assert_eq!(escape("line\nbreak"), "line\\nbreak");
    assert_eq!(escape("bell\u{0007}"), "bell\\u0007");
}

#[test]
fn well_formed_bodies_parse() {
    let t = parse_todo(r#"{"id":1,"title":"write tests","priority":4}"#).unwrap();
    assert_eq!(t.id, 1);
    assert_eq!(t.priority.get(), 4);
    assert_eq!(t.title, "write tests");

    // Keys in another order, with whitespace.
    let t = parse_todo(" { \"priority\" : 2 , \"title\" : \"x\" , \"id\" : 9 } ").unwrap();
    assert_eq!(t.id, 9);
    assert_eq!(t.priority.get(), 2);
    assert_eq!(t.title, "x");

    // Escapes in the title.
    let t = parse_todo(r#"{"id":3,"title":"a\"b\\c\nd","priority":1}"#).unwrap();
    assert_eq!(t.title, "a\"b\\c\nd");
}

#[test]
fn malformed_bodies_are_refused() {
    assert!(parse_todo("").is_none());
    assert!(parse_todo("not json").is_none());
    assert!(parse_todo("{}").is_none());
    assert!(parse_todo(r#"{"id":1,"title":"x"}"#).is_none());
    assert!(parse_todo(r#"{"id":1,"title":"x","priority":0}"#).is_none());
    assert!(parse_todo(r#"{"id":1,"title":"x","priority":6}"#).is_none());
    assert!(parse_todo(r#"{"id":1,"title":"x","priority":-1}"#).is_none());
    assert!(parse_todo(r#"{"id":1,"title":"x","priority":4.5}"#).is_none());
    assert!(parse_todo(r#"{"id":1,"id":2,"title":"x","priority":4}"#).is_none());
    assert!(parse_todo(r#"{"id":1,"title":"x","priority":4,"extra":1}"#).is_none());
    assert!(parse_todo(r#"{"id":1,"title":"x","priority":4} trailing"#).is_none());
    assert!(parse_todo(r#"{"id":99999999999999999999999,"title":"x","priority":4}"#).is_none());
    assert!(parse_todo(r#"{"id":"1","title":"x","priority":4}"#).is_none());
    assert!(parse_todo(r#"{"id":1,"title":7,"priority":4}"#).is_none());
}

#[test]
fn numbers_print_and_parse_in_base_ten() {
    assert_eq!(usize_to_string(0), "0");
    assert_eq!(usize_to_string(7), "7");
    assert_eq!(usize_to_string(12345), "12345");
    assert_eq!(parse_usize("12345"), Some(12345));
    assert_eq!(parse_usize("+80"), Some(80));
    assert_eq!(parse_usize(""), None);
    assert_eq!(parse_usize("12a"), None);
    assert_eq!(parse_usize("99999999999999999999999"), None);
}
