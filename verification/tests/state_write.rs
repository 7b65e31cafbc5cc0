use gtk4_e2e_server::json::{JsonNumber, JsonValue};
use gtk4_e2e_server::state::{set_at, AppDefinedState};

fn s(x: &str) -> JsonValue {
    JsonValue::String(x.to_string())
}

fn n(x: u64) -> JsonValue {
    JsonValue::Number(JsonNumber::PosInt(x))
}

fn obj(entries: Vec<(&str, JsonValue)>) -> JsonValue {
    JsonValue::Object(entries.into_iter().map(|(k, v)| (k.to_string(), v)).collect())
}

fn is_str(v: &Option<JsonValue>, want: &str) -> bool {
    matches!(v, Some(JsonValue::String(x)) if x == want)
}

fn read(doc: JsonValue, path: &str) -> Option<JsonValue> {
    let mut st = AppDefinedState::default();
    st.set(doc);
    st.pointer(path)
}

#[test]
fn set_at_empty_path_replaces_document() {
    let r = set_at(obj(vec![("a", n(1))]), "", s("whole"));
    assert!(matches!(r, JsonValue::String(ref x) if x == "whole"));
}

#[test]
fn set_at_creates_nested_objects() {
    let r = set_at(JsonValue::Null, "/form/name", s("alice"));
    assert!(is_str(&read(r, "/form/name"), "alice"));
}

#[test]
fn set_at_keeps_sibling_keys() {
    let doc = obj(vec![("a", n(1)), ("c", n(3))]);
    let r = set_at(doc, "/b", n(2));
    match r {
        JsonValue::Object(ref e) => {
            let keys: Vec<&str> = e.iter().map(|(k, _)| k.as_str()).collect();
            assert_eq!(keys, vec!["a", "b", "c"]);
            assert!(matches!(e[0].1, JsonValue::Number(JsonNumber::PosInt(1))));
            assert!(matches!(e[1].1, JsonValue::Number(JsonNumber::PosInt(2))));
            assert!(matches!(e[2].1, JsonValue::Number(JsonNumber::PosInt(3))));
        }
        _ => panic!("expected an object"),
    }
}

#[test]
fn set_at_overwrites_existing_key() {
    let doc = obj(vec![("count", n(1))]);
    let r = set_at(doc, "/count", n(7));
    assert!(matches!(read(r, "/count"), Some(JsonValue::Number(JsonNumber::PosInt(7)))));
}

#[test]
fn set_at_replaces_scalar_on_the_way() {
    let doc = obj(vec![("form", n(5))]);
    let r = set_at(doc, "/form/name", s("bob"));
    assert!(is_str(&read(r, "/form/name"), "bob"));
}

#[test]
fn set_at_without_leading_slash_reads_back_with_one() {
    let r = set_at(JsonValue::Null, "status", s("ok"));
    assert!(is_str(&read(r, "/status"), "ok"));
}

#[test]
fn set_at_turns_non_object_document_into_object() {
    let r = set_at(s("plain"), "/k", JsonValue::Bool(true));
    assert!(matches!(read(r, "/k"), Some(JsonValue::Bool(true))));
}
