use vde_segment::codec::filter_to_json;
use vde_segment::codec::to_json_chars;
use vde_segment::json::JsonPath;
use vde_segment::json::JsonValue;
use vde_segment::json::merge_json;
use vde_segment::json::remove_path;
use vde_segment::json::set_path;
use vde_segment::types::Filter;
use vde_segment::types::MatchValue;

fn obj(entries: Vec<(&str, JsonValue)>) -> JsonValue {
    JsonValue::Obj(entries.into_iter().map(|(k, v)| (String::from(k), v)).collect())
}

fn chars_to_string(chars: Vec<char>) -> String {
    let mut s = String::new();
    for c in chars {
        s.push(c);
    }
    s
}

#[test]
fn merge_scalars_replace() {
    let a = JsonValue::Int(1);
    let b = JsonValue::Str(String::from("x"));
    assert_eq!(merge_json(a, &b), b);
}

#[test]
fn merge_objects_recursively() {
    let a = obj(vec![("k", obj(vec![("x", JsonValue::Int(1))])), ("z", JsonValue::Null)]);
    let b = obj(vec![("k", obj(vec![("y", JsonValue::Int(2))]))]);
    let m = merge_json(a, &b);
    assert_eq!(
        m,
        obj(vec![
            ("k", obj(vec![("x", JsonValue::Int(1)), ("y", JsonValue::Int(2))])),
            ("z", JsonValue::Null),
        ]),
    );
}

#[test]
fn set_path_creates_nested_objects() {
    let doc = JsonValue::Null;
    let p = JsonPath { first: String::from("a"), rest: vec![String::from("b")] };
    let out = set_path(doc, &p, &JsonValue::Int(5));
    assert_eq!(out, obj(vec![("a", obj(vec![("b", JsonValue::Int(5))]))]));
    assert_eq!(*out.get_path(&p).unwrap(), JsonValue::Int(5));
}

#[test]
fn remove_path_removes_and_returns() {
    let doc = obj(vec![("a", obj(vec![("b", JsonValue::Int(5)), ("c", JsonValue::Int(6))]))]);
    let p = JsonPath { first: String::from("a"), rest: vec![String::from("b")] };
    let (rest, removed) = remove_path(doc, &p);
    assert_eq!(removed, Some(JsonValue::Int(5)));
    assert_eq!(rest, obj(vec![("a", obj(vec![("c", JsonValue::Int(6))]))]));
}

#[test]
fn json_text_exact() {
    let doc = obj(vec![
        ("n", JsonValue::Null),
        ("t", JsonValue::Bool(true)),
        ("i", JsonValue::Int(-42)),
        ("s", JsonValue::Str(String::from("a\"b\\c\nd"))),
        ("xs", JsonValue::Arr(vec![JsonValue::Int(0), JsonValue::Int(10)])),
    ]);
    let text = chars_to_string(to_json_chars(&doc));
    assert_eq!(
        text,
        "{\"n\":null,\"t\":true,\"i\":-42,\"s\":\"a\\\"b\\\\c\\u000ad\",\"xs\":[0,10]}",
    );
}

#[test]
fn json_text_parses_with_serde() {
    let doc = obj(vec![
        ("i", JsonValue::Int(i64::MIN)),
        ("s", JsonValue::Str(String::from("tab\there"))),
        ("o", obj(vec![("empty", obj(vec![]))])),
        ("a", JsonValue::Arr(vec![])),
    ]);
    let text = chars_to_string(to_json_chars(&doc));
    let parsed: serde_json::Value = serde_json::from_str(&text).unwrap();
    assert_eq!(parsed["i"], serde_json::Value::from(i64::MIN));
    assert_eq!(parsed["s"], serde_json::Value::from("tab\there"));
    assert!(parsed["o"]["empty"].as_object().unwrap().is_empty());
    assert!(parsed["a"].as_array().unwrap().is_empty());
}

#[test]
fn filter_text_is_the_request_grammar() {
    let f = Filter { key: String::from("color"), value: MatchValue::Str(String::from("red")) };
    let text = chars_to_string(filter_to_json(&f));
    assert_eq!(text, "{\"key\":\"color\",\"match\":\"red\"}");
    let parsed: serde_json::Value = serde_json::from_str(&text).unwrap();
    assert_eq!(parsed["key"], serde_json::Value::from("color"));

    let fi = Filter { key: String::from("n"), value: MatchValue::Int(7) };
    assert_eq!(chars_to_string(filter_to_json(&fi)), "{\"key\":\"n\",\"match\":7}");
    let fb = Filter { key: String::from("b"), value: MatchValue::Bool(false) };
    assert_eq!(chars_to_string(filter_to_json(&fb)), "{\"key\":\"b\",\"match\":false}");
}

#[test]
fn deep_copy_is_structural() {
    let doc = obj(vec![("a", JsonValue::Arr(vec![JsonValue::Str(String::from("x"))]))]);
    assert_eq!(doc.deep_copy(), doc);
}
