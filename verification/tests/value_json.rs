use wlf::pointer::parse_index;
use wlf::value::LogLevel;
use wlf::value::Value;
use wlf::value::obj_insert;

fn object(pairs: Vec<(&str, Value)>) -> Value {
    let mut entries: Vec<(String, Value)> = Vec::new();
    for (k, v) in pairs {
        obj_insert(&mut entries, k.to_string(), v);
    }
    Value::Object(entries)
}

#[test]
fn pointer_two_levels() {
    let v = object(vec![("a", object(vec![("b", Value::Int(7))]))]);
    assert_eq!(v.pointer("/a/b"), Some(&Value::Int(7)));
    assert_eq!(v.pointer("/a/c"), None);
    assert_eq!(v.pointer("/x/b"), None);
}

#[test]
fn pointer_empty_returns_whole() {
    let v = Value::Boolean(true);
    assert_eq!(v.pointer(""), Some(&Value::Boolean(true)));
    // a pointer that does not start with a slash names nothing
    assert_eq!(v.pointer("a"), None);
}

#[test]
fn pointer_unescapes_tokens() {
    let v = object(vec![("a/b", Value::Int(1)), ("m~n", Value::Int(2))]);
    assert_eq!(v.pointer("/a~1b"), Some(&Value::Int(1)));
    assert_eq!(v.pointer("/m~0n"), Some(&Value::Int(2)));
    // the escaped text ~01 unescapes to ~1
    let w = object(vec![("~1", Value::Int(3))]);
    assert_eq!(w.pointer("/~01"), Some(&Value::Int(3)));
}

#[test]
fn pointer_into_arrays() {
    let v = object(vec![("xs", Value::Array(vec![Value::Int(10), Value::Int(20)]))]);
    assert_eq!(v.pointer("/xs/0"), Some(&Value::Int(10)));
    assert_eq!(v.pointer("/xs/1"), Some(&Value::Int(20)));
    assert_eq!(v.pointer("/xs/2"), None);
    assert_eq!(v.pointer("/xs/01"), None);
    assert_eq!(v.pointer("/xs/+1"), None);
}

#[test]
fn pointer_set_replaces_existing_slots() {
    let mut v = object(vec![("a", object(vec![("b", Value::Int(7))]))]);
    assert!(v.pointer_set("/a/b", Value::Int(9)));
    assert_eq!(v.pointer("/a/b"), Some(&Value::Int(9)));
    // a missing path is not created
    assert!(!v.pointer_set("/a/c", Value::Int(1)));
    assert_eq!(v.pointer("/a/c"), None);
    // the empty pointer replaces the whole value
    assert!(v.pointer_set("", Value::Null));
    assert_eq!(v, Value::Null);
}

#[test]
fn pointer_set_into_arrays() {
    let mut v = object(vec![("xs", Value::Array(vec![Value::Int(10), Value::Int(20)]))]);
    assert!(v.pointer_set("/xs/1", Value::Boolean(true)));
    assert_eq!(v.pointer("/xs/0"), Some(&Value::Int(10)));
    assert_eq!(v.pointer("/xs/1"), Some(&Value::Boolean(true)));
    assert!(!v.pointer_set("/xs/2", Value::Null));
    assert!(!v.pointer_set("/xs/01", Value::Null));
}

#[test]
fn parse_index_rules() {
    assert_eq!(parse_index("0"), Some(0));
    assert_eq!(parse_index("10"), Some(10));
    assert_eq!(parse_index("01"), None);
    assert_eq!(parse_index("+1"), None);
    assert_eq!(parse_index(""), None);
    assert_eq!(parse_index("7a"), None);
}

#[test]
fn json_scalars() {
    assert_eq!(Value::Int(-42).to_json(), Some("-42".to_string()));
    assert_eq!(Value::Int(0).to_json(), Some("0".to_string()));
    assert_eq!(Value::UInt(18446744073709551615).to_json(), Some("18446744073709551615".to_string()));
    assert_eq!(Value::Boolean(true).to_json(), Some("true".to_string()));
    assert_eq!(Value::Boolean(false).to_json(), Some("false".to_string()));
    assert_eq!(Value::Null.to_json(), Some("null".to_string()));
    assert_eq!(Value::Int(-9223372036854775808).to_json(), Some("-9223372036854775808".to_string()));
}

#[test]
fn json_strings_escape() {
    assert_eq!(Value::String("plain".to_string()).to_json(), Some("\"plain\"".to_string()));
    assert_eq!(
        Value::String("say \"hi\"\\now".to_string()).to_json(),
        Some("\"say \\\"hi\\\"\\\\now\"".to_string()),
    );
    assert_eq!(Value::String("a\nb\tc".to_string()).to_json(), Some("\"a\\nb\\tc\"".to_string()));
    assert_eq!(
        Value::String("bell\u{7}end".to_string()).to_json(),
        Some("\"bell\\u0007end\"".to_string()),
    );
}

#[test]
fn json_containers() {
    let v = object(vec![
        ("b", Value::Array(vec![Value::Int(1), Value::Null])),
        ("a", Value::String("x".to_string())),
    ]);
    // members come out sorted by key, whatever the insertion order
    assert_eq!(v.to_json(), Some("{\"a\":\"x\",\"b\":[1,null]}".to_string()));
    assert_eq!(Value::Bytes(vec![0, 127, 255]).to_json(), Some("[0,127,255]".to_string()));
    assert_eq!(Value::Bytes(vec![]).to_json(), Some("[]".to_string()));
    assert_eq!(Value::Array(vec![]).to_json(), Some("[]".to_string()));
    assert_eq!(object(vec![]).to_json(), Some("{}".to_string()));
}

#[test]
fn json_timestamp_and_levels() {
    assert_eq!(Value::TimeStamp(1).to_json(), Some("\"1970-01-01T00:00:01Z\"".to_string()));
    assert_eq!(
        Value::TimeStamp(1700000000).to_json(),
        Some("\"2023-11-14T22:13:20Z\"".to_string()),
    );
    assert_eq!(Value::LogLevel(LogLevel::Warn).to_json(), Some("\"Warn\"".to_string()));
    assert_eq!(
        Value::LogLevel(LogLevel::Other("custom".to_string())).to_json(),
        Some("{\"Other\":\"custom\"}".to_string()),
    );
}

#[test]
fn json_refuses_floats() {
    assert_eq!(Value::Float(0x4000000000000000).to_json(), None);
    let v = object(vec![("x", Value::Float(1))]);
    assert_eq!(v.to_json(), None);
}

#[test]
fn duplicate_is_deep() {
    let v = object(vec![("a", Value::Array(vec![Value::String("s".to_string())]))]);
    let copy = v.duplicate();
    assert_eq!(copy, v);
}
