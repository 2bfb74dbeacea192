use wlf::event::Event;
use wlf::template::substitute_with_event;
use wlf::value::Value;
use wlf::value::obj_insert;

fn object(pairs: Vec<(&str, Value)>) -> Value {
    let mut entries: Vec<(String, Value)> = Vec::new();
    for (k, v) in pairs {
        obj_insert(&mut entries, k.to_string(), v);
    }
    Value::Object(entries)
}

fn sample_event() -> Event {
    Event::from_value(object(vec![
        ("meta", object(vec![("database", Value::String("app".to_string()))])),
        ("sql", object(vec![("table", Value::String("users".to_string()))])),
    ]))
}

#[test]
fn no_placeholder_is_identity() {
    let e = sample_event();
    assert_eq!(substitute_with_event("plain-topic", &e), Ok("plain-topic".to_string()));
    assert_eq!(substitute_with_event("", &e), Ok("".to_string()));
    // an unclosed capture is literal text
    assert_eq!(substitute_with_event("%{/meta", &e), Ok("%{/meta".to_string()));
    assert_eq!(substitute_with_event("100%", &e), Ok("100%".to_string()));
}

#[test]
fn kafka_topic_materialization() {
    let e = sample_event();
    assert_eq!(
        substitute_with_event("logFlex.%{/meta/database}.%{/sql/table}", &e),
        Ok("logFlex.app.users".to_string()),
    );
}

#[test]
fn failing_capture_is_an_error() {
    let e = sample_event();
    let rendered = "{\"meta\":{\"database\":\"app\"},\"sql\":{\"table\":\"users\"}}";
    let r = substitute_with_event("logFlex.%{/meta/database}.%{/missing}", &e);
    assert_eq!(
        r,
        Err(format!("no /missing field or /missing is not string, event: {rendered}")),
    );
    // a capture naming a non-string value also fails
    let r2 = substitute_with_event("%{/meta}", &e);
    assert_eq!(
        r2,
        Err(format!("no /meta field or /meta is not string, event: {rendered}")),
    );
}

#[test]
fn first_failing_capture_wins() {
    let e = sample_event();
    let rendered = "{\"meta\":{\"database\":\"app\"},\"sql\":{\"table\":\"users\"}}";
    let r = substitute_with_event("%{/nope}%{/also-missing}", &e);
    assert_eq!(r, Err(format!("no /nope field or /nope is not string, event: {rendered}")));
}

#[test]
fn substitution_never_partial() {
    let e = sample_event();
    // the leading capture resolves, the trailing one does not: no partial
    // text comes back
    let r = substitute_with_event("%{/meta/database}-%{/gone}", &e);
    assert!(r.is_err());
}
