use cloud::envelope::unwrap_output;
use cloud::error::ErrorKind;
use cloud::value::Value;

fn obj(entries: Vec<(&str, Value)>) -> Value {
    Value::Object(entries.into_iter().map(|(k, v)| (k.to_string(), v)).collect())
}

#[test]
fn ok_envelope_unwraps_to_inner_value() {
    let out = unwrap_output(obj(vec![("Ok", Value::Int(7))])).unwrap();
    assert_eq!(out, Value::Int(7));
}

#[test]
fn err_envelope_surfaces_description() {
    let errval = obj(vec![("description", Value::Str("boom".to_string()))]);
    let e = unwrap_output(obj(vec![("Err", errval)])).unwrap_err();
    assert_eq!(e.kind(), ErrorKind::GuestReported);
    assert_eq!(e.message().as_str(), "boom");
}

#[test]
fn bare_values_pass_through_unchanged() {
    assert_eq!(unwrap_output(Value::Int(42)).unwrap(), Value::Int(42));
    assert_eq!(
        unwrap_output(Value::Str("plain".to_string())).unwrap(),
        Value::Str("plain".to_string())
    );
    let no_keys = obj(vec![("status", Value::Bool(true))]);
    let same = obj(vec![("status", Value::Bool(true))]);
    assert_eq!(unwrap_output(no_keys).unwrap(), same);
}

#[test]
fn err_takes_precedence_over_ok() {
    let errval = obj(vec![("description", Value::Str("lost".to_string()))]);
    let both = obj(vec![("Ok", Value::Int(1)), ("Err", errval)]);
    let e = unwrap_output(both).unwrap_err();
    assert_eq!(e.kind(), ErrorKind::GuestReported);
    assert_eq!(e.message().as_str(), "lost");
}

#[test]
fn err_without_string_description_reports_empty_message() {
    let e = unwrap_output(obj(vec![("Err", Value::Int(3))])).unwrap_err();
    assert_eq!(e.kind(), ErrorKind::GuestReported);
    assert_eq!(e.message().as_str(), "");
}
