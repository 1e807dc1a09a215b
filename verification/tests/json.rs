//! JSON values.

use gitlab_ci_bash_ls::json::Json;
use gitlab_ci_bash_ls::value::{from_value, read_json, show_json, to_value, write_json};
use serde_json::{Number, Value};

fn double(number: f64) -> Json {
    Json::Number(Number::from_f64(number).unwrap())
}

#[test]
fn fields_are_set_replaced_and_removed() {
    let value = Json::object()
        .with("a", Json::Uint(1))
        .with("b", Json::string("x"))
        .with("a", Json::Uint(2));
    assert_eq!(value.at("a").as_u64(), Some(2));
    assert_eq!(value.at("b").as_str(), Some("x"));
    assert!(value.at("c").is_null());
    assert!(value.get("c").is_none());
    let value = value.without("a").with_missing("b", Json::Null).with_missing("d", Json::Null);
    assert!(value.get("a").is_none());
    assert_eq!(value.at("b").as_str(), Some("x"));
    assert!(value.get("d").is_some());
    // The last of two entries with the same key counts.
    let twice = Json::Object(vec![
        ("k".to_owned(), Json::Uint(1)),
        ("k".to_owned(), Json::Uint(2)),
    ]);
    assert_eq!(twice.at("k").as_u64(), Some(2));
    assert!(twice.same(&Json::object().with("k", Json::Uint(2))));
    assert!(twice.without("k").same(&Json::object()));
}

#[test]
fn only_objects_have_fields() {
    let text = Json::string("x").with("a", Json::Null).without("b");
    assert!(text.same(&Json::string("x")));
    assert!(Json::array(vec![Json::Null]).get("0").is_none());
}

#[test]
fn numbers_are_compared_by_value() {
    assert!(Json::Int(5).same(&Json::Uint(5)));
    assert!(!Json::Int(-1).same(&Json::Uint(u64::MAX)));
    assert!(double(0.0).same(&double(-0.0)));
    assert!(double(1.5).same(&double(1.5)));
    assert!(!double(1.5).same(&double(2.5)));
    assert!(!double(1.0).same(&Json::Uint(1)));
    assert!(Json::Number(Number::from(1u64)).same(&Json::Int(1)));
    assert!(Json::Int(-7).same(&Json::Number(Number::from(-7i64))));
    assert!(!Json::Number(Number::from(u64::MAX)).same(&Json::Int(-1)));
    assert_eq!(Json::Int(-1).as_u64(), None);
    assert_eq!(Json::Int(-1).as_i64(), Some(-1));
    assert_eq!(Json::Uint(u64::MAX).as_i64(), None);
    assert_eq!(double(0.0).as_u64(), None);
    assert_eq!(double(0.0).as_i64(), None);
    assert_eq!(Json::Number(Number::from(u64::MAX)).as_u64(), Some(u64::MAX));
    assert_eq!(Json::Number(Number::from(u64::MAX)).as_i64(), None);
    assert_eq!(Json::Number(Number::from(-1i64)).as_u64(), None);
    assert_eq!(Json::Number(Number::from(-1i64)).as_i64(), Some(-1));
}

#[test]
fn copies_are_the_same_and_order_does_not_matter() {
    let value = Json::object()
        .with("list", Json::array(vec![Json::Bool(true), Json::Int(-3), double(0.5)]))
        .with("inner", Json::object().with("x", Json::Null));
    let copy = value.duplicate();
    assert!(copy.same(&value));
    let other = Json::object()
        .with("inner", Json::object().with("x", Json::Null))
        .with("list", Json::array(vec![Json::Bool(true), Json::Int(-3), double(0.5)]));
    assert!(other.same(&value));
    assert!(!other.with("more", Json::Null).same(&value));
    assert!(!value.same(&copy.without("inner")));
}

#[test]
fn values_are_taken_apart_and_put_together() {
    let text = r#"{"a":[null,true,1,-2,2.5,-0.0],"b":{"c":"\u00e4","d":{}},"e":18446744073709551615}"#;
    let value: Value = serde_json::from_str(text).unwrap();
    let json = from_value(value.clone());
    assert_eq!(json.at("b").at("c").as_str(), Some("ä"));
    assert_eq!(json.at("e").as_u64(), Some(u64::MAX));
    let items = json.at("a").as_array().unwrap();
    assert!(items[0].is_null());
    assert!(matches!(items[1], Json::Bool(true)));
    assert_eq!(items[3].as_i64(), Some(-2));
    assert!(items[4].same(&double(2.5)));
    assert_eq!(to_value(&json), value);
    assert_eq!(to_value(&json.duplicate()).to_string(), value.to_string());
}

#[test]
fn built_values_become_the_values_they_stand_for() {
    let json = Json::Object(vec![
        ("k".to_owned(), Json::Uint(1)),
        ("z".to_owned(), Json::Int(-5)),
        ("k".to_owned(), Json::array(vec![Json::Null, Json::Uint(3)])),
    ]);
    let value = to_value(&json);
    assert_eq!(value.to_string(), r#"{"k":[null,3],"z":-5}"#);
    assert!(from_value(value).same(&json));
}

#[test]
fn json_is_read_written_and_shown() {
    let json = read_json(r#" {"b": [1, "ä\n"], "a": {}} "#.as_bytes()).unwrap();
    let compact = r#"{"a":{},"b":[1,"ä\n"]}"#;
    assert_eq!(write_json(&json), compact.as_bytes());
    assert_eq!(show_json(&json), compact);
    assert!(read_json(&write_json(&json)).unwrap().same(&json));
    assert_eq!(read_json(b"nop").unwrap_err(), "expected ident at line 1 column 2");
    assert!(read_json(b"").is_err());
    assert!(read_json(b"{} {}").is_err());
}

#[test]
fn nesting_is_limited_when_reading() {
    let nested = |levels: usize| (1..levels).fold(Json::array(Vec::new()), |inner, _| Json::array(vec![inner]));
    assert!(read_json(&write_json(&nested(127))).unwrap().same(&nested(127)));
    assert!(read_json(&write_json(&nested(128))).is_err());
}
