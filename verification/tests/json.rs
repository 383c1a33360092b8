use kuebiko::json::Json;

#[test]
fn values_are_read_and_shown() {
    let value = Json::parse(r#" {"b":[1,-2,3.5,null],"a":"x\n","c":{"d":true}} "#).unwrap();
    assert_eq!(value.show(), r#"{"a":"x\n","b":[1,-2,3.5,null],"c":{"d":true}}"#);
    assert!(Json::parse("{").is_none());
    assert!(Json::parse("").is_none());
    assert!(Json::parse("1 2").is_none());
}

#[test]
fn the_later_of_two_fields_stays() {
    assert_eq!(Json::parse(r#"{"a":1,"a":2}"#).unwrap().show(), r#"{"a":2}"#);
}

#[test]
fn values_convert_to_and_from_serde_json() {
    let text = r#"{"a":[{"b":null},"c",false,18446744073709551615,-1,0.5]}"#;
    let value: serde_json::Value = serde_json::from_str(text).unwrap();
    let json = Json::from_value(&value);
    assert_eq!(json.to_value(), value);
    assert_eq!(json, Json::parse(text).unwrap());
}

#[test]
fn parts_of_a_value_are_found() {
    let value = Json::parse(r#"{"a":{"b":{"c":"x"}},"n":7,"m":-7,"f":1.0,"t":true,"l":["y"]}"#)
        .unwrap();
    assert_eq!(value.get3("a", "b", "c").and_then(Json::as_str).map(String::as_str), Some("x"));
    assert_eq!(value.get2("a", "b").unwrap().show(), r#"{"c":"x"}"#);
    assert!(value.get3("a", "x", "c").is_none());
    assert!(value.get2("n", "b").is_none());
    assert_eq!(value.get("n").and_then(Json::as_u64), Some(7));
    assert_eq!(value.get("m").and_then(Json::as_u64), None);
    assert_eq!(value.get("f").and_then(Json::as_u64), None);
    assert_eq!(value.get("t").and_then(Json::as_bool), Some(true));
    assert_eq!(value.get("t").and_then(Json::as_str), None);
    assert_eq!(value.get("l").and_then(Json::as_array).map(Vec::len), Some(1));
    assert!(value.get("l").unwrap().get("0").is_none());
}

#[test]
fn objects_are_built_field_by_field() {
    let value = Json::object()
        .with("b", Json::number(u64::MAX))
        .with("a", Json::text("x"))
        .with("b", Json::Bool(false));
    assert_eq!(value.show(), r#"{"a":"x","b":false}"#);
    assert_eq!(Json::number(3).as_u64(), Some(3));
    assert_eq!(Json::text("x").with("a", Json::Null), Json::text("x"));
}

#[test]
fn a_line_holds_one_line_feed() {
    let value = Json::object().with("text", Json::text("a\nb")).with("n", Json::number(1));
    assert_eq!(value.line(), b"{\"n\":1,\"text\":\"a\\nb\"}\n".to_vec());
}

#[test]
fn values_are_written_over_several_lines() {
    let value = Json::object().with("a", Json::Array(vec![Json::number(1)]));
    assert_eq!(value.pretty(), "{\n  \"a\": [\n    1\n  ]\n}");
}
