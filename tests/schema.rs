use wassette::json::JsonValue;
use wassette::schema::{
    canonicalize_output_schema, ensure_structured_result, normalize_result_value,
    wrap_schema_in_result,
};
use wassette::tools::parse_structured_result;

fn json(text: &str) -> JsonValue {
    parse_structured_result(text)
}

fn to_serde(v: &JsonValue) -> serde_json::Value {
    match v {
        JsonValue::Null => serde_json::Value::Null,
        JsonValue::Bool(b) => serde_json::Value::Bool(*b),
        JsonValue::Number(n) => serde_json::Value::Number(n.parse().unwrap()),
        JsonValue::String(s) => serde_json::Value::String(s.clone()),
        JsonValue::Array(a) => serde_json::Value::Array(a.iter().map(to_serde).collect()),
        JsonValue::Object(m) => {
            serde_json::Value::Object(m.iter().map(|(k, x)| (k.clone(), to_serde(x))).collect())
        }
    }
}

fn expect(text: &str) -> serde_json::Value {
    serde_json::from_str(text).unwrap()
}

#[test]
fn one_of_schema_is_wrapped_under_result() {
    let s = json(
        r#"{"oneOf": [{"type":"object","properties":{"ok":{"type":"string"}},"required":["ok"]},
                      {"type":"object","properties":{"err":{"type":"string"}},"required":["err"]}]}"#,
    );
    let c = canonicalize_output_schema(&s);
    assert_eq!(
        to_serde(&c),
        expect(
            r#"{"type":"object","properties":{"result":{"oneOf": [
                {"type":"object","properties":{"ok":{"type":"string"}},"required":["ok"]},
                {"type":"object","properties":{"err":{"type":"string"}},"required":["err"]}]}},
                "required":["result"]}"#
        )
    );
    let aligned = ensure_structured_result(&c, json(r#"{"ok":"hi"}"#));
    assert_eq!(to_serde(&aligned), expect(r#"{"result":{"ok":"hi"}}"#));
}

#[test]
fn object_schema_without_result_is_wrapped_whole() {
    let s = json(r#"{"type":"object","properties":{"a":{"type":"string"}}}"#);
    let c = canonicalize_output_schema(&s);
    assert_eq!(
        to_serde(&c),
        expect(
            r#"{"type":"object","properties":{"result":{"type":"object","properties":{"a":{"type":"string"}}}},
                "required":["result"]}"#
        )
    );
}

#[test]
fn existing_result_envelope_keeps_outer_and_gains_required() {
    let s = json(r#"{"type":"object","title":"t","properties":{"result":{"type":"array","items":[{"type":"string"},{"type":"u32"}]}}}"#);
    let c = canonicalize_output_schema(&s);
    assert_eq!(
        to_serde(&c),
        expect(
            r#"{"type":"object","title":"t","properties":{"result":{"type":"object",
                "properties":{"val0":{"type":"string"},"val1":{"type":"u32"}},"required":["val0","val1"]}},
                "required":["result"]}"#
        )
    );
}

#[test]
fn tuple_items_become_val_members_recursively() {
    let s = json(r#"{"type":"array","items":[{"type":"string"},{"type":"array","items":[{"type":"boolean"}]}]}"#);
    let c = canonicalize_output_schema(&s);
    assert_eq!(
        to_serde(&c),
        expect(
            r#"{"type":"object","properties":{"result":{"type":"object","properties":{
                "val0":{"type":"string"},
                "val1":{"type":"object","properties":{"val0":{"type":"boolean"}},"required":["val0"]}},
                "required":["val0","val1"]}},"required":["result"]}"#
        )
    );
}

#[test]
fn canonicalizing_twice_changes_nothing() {
    for text in [
        r#"{"type":"string"}"#,
        r#"{"type":"array","items":[{"type":"string"},{"type":"number"}]}"#,
        r#"{"type":"object","properties":{"result":{"type":"string"}},"required":"x"}"#,
        r#"[{"type":"string"}]"#,
        r#"null"#,
    ] {
        let once = canonicalize_output_schema(&json(text));
        let twice = canonicalize_output_schema(&once);
        assert_eq!(to_serde(&once), to_serde(&twice), "{text}");
    }
}

#[test]
fn wrap_schema_in_result_builds_envelope() {
    let w = wrap_schema_in_result(json(r#"{"type":"number"}"#));
    assert_eq!(
        to_serde(&w),
        expect(r#"{"type":"object","properties":{"result":{"type":"number"}},"required":["result"]}"#)
    );
}

#[test]
fn tuple_result_serializes_as_val_members() {
    let schema = canonicalize_output_schema(&json(
        r#"{"type":"array","items":[{"type":"string"},{"type":"number"}]}"#,
    ));
    let aligned = ensure_structured_result(&schema, json(r#"["a", 1]"#));
    assert_eq!(to_serde(&aligned), expect(r#"{"result":{"val0":"a","val1":1}}"#));
}

#[test]
fn scalar_under_tuple_schema_becomes_val0() {
    let rs = json(r#"{"type":"object","properties":{"val0":{"type":"string"}}}"#);
    let v = normalize_result_value(&rs, JsonValue::String("x".to_string()));
    assert_eq!(to_serde(&v), expect(r#"{"val0":"x"}"#));
}

#[test]
fn declared_properties_filled_with_null_and_extras_kept() {
    let rs = json(r#"{"type":"object","properties":{"a":{"type":"string"},"b":{"type":"string"}}}"#);
    let v = normalize_result_value(&rs, json(r#"{"a":"1","extra":true}"#));
    assert_eq!(to_serde(&v), expect(r#"{"a":"1","b":null,"extra":true}"#));
}

#[test]
fn tuple_shaped_object_turns_back_into_array() {
    let rs = json(r#"{"type":"array"}"#);
    let v = normalize_result_value(&rs, json(r#"{"val0":1,"val1":2}"#));
    assert_eq!(to_serde(&v), expect(r#"[1,2]"#));
    let kept = normalize_result_value(&rs, json(r#"{"val0":1,"x":2}"#));
    assert_eq!(to_serde(&kept), expect(r#"{"val0":1,"x":2}"#));
}

#[test]
fn schema_without_result_leaves_value_alone() {
    let schema = json(r#"{"type":"string"}"#);
    let v = ensure_structured_result(&schema, json(r#"{"x":1}"#));
    assert_eq!(to_serde(&v), expect(r#"{"x":1}"#));
}

#[test]
fn existing_result_member_is_aligned_in_place() {
    let schema = canonicalize_output_schema(&json(
        r#"{"type":"array","items":[{"type":"string"}]}"#,
    ));
    let v = ensure_structured_result(&schema, json(r#"{"result":["z"],"other":3}"#));
    assert_eq!(to_serde(&v), expect(r#"{"result":{"val0":"z"},"other":3}"#));
}
