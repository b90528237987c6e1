use wassette::json::JsonValue;
use wassette::marshal::{
    json_to_val, json_to_vals, parse_int_text, placeholder_results, render_int_text, val_to_json,
    vals_to_json, IntKind, MarshalError, Val, ValType,
};
use wassette::tools::parse_structured_result;

fn json(text: &str) -> JsonValue {
    parse_structured_result(text)
}

fn to_serde(v: &JsonValue) -> serde_json::Value {
    match v {
        JsonValue::Null => serde_json::Value::Null,
        JsonValue::Bool(b) => serde_json::Value::Bool(*b),
        JsonValue::Number(n) => serde_json::Value::Number(n.parse().unwrap()),
        JsonValue::String(s) => serde_json::Value::String(s.clone()),
        JsonValue::Array(a) => serde_json::Value::Array(a.iter().map(to_serde).collect()),
        JsonValue::Object(m) => {
            serde_json::Value::Object(m.iter().map(|(k, x)| (k.clone(), to_serde(x))).collect())
        }
    }
}

fn expect(text: &str) -> serde_json::Value {
    serde_json::from_str(text).unwrap()
}

fn record_type() -> ValType {
    ValType::Record(vec![
        ("url".to_string(), ValType::String),
        ("retries".to_string(), ValType::Int(IntKind::U8)),
        ("tag".to_string(), ValType::Option(Box::new(ValType::String))),
    ])
}

#[test]
fn integers_parse_and_render() {
    assert_eq!(parse_int_text(&"42".to_string()), Some(42));
    assert_eq!(parse_int_text(&"-7".to_string()), Some(-7));
    assert_eq!(parse_int_text(&"1.5".to_string()), None);
    assert_eq!(parse_int_text(&"-".to_string()), None);
    assert_eq!(render_int_text(-120), "-120");
    assert_eq!(render_int_text(18446744073709551615), "18446744073709551615");
}

#[test]
fn primitives_coerce_strictly() {
    assert!(matches!(json_to_val(&json("true"), &ValType::Bool), Ok(Val::Bool(true))));
    assert_eq!(json_to_val(&json(r#""5""#), &ValType::Int(IntKind::S32)).err(), Some(MarshalError::Mismatch));
    assert_eq!(json_to_val(&json("5"), &ValType::String).err(), Some(MarshalError::Mismatch));
    assert_eq!(json_to_val(&json("300"), &ValType::Int(IntKind::U8)).err(), Some(MarshalError::Mismatch));
    assert!(matches!(json_to_val(&json("-3"), &ValType::Int(IntKind::S8)), Ok(Val::Int(-3))));
}

#[test]
fn record_missing_required_field_fails() {
    let r = json_to_val(&json(r#"{"retries": 1}"#), &record_type());
    assert_eq!(r.err(), Some(MarshalError::Mismatch));
}

#[test]
fn record_with_absent_option_round_trips() {
    let v = json_to_val(&json(r#"{"url": "https://ex", "retries": 3, "extra": 1}"#), &record_type()).unwrap();
    assert_eq!(
        to_serde(&val_to_json(&v)),
        expect(r#"{"url": "https://ex", "retries": 3, "tag": null}"#)
    );
}

#[test]
fn tuples_need_matching_arity() {
    let t = ValType::Tuple(vec![ValType::String, ValType::Bool]);
    assert!(json_to_val(&json(r#"["a", true]"#), &t).is_ok());
    assert_eq!(json_to_val(&json(r#"["a"]"#), &t).err(), Some(MarshalError::Mismatch));
}

#[test]
fn variants_results_and_enums() {
    let variant = ValType::Variant(vec![
        ("none".to_string(), None),
        ("some".to_string(), Some(ValType::Int(IntKind::U32))),
    ]);
    let v = json_to_val(&json(r#"{"some": 4}"#), &variant).unwrap();
    assert_eq!(to_serde(&val_to_json(&v)), expect(r#"{"some": 4}"#));
    assert!(json_to_val(&json(r#"{"none": null}"#), &variant).is_ok());
    assert!(json_to_val(&json(r#"{"other": 1}"#), &variant).is_err());

    let result = ValType::Result(Some(Box::new(ValType::String)), Some(Box::new(ValType::String)));
    let ok = json_to_val(&json(r#"{"ok": "body"}"#), &result).unwrap();
    assert_eq!(to_serde(&val_to_json(&ok)), expect(r#"{"ok": "body"}"#));
    let err = json_to_val(&json(r#"{"err": "boom"}"#), &result).unwrap();
    assert!(matches!(err, Val::Result(false, Some(_))));

    let colors = ValType::Enum(vec!["red".to_string(), "green".to_string()]);
    assert!(json_to_val(&json(r#""green""#), &colors).is_ok());
    assert!(json_to_val(&json(r#""blue""#), &colors).is_err());
}

#[test]
fn call_arguments_by_parameter_name() {
    let params = vec![("url".to_string(), ValType::String), ("limit".to_string(), ValType::Option(Box::new(ValType::Int(IntKind::U32))))];
    let vals = json_to_vals(&json(r#"{"url": "https://ex"}"#), &params).unwrap();
    assert_eq!(vals.len(), 2);
    assert!(matches!(&vals[0], Val::String(s) if s == "https://ex"));
    assert!(matches!(&vals[1], Val::Option(None)));
    let none = json_to_vals(&json("{}"), &vec![]).unwrap();
    assert!(none.is_empty());
    assert!(json_to_vals(&json("[]"), &params).is_err());
}

#[test]
fn results_serialize_single_or_as_array() {
    let one = vals_to_json(&vec![Val::String("hi".to_string())]);
    assert!(matches!(one, JsonValue::String(ref s) if s == "hi"));
    let two = vals_to_json(&vec![Val::Int(1), Val::Bool(false)]);
    assert_eq!(to_serde(&two), expect("[1, false]"));
    assert_eq!(placeholder_results(&vec![ValType::Bool, ValType::String]).len(), 2);
}

#[test]
fn json_vals_json_normalizes() {
    let t = ValType::List(Box::new(ValType::Float));
    let v = json_to_val(&json("[1.5, 2]"), &t).unwrap();
    let back = val_to_json(&v);
    assert_eq!(to_serde(&back), expect("[1.5, 2]"));
    let again = json_to_val(&back, &t).unwrap();
    assert_eq!(to_serde(&val_to_json(&again)), to_serde(&back));
}

#[test]
fn tool_schema_describes_parameters_and_results() {
    let params = vec![
        ("url".to_string(), ValType::String),
        ("limit".to_string(), ValType::Option(Box::new(ValType::Int(IntKind::U32)))),
    ];
    let results = vec![ValType::Result(Some(Box::new(ValType::String)), Some(Box::new(ValType::String)))];
    let schema = wassette::marshal::tool_schema("fetch", &params, &results);
    assert_eq!(
        to_serde(&schema),
        expect(
            r#"{"name":"fetch","description":"Auto-generated schema for function 'fetch'",
                "inputSchema":{"type":"object","properties":{"url":{"type":"string"},"limit":{"type":"integer"}},"required":["url"]},
                "outputSchema":{"oneOf":[
                    {"type":"object","properties":{"ok":{"type":"string"}},"required":["ok"]},
                    {"type":"object","properties":{"err":{"type":"string"}},"required":["err"]}]}}"#
        )
    );
}
