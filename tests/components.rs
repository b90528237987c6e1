use wassette::json::JsonValue;
use wassette::lifecycle::call_result_text;
use wassette::tools::{
    align_structured_result_with_schema, extract_args_from_request, normalize_output_schema,
    parse_structured_result, parse_tool_schema, string_argument,
};

fn json(text: &str) -> JsonValue {
    let v = parse_structured_result(text);
    assert!(!matches!(v, JsonValue::String(_)) || text.starts_with('"'), "not JSON: {text}");
    v
}

fn to_serde(v: &JsonValue) -> serde_json::Value {
    match v {
        JsonValue::Null => serde_json::Value::Null,
        JsonValue::Bool(b) => serde_json::Value::Bool(*b),
        JsonValue::Number(n) => serde_json::Value::Number(n.parse().unwrap()),
        JsonValue::String(s) => serde_json::Value::String(s.clone()),
        JsonValue::Array(a) => serde_json::Value::Array(a.iter().map(to_serde).collect()),
        JsonValue::Object(m) => {
            serde_json::Value::Object(m.iter().map(|(k, x)| (k.clone(), to_serde(x))).collect())
        }
    }
}

fn members_to_serde(m: &[(String, JsonValue)]) -> serde_json::Value {
    serde_json::Value::Object(m.iter().map(|(k, x)| (k.clone(), to_serde(x))).collect())
}

fn expect(text: &str) -> serde_json::Value {
    serde_json::from_str(text).unwrap()
}

#[test]
fn test_parse_tool_schema() {
    let tool_json = json(
        r#"{"name": "test-tool", "description": "Test tool description",
            "inputSchema": {"type": "object", "properties": {"test": {"type": "string"}}}}"#,
    );
    let tool = parse_tool_schema(&tool_json).unwrap();
    assert_eq!(tool.name, "test-tool");
    assert_eq!(tool.description, "Test tool description");
    assert!(tool.output_schema.is_none());
    assert_eq!(
        members_to_serde(&tool.input_schema),
        expect(r#"{"type": "object", "properties": {"test": {"type": "string"}}}"#)
    );
}

#[test]
fn test_extract_args_from_request() {
    let arguments = vec![
        ("path".to_string(), JsonValue::String("/test/path".to_string())),
        ("id".to_string(), JsonValue::String("test-id".to_string())),
    ];
    let args = extract_args_from_request(Some(arguments));
    assert_eq!(string_argument(&args, "path").unwrap(), "/test/path");
    assert_eq!(string_argument(&args, "id").unwrap(), "test-id");
}

#[test]
fn test_extract_args_from_request_none() {
    let args = extract_args_from_request(None);
    assert!(args.is_empty());
}

#[test]
fn test_parse_tool_schema_minimal() {
    let tool = parse_tool_schema(&json(r#"{"name": "minimal-tool"}"#)).unwrap();
    assert_eq!(tool.name, "minimal-tool");
    assert_eq!(tool.description, "No description available");
}

#[test]
fn test_parse_structured_result_with_object() {
    let parsed = parse_structured_result(r#"{"ok":{"message":"hello"}}"#);
    assert_eq!(to_serde(&parsed), expect(r#"{"ok": {"message": "hello"}}"#));
}

#[test]
fn test_parse_structured_result_with_text() {
    let parsed = parse_structured_result("plain text");
    assert_eq!(to_serde(&parsed), serde_json::Value::String("plain text".to_string()));
}

#[test]
fn test_normalize_output_schema_wraps_scalar() {
    let inner = json(r#"{"type": "string"}"#);
    let normalized = normalize_output_schema(&inner).unwrap();
    assert_eq!(
        to_serde(&normalized),
        expect(r#"{"type": "object", "properties": {"result": {"type": "string"}}, "required": ["result"]}"#)
    );
}

#[test]
fn test_normalize_output_schema_handles_null() {
    assert!(normalize_output_schema(&JsonValue::Null).is_none());
}

#[test]
fn test_align_structured_result_with_schema_wraps_missing_result() {
    let schema = json(
        r#"{"type": "object", "properties": {"result": {"type": "string"}}, "required": ["result"]}"#,
    );
    let aligned =
        align_structured_result_with_schema(Some(&schema), JsonValue::String("hello".into()));
    assert_eq!(to_serde(&aligned), expect(r#"{"result": "hello"}"#));
}

#[test]
fn test_align_structured_result_with_schema_respects_existing_result() {
    let schema = json(
        r#"{"type": "object", "properties": {"result": {"type": "string"}}, "required": ["result"]}"#,
    );
    let value = json(r#"{"result": {"ok": "16"}}"#);
    let expected = to_serde(&value);
    let aligned = align_structured_result_with_schema(Some(&schema), value);
    assert_eq!(to_serde(&aligned), expected);
}

#[test]
fn test_parse_tool_schema_no_name() {
    let tool = parse_tool_schema(&json(r#"{"description": "Test description"}"#)).unwrap();
    assert_eq!(tool.name, "<unnamed>");
    assert_eq!(tool.description, "Test description");
}

#[test]
fn test_parse_tool_schema_with_output_schema() {
    let tool_json = json(
        r#"{"name": "weather-tool", "description": "Get weather data",
            "inputSchema": {"type": "object", "properties": {"location": {"type": "string"}}, "required": ["location"]},
            "outputSchema": {"type": "object", "properties": {"temperature": {"type": "number"}, "conditions": {"type": "string"}},
                             "required": ["temperature", "conditions"]}}"#,
    );
    let tool = parse_tool_schema(&tool_json).unwrap();
    assert_eq!(tool.name, "weather-tool");
    assert_eq!(tool.description, "Get weather data");
    assert!(tool.output_schema.is_some());
    assert_eq!(
        members_to_serde(tool.output_schema.as_ref().unwrap()),
        expect(
            r#"{"type": "object", "properties": {"temperature": {"type": "number"}, "conditions": {"type": "string"}},
                "required": ["temperature", "conditions"]}"#
        )
    );
    assert_eq!(
        members_to_serde(&tool.input_schema),
        expect(r#"{"type": "object", "properties": {"location": {"type": "string"}}, "required": ["location"]}"#)
    );
}

#[test]
fn test_parse_tool_schema_integration_with_component2json() {
    let tool_json = json(
        r#"{"name": "fetch", "description": "Auto-generated schema for function 'fetch'",
            "inputSchema": {"type": "object", "properties": {"url": {"type": "string"}}, "required": ["url"]},
            "outputSchema": {"oneOf": [
                {"type": "object", "properties": {"ok": {"type": "string"}}, "required": ["ok"]},
                {"type": "object", "properties": {"err": {"type": "string"}}, "required": ["err"]}]}}"#,
    );
    let tool = parse_tool_schema(&tool_json).unwrap();
    assert_eq!(tool.name, "fetch");
    assert_eq!(tool.description, "Auto-generated schema for function 'fetch'");
    assert!(tool.output_schema.is_some());
    assert_eq!(
        members_to_serde(tool.output_schema.as_ref().unwrap()),
        expect(
            r#"{"type": "object", "properties": {"result": {"oneOf": [
                {"type": "object", "properties": {"ok": {"type": "string"}}, "required": ["ok"]},
                {"type": "object", "properties": {"err": {"type": "string"}}, "required": ["err"]}]}},
                "required": ["result"]}"#
        )
    );
    assert_eq!(
        members_to_serde(&tool.input_schema),
        expect(r#"{"type": "object", "properties": {"url": {"type": "string"}}, "required": ["url"]}"#)
    );
}

#[test]
fn call_result_text_keeps_strings_and_prints_the_rest() {
    assert_eq!(call_result_text(&JsonValue::String("hi".to_string())), "hi");
    let v = json(r#"{"a": [1, true, null]}"#);
    let text = call_result_text(&v);
    assert_eq!(expect(&text), expect(r#"{"a": [1, true, null]}"#));
}
