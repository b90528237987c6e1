use wassette::json::JsonValue;
use wassette::tools::{
    call_structured_content, component_listing_text, component_tools,
    create_component_error_result, create_component_success_result, parse_structured_result,
};

fn expect(text: &str) -> serde_json::Value {
    serde_json::from_str(text).unwrap()
}

#[test]
fn success_and_error_status_texts() {
    assert_eq!(
        expect(&create_component_success_result("load", "fetch")),
        expect(r#"{"status":"component loaded successfully","id":"fetch"}"#)
    );
    assert_eq!(
        expect(&create_component_error_result("unload", "fetch", "boom")),
        expect(r#"{"status":"error","message":"Failed to unload component: boom","id":"fetch"}"#)
    );
}

#[test]
fn listing_counts_tools_per_component() {
    let schema = parse_structured_result(r#"{"tools":[{"name":"a"},{"name":"b"}]}"#);
    let entries = vec![("x".to_string(), Some(schema)), ("y".to_string(), None)];
    assert_eq!(
        expect(&component_listing_text(&entries)),
        expect(
            r#"{"components":[{"id":"x","tools_count":2,"schema":{"tools":[{"name":"a"},{"name":"b"}]}},
                {"id":"y","tools_count":0,"schema":null}],"total":2}"#
        )
    );
}

#[test]
fn component_tools_parse_each_entry() {
    let schema = parse_structured_result(r#"{"tools":[{"name":"a"},{"description":"d"}]}"#);
    let tools = component_tools(&schema);
    assert_eq!(tools.len(), 2);
    assert_eq!(tools[0].name, "a");
    assert_eq!(tools[1].name, "<unnamed>");
}

#[test]
fn structured_content_follows_output_schema() {
    let tool = parse_structured_result(r#"{"name":"fetch","outputSchema":{"type":"string"}}"#);
    let s = call_structured_content(Some(&tool), "plain").unwrap();
    match s {
        JsonValue::Object(m) => {
            assert_eq!(m.len(), 1);
            assert_eq!(m[0].0, "result");
            assert!(matches!(&m[0].1, JsonValue::String(t) if t == "plain"));
        }
        _ => panic!("expected an object"),
    }
    let bare = parse_structured_result(r#"{"name":"fetch"}"#);
    assert!(call_structured_content(Some(&bare), "x").is_none());
}
