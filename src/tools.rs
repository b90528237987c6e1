//! What the protocol server makes of tool schemas and tool results.

use vstd::prelude::*;
use crate::codec::{parse_json_text, parsed_json, print_json_text, printed_json};
use crate::json::{
    duplicate_members, field, json_string, lemma_view_items, lemma_view_members, member_get,
    text_field, view_items, view_members, Json, JsonValue, Members,
};
use crate::schema::{schema_is, wrap, wrap_schema_in_result};
use crate::text::{decimal, decimal_text, text_is};
use vstd::string::StringExecFns;

verus! {

/// A tool as announced to protocol clients.
#[derive(Debug)]
pub struct ToolDescriptor {
    pub name: String,
    pub description: String,
    /// The input schema's members (empty when the declared one is not an object).
    pub input_schema: Vec<(String, JsonValue)>,
    /// The output schema's members, in canonical object form.
    pub output_schema: Option<Vec<(String, JsonValue)>>,
}

pub struct ToolView {
    pub name: Seq<char>,
    pub description: Seq<char>,
    pub input_schema: Members,
    pub output_schema: Option<Members>,
}

impl View for ToolDescriptor {
    type V = ToolView;

    open spec fn view(&self) -> ToolView {
        ToolView {
            name: self.name@,
            description: self.description@,
            input_schema: view_members(self.input_schema@),
            output_schema: match self.output_schema {
                Some(m) => Some(view_members(m@)),
                None => None,
            },
        }
    }
}

/// A tool result text read as JSON, or kept as a JSON string when it is not JSON.
pub open spec fn structured_of(text: Seq<char>) -> Json {
    match parsed_json(text) {
        Some(v) => v,
        None => Json::String(text),
    }
}

/// Whether `s` is an object schema declaring a `result` property.
pub open spec fn declares_result(s: Json) -> bool {
    schema_is(s, "object"@) && (match field(s, "properties"@) {
        Some(Json::Object(p)) => member_get(p, "result"@) is Some,
        _ => false,
    })
}

/// A structured value placed under `result` when the schema asks for that
/// envelope and the value does not already carry one.
pub open spec fn aligned_with(schema: Option<Json>, v: Json) -> Json {
    match schema {
        Some(s) => if declares_result(s) {
            match v {
                Json::Object(obj) => if member_get(obj, "result"@) is Some {
                    v
                } else {
                    Json::Object(seq![("result"@, v)])
                },
                _ => Json::Object(seq![("result"@, v)]),
            }
        } else {
            v
        },
        None => v,
    }
}

/// The output schema a client sees: none for null, object schemas as they
/// are, anything else wrapped under `result`.
pub open spec fn client_output_schema(s: Json) -> Option<Json> {
    match s {
        Json::Null => None,
        Json::Object(_) => if schema_is(s, "object"@) {
            Some(s)
        } else {
            Some(wrap(s))
        },
        _ => Some(wrap(s)),
    }
}

/// The tool a client sees for one entry of a component's `tools` list.
pub open spec fn tool_of(t: Json) -> ToolView {
    ToolView {
        name: match text_field(t, "name"@) {
            Some(n) => n,
            None => "<unnamed>"@,
        },
        description: match text_field(t, "description"@) {
            Some(d) => d,
            None => "No description available"@,
        },
        input_schema: match field(t, "inputSchema"@) {
            Some(Json::Object(m)) => m,
            _ => Seq::empty(),
        },
        output_schema: match field(t, "outputSchema"@) {
            Some(o) => match client_output_schema(o) {
                Some(Json::Object(m)) => Some(m),
                _ => None,
            },
            None => None,
        },
    }
}

/// The structured content of a successful call: present when the tool's
/// schema has an output schema, and then the result text read as JSON and
/// aligned with it.
pub open spec fn structured_content(tool_schema: Option<Json>, text: Seq<char>) -> Option<Json> {
    match tool_schema {
        Some(ts) => match field(ts, "outputSchema"@) {
            Some(raw) => match client_output_schema(raw) {
                Some(ns) => Some(aligned_with(Some(ns), structured_of(text))),
                None => None,
            },
            None => None,
        },
        None => None,
    }
}

/// The number of entries in a component schema's `tools` array, or 0.
pub open spec fn tools_count(schema: Option<Json>) -> nat {
    match schema {
        Some(s) => match field(s, "tools"@) {
            Some(Json::Array(a)) => a.len(),
            _ => 0,
        },
        None => 0,
    }
}

/// One entry of the component listing.
pub open spec fn listing_entry(id: Seq<char>, schema: Option<Json>) -> Json {
    Json::Object(
        seq![
            ("id"@, Json::String(id)),
            ("tools_count"@, Json::Number(decimal(tools_count(schema)))),
            ("schema"@, match schema {
                Some(s) => s,
                None => Json::Null,
            }),
        ],
    )
}

/// The component listing: every entry, and how many there are.
pub open spec fn listing(entries: Seq<(Seq<char>, Option<Json>)>) -> Json {
    Json::Object(
        seq![
            ("components"@, Json::Array(Seq::new(entries.len(), |i: int| listing_entry(entries[i].0, entries[i].1)))),
            ("total"@, Json::Number(decimal(entries.len()))),
        ],
    )
}

/// The status text of a component operation that succeeded.
pub open spec fn success_status(operation: Seq<char>, id: Seq<char>) -> Json {
    Json::Object(
        seq![
            ("status"@, Json::String("component "@ + operation + "ed successfully"@)),
            ("id"@, Json::String(id)),
        ],
    )
}

/// The status text of a component operation that failed.
pub open spec fn error_status(operation: Seq<char>, id: Seq<char>, message: Seq<char>) -> Json {
    Json::Object(
        seq![
            ("status"@, Json::String("error"@)),
            ("message"@, Json::String("Failed to "@ + operation + " component: "@ + message)),
            ("id"@, Json::String(id)),
        ],
    )
}

/// Reads a tool result as JSON, or keeps it as a JSON string when it is not JSON.
pub fn parse_structured_result(result: &str) -> (r: JsonValue)
    ensures
        r@ == structured_of(result@),
{
    match parse_json_text(result) {
        Some(v) => v,
        None => json_string(result),
    }
}

/// Wraps a structured value under `result` when the (already normalized)
/// output schema declares that envelope and the value lacks it.
pub fn align_structured_result_with_schema(output_schema: Option<&JsonValue>, structured_value: JsonValue) -> (r: JsonValue)
    ensures
        r@ == aligned_with(
            match output_schema {
                Some(s) => Some(s@),
                None => None,
            },
            structured_value@,
        ),
{
    if let Some(schema) = output_schema {
        let declares = match schema.str_field("type") {
            Some(t) => crate::text::text_is(t, "object") && match schema.get("properties") {
                Some(p) => match p.as_object() {
                    Some(pm) => crate::json::member_value(pm, "result").is_some(),
                    None => false,
                },
                None => false,
            },
            None => false,
        };
        if declares {
            let has_result = match &structured_value {
                JsonValue::Object(obj) => crate::json::member_value(obj, "result").is_some(),
                _ => false,
            };
            if has_result {
                return structured_value;
            }
            let mut wrapper: Vec<(String, JsonValue)> = Vec::new();
            wrapper.push(("result".to_owned(), structured_value));
            proof {
                lemma_view_members(wrapper@);
                assert(view_members(wrapper@) =~= seq![("result"@, wrapper@[0].1@)]);
            }
            return JsonValue::Object(wrapper);
        }
    }
    structured_value
}

/// The output schema a client sees (see [`client_output_schema`]).
pub fn normalize_output_schema(schema: &JsonValue) -> (r: Option<JsonValue>)
    ensures
        match r {
            Some(v) => client_output_schema(schema@) == Some(v@),
            None => client_output_schema(schema@) is None,
        },
{
    match schema {
        JsonValue::Null => None,
        JsonValue::Object(_) => {
            let is_object = match schema.str_field("type") {
                Some(t) => crate::text::text_is(t, "object"),
                None => false,
            };
            if is_object {
                Some(schema.duplicate())
            } else {
                Some(wrap_schema_in_result(schema.duplicate()))
            }
        },
        _ => Some(wrap_schema_in_result(schema.duplicate())),
    }
}

fn str_or(v: &JsonValue, key: &str, fallback: &str) -> (r: String)
    ensures
        r@ == match text_field(v@, key@) {
            Some(t) => t,
            None => fallback@,
        },
{
    match v.str_field(key) {
        Some(t) => t.clone(),
        None => fallback.to_owned(),
    }
}

/// The tool a client sees for one entry of a component's `tools` list.
pub fn parse_tool_schema(tool_json: &JsonValue) -> (r: Option<ToolDescriptor>)
    ensures
        r is Some,
        r->0@ == tool_of(tool_json@),
{
    let name = str_or(tool_json, "name", "<unnamed>");
    let description = str_or(tool_json, "description", "No description available");
    let input_schema = match tool_json.get("inputSchema") {
        Some(v) => match v.as_object() {
            Some(m) => duplicate_members(m),
            None => Vec::new(),
        },
        None => Vec::new(),
    };
    let output_schema = match tool_json.get("outputSchema") {
        Some(o) => match normalize_output_schema(o) {
            Some(JsonValue::Object(m)) => Some(m),
            _ => None,
        },
        None => None,
    };
    proof {
        lemma_view_members(input_schema@);
    }
    let r = ToolDescriptor { name, description, input_schema, output_schema };
    assert(r@.input_schema == tool_of(tool_json@).input_schema);
    Some(r)
}

/// The tools of a component schema: one per entry of its `tools` array.
pub fn component_tools(schema: &JsonValue) -> (r: Vec<ToolDescriptor>)
    ensures
        match field(schema@, "tools"@) {
            Some(Json::Array(a)) => r@.len() == a.len() && forall|i: int|
                0 <= i < a.len() ==> (#[trigger] r@[i])@ == tool_of(a[i]),
            _ => r@.len() == 0,
        },
{
    let mut tools: Vec<ToolDescriptor> = Vec::new();
    match schema.get("tools") {
        Some(t) => match t.as_array() {
            Some(arr) => {
                let ghost av = view_items(arr@);
                proof {
                    lemma_view_items(arr@);
                }
                let mut i: usize = 0;
                while i < arr.len()
                    invariant
                        i <= arr.len(),
                        av == view_items(arr@),
                        av.len() == arr.len(),
                        tools@.len() == i,
                        forall|j: int| 0 <= j < i ==> (#[trigger] tools@[j])@ == tool_of(av[j]),
                    decreases arr.len() - i,
                {
                    proof {
                        lemma_view_items(arr@);
                    }
                    match parse_tool_schema(&arr[i]) {
                        Some(tool) => tools.push(tool),
                        None => {},
                    }
                    i = i + 1;
                }
            },
            None => {},
        },
        None => {},
    }
    tools
}

/// The structured content of a successful call (see [`structured_content`]).
pub fn call_structured_content(tool_schema: Option<&JsonValue>, result_text: &str) -> (r: Option<JsonValue>)
    ensures
        match r {
            Some(v) => structured_content(
                match tool_schema {
                    Some(s) => Some(s@),
                    None => None,
                },
                result_text@,
            ) == Some(v@),
            None => structured_content(
                match tool_schema {
                    Some(s) => Some(s@),
                    None => None,
                },
                result_text@,
            ) is None,
        },
{
    let raw = match tool_schema {
        Some(ts) => match ts.get("outputSchema") {
            Some(raw) => raw,
            None => {
                return None;
            },
        },
        None => {
            return None;
        },
    };
    match normalize_output_schema(raw) {
        Some(normalized) => {
            let structured = parse_structured_result(result_text);
            Some(align_structured_result_with_schema(Some(&normalized), structured))
        },
        None => None,
    }
}

fn number_value(n: usize) -> (r: JsonValue)
    ensures
        r@ == Json::Number(decimal(n as nat)),
{
    JsonValue::Number(decimal_text(n))
}

/// The component listing text (see [`listing`]).
pub fn component_listing_text(entries: &Vec<(String, Option<JsonValue>)>) -> (r: String)
    ensures
        r@ == printed_json(
            listing(
                Seq::new(
                    entries@.len(),
                    |i: int|
                        (
                            entries@[i].0@,
                            match entries@[i].1 {
                                Some(s) => Some(s@),
                                None => None,
                            },
                        ),
                ),
            ),
        ),
{
    let ghost ev = Seq::new(
        entries@.len(),
        |i: int|
            (
                entries@[i].0@,
                match entries@[i].1 {
                    Some(s) => Some(s@),
                    None => None,
                },
            ),
    );
    let mut items: Vec<JsonValue> = Vec::new();
    let mut i: usize = 0;
    while i < entries.len()
        invariant
            i <= entries.len(),
            ev.len() == entries.len(),
            ev == Seq::new(
                entries@.len(),
                |i: int|
                    (
                        entries@[i].0@,
                        match entries@[i].1 {
                            Some(s) => Some(s@),
                            None => None,
                        },
                    ),
            ),
            view_items(items@) =~= Seq::new(i as nat, |j: int| listing_entry(ev[j].0, ev[j].1)),
        decreases entries.len() - i,
    {
        let count: usize = match &entries[i].1 {
            Some(s) => match s.get("tools") {
                Some(t) => match t.as_array() {
                    Some(a) => {
                        proof {
                            lemma_view_items(a@);
                        }
                        a.len()
                    },
                    None => 0,
                },
                None => 0,
            },
            None => 0,
        };
        let schema = match &entries[i].1 {
            Some(s) => s.duplicate(),
            None => JsonValue::Null,
        };
        let mut entry: Vec<(String, JsonValue)> = Vec::new();
        entry.push(("id".to_owned(), JsonValue::String(entries[i].0.clone())));
        entry.push(("tools_count".to_owned(), number_value(count)));
        entry.push(("schema".to_owned(), schema));
        proof {
            lemma_view_members(entry@);
            assert(view_members(entry@) =~= listing_entry(ev[i as int].0, ev[i as int].1)->Object_0);
        }
        let ghost before = items@;
        items.push(JsonValue::Object(entry));
        proof {
            lemma_view_items(items@);
            assert(items@.drop_last() =~= before);
        }
        i = i + 1;
    }
    let total = items.len();
    let mut outer: Vec<(String, JsonValue)> = Vec::new();
    outer.push(("components".to_owned(), JsonValue::Array(items)));
    outer.push(("total".to_owned(), number_value(total)));
    proof {
        lemma_view_members(outer@);
        lemma_view_items(outer@[0].1->Array_0@);
        assert(view_members(outer@) =~= listing(ev)->Object_0);
    }
    print_json_text(&JsonValue::Object(outer))
}

/// The status text of a component operation that succeeded.
pub fn create_component_success_result(operation_name: &str, component_id: &str) -> (r: String)
    ensures
        r@ == printed_json(success_status(operation_name@, component_id@)),
{
    let status = String::from_str("component ").concat(operation_name).concat("ed successfully");
    let mut m: Vec<(String, JsonValue)> = Vec::new();
    m.push(("status".to_owned(), JsonValue::String(status)));
    m.push(("id".to_owned(), json_string(component_id)));
    proof {
        lemma_view_members(m@);
        assert(view_members(m@) =~= success_status(operation_name@, component_id@)->Object_0);
    }
    print_json_text(&JsonValue::Object(m))
}

/// The status text of a component operation that failed.
pub fn create_component_error_result(operation_name: &str, operation_arg: &str, message: &str) -> (r: String)
    ensures
        r@ == printed_json(error_status(operation_name@, operation_arg@, message@)),
{
    let text = String::from_str("Failed to ").concat(operation_name).concat(" component: ").concat(message);
    let mut m: Vec<(String, JsonValue)> = Vec::new();
    m.push(("status".to_owned(), json_string("error")));
    m.push(("message".to_owned(), JsonValue::String(text)));
    m.push(("id".to_owned(), json_string(operation_arg)));
    proof {
        lemma_view_members(m@);
        assert(view_members(m@) =~= error_status(operation_name@, operation_arg@, message@)->Object_0);
    }
    print_json_text(&JsonValue::Object(m))
}

/// The arguments of a request: its argument object, or none.
pub fn extract_args_from_request(arguments: Option<Vec<(String, JsonValue)>>) -> (r: Vec<(String, JsonValue)>)
    ensures
        match arguments {
            Some(a) => r == a,
            None => r@.len() == 0,
        },
{
    match arguments {
        Some(a) => a,
        None => Vec::new(),
    }
}

/// The string argument `key` of a request, when present.
pub fn string_argument(args: &Vec<(String, JsonValue)>, key: &str) -> (r: Option<String>)
    ensures
        match r {
            Some(s) => text_field(Json::Object(view_members(args@)), key@) == Some(s@),
            None => text_field(Json::Object(view_members(args@)), key@) is None,
        },
{
    match crate::json::member_value(args, key) {
        Some(v) => match v.as_str() {
            Some(s) => Some(s.clone()),
            None => None,
        },
        None => None,
    }
}

} // verus!
