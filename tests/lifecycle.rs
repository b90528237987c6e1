use wassette::cache::{
    component_file_name, component_id_from_file_name, create_validation_stamp, unload_file_names,
    validate_stamp, RemoveOutcome,
};
use wassette::json::JsonValue;
use wassette::lifecycle::{
    build_component_metadata, compile_concurrency, default_compile_concurrency, export_path,
    parse_call_arguments, LifecycleError, LifecycleManager, LoadResult,
};
use wassette::registry::{FunctionIdentifier, ToolMetadata};

const TEST_COMPONENT_ID: &str = "fetch_rs";

fn tool(name: &str, interface: Option<&str>) -> ToolMetadata {
    ToolMetadata {
        identifier: FunctionIdentifier {
            interface_name: interface.map(|s| s.to_string()),
            function_name: name.to_string(),
        },
        schema: JsonValue::Object(vec![("name".to_string(), JsonValue::String(name.to_string()))]),
        normalized_name: name.to_string(),
    }
}

fn load(m: &mut LifecycleManager, id: &str, tools: Vec<ToolMetadata>) -> LoadResult {
    let _ = m.begin_load(id, tools);
    m.finish_load(id)
}

fn all_removed() -> Vec<RemoveOutcome> {
    vec![
        RemoveOutcome::Removed,
        RemoveOutcome::AlreadyAbsent,
        RemoveOutcome::Removed,
        RemoveOutcome::AlreadyAbsent,
    ]
}

#[test]
fn test_lifecycle_manager_tool_registry() {
    let manager = LifecycleManager::new_unloaded();
    let lookup_result = manager.get_component_id_for_tool("non-existent");
    assert!(lookup_result.is_err());
}

#[test]
fn test_load_and_unload_component() {
    let mut manager = LifecycleManager::new_unloaded();
    assert_eq!(load(&mut manager, TEST_COMPONENT_ID, vec![tool("fetch", None)]), LoadResult::New);
    assert_eq!(manager.list_components().len(), 1);
    manager.check_unload(TEST_COMPONENT_ID).unwrap();
    manager.complete_unload(TEST_COMPONENT_ID, &all_removed()).unwrap();
    assert!(manager.list_components().is_empty());
    assert!(manager.list_tools().is_empty());
}

#[test]
fn test_duplicate_component_id() {
    let mut manager = LifecycleManager::new_unloaded();
    load(&mut manager, TEST_COMPONENT_ID, vec![tool("fetch", None)]);
    let components = manager.list_components();
    assert_eq!(components.len(), 1);
    assert_eq!(components[0], TEST_COMPONENT_ID);
    assert_eq!(load(&mut manager, TEST_COMPONENT_ID, vec![tool("fetch", None)]), LoadResult::Replaced);
    let components = manager.list_components();
    assert_eq!(components.len(), 1);
    assert_eq!(components[0], TEST_COMPONENT_ID);
}

#[test]
fn test_component_reload() {
    let mut manager = LifecycleManager::new_unloaded();
    load(&mut manager, TEST_COMPONENT_ID, vec![tool("fetch", None)]);
    assert_eq!(manager.get_component_id_for_tool("fetch").unwrap(), TEST_COMPONENT_ID);
    load(&mut manager, TEST_COMPONENT_ID, vec![tool("fetch", None)]);
    assert_eq!(manager.get_component_id_for_tool("fetch").unwrap(), TEST_COMPONENT_ID);
    assert_eq!(manager.list_tools().len(), 1);
}

#[test]
fn test_component_path_update() {
    assert_eq!(component_file_name("test-component"), "test-component.wasm");
}

#[test]
fn reload_drops_stale_tools() {
    let mut manager = LifecycleManager::new_unloaded();
    load(&mut manager, "c", vec![tool("old", None), tool("kept", None)]);
    load(&mut manager, "c", vec![tool("kept", None)]);
    assert!(matches!(manager.get_component_id_for_tool("old"), Err(LifecycleError::UnknownTool(_))));
    assert_eq!(manager.list_tools().len(), 1);
}

#[test]
fn same_tool_in_two_components_is_ambiguous() {
    let mut manager = LifecycleManager::new_unloaded();
    load(&mut manager, "one", vec![tool("search", None)]);
    load(&mut manager, "two", vec![tool("search", None)]);
    assert_eq!(manager.list_tools().len(), 2);
    match manager.get_component_id_for_tool("search") {
        Err(LifecycleError::AmbiguousTool { tool, components }) => {
            assert_eq!(tool, "search");
            assert_eq!(components, vec!["one".to_string(), "two".to_string()]);
        }
        other => panic!("expected an ambiguity, got {other:?}"),
    }
}

#[test]
fn failed_removal_leaves_component_in_place() {
    let mut manager = LifecycleManager::new_unloaded();
    load(&mut manager, "fetch", vec![tool("fetch", None)]);
    let outcomes = vec![RemoveOutcome::Failed];
    assert!(matches!(manager.complete_unload("fetch", &outcomes), Err(LifecycleError::Io(_))));
    assert_eq!(manager.list_components(), vec!["fetch".to_string()]);
    assert!(manager.resolve_call("fetch", "fetch").is_ok());
}

#[test]
fn unload_of_unknown_component_is_not_found() {
    let manager = LifecycleManager::new_unloaded();
    assert!(matches!(manager.check_unload("ghost"), Err(LifecycleError::NotFound(_))));
}

#[test]
fn unload_removes_every_file_of_the_component() {
    assert_eq!(
        unload_file_names("fetch"),
        vec!["fetch.wasm", "fetch.policy.yaml", "fetch.metadata.json", "fetch.cwasm"]
    );
}

#[test]
fn abort_load_unregisters_tools() {
    let mut manager = LifecycleManager::new_unloaded();
    let undo = manager.begin_load("c", vec![tool("t", None)]);
    assert_eq!(manager.get_component_id_for_tool("t").unwrap(), "c");
    manager.abort_load(undo);
    assert!(manager.get_component_id_for_tool("t").is_err());
    assert!(manager.list_components().is_empty());
}

#[test]
fn failed_reload_restores_earlier_tools() {
    let mut manager = LifecycleManager::new_unloaded();
    load(&mut manager, "x", vec![tool("old", None)]);
    let undo = manager.begin_load("x", vec![tool("new", None)]);
    manager.abort_load(undo);
    assert_eq!(manager.list_tools().len(), 1);
    assert_eq!(manager.get_component_id_for_tool("old").unwrap(), "x");
    assert!(manager.get_component_id_for_tool("new").is_err());
    assert_eq!(manager.list_components(), vec!["x".to_string()]);
}

#[test]
fn call_resolves_within_the_named_component() {
    let mut manager = LifecycleManager::new_unloaded();
    load(&mut manager, "a", vec![tool("search", Some("iface-a"))]);
    load(&mut manager, "b", vec![tool("search", Some("iface-b"))]);
    let f = manager.resolve_call("b", "search").unwrap();
    assert_eq!(f.interface_name.as_deref(), Some("iface-b"));
    assert!(matches!(manager.resolve_call("a", "missing"), Err(LifecycleError::UnknownTool(_))));
}

#[test]
fn fresh_sidecar_registers_without_compiling() {
    let mut manager = LifecycleManager::new_unloaded();
    let stamp = create_validation_stamp(10, 20, None);
    let meta = build_component_metadata("x", &vec![tool("t", Some("iface"))], stamp, 5);
    assert!(manager.hydrate_from_metadata("x", &meta, Some(10), Some(20), None));
    assert_eq!(manager.get_component_id_for_tool("t").unwrap(), "x");
    assert!(manager.needs_compile("x"));
    assert!(matches!(manager.resolve_call("x", "t"), Err(LifecycleError::NotReady(_))));
    manager.finish_background_load("x", vec![tool("t", Some("iface"))]);
    assert_eq!(manager.list_tools().len(), 1);
    let f = manager.resolve_call("x", "t").unwrap();
    assert_eq!(export_path(&f), vec!["iface".to_string(), "t".to_string()]);
}

#[test]
fn stale_sidecar_is_ignored() {
    let mut manager = LifecycleManager::new_unloaded();
    let stamp = create_validation_stamp(10, 20, None);
    let meta = build_component_metadata("x", &vec![tool("t", None)], stamp, 5);
    assert!(!manager.hydrate_from_metadata("x", &meta, Some(11), Some(20), None));
    assert!(!manager.hydrate_from_metadata("x", &meta, Some(10), None, None));
    assert!(manager.list_tools().is_empty());
}

#[test]
fn stamp_with_digest_checks_content() {
    let stamp = create_validation_stamp(3, 7, Some(b"abc"));
    assert_eq!(
        stamp.content_hash.as_deref(),
        Some("ba7816bf8f01cfea414140de5dae2223b00361a396177a9cb410ff61f20015ad")
    );
    assert!(validate_stamp(&stamp, Some(3), Some(7), Some(b"abc")));
    assert!(!validate_stamp(&stamp, Some(3), Some(7), Some(b"abd")));
    assert!(!validate_stamp(&stamp, Some(3), Some(7), None));
}

#[test]
fn module_ids_come_from_wasm_files() {
    assert_eq!(component_id_from_file_name("fetch.wasm").as_deref(), Some("fetch"));
    assert_eq!(component_id_from_file_name("a.b.wasm").as_deref(), Some("a.b"));
    assert_eq!(component_id_from_file_name(".wasm"), None);
    assert_eq!(component_id_from_file_name("fetch.cwasm.x"), None);
    assert_eq!(component_id_from_file_name("fetch.metadata.json"), None);
}

#[test]
fn known_components_join_memory_and_disk() {
    let mut manager = LifecycleManager::new_unloaded();
    load(&mut manager, "a", vec![]);
    let entries = vec![
        "a.wasm".to_string(),
        "a.cwasm".to_string(),
        "b.wasm".to_string(),
        "downloads".to_string(),
    ];
    assert_eq!(manager.list_components_known(&entries), vec!["a".to_string(), "b".to_string()]);
}

#[test]
fn concurrency_defaults_to_cpus_capped_at_four() {
    assert_eq!(compile_concurrency(Some(9), 2), 9);
    assert_eq!(compile_concurrency(None, 2), 2);
    assert_eq!(compile_concurrency(None, 16), 4);
    let d = default_compile_concurrency();
    assert!((1..=4).contains(&d));
}

#[test]
fn empty_argument_object_parses() {
    let v = parse_call_arguments("{}").unwrap();
    assert!(matches!(v, JsonValue::Object(ref m) if m.is_empty()));
    assert!(matches!(parse_call_arguments("{"), Err(LifecycleError::Marshal(_))));
}

#[test]
fn component_schema_lists_its_tools() {
    let mut manager = LifecycleManager::new_unloaded();
    load(&mut manager, "a", vec![tool("x", None), tool("y", None)]);
    load(&mut manager, "b", vec![tool("z", None)]);
    match manager.get_component_schema("a").unwrap() {
        JsonValue::Object(m) => {
            assert_eq!(m[0].0, "tools");
            assert!(matches!(&m[0].1, JsonValue::Array(a) if a.len() == 2));
        }
        _ => panic!("expected an object"),
    }
    assert!(manager.get_component_schema("missing").is_none());
}
