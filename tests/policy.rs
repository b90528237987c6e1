use wassette::lifecycle::{remove_storage_permission_by_uri_from_policy, LifecycleManager};
use wassette::policy::{
    create_wasi_state_template_from_policy, AccessType, PolicyDocument, PolicyError,
    StoragePermission,
};

fn empty_policy() -> PolicyDocument {
    PolicyDocument {
        network_allow: None,
        storage_allow: None,
        environment_allow: None,
        config: vec![],
        memory_limit: None,
    }
}

#[test]
fn test_wasi_state_template_allowed_hosts() {
    let mut policy = empty_policy();
    policy.network_allow = Some(vec!["api.example.com".to_string(), "cdn.example.com".to_string()]);
    let env_vars = vec![];
    let template = create_wasi_state_template_from_policy(&policy, "/tmp/plugins", &env_vars, None).unwrap();
    assert_eq!(template.allowed_hosts.len(), 2);
    assert!(template.allowed_hosts.contains(&"api.example.com".to_string()));
    assert!(template.allowed_hosts.contains(&"cdn.example.com".to_string()));
}

#[test]
fn repeated_hosts_collapse() {
    let mut policy = empty_policy();
    policy.network_allow = Some(vec!["a".to_string(), "b".to_string(), "a".to_string()]);
    let t = create_wasi_state_template_from_policy(&policy, "/p", &vec![], None).unwrap();
    assert_eq!(t.allowed_hosts, vec!["a".to_string(), "b".to_string()]);
}

#[test]
fn storage_resolves_under_plugin_dir_with_granted_modes() {
    let mut policy = empty_policy();
    policy.storage_allow = Some(vec![
        StoragePermission { uri: "fs://data".to_string(), access: vec![AccessType::Read] },
        StoragePermission {
            uri: "fs:///tmp/test".to_string(),
            access: vec![AccessType::Read, AccessType::Write],
        },
    ]);
    let t = create_wasi_state_template_from_policy(&policy, "/plugins", &vec![], None).unwrap();
    assert_eq!(t.preopened_dirs.len(), 2);
    assert_eq!(t.preopened_dirs[0].host_path, "/plugins/data");
    assert_eq!(t.preopened_dirs[0].guest_path, "data");
    assert!(t.preopened_dirs[0].read && !t.preopened_dirs[0].write);
    assert_eq!(t.preopened_dirs[1].host_path, "/tmp/test");
    assert!(t.preopened_dirs[1].read && t.preopened_dirs[1].write);
}

#[test]
fn non_fs_storage_uri_is_rejected() {
    let mut policy = empty_policy();
    policy.storage_allow =
        Some(vec![StoragePermission { uri: "s3://bucket".to_string(), access: vec![] }]);
    let r = create_wasi_state_template_from_policy(&policy, "/p", &vec![], None);
    assert_eq!(r.err(), Some(PolicyError::UnsupportedStorageUri("s3://bucket".to_string())));
}

#[test]
fn environment_takes_allowed_keys_and_secrets_shadow_them() {
    let mut policy = empty_policy();
    policy.environment_allow = Some(vec!["API_KEY".to_string(), "MISSING".to_string(), "HOME".to_string()]);
    policy.memory_limit = Some(1 << 20);
    let env = vec![
        ("HOME".to_string(), "/home/u".to_string()),
        ("API_KEY".to_string(), "from-env".to_string()),
        ("OTHER".to_string(), "x".to_string()),
    ];
    let secrets = vec![("API_KEY".to_string(), "SECRET-REDACTED".to_string()), ("TOKEN".to_string(), "t".to_string())];
    let t = create_wasi_state_template_from_policy(&policy, "/p", &env, Some(&secrets)).unwrap();
    assert_eq!(
        t.env_vars,
        vec![
            ("API_KEY".to_string(), "SECRET-REDACTED".to_string()),
            ("HOME".to_string(), "/home/u".to_string()),
            ("TOKEN".to_string(), "t".to_string()),
        ]
    );
    assert_eq!(t.memory_limit, Some(1 << 20));
}

#[test]
fn default_policy_grants_nothing() {
    let manager = LifecycleManager::new_unloaded();
    let t = manager.host_state_for("any");
    assert!(t.allowed_hosts.is_empty());
    assert!(t.preopened_dirs.is_empty());
    assert!(t.env_vars.is_empty());
    assert!(t.memory_limit.is_none());
}

#[test]
fn attached_policy_is_used_until_detached() {
    let mut manager = LifecycleManager::new_unloaded();
    let mut policy = empty_policy();
    policy.network_allow = Some(vec!["example.com".to_string()]);
    let t = create_wasi_state_template_from_policy(&policy, "/p", &vec![], None).unwrap();
    manager.attach_policy("c", t);
    assert_eq!(manager.host_state_for("c").allowed_hosts, vec!["example.com".to_string()]);
    manager.detach_policy("c");
    assert!(manager.host_state_for("c").allowed_hosts.is_empty());
}

#[test]
fn revoking_storage_by_uri_drops_matching_entries() {
    let mut policy = empty_policy();
    policy.storage_allow = Some(vec![
        StoragePermission { uri: "fs:///tmp/test".to_string(), access: vec![AccessType::Read] },
        StoragePermission { uri: "fs:///keep".to_string(), access: vec![AccessType::Write] },
        StoragePermission { uri: "fs:///tmp/test".to_string(), access: vec![AccessType::Write] },
    ]);
    remove_storage_permission_by_uri_from_policy(&mut policy, "fs:///tmp/test");
    let left = policy.storage_allow.as_ref().unwrap();
    assert_eq!(left.len(), 1);
    assert_eq!(left[0].uri, "fs:///keep");
    remove_storage_permission_by_uri_from_policy(&mut policy, "fs:///keep");
    assert!(policy.storage_allow.is_none());
}

#[test]
fn colocated_policy_applies_only_when_it_builds() {
    let mut manager = LifecycleManager::new_unloaded();
    let mut good = empty_policy();
    good.network_allow = Some(vec!["example.com".to_string()]);
    assert!(manager.apply_colocated_policy("x", Some(&good), "/p", &vec![]));
    assert_eq!(manager.host_state_for("x").allowed_hosts, vec!["example.com".to_string()]);

    let mut bad = empty_policy();
    bad.storage_allow = Some(vec![StoragePermission { uri: "s3://b".to_string(), access: vec![] }]);
    assert!(!manager.apply_colocated_policy("x", Some(&bad), "/p", &vec![]));
    assert!(manager.host_state_for("x").allowed_hosts.is_empty());

    assert!(manager.apply_colocated_policy("x", Some(&good), "/p", &vec![]));
    assert!(!manager.apply_colocated_policy("x", None, "/p", &vec![]));
    assert!(manager.host_state_for("x").allowed_hosts.is_empty());
}

#[test]
fn attaching_one_policy_leaves_others_alone() {
    let mut manager = LifecycleManager::new_unloaded();
    let mut a = empty_policy();
    a.network_allow = Some(vec!["a.example".to_string()]);
    let mut b = empty_policy();
    b.network_allow = Some(vec!["b.example".to_string()]);
    let ta = create_wasi_state_template_from_policy(&a, "/p", &vec![], None).unwrap();
    let tb = create_wasi_state_template_from_policy(&b, "/p", &vec![], None).unwrap();
    manager.attach_policy("a", ta);
    manager.attach_policy("b", tb);
    assert_eq!(manager.host_state_for("a").allowed_hosts, vec!["a.example".to_string()]);
    assert_eq!(manager.host_state_for("b").allowed_hosts, vec!["b.example".to_string()]);
}
