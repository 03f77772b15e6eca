use codex_notify_core::json::Json;
use codex_notify_core::paths::{
    components, file_name, join, locator_for, locator_from_json, locator_json, migration_allowed,
    path_starts_with, resolve_storage_from, storage_request, validate_migration_paths, AppPaths,
    StorageLocator, StorageMode,
};

fn convert(v: &serde_json::Value) -> Json {
    match v {
        serde_json::Value::Null => Json::Null,
        serde_json::Value::Bool(b) => Json::Bool(*b),
        serde_json::Value::Number(n) => Json::Number(codex_notify_core::json::JsonNumber {
            text: n.to_string(),
            int: n.as_i64(),
            uint: n.as_u64(),
        }),
        serde_json::Value::String(s) => Json::Str(s.clone()),
        serde_json::Value::Array(a) => Json::Array(a.iter().map(convert).collect()),
        serde_json::Value::Object(m) => Json::Object(m.iter().map(|(k, v)| (k.clone(), convert(v))).collect()),
    }
}

#[test]
fn custom_root_uses_contained_directories() {
    let root = "/srv/codex-notify";
    let paths = AppPaths::from_root(root);
    assert_eq!(paths.config_dir, join(root, "config"));
    assert_eq!(paths.data_dir, join(root, "data"));
    assert_eq!(paths.log_dir, join(root, "logs"));
    assert_eq!(paths.config_dir, "/srv/codex-notify/config");
}

#[test]
fn locator_round_trips_windows_style_paths() {
    let locator = StorageLocator {
        schema_version: 1,
        mode: StorageMode::Custom,
        root: Some(r"C:\Users\Alice\CodexNotifyData".to_string()),
    };
    let text = locator_json(&locator).to_text();
    let parsed: serde_json::Value = serde_json::from_str(&text).unwrap();
    let decoded = locator_from_json(&convert(&parsed)).unwrap();
    assert_eq!(decoded.root, locator.root);
    assert_eq!(decoded.mode, StorageMode::Custom);
    assert_eq!(text, r#"{"schemaVersion":1,"mode":"custom","root":"C:\\Users\\Alice\\CodexNotifyData"}"#);
}

#[test]
fn default_locators_record_no_root() {
    let l = locator_for(StorageMode::Default, "/ignored");
    assert_eq!(l.root, None);
    assert_eq!(locator_json(&l).to_text(), r#"{"schemaVersion":1,"mode":"default"}"#);
    let p = locator_for(StorageMode::Portable, "/usb/CodexNotifyData");
    assert_eq!(p.root.as_deref(), Some("/usb/CodexNotifyData"));
}

#[test]
fn path_components_and_prefixes() {
    assert_eq!(components("/a//b/./c/"), vec!["/", "a", "b", "c"]);
    assert_eq!(components("./a/../b"), vec![".", "a", "..", "b"]);
    assert!(path_starts_with("/work/demo/src", "/work/demo"));
    assert!(!path_starts_with("/work/demo2", "/work/demo"));
    assert_eq!(file_name("/work/demo/"), Some("demo".to_string()));
    assert_eq!(file_name("/"), None);
    assert_eq!(join("/a", "b"), "/a/b");
    assert_eq!(join("/a/", "b"), "/a/b");
    assert_eq!(join("/a", "/b"), "/b");
}

#[test]
fn storage_resolution_order() {
    let default = AppPaths::from_root("/home/u/.config/codex");
    let (paths, info) = resolve_storage_from(&default, Some("/env"), Some("/usb"), None, false).ok().unwrap();
    assert_eq!(info.mode, StorageMode::Environment);
    assert_eq!(paths.data_dir, "/env/data");
    let (paths, info) = resolve_storage_from(&default, None, Some("/usb"), None, false).ok().unwrap();
    assert_eq!(info.mode, StorageMode::Portable);
    assert_eq!(info.root, "/usb/CodexNotifyData");
    assert_eq!(paths.log_dir, "/usb/CodexNotifyData/logs");
    let custom = StorageLocator { schema_version: 1, mode: StorageMode::Custom, root: Some("/data/cn".into()) };
    let (_, info) = resolve_storage_from(&default, None, None, Some(&custom), false).ok().unwrap();
    assert_eq!(info.root, "/data/cn");
    assert!(info.configured);
    let (_, info) = resolve_storage_from(&default, None, None, None, false).ok().unwrap();
    assert_eq!(info.mode, StorageMode::Default);
    assert!(!info.configured);
    assert_eq!(info.locator_file, "/home/u/.config/codex/config/storage.json");
    let broken = StorageLocator { schema_version: 2, mode: StorageMode::Custom, root: None };
    assert!(resolve_storage_from(&default, None, None, Some(&broken), false).is_err());
}

#[test]
fn migrations_refuse_overlapping_locations() {
    let current = AppPaths::from_root("/data/old");
    assert!(validate_migration_paths(&current, &AppPaths::from_root("/data/new")).is_ok());
    assert!(validate_migration_paths(&current, &AppPaths::from_root("/data/old")).is_err());
    assert!(validate_migration_paths(&current, &AppPaths::from_root("/data/old/config")).is_err());
    assert!(migration_allowed(StorageMode::Custom, true).is_err());
    assert!(migration_allowed(StorageMode::Environment, false).is_err());
    assert!(migration_allowed(StorageMode::Portable, false).is_ok());
    assert!(storage_request(StorageMode::Custom, Some("relative/dir")).is_err());
    assert!(storage_request(StorageMode::Custom, Some("/abs/dir")).is_ok());
    assert!(storage_request(StorageMode::Environment, None).is_err());
}

#[test]
fn system_logs_live_under_the_local_data_directory() {
    if let Ok(paths) = AppPaths::system_default() {
        assert!(paths.log_dir.ends_with("/logs"));
        assert!(!paths.config_dir.is_empty() && !paths.data_dir.is_empty());
    }
}
