use codex_notify_core::hooks::{
    backup_name, codex_home, config_path, event_key, handler, handler_hash, hooks_path, install,
    load, quote_posix, status, uninstall, windows_command, NEW_MARKER,
};
use codex_notify_core::json::Json;

fn convert(v: &serde_json::Value) -> Json {
    match v {
        serde_json::Value::Null => Json::Null,
        serde_json::Value::Bool(b) => Json::Bool(*b),
        serde_json::Value::Number(n) => Json::Number(codex_notify_core::json::JsonNumber {
            text: n.to_string(),
            int: n.as_i64(),
            uint: n.as_u64(),
        }),
        serde_json::Value::String(s) => Json::Str(s.clone()),
        serde_json::Value::Array(a) => Json::Array(a.iter().map(convert).collect()),
        serde_json::Value::Object(m) => Json::Object(m.iter().map(|(k, v)| (k.clone(), convert(v))).collect()),
    }
}

fn parse(text: &str) -> Json {
    convert(&serde_json::from_str(text).unwrap())
}

fn at<'a>(j: &'a Json, path: &[&str]) -> &'a Json {
    let mut cur = j;
    for key in path {
        cur = match key.parse::<usize>() {
            Ok(i) => &cur.as_array().unwrap()[i],
            Err(_) => cur.get(key).unwrap(),
        };
    }
    cur
}

#[test]
fn windows_command_is_independent_of_the_outer_shell() {
    assert_eq!(
        windows_command(r"C:\Users\A User\hook.exe"),
        r#"powershell.exe -NoLogo -NoProfile -NonInteractive -Command "& 'C:\Users\A User\hook.exe' --codex-notify-hook""#
    );
    assert_eq!(
        windows_command(r"D:\it's\hook.exe"),
        r#"powershell.exe -NoLogo -NoProfile -NonInteractive -Command "& 'D:\it''s\hook.exe' --codex-notify-hook""#
    );
}

#[test]
fn posix_quoting_escapes_single_quotes() {
    assert_eq!(quote_posix("/opt/hook"), "'/opt/hook'");
    assert_eq!(quote_posix("/it's/hook"), "'/it'\\''s/hook'");
}

#[test]
fn event_keys_of_handled_events() {
    assert_eq!(event_key("PreToolUse"), Some("pre_tool_use"));
    assert_eq!(event_key("PermissionRequest"), Some("permission_request"));
    assert_eq!(event_key("Stop"), Some("stop"));
    assert_eq!(event_key("SessionStart"), None);
}

#[test]
fn handler_runs_the_binary_asynchronously() {
    let h = handler("/opt/hook");
    assert_eq!(h.to_text(), format!(
        "{{\"async\":true,\"command\":\"'/opt/hook' {NEW_MARKER}\",\"commandWindows\":\"powershell.exe -NoLogo -NoProfile -NonInteractive -Command \\\"& '/opt/hook' {NEW_MARKER}\\\"\",\"statusMessage\":\"Recording Codex notification\",\"timeout\":30,\"type\":\"command\"}}"
    ));
}

#[test]
fn handler_hash_is_a_sha256_of_the_normalized_handler() {
    let h = handler("/opt/hook");
    let hash = handler_hash("Stop", &h, false).unwrap();
    assert!(hash.starts_with("sha256:"));
    assert_eq!(hash.len(), "sha256:".len() + 64);
    assert!(hash["sha256:".len()..].chars().all(|c| c.is_ascii_hexdigit() && !c.is_ascii_uppercase()));
    // Other events, non-object handlers and handlers without a command have none.
    assert_eq!(handler_hash("SessionStart", &h, false), None);
    assert_eq!(handler_hash("Stop", &Json::Null, false), None);
    assert_eq!(handler_hash("Stop", &parse(r#"{"type":"command"}"#), false), None);
    // The identity names the event, so the same handler hashes differently per event.
    assert_ne!(handler_hash("PermissionRequest", &h, false), Some(hash.clone()));
    // On Windows the Windows command is what Codex runs.
    assert_ne!(handler_hash("Stop", &h, true), Some(hash));
}

#[test]
fn handler_hash_ignores_key_order_and_defaults() {
    let a = parse(r#"{"command":"run","type":"command"}"#);
    let b = parse(r#"{"type":"command","timeout":600,"async":false,"command":"run","additionalContextLimit":5}"#);
    assert_eq!(handler_hash("Stop", &a, false), handler_hash("Stop", &b, false));
    let c = parse(r#"{"type":"command","timeout":0,"command":"run"}"#);
    let d = parse(r#"{"type":"command","timeout":1,"command":"run"}"#);
    assert_eq!(handler_hash("Stop", &c, false), handler_hash("Stop", &d, false));
}

#[test]
fn install_preserves_other_hooks_and_is_idempotent() {
    let doc = load(Some(Ok(parse(r#"{"hooks":{"Stop":[{"hooks":[{"type":"command","command":"other"}]}]}}"#)))).unwrap();
    let once = install(doc, "/opt/hook", true).unwrap();
    let twice = install(once, "/opt/hook", true).unwrap();
    let s = status(&twice, "/home/u/.codex/hooks.json", true, "/opt/hook", false, Some(""));
    assert_eq!(s.handler_count, 3);
    assert!(s.installed);
    assert!(s.path_current);
    assert_eq!(s.installed_events, vec!["PermissionRequest", "PreToolUse", "Stop"]);
    assert_eq!(s.trust_status, "untrusted");
    assert!(s.review_required);
    assert!(!s.trusted);
    assert!(s.enabled);
    assert_eq!(at(&twice, &["hooks", "Stop", "0", "hooks", "0", "command"]).as_str(), Some("other"));
    assert_eq!(
        at(&twice, &["hooks", "PreToolUse", "0", "matcher"]).as_str(),
        Some("^(request_user_input|requestUserInput)$")
    );
    let permission = at(&twice, &["hooks", "PermissionRequest", "0", "hooks", "0", "commandWindows"]).as_str().unwrap();
    assert!(permission.starts_with("powershell.exe ") && permission.contains("& '") && permission.ends_with('"'));
}

#[test]
fn trusted_hashes_in_the_config_make_the_hook_trusted() {
    let doc = load(Some(Ok(parse(r#"{"hooks":{"Stop":[{"hooks":[{"type":"command","command":"other"}]}]}}"#)))).unwrap();
    let doc = install(doc, "/opt/hook", true).unwrap();
    let file = "/home/u/.codex/hooks.json";
    let permission = at(&doc, &["hooks", "PermissionRequest", "0", "hooks", "0"]);
    let pre_tool = at(&doc, &["hooks", "PreToolUse", "0", "hooks", "0"]);
    let stop = at(&doc, &["hooks", "Stop", "1", "hooks", "0"]);
    let config = format!(
        "[hooks.state.\"{file}:permission_request:0:0\"]\ntrusted_hash = \"{}\"\n\n[hooks.state.\"{file}:pre_tool_use:0:0\"]\ntrusted_hash = \"{}\"\n\n[hooks.state.\"{file}:stop:1:0\"]\ntrusted_hash = \"{}\"\n",
        handler_hash("PermissionRequest", permission, false).unwrap(),
        handler_hash("PreToolUse", pre_tool, false).unwrap(),
        handler_hash("Stop", stop, false).unwrap(),
    );
    let trusted = status(&doc, file, true, "/opt/hook", false, Some(&config));
    assert!(trusted.trusted);
    assert!(trusted.enabled);
    assert_eq!(trusted.trust_status, "trusted");
    assert!(!trusted.review_required);

    let tampered = config.replacen("sha256:", "sha256:0", 1);
    let modified = status(&doc, file, true, "/opt/hook", false, Some(&tampered));
    assert_eq!(modified.trust_status, "modified");
    assert!(modified.review_required);

    let disabled = format!("{config}enabled = false\n");
    let off = status(&doc, file, true, "/opt/hook", false, Some(&disabled));
    assert!(!off.enabled);

    let unreadable = status(&doc, file, true, "/opt/hook", false, None);
    assert_eq!(unreadable.trust_status, "unknown");
    let invalid = status(&doc, file, true, "/opt/hook", false, Some("not = [toml"));
    assert_eq!(invalid.trust_status, "unknown");
}

#[test]
fn uninstall_removes_only_our_handlers() {
    let doc = load(Some(Ok(parse(r#"{"hooks":{"Stop":[{"hooks":[{"type":"command","command":"other"}]}]}}"#)))).unwrap();
    let doc = install(doc, "/opt/hook", true).unwrap();
    let (after, removed) = uninstall(doc);
    assert_eq!(removed, 3);
    let text = after.to_text();
    assert!(text.contains("other"));
    assert!(!text.contains(NEW_MARKER));
    let s = status(&after, "hooks.json", true, "/opt/hook", false, Some(""));
    assert_eq!(s.handler_count, 0);
    assert!(!s.installed);
    assert_eq!(s.trust_status, "notInstalled");
    let (again, removed_again) = uninstall(after);
    assert_eq!(removed_again, 0);
    assert!(again.to_text().contains("other"));
}

#[test]
fn legacy_handlers_are_replaced() {
    let doc = load(Some(Ok(parse(r#"{"hooks":{"Stop":[{"hooks":[{"type":"command","command":"/old/bin --codex-bark-notifier"},{"type":"command","command":"keep"}]}]}}"#)))).unwrap();
    let (after, removed) = uninstall(doc);
    assert_eq!(removed, 1);
    assert_eq!(at(&after, &["hooks", "Stop", "0", "hooks", "0", "command"]).as_str(), Some("keep"));
}

#[test]
fn load_refuses_invalid_documents_and_adds_missing_hooks() {
    let missing = load(None).unwrap();
    assert_eq!(missing.to_text(), r#"{"description":"User lifecycle hooks for Codex.","hooks":{}}"#);
    let e = load(Some(Err("expected value".into()))).err().unwrap();
    assert_eq!(e.message(), "hook configuration failed: refusing to overwrite invalid JSON: expected value");
    let e = load(Some(Ok(parse("[1]")))).err().unwrap();
    assert_eq!(e.message(), "hook configuration failed: hooks.json must be a JSON object");
    let e = load(Some(Ok(parse(r#"{"hooks":[]}"#)))).err().unwrap();
    assert_eq!(e.message(), "hook configuration failed: hooks.json must contain an object named hooks");
    let added = load(Some(Ok(parse(r#"{"other":1}"#)))).unwrap();
    assert_eq!(added.to_text(), r#"{"hooks":{},"other":1}"#);
}

#[test]
fn install_refuses_missing_binaries_and_malformed_events() {
    let doc = load(None).unwrap();
    let e = install(doc, "/missing/hook", false).err().unwrap();
    assert_eq!(e.message(), "hook configuration failed: hook binary does not exist: /missing/hook");
    let doc = load(Some(Ok(parse(r#"{"hooks":{"PermissionRequest":{}}}"#)))).unwrap();
    let e = install(doc, "/opt/hook", true).err().unwrap();
    assert_eq!(e.message(), "hook configuration failed: hooks.PermissionRequest must be an array");
}

#[test]
fn codex_configuration_locations() {
    assert_eq!(codex_home(Some("/custom"), Some("/home/u")), "/custom");
    assert_eq!(codex_home(None, Some("/home/u")), "/home/u/.codex");
    assert_eq!(codex_home(None, None), ".codex");
    assert_eq!(hooks_path("/home/u/.codex"), "/home/u/.codex/hooks.json");
    assert_eq!(config_path("/home/u/.codex"), "/home/u/.codex/config.toml");
}

#[test]
fn backup_names_count_up() {
    assert_eq!(backup_name("20250101-120000", 0), "hooks.json.bak.20250101-120000");
    assert_eq!(backup_name("20250101-120000", 2), "hooks.json.bak.20250101-120000.2");
}

#[test]
fn install_preserves_other_hooks() {
    let file = "/home/u/codex/hooks.json";
    let doc = load(Some(Ok(parse(r#"{"hooks":{"Stop":[{"hooks":[{"type":"command","command":"other"}]}]}}"#)))).unwrap();
    let doc = install(doc, "/tmp/hook", true).unwrap();
    let doc = install(doc, "/tmp/hook", true).unwrap();
    let s = status(&doc, file, true, "/tmp/hook", false, Some(""));
    assert_eq!(s.handler_count, 3);
    assert_eq!(s.trust_status, "untrusted");
    assert!(s.review_required);

    let permission = at(&doc, &["hooks", "PermissionRequest", "0", "hooks", "0"]);
    let pre_tool = at(&doc, &["hooks", "PreToolUse", "0", "hooks", "0"]);
    assert_eq!(
        at(&doc, &["hooks", "PreToolUse", "0", "matcher"]).as_str(),
        Some("^(request_user_input|requestUserInput)$")
    );
    let stop = at(&doc, &["hooks", "Stop", "1", "hooks", "0"]);
    assert!(permission
        .get("commandWindows")
        .and_then(|c| c.as_str())
        .is_some_and(|command| command.starts_with("powershell.exe ")
            && command.contains("& '")
            && command.ends_with('"')));
    let config = format!(
        "[hooks.state.\"{file}:permission_request:0:0\"]\ntrusted_hash = \"{}\"\n\n[hooks.state.\"{file}:pre_tool_use:0:0\"]\ntrusted_hash = \"{}\"\n\n[hooks.state.\"{file}:stop:1:0\"]\ntrusted_hash = \"{}\"\n",
        handler_hash("PermissionRequest", permission, false).unwrap(),
        handler_hash("PreToolUse", pre_tool, false).unwrap(),
        handler_hash("Stop", stop, false).unwrap(),
    );
    let trusted = status(&doc, file, true, "/tmp/hook", false, Some(&config));
    assert!(trusted.trusted);
    assert!(trusted.enabled);
    assert_eq!(trusted.trust_status, "trusted");
    let (after, _) = uninstall(doc);
    let text = after.to_text();
    assert!(text.contains("other"));
    assert!(!text.contains(NEW_MARKER));
}

#[test]
fn installing_again_changes_nothing() {
    let doc = load(Some(Ok(parse(r#"{"description":"x","hooks":{"Stop":[{"hooks":[{"type":"command","command":"other"}]}],"Notify":{"odd":true}}}"#)))).unwrap();
    let once = install(doc, "/opt/hook", true).unwrap();
    let text = once.to_text();
    let twice = install(once, "/opt/hook", true).unwrap();
    assert_eq!(twice.to_text(), text);
}
