use codex_notify_core::desktop::{
    hook_status_lossy, shown_secret_status, SecretStatus, hook_test_outcome, pause_after_dispatch, remote_update, secret_account,
    validate_uninstall_location, worker_delay,
};
use codex_notify_core::digest::sha256_hex;
use codex_notify_core::dispatcher::{notification_for, record_outcome_at, DispatchResult};
use codex_notify_core::error::{api, error_details, CoreError};
use codex_notify_core::hook_runtime::{
    delivery_label, error_health, filter_outcome_in, final_stage, health_path, is_handled,
    should_dispatch, strip_bom, success_health,
};
use codex_notify_core::hooks::HookStatus;
use codex_notify_core::json::Json;
use codex_notify_core::notification::{build_notification, HookEvent};
use codex_notify_core::paths::{AppPaths, StorageInfo, StorageMode};
use codex_notify_core::settings::{device_name_from, AppSettings, ProjectRule};
use codex_notify_core::store::{EventStatus, EventStore};

fn event(name: &str) -> HookEvent {
    HookEvent {
        hook_event_name: name.to_string(),
        session_id: "s".into(),
        turn_id: "t".into(),
        session_name: String::new(),
        thread_name: String::new(),
        tool_use_id: String::new(),
        cwd: "/work/demo".into(),
        last_assistant_message: "Done".into(),
        tool_name: String::new(),
        tool_input: Json::Null,
        diagnostic: false,
    }
}

const NOW: i64 = 1_700_000_000;

#[test]
fn hook_input_without_bom_is_unchanged() {
    assert_eq!(strip_bom(b"\xef\xbb\xbf{}"), b"{}".to_vec());
    assert_eq!(strip_bom(b"{}"), b"{}".to_vec());
    assert_eq!(strip_bom(b"\xef\xbb"), b"\xef\xbb".to_vec());
}

#[test]
fn only_delivered_events_are_handled() {
    assert!(is_handled(&event("Stop")));
    assert!(is_handled(&event("PermissionRequest")));
    assert!(!is_handled(&event("PreToolUse")));
    let input = HookEvent { tool_name: "requestUserInput".into(), ..event("PreToolUse") };
    assert!(is_handled(&input));
    assert!(!is_handled(&event("SessionStart")));
}

#[test]
fn filters_before_queueing() {
    let off = AppSettings { permission_notifications: false, user_input_notifications: false, ..AppSettings::default() };
    assert_eq!(filter_outcome_in(&event("PermissionRequest"), &off, "/"), Some(("filtered", "disabled")));
    let input = HookEvent { tool_name: "request_user_input".into(), ..event("PreToolUse") };
    assert_eq!(filter_outcome_in(&input, &off, "/"), Some(("filtered", "disabled")));
    let scoped = AppSettings {
        scope: "include".into(),
        projects: vec![ProjectRule { path: "/work/other".into(), name: "Other".into(), enabled: true }],
        ..AppSettings::default()
    };
    assert_eq!(filter_outcome_in(&event("Stop"), &scoped, "/"), Some(("filtered", "filtered")));
    let diagnostic = HookEvent { diagnostic: true, ..event("Stop") };
    assert_eq!(filter_outcome_in(&diagnostic, &scoped, "/"), None);
    assert_eq!(filter_outcome_in(&event("Stop"), &AppSettings::default(), "/"), None);
}

#[test]
fn diagnostic_health_does_not_mask_real_codex_activity() {
    let paths = AppPaths::from_root("/data/cn");
    assert_eq!(health_path(&paths, true), "/data/cn/data/hook-diagnostic.json");
    assert_eq!(health_path(&paths, false), "/data/cn/data/hook-health.json");
}

#[test]
fn health_reports() {
    let e = event("Stop");
    let ok = success_health(&e, "demo", "processed", "sent", "t0", "t1");
    assert_eq!((ok.status.as_str(), ok.stage.as_str(), ok.delivery_status.as_str()), ("success", "processed", "sent"));
    assert_eq!(ok.last_success_at.as_deref(), Some("t1"));
    assert_eq!(ok.turn_id, "t");
    let bad = error_health(&CoreError::BarkTimeout, "t0");
    assert_eq!(bad.error_code, "barkTimeout");
    assert_eq!(bad.message, "The Bark request timed out.");
    assert_eq!(bad.delivery_status, "failed");
    assert!(bad.last_success_at.is_none());
    assert_eq!(error_details(&CoreError::Network("x".into())), ("barkUnreachable", "The Hook could not reach the Bark server."));
}

#[test]
fn queued_notifications_are_dispatched_once() {
    let n = build_notification(&event("Stop"), &AppSettings::default());
    assert!(should_dispatch(true, &n));
    assert!(!should_dispatch(false, &n));
    let mut quiet = build_notification(&event("Stop"), &AppSettings::default());
    quiet.suppressed = true;
    assert!(!should_dispatch(true, &quiet));
    assert_eq!(final_stage(&quiet), "suppressed");
    assert_eq!(final_stage(&n), "processed");
    assert_eq!(delivery_label(&None), "unknown");
}

#[test]
fn delivery_outcomes_are_recorded() {
    let mut store = EventStore::new();
    let n = build_notification(&event("Stop"), &AppSettings::default());
    let (id, _) = store.enqueue_at(&n, "{}".into(), NOW);
    let claimed = store.claim_due_at(1, NOW);
    assert_eq!(claimed.len(), 1);
    let result: DispatchResult = record_outcome_at(&mut store, id, &Err(CoreError::BarkServer), 5, NOW);
    assert!(!result.sent);
    assert_eq!(result.error, "the Bark server returned an error");
    assert_eq!(store.get(id).unwrap().error, "the Bark server returned an error");
    assert_eq!(store.get(id).unwrap().status, EventStatus::Retrying);
    let sent = record_outcome_at(&mut store, id, &Ok(()), 5, NOW + 10);
    assert!(sent.sent);
    assert_eq!(store.get(id).unwrap().status, EventStatus::Sent);
    let record = store.get(id).unwrap();
    let mut stored = n;
    stored.bark_id = String::new();
    assert_eq!(notification_for(&record, stored).bark_id, record.event_key);
}

#[test]
fn secret_kinds_and_lossy_status() {
    assert_eq!(secret_account("barkKey").ok(), Some("bark-device-key"));
    assert_eq!(secret_account("encryptionKey").ok(), Some("bark-encryption-key"));
    let e = secret_account("other").err().unwrap();
    assert_eq!(e.code, "invalidSecretKind");
    let status: HookStatus = hook_status_lossy(Err(CoreError::HookConfig("bad".into())), "/h/hooks.json", true);
    assert_eq!(status.configured_command, "hook configuration failed: bad");
    assert_eq!(status.trust_status, "unknown");
    assert!(!status.installed);
}

#[test]
fn api_errors_carry_code_and_message() {
    let e = api::<()>(Err(CoreError::BarkInvalidKey)).err().unwrap();
    assert_eq!(e.code, "barkInvalidKey");
    assert_eq!(e.message, "the Bark device key is invalid");
    assert_eq!(api(Ok(5)).ok(), Some(5));
}

#[test]
fn worker_pauses() {
    assert_eq!(worker_delay(&Ok(Some(5))), 5);
    assert_eq!(worker_delay(&Ok(Some(500))), 60);
    assert_eq!(worker_delay(&Ok(None)), 60);
    assert_eq!(worker_delay(&Err(CoreError::Database("x".into()))), 60);
    assert_eq!(pause_after_dispatch(&Ok(vec![])), 60);
    assert_eq!(pause_after_dispatch(&Ok(vec![DispatchResult { id: 1, sent: true, error: String::new() }])), 0);
    assert_eq!(pause_after_dispatch(&Err(CoreError::Database("x".into()))), 30);
}

#[test]
fn hook_delivery_test_reads_the_diagnostic_report() {
    let report = Json::Object(vec![
        ("turnId".into(), Json::Str("turn-1".into())),
        ("status".into(), Json::Str("success".into())),
        ("deliveryStatus".into(), Json::Str("sent".into())),
    ]);
    let outcome = hook_test_outcome(&report, "turn-1");
    assert!(outcome.ok);
    assert_eq!(outcome.error_code, "");
    let other = hook_test_outcome(&report, "turn-2");
    assert!(!other.ok);
    assert_eq!(other.error_code, "hookNotInvoked");
    let empty = hook_test_outcome(&Json::Object(vec![]), "turn-1");
    assert_eq!(empty.delivery_status, "unknown");
}

#[test]
fn uninstall_refuses_filesystem_roots() {
    let info = |mode, root: &str| StorageInfo {
        configured: true,
        mode,
        root: root.into(),
        config_dir: String::new(),
        data_dir: String::new(),
        log_dir: String::new(),
        locator_file: String::new(),
    };
    assert!(validate_uninstall_location(&info(StorageMode::Custom, "/")).is_err());
    assert!(validate_uninstall_location(&info(StorageMode::Environment, "")).is_err());
    assert!(validate_uninstall_location(&info(StorageMode::Custom, "/data")).is_ok());
    assert!(validate_uninstall_location(&info(StorageMode::Default, "/")).is_ok());
}

#[test]
fn sent_notifications_can_be_edited() {
    let mut store = EventStore::new();
    let n = build_notification(&event("Stop"), &AppSettings::default());
    let (id, _) = store.enqueue_at(&n, "{}".into(), NOW);
    let queued = store.get(id).unwrap();
    let settings = AppSettings { device_name: " Box ".into(), redact_sensitive: false, ..AppSettings::default() };
    assert!(remote_update(&queued, build_notification(&event("Stop"), &settings), &settings, "new").is_err());
    store.claim_due_at(1, NOW);
    store.mark_sent_at(id, NOW + 1);
    let sent = store.get(id).unwrap();
    let updated = remote_update(&sent, build_notification(&event("Stop"), &settings), &settings, "  new body ").ok().unwrap();
    assert_eq!(updated.body, "new body");
    assert_eq!(updated.title, format!("Box · {}", sent.project));
    assert!(remote_update(&sent, build_notification(&event("Stop"), &settings), &settings, "   ").is_err());
}

#[test]
fn device_names_and_settings_migration() {
    assert_eq!(device_name_from(Some(" host ".into()), None, None), "host");
    assert_eq!(device_name_from(None, Some("PC".into()), Some("H".into())), "PC");
    assert_eq!(device_name_from(Some("  ".into()), None, None), "This device");
    let v1 = AppSettings { schema_version: 1, device_name: " ".into(), ..AppSettings::default() };
    let (migrated, save) = v1.migrate("Detected").ok().unwrap();
    assert!(save);
    assert_eq!(migrated.schema_version, 2);
    assert_eq!(migrated.device_name, "Detected");
    let v2 = AppSettings { device_name: "Mine".into(), ..AppSettings::default() };
    let (kept, save) = v2.migrate("Detected").ok().unwrap();
    assert!(!save);
    assert_eq!(kept.device_name, "Mine");
    let v3 = AppSettings { schema_version: 3, ..AppSettings::default() };
    assert!(v3.migrate("x").is_err());
    let invalid = AppSettings { retry_limit: 0, ..AppSettings::default() };
    match invalid.validate() {
        Err(CoreError::InvalidConfig(m)) => assert_eq!(m, "retry limit must be between 1 and 8"),
        _ => panic!("invalid settings are refused"),
    }
}

#[test]
fn sha256_of_known_text() {
    assert_eq!(sha256_hex("abc"), "ba7816bf8f01cfea414140de5dae2223b00361a396177a9cb410ff61f20015ad");
}

#[test]
fn unreadable_credential_store_shows_no_secrets() {
    let stored = SecretStatus { bark_key_configured: true, encryption_key_configured: false };
    let shown = shown_secret_status(Ok(stored));
    assert!(shown.bark_key_configured && !shown.encryption_key_configured);
    let failed = shown_secret_status(Err(CoreError::Credential("locked".into())));
    assert!(!failed.bark_key_configured && !failed.encryption_key_configured);
}
