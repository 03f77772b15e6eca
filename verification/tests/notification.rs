use codex_notify_core::hook_input::hook_event_from_json;
use codex_notify_core::json::Json;
use codex_notify_core::notification::{
    build_notification, build_notification_at, classify, quiet_at, redact_sensitive_text,
    should_notify, should_notify_in, HookEvent,
};
use codex_notify_core::settings::{AppSettings, ProjectRule};

fn event(name: &str) -> HookEvent {
    HookEvent {
        hook_event_name: name.to_string(),
        session_id: String::new(),
        turn_id: String::new(),
        session_name: String::new(),
        thread_name: String::new(),
        tool_use_id: String::new(),
        cwd: String::new(),
        last_assistant_message: String::new(),
        tool_name: String::new(),
        tool_input: Json::Null,
        diagnostic: false,
    }
}

fn convert(v: &serde_json::Value) -> Json {
    match v {
        serde_json::Value::Null => Json::Null,
        serde_json::Value::Bool(b) => Json::Bool(*b),
        serde_json::Value::Number(n) => Json::Number(codex_notify_core::json::JsonNumber {
            text: n.to_string(),
            int: n.as_i64(),
            uint: n.as_u64(),
        }),
        serde_json::Value::String(s) => Json::Str(s.clone()),
        serde_json::Value::Array(a) => Json::Array(a.iter().map(convert).collect()),
        serde_json::Value::Object(m) => Json::Object(m.iter().map(|(k, v)| (k.clone(), convert(v))).collect()),
    }
}

/// The hook event that the JSON text `input` carries.
fn parse_event(input: &str) -> HookEvent {
    hook_event_from_json(&convert(&serde_json::from_str(input).unwrap())).unwrap()
}

fn text(s: &str) -> Json {
    Json::Str(s.to_string())
}

fn object(entries: Vec<(&str, Json)>) -> Json {
    Json::Object(entries.into_iter().map(|(k, v)| (k.to_string(), v)).collect())
}

#[test]
fn classifies_and_truncates() {
    let s = AppSettings {
        message_mode: "summary200".into(),
        ..AppSettings::default()
    };
    let e = HookEvent {
        last_assistant_message: "a".repeat(250),
        ..event("Stop")
    };
    let n = build_notification(&e, &s);
    assert_eq!(n.body.chars().count(), 200);
    assert!(n.body.ends_with('…'));
}

#[test]
fn accepts_official_snake_case_hook_input() {
    let event = parse_event(
        r#"{"hook_event_name":"Stop","session_id":"session","turn_id":"turn","cwd":"/work/画图","last_assistant_message":"请确认是否继续。"}"#,
    );
    assert_eq!(event.hook_event_name, "Stop");
    let notification = build_notification(&event, &AppSettings::default());
    assert!(notification.subtitle.is_empty());
    assert_eq!(notification.body, "请确认是否继续。");
}

#[test]
fn accepts_nullable_official_stop_message() {
    let event = parse_event(
        r#"{"hook_event_name":"Stop","session_id":"session","turn_id":"turn","cwd":"C:\\work","stop_hook_active":false,"last_assistant_message":null}"#,
    );
    assert!(event.last_assistant_message.is_empty());
    let notification = build_notification(&event, &AppSettings::default());
    assert!(notification.subtitle.is_empty());
    assert!(!notification.body.is_empty());
}

#[test]
fn request_user_input_uses_question_content_and_hook_session_name() {
    let event = parse_event(
        r#"{"hook_event_name":"PreToolUse","session_id":"session","turn_id":"turn","sessionName":"Release preparation","cwd":"/work/CodexNotify","tool_name":"request_user_input","tool_use_id":"question-1","tool_input":{"questions":[{"question":"Which release channel should be used?","options":[{"label":"Stable"},{"label":"Beta"}]}]}}"#,
    );
    let settings = AppSettings {
        device_name: "Studio-PC".into(),
        ..AppSettings::default()
    };
    let notification = build_notification(&event, &settings);
    assert_eq!(notification.event_type, "UserInputRequest");
    assert_eq!(notification.title, "Studio-PC · CodexNotify");
    assert_eq!(notification.subtitle, "Release preparation");
    assert!(notification.body.contains("Which release channel"));
    assert!(notification.body.contains("• Stable"));
    assert!(notification.body.contains("• Beta"));
}

#[test]
fn thread_name_is_used_only_when_session_name_is_absent() {
    let event = parse_event(
        r#"{"hook_event_name":"Stop","sessionName":"","threadName":"Hook-provided thread","cwd":"/work/demo","last_assistant_message":"Done"}"#,
    );
    assert_eq!(
        build_notification(&event, &AppSettings::default()).subtitle,
        "Hook-provided thread"
    );
}

#[test]
fn redacts_secrets() {
    assert!(!redact_sensitive_text("api_key=abcdef123456 user@example.com").contains("abcdef123456"));
}

#[test]
fn permission_is_unique_by_tool() {
    let s = AppSettings::default();
    let mut e = parse_event(
        r#"{"hookEventName":"PermissionRequest","sessionId":"s","turnId":"t","toolUseId":"a"}"#,
    );
    let a = build_notification(&e, &s).event_key;
    e.tool_use_id = "b".into();
    assert_ne!(a, build_notification(&e, &s).event_key);
    assert_eq!(a.len(), 64);
    assert!(a.chars().all(|c| c.is_ascii_hexdigit() && !c.is_ascii_uppercase()));
}

#[test]
fn hook_input_refuses_what_is_not_an_event() {
    let read = |input: &str| hook_event_from_json(&convert(&serde_json::from_str(input).unwrap()));
    assert!(read(r#"{"hook_event_name":"Stop","hookEventName":"Stop"}"#).is_none());
    assert!(read(r#"{"hook_event_name":null}"#).is_none());
    assert!(read(r#"{"session_id":1}"#).is_none());
    assert!(read(r#"{"diagnostic":"yes"}"#).is_none());
    assert!(read(r#""Stop""#).is_none());
    assert!(read(r#"["Stop","s","t",null,null,"u","/w","m","tool",{"a":1},true,"extra"]"#).is_none());
    let listed = read(r#"["Stop","s","t",null]"#).unwrap();
    assert_eq!(listed.hook_event_name, "Stop");
    assert_eq!(listed.turn_id, "t");
    assert!(listed.session_name.is_empty() && listed.cwd.is_empty() && !listed.diagnostic);
    let empty = read("{}").unwrap();
    assert!(empty.hook_event_name.is_empty() && matches!(empty.tool_input, Json::Null));
    assert!(read(r#"{"diagnostic":true,"toolInput":[1]}"#).unwrap().diagnostic);
}

#[test]
fn quiet_hours_cross_midnight() {
    let settings = AppSettings {
        quiet_hours_enabled: true,
        ..AppSettings::default()
    };
    let start = 22 * 3600;
    let end = 8 * 3600;
    assert!(quiet_at(&settings, 23 * 3600, start, end));
    assert!(quiet_at(&settings, 7 * 3600, start, end));
    assert!(!quiet_at(&settings, 12 * 3600, start, end));
}

#[test]
fn project_scope_matches_children() {
    let settings = AppSettings {
        scope: "include".into(),
        projects: vec![ProjectRule {
            path: "/work/demo".into(),
            name: "Demo".into(),
            enabled: true,
        }],
        ..AppSettings::default()
    };
    assert!(should_notify("/work/demo/src", &settings));
    assert!(!should_notify("/work/other", &settings));
}

#[test]
fn quiet_hours_are_off_when_disabled() {
    let settings = AppSettings::default();
    assert!(!quiet_at(&settings, 23 * 3600, 22 * 3600, 8 * 3600));
}

#[test]
fn quiet_window_within_a_day_and_its_complement() {
    let settings = AppSettings {
        quiet_hours_enabled: true,
        ..AppSettings::default()
    };
    // 09:00 to 17:00: inside at noon, outside at 18:00; and the reverse window
    // 17:00 to 09:00 holds exactly the other times.
    assert!(quiet_at(&settings, 12 * 3600, 9 * 3600, 17 * 3600));
    assert!(!quiet_at(&settings, 18 * 3600, 9 * 3600, 17 * 3600));
    assert!(!quiet_at(&settings, 12 * 3600, 17 * 3600, 9 * 3600));
    assert!(quiet_at(&settings, 18 * 3600, 17 * 3600, 9 * 3600));
}

#[test]
fn exclude_scope_skips_listed_projects() {
    let settings = AppSettings {
        scope: "exclude".into(),
        projects: vec![ProjectRule {
            path: "/work/demo".into(),
            name: "Demo".into(),
            enabled: true,
        }],
        ..AppSettings::default()
    };
    assert!(!should_notify_in("/work/demo", &settings, "/"));
    assert!(should_notify_in("/work/demo2", &settings, "/"));
    assert!(should_notify_in("/elsewhere", &settings, "/"));
}

#[test]
fn relative_project_paths_read_against_the_base() {
    let settings = AppSettings {
        scope: "include".into(),
        projects: vec![ProjectRule {
            path: "demo".into(),
            name: "Demo".into(),
            enabled: true,
        }],
        ..AppSettings::default()
    };
    assert!(should_notify_in("/work/demo/src", &settings, "/work"));
    assert!(!should_notify_in("/work/demo/src", &settings, "/other"));
}

#[test]
fn disabled_notifications_are_never_sent() {
    let settings = AppSettings {
        enabled: false,
        ..AppSettings::default()
    };
    assert!(!should_notify("/anywhere", &settings));
}

#[test]
fn classify_reports_failure_waiting_and_completion() {
    assert_eq!(classify("The build FAILED badly"), ("Execution failed", "⚠️"));
    assert_eq!(classify("Please confirm the plan"), ("Waiting for input", "❓"));
    assert_eq!(classify("All done"), ("Turn completed", "✅"));
}

#[test]
fn quiet_hours_suppress_without_changing_the_event_key() {
    let settings = AppSettings {
        quiet_hours_enabled: true,
        quiet_start: "00:00".into(),
        quiet_end: "23:59".into(),
        quiet_action: "pause".into(),
        ..AppSettings::default()
    };
    let e = HookEvent {
        session_id: "s".into(),
        turn_id: "t".into(),
        cwd: "/work/demo".into(),
        last_assistant_message: "Done".into(),
        ..event("Stop")
    };
    let quiet = build_notification_at(&e, &settings, 12 * 3600, "/");
    assert!(quiet.suppressed);
    let awake = build_notification_at(&e, &AppSettings::default(), 12 * 3600, "/");
    assert!(!awake.suppressed);
    assert_eq!(quiet.event_key, awake.event_key);
}
