use codex_notify_core::desktop::{
    delivery_credentials_from, secret_status_from, test_credentials, test_credentials_from,
};
use codex_notify_core::dispatcher::{claim_for_delivery, dispatch_credentials_from};
use codex_notify_core::error::CoreError;
use codex_notify_core::hook_runtime::{diagnostic_flag, unhandled_outcome};
use codex_notify_core::json::Json;
use codex_notify_core::notification::HookEvent;
use codex_notify_core::security::value_to_store;
use codex_notify_core::settings::AppSettings;
use codex_notify_core::store::EventStore;

fn key(s: &str) -> Result<Option<String>, CoreError> {
    Ok(Some(s.to_string()))
}

fn locked() -> Result<Option<String>, CoreError> {
    Err(CoreError::Credential("locked".into()))
}

#[test]
fn delivery_needs_a_stored_device_key() {
    let (k, e) = delivery_credentials_from(key("dev"), key("enc"), false).unwrap();
    assert_eq!((k.as_str(), e), ("dev", None));
    let (k, e) = delivery_credentials_from(key("dev"), key("enc"), true).unwrap();
    assert_eq!((k.as_str(), e.as_deref()), ("dev", Some("enc")));
    assert!(matches!(delivery_credentials_from(Ok(None), key("enc"), true), Err(CoreError::BarkInvalidKey)));
    match delivery_credentials_from(key("dev"), Ok(None), true) {
        Err(CoreError::InvalidConfig(m)) => assert_eq!(m, "Bark encryption is enabled but its key is missing"),
        _ => panic!("a missing encryption key is refused"),
    }
    assert!(matches!(delivery_credentials_from(locked(), key("enc"), false), Err(CoreError::Credential(_))));
}

#[test]
fn dispatch_without_a_device_key_delivers_nothing() {
    assert!(matches!(dispatch_credentials_from(Ok(None), key("enc"), true), Ok(None)));
    let c = dispatch_credentials_from(key("dev"), Ok(None), true).unwrap().unwrap();
    assert_eq!((c.0.as_str(), c.1), ("dev", None));
    let c = dispatch_credentials_from(key("dev"), key("enc"), false).unwrap().unwrap();
    assert_eq!(c.1, None);
    assert!(dispatch_credentials_from(key("dev"), locked(), true).is_err());
    let mut store = EventStore::new();
    assert!(claim_for_delivery(&mut store, &None, 5).is_empty());
}

#[test]
fn secret_status_reports_both_readings() {
    let s = secret_status_from(key("dev"), Ok(None)).unwrap();
    assert!(s.bark_key_configured && !s.encryption_key_configured);
    assert!(secret_status_from(Ok(None), locked()).is_err());
}

#[test]
fn typed_keys_need_no_credential_store() {
    let settings = AppSettings::with_device_name("Studio-PC".into());
    let (k, e) = test_credentials(&settings, Some("  typed  ".into()), None).unwrap();
    assert_eq!((k.as_str(), e), ("typed", None));
    let encrypted = AppSettings { encryption_enabled: true, ..AppSettings::with_device_name("Studio-PC".into()) };
    let (k, e) = test_credentials(&encrypted, Some("typed".into()), Some("secret".into())).unwrap();
    assert_eq!((k.as_str(), e.as_deref()), ("typed", Some("secret")));
    let (k, e) = test_credentials_from(true, Some(" ".into()), Some(String::new()), key("stored"), key("enc")).unwrap();
    assert_eq!((k.as_str(), e.as_deref()), ("stored", Some("enc")));
    assert!(matches!(test_credentials_from(false, None, None, Ok(None), Ok(None)), Err(CoreError::BarkInvalidKey)));
}

#[test]
fn saving_an_empty_secret_removes_it() {
    assert_eq!(value_to_store(""), None);
    assert_eq!(value_to_store(" x ").as_deref(), Some(" x "));
}

#[test]
fn diagnostic_runs_and_ignored_events() {
    let flagged = Json::Object(vec![("diagnostic".into(), Json::Bool(true))]);
    assert!(diagnostic_flag(&Some(flagged)));
    let text = Json::Object(vec![("diagnostic".into(), Json::Str("true".into()))]);
    assert!(!diagnostic_flag(&Some(text)));
    assert!(!diagnostic_flag(&None));
    let event = HookEvent {
        hook_event_name: "SessionStart".into(),
        session_id: String::new(),
        turn_id: String::new(),
        session_name: String::new(),
        thread_name: String::new(),
        tool_use_id: String::new(),
        cwd: String::new(),
        last_assistant_message: String::new(),
        tool_name: String::new(),
        tool_input: Json::Null,
        diagnostic: false,
    };
    assert_eq!(unhandled_outcome(&event), Some(("ignored", "ignored")));
    let stop = HookEvent { hook_event_name: "Stop".into(), ..event };
    assert_eq!(unhandled_outcome(&stop), None);
}
