use codex_notify_core::cli::{
    apply_init, daemon_delay, events_limit, format_time, headless_test_notification, key_status_label,
    parse_bool, parse_i64, parse_u32, parse_u64, parse_u8, retry_target, set_setting,
};
use codex_notify_core::error::CoreError;
use codex_notify_core::settings::AppSettings;

#[test]
fn numbers_parse_like_from_str() {
    assert_eq!(parse_u64("42"), Some(42));
    assert_eq!(parse_u64("+7"), Some(7));
    assert_eq!(parse_u64("-7"), None);
    assert_eq!(parse_u64(""), None);
    assert_eq!(parse_u64("+"), None);
    assert_eq!(parse_u64(" 1"), None);
    assert_eq!(parse_u64("18446744073709551615"), Some(u64::MAX));
    assert_eq!(parse_u64("18446744073709551616"), None);
    assert_eq!(parse_u32("4294967296"), None);
    assert_eq!(parse_u8("255"), Some(255));
    assert_eq!(parse_u8("256"), None);
    assert_eq!(parse_i64("-9223372036854775808"), Some(i64::MIN));
    assert_eq!(parse_i64("-9223372036854775809"), None);
    assert_eq!(parse_i64("9223372036854775807"), Some(i64::MAX));
    assert_eq!(parse_i64("-"), None);
    assert_eq!(parse_i64("-0"), Some(0));
    for text in ["0", "17", "+3", "-3", "x", "1x"] {
        assert_eq!(parse_i64(text), text.parse::<i64>().ok());
        assert_eq!(parse_u64(text), text.parse::<u64>().ok());
    }
    assert_eq!(parse_bool("true"), Some(true));
    assert_eq!(parse_bool("false"), Some(false));
    assert_eq!(parse_bool("True"), None);
}

#[test]
fn settings_change_one_at_a_time() {
    let mut s = AppSettings::default();
    set_setting(&mut s, "group", "Work").ok().unwrap();
    assert_eq!(s.group, "Work");
    set_setting(&mut s, "bark-volume", "7").ok().unwrap();
    assert_eq!(s.bark_volume, Some(7));
    set_setting(&mut s, "bark-archive", "false").ok().unwrap();
    assert_eq!(s.bark_archive, Some(false));
    set_setting(&mut s, "retry-limit", "3").ok().unwrap();
    assert_eq!(s.retry_limit, 3);
    match set_setting(&mut s, "enabled", "yes") {
        Err(CoreError::InvalidConfig(m)) => assert_eq!(m, "enabled expects true or false"),
        _ => panic!("not a switch"),
    }
    assert!(s.enabled);
    match set_setting(&mut s, "bark-ttl", "soon") {
        Err(CoreError::InvalidConfig(m)) => assert_eq!(m, "bark-ttl expects a number"),
        _ => panic!("not a number"),
    }
    match set_setting(&mut s, "colour", "red") {
        Err(CoreError::InvalidConfig(m)) => assert_eq!(m, "unsupported setting 'colour'"),
        _ => panic!("unknown key"),
    }
    match set_setting(&mut s, "request-timeout", "99") {
        Err(CoreError::InvalidConfig(m)) => assert_eq!(m, "request timeout must be between 2 and 30 seconds"),
        _ => panic!("out of range"),
    }
    assert_eq!(s.request_timeout, 99);
}

#[test]
fn init_sets_the_server_and_completes_setup() {
    let mut s = AppSettings::default();
    apply_init(&mut s, &vec!["--server".into(), "https://bark.example.test".into()]).ok().unwrap();
    assert_eq!(s.bark_server, "https://bark.example.test");
    assert!(s.setup_completed);
    let mut t = AppSettings::default();
    assert!(apply_init(&mut t, &vec!["--server".into()]).is_err());
    assert!(!t.setup_completed);
    let mut u = AppSettings::default();
    apply_init(&mut u, &vec![]).ok().unwrap();
    assert!(u.setup_completed);
    assert_eq!(u.bark_server, "https://api.day.app");
}

#[test]
fn event_arguments() {
    assert_eq!(events_limit(None), 20);
    assert_eq!(events_limit(Some("5")), 5);
    assert_eq!(events_limit(Some("many")), 20);
    assert!(matches!(retry_target(Some("all")), Ok(None)));
    assert!(matches!(retry_target(Some("12")), Ok(Some(12))));
    assert!(retry_target(Some("x")).is_err());
    assert!(retry_target(None).is_err());
    assert_eq!(daemon_delay(None), 60);
    assert_eq!(daemon_delay(Some(0)), 1);
    assert_eq!(daemon_delay(Some(600)), 60);
    assert_eq!(daemon_delay(Some(30)), 30);
}

#[test]
fn status_labels_and_times() {
    assert_eq!(key_status_label(&Ok(Some("k".into()))), "available");
    assert_eq!(key_status_label(&Ok(None)), "missing");
    assert_eq!(key_status_label(&Err(CoreError::Credential("x".into()))), "credential store unavailable; set CODEX_NOTIFY_BARK_KEY");
    assert_eq!(format_time(0), "1970-01-01T00:00:00+00:00");
    assert_eq!(format_time(i64::MAX), i64::MAX.to_string());
}

#[test]
fn headless_test_notification_uses_the_settings() {
    let s = AppSettings { device_name: "Box".into(), ..AppSettings::default() };
    let n = headless_test_notification(&s, "cli-test-1");
    assert_eq!(n.title, "Box · CodexNotify");
    assert_eq!(n.bark_id, "cli-test-1");
    assert_eq!(n.group, s.group);
    assert!(!n.suppressed);
}
