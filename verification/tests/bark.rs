use codex_notify_core::bark::{
    delete_payload, encrypt, encrypt_with_iv, endpoint, invalid_device_key, parse_response, payload,
    prepare_request_with_iv, request_error, request_timeouts, RequestBody,
};
use base64::Engine;
use cbc::cipher::{block_padding::Pkcs7, BlockDecryptMut, KeyIvInit};
use codex_notify_core::error::CoreError;
use codex_notify_core::json::Json;
use codex_notify_core::notification::Notification;
use codex_notify_core::settings::AppSettings;

fn convert(v: &serde_json::Value) -> Json {
    match v {
        serde_json::Value::Null => Json::Null,
        serde_json::Value::Bool(b) => Json::Bool(*b),
        serde_json::Value::Number(n) => Json::Number(codex_notify_core::json::JsonNumber {
            text: n.to_string(),
            int: n.as_i64(),
            uint: n.as_u64(),
        }),
        serde_json::Value::String(s) => Json::Str(s.clone()),
        serde_json::Value::Array(a) => Json::Array(a.iter().map(convert).collect()),
        serde_json::Value::Object(m) => Json::Object(m.iter().map(|(k, v)| (k.clone(), convert(v))).collect()),
    }
}

fn parsed(text: &str) -> Option<Json> {
    serde_json::from_str::<serde_json::Value>(text).ok().map(|v| convert(&v))
}

fn sample_notification() -> Notification {
    Notification {
        event_key: "event".into(),
        bark_id: "event".into(),
        event_type: "Stop".into(),
        session_id: "session".into(),
        turn_id: "turn".into(),
        project: "CodexNotify".into(),
        cwd: "/work/CodexNotify".into(),
        title: "Studio-PC · CodexNotify".into(),
        subtitle: String::new(),
        body: "**Done**".into(),
        group: "Codex".into(),
        level: "critical".into(),
        sound: "minuet".into(),
        icon: "https://example.com/icon.png".into(),
        url: "https://example.com".into(),
        markdown: true,
        image: "https://example.com/image.png".into(),
        volume: Some(8),
        badge: Some(3),
        call: true,
        auto_copy: true,
        copy: "Done".into(),
        archive: Some(true),
        ttl: Some(3600),
        action: "alert".into(),
        suppressed: false,
        suppress_reason: String::new(),
    }
}

fn text_of<'a>(j: &'a Json, key: &str) -> Option<&'a str> {
    j.get(key).and_then(|v| v.as_str())
}

fn number_of(j: &Json, key: &str) -> Option<u64> {
    j.get(key).and_then(|v| v.as_u64())
}

#[test]
fn payload_includes_all_enabled_bark_features() {
    let value = payload(&sample_notification());
    assert_eq!(text_of(&value, "id"), Some("event"));
    assert_eq!(text_of(&value, "markdown"), Some("**Done**"));
    assert_eq!(text_of(&value, "image"), Some("https://example.com/image.png"));
    assert_eq!(number_of(&value, "volume"), Some(8));
    assert_eq!(number_of(&value, "badge"), Some(3));
    assert_eq!(text_of(&value, "call"), Some("1"));
    assert_eq!(text_of(&value, "autoCopy"), Some("1"));
    assert_eq!(text_of(&value, "copy"), Some("Done"));
    assert_eq!(number_of(&value, "isArchive"), Some(1));
    assert_eq!(number_of(&value, "ttl"), Some(3600));
    assert_eq!(text_of(&value, "action"), Some("alert"));
}

#[test]
fn payload_omits_disabled_optional_bark_features() {
    let mut notification = sample_notification();
    notification.markdown = false;
    notification.image.clear();
    notification.volume = None;
    notification.badge = None;
    notification.call = false;
    notification.auto_copy = false;
    notification.copy.clear();
    notification.archive = None;
    notification.ttl = None;
    notification.action.clear();
    let value = payload(&notification);
    for field in ["markdown", "image", "volume", "badge", "call", "autoCopy", "copy", "isArchive", "ttl", "action"] {
        assert!(value.get(field).is_none(), "unexpected field {field}");
    }
}

#[test]
fn payload_text_matches_serde_json() {
    let mut n = sample_notification();
    n.badge = Some(-2);
    n.archive = Some(false);
    let mut expected = serde_json::Map::new();
    for (k, v) in [
        ("title", n.title.as_str()), ("body", n.body.as_str()), ("group", n.group.as_str()),
        ("level", n.level.as_str()), ("id", n.bark_id.as_str()), ("sound", n.sound.as_str()),
        ("icon", n.icon.as_str()), ("image", n.image.as_str()), ("url", n.url.as_str()),
        ("copy", n.copy.as_str()), ("action", n.action.as_str()), ("markdown", n.body.as_str()),
        ("call", "1"), ("autoCopy", "1"),
    ] {
        expected.insert(k.to_string(), serde_json::Value::String(v.to_string()));
    }
    expected.insert("volume".into(), serde_json::Value::from(8u8));
    expected.insert("badge".into(), serde_json::Value::from(-2i64));
    expected.insert("isArchive".into(), serde_json::Value::from(0));
    expected.insert("ttl".into(), serde_json::Value::from(3600u64));
    assert_eq!(payload(&n).to_text(), serde_json::to_string(&serde_json::Value::Object(expected)).unwrap());
}

#[test]
fn aes_form_round_trips() {
    let value = parsed(r#"{"title":"画图","body":"完成"}"#).unwrap();
    let form = encrypt(&value, "1234567890123456", "AES-128-CBC").ok().unwrap();
    assert_eq!(form.iv.len(), 16);
    assert!(form.iv.chars().all(|c| c.is_ascii_alphanumeric()));
    let mut encrypted = base64::engine::general_purpose::STANDARD.decode(&form.ciphertext).unwrap();
    let decrypted = cbc::Decryptor::<aes::Aes128>::new_from_slices(b"1234567890123456", form.iv.as_bytes())
        .unwrap()
        .decrypt_padded_mut::<Pkcs7>(&mut encrypted)
        .unwrap();
    let decoded: serde_json::Value = serde_json::from_slice(decrypted).unwrap();
    let expected: serde_json::Value = serde_json::from_str(r#"{"title":"画图","body":"完成"}"#).unwrap();
    assert_eq!(decoded, expected);
}

#[test]
fn aes256_form_round_trips_with_a_given_iv() {
    let value = parsed(r#"{"body":"done"}"#).unwrap();
    let key = "0123456789abcdef0123456789abcdef";
    let form = encrypt_with_iv(&value, key, "AES-256-CBC", "abcdefghijklmnop").ok().unwrap();
    assert_eq!(form.iv, "abcdefghijklmnop");
    let mut encrypted = base64::engine::general_purpose::STANDARD.decode(&form.ciphertext).unwrap();
    let decrypted = cbc::Decryptor::<aes::Aes256>::new_from_slices(key.as_bytes(), b"abcdefghijklmnop")
        .unwrap()
        .decrypt_padded_mut::<Pkcs7>(&mut encrypted)
        .unwrap();
    assert_eq!(decrypted, br#"{"body":"done"}"#);
}

#[test]
fn encryption_keys_of_the_wrong_length_are_refused() {
    let value = parsed("{}").unwrap();
    assert!(matches!(encrypt(&value, "short", "AES-128-CBC"), Err(CoreError::InvalidEncryptionKey)));
    assert!(matches!(encrypt(&value, "1234567890123456", "AES-256-CBC"), Err(CoreError::InvalidEncryptionKey)));
}

#[test]
fn classifies_invalid_device_key_without_leaking_it() {
    let text = r#"{"code":400,"message":"failed to get device token: super-secret-key"}"#;
    let error = parse_response(400, text, parsed(text)).err().unwrap();
    assert!(matches!(error, CoreError::BarkInvalidKey));
    assert!(!error.message().contains("super-secret-key"));
}

#[test]
fn classifies_rejected_malformed_and_server_responses() {
    assert!(matches!(parse_response(200, "not-json", parsed("not-json")).err().unwrap(), CoreError::BarkRejected));
    let denied = r#"{"code":403,"message":"denied"}"#;
    assert!(matches!(parse_response(200, denied, parsed(denied)).err().unwrap(), CoreError::BarkRejected));
    assert!(matches!(parse_response(500, "oops", parsed("oops")).err().unwrap(), CoreError::BarkServer));
}

#[test]
fn a_code_in_the_body_is_classified_like_a_status() {
    let text = r#"{"code":400,"message":"Invalid Key"}"#;
    assert!(matches!(parse_response(200, text, parsed(text)).err().unwrap(), CoreError::BarkInvalidKey));
    let ok = r#"{"code":200,"message":"success"}"#;
    let value = parse_response(200, ok, parsed(ok)).ok().unwrap();
    assert_eq!(value.get("code").and_then(|c| c.as_u64()), Some(200));
    let blank = parse_response(200, "  ", None).ok().unwrap();
    assert_eq!(blank.to_text(), "{}");
    assert!(invalid_device_key(400, "bad device key", &None));
    assert!(!invalid_device_key(403, "bad device key", &None));
}

#[test]
fn endpoints_append_the_key_to_the_server() {
    assert_eq!(endpoint("https://api.day.app", "abc").ok().unwrap(), "https://api.day.app/abc");
    assert_eq!(endpoint("https://bark.example/", "abc").ok().unwrap(), "https://bark.example/abc");
    assert_eq!(endpoint("  ", "abc").ok().unwrap(), "https://api.day.app/abc");
    assert_eq!(endpoint("ignored", "https://push.example/key").ok().unwrap(), "https://push.example/key");
    assert!(matches!(endpoint("ftp://bark.example", "abc"), Err(CoreError::InvalidBarkServer)));
    assert!(matches!(endpoint("not a url", "abc"), Err(CoreError::InvalidBarkServer)));
    match endpoint("https://api.day.app", "  ") {
        Err(CoreError::InvalidConfig(m)) => assert_eq!(m, "Bark device key is missing"),
        _ => panic!("a blank key is refused"),
    }
}

#[test]
fn delete_payload_names_the_notification() {
    assert_eq!(delete_payload("event-123").ok().unwrap().to_text(), r#"{"delete":"1","id":"event-123"}"#);
    assert!(matches!(delete_payload(" "), Err(CoreError::InvalidConfig(_))));
}

#[test]
fn requests_are_json_or_encrypted_forms() {
    let settings = AppSettings::default();
    let body = payload(&sample_notification());
    let request = prepare_request_with_iv(body, &settings, "device-key", None, "").ok().unwrap();
    assert_eq!(request.url, "https://api.day.app/device-key");
    assert!(matches!(request.body, RequestBody::Json(_)));
    let encrypted = AppSettings {
        encryption_enabled: true,
        ..AppSettings::default()
    };
    let missing = prepare_request_with_iv(payload(&sample_notification()), &encrypted, "device-key", None, "abcdefghijklmnop");
    assert!(matches!(missing, Err(CoreError::InvalidConfig(_))));
    let form = prepare_request_with_iv(
        payload(&sample_notification()),
        &encrypted,
        "device-key",
        Some("1234567890123456"),
        "abcdefghijklmnop",
    )
    .ok()
    .unwrap();
    match form.body {
        RequestBody::Form(f) => assert_eq!(f.iv, "abcdefghijklmnop"),
        _ => panic!("an encrypted form is sent"),
    }
}

#[test]
fn request_errors_and_timeouts() {
    assert!(matches!(request_error(true), CoreError::BarkTimeout));
    assert!(matches!(request_error(false), CoreError::BarkUnreachable));
    let settings = AppSettings::default();
    assert_eq!(request_timeouts(&settings, true), (8, Some(3)));
    assert_eq!(request_timeouts(&settings, false), (8, None));
}
