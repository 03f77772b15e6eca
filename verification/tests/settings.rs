use codex_notify_core::error::CoreError;
use codex_notify_core::settings::AppSettings;

#[test]
fn migrates_v1_and_persists_detected_device_name() {
    // A version 1 file: `{"schemaVersion":1,"enabled":true,"barkServer":"https://api.day.app"}`,
    // every other setting at its default and no device name.
    let mut stored = AppSettings::with_device_name(String::new());
    stored.schema_version = 1;
    stored.enabled = true;
    stored.bark_server = "https://api.day.app".into();
    let (settings, save) = stored.migrate("Studio-PC").unwrap();
    assert_eq!(settings.schema_version, 2);
    assert!(!settings.device_name.is_empty());
    assert_eq!(settings.device_name, "Studio-PC");
    assert!(save);
}

#[test]
fn current_settings_are_kept_and_unknown_versions_refused() {
    let current = AppSettings::with_device_name("Laptop".into());
    let (kept, save) = current.clone().migrate("Studio-PC").unwrap();
    assert_eq!(kept.device_name, "Laptop");
    assert_eq!(kept.schema_version, 2);
    assert!(!save);

    let mut named = AppSettings::with_device_name("Laptop".into());
    named.schema_version = 1;
    let (migrated, _) = named.migrate("Studio-PC").unwrap();
    assert_eq!(migrated.device_name, "Laptop");

    let mut future = AppSettings::with_device_name("Laptop".into());
    future.schema_version = 3;
    match future.migrate("Studio-PC") {
        Err(CoreError::InvalidConfig(message)) => assert_eq!(message, "unsupported settings schema"),
        other => panic!("unexpected {:?}", other.map(|(s, b)| (s.schema_version, b))),
    }

    let mut broken = AppSettings::with_device_name("Laptop".into());
    broken.schema_version = 1;
    broken.bark_server = "ftp://example.com".into();
    assert!(matches!(broken.migrate("Studio-PC"), Err(CoreError::InvalidConfig(_))));
}

#[test]
fn default_settings_are_valid() {
    assert!(AppSettings::with_device_name("Studio-PC".into()).validate().is_ok());
    assert!(AppSettings::default().validate().is_ok());
    match AppSettings::with_device_name("   ".into()).validate() {
        Err(CoreError::InvalidConfig(message)) => {
            assert_eq!(message, "device name must contain between 1 and 100 characters")
        }
        _ => panic!("a blank device name is refused"),
    }
}
