use codex_notify_core::desktop::application_binary;
use codex_notify_core::paths::{StorageInfo, StorageMode};
use codex_notify_core::uninstall::{path_less, sort_paths, uninstall_targets};
use std::path::PathBuf;

fn std_order(paths: &[&str]) -> Vec<String> {
    let mut v: Vec<PathBuf> = paths.iter().map(PathBuf::from).collect();
    v.sort();
    v.dedup();
    v.into_iter().map(|p| p.to_string_lossy().into_owned()).collect()
}

fn strings(paths: &[&str]) -> Vec<String> {
    paths.iter().map(|p| p.to_string()).collect()
}

#[test]
fn paths_sort_as_std_orders_them() {
    let paths = [
        "/opt/CodexNotify/codex-notify",
        "/home/u/.local/share/codex-notify",
        "/home/u/.config/codex-notify",
        "/home/u/.config/codex-notify/",
        "/home/u/./.config/codex-notify",
        "relative/dir",
        "./relative",
        "../up",
        "/home/u/.cache/x",
        "/home/U/z",
        "/home/u/Ärger",
        "/home/u/zeta",
        "/home/u",
        "/",
    ];
    assert_eq!(sort_paths(&strings(&paths)), std_order(&paths));
    assert!(path_less("/a", "/a/b"));
    assert!(path_less("/", "a"));
    assert!(path_less(".", ".."));
    assert!(path_less("..", "a"));
    assert!(!path_less("/a/b/", "/a/b"));
    assert!(!path_less("/a/b", "/a/b/"));
}

#[test]
fn uninstall_removes_each_location_once() {
    let storage = StorageInfo {
        configured: false,
        mode: StorageMode::Default,
        root: "/home/u/.config/codex-notify".into(),
        config_dir: "/home/u/.config/codex-notify".into(),
        data_dir: "/home/u/.local/share/codex-notify".into(),
        log_dir: "/home/u/.local/share/codex-notify/logs".into(),
        locator_file: "/home/u/.config/codex-notify/storage.json".into(),
    };
    let app_dirs = strings(&[
        "/home/u/.config/com.xiiiing.codex-notify",
        "/home/u/.local/share/com.xiiiing.codex-notify",
        "/home/u/.local/share/com.xiiiing.codex-notify",
        "/home/u/.cache/com.xiiiing.codex-notify",
    ]);
    let targets = uninstall_targets(&storage, &app_dirs, Some("/opt/CodexNotify/codex-notify"));
    assert_eq!(
        targets,
        vec![
            "/home/u/.cache/com.xiiiing.codex-notify",
            "/home/u/.config/codex-notify",
            "/home/u/.config/codex-notify/storage.json",
            "/home/u/.config/com.xiiiing.codex-notify",
            "/home/u/.local/share/codex-notify",
            "/home/u/.local/share/codex-notify/logs",
            "/home/u/.local/share/com.xiiiing.codex-notify",
            "/opt/CodexNotify/codex-notify",
        ]
    );
}

#[test]
fn portable_data_and_its_marker_go_too() {
    let storage = StorageInfo {
        configured: true,
        mode: StorageMode::Portable,
        root: "/apps/CodexNotify/CodexNotifyData".into(),
        config_dir: "/apps/CodexNotify/CodexNotifyData/config".into(),
        data_dir: "/apps/CodexNotify/CodexNotifyData/data".into(),
        log_dir: "/apps/CodexNotify/CodexNotifyData/logs".into(),
        locator_file: "/home/u/.config/codex-notify/storage.json".into(),
    };
    let targets = uninstall_targets(&storage, &vec![], None);
    assert_eq!(
        targets,
        vec![
            "/apps/CodexNotify/.codex-notify-portable",
            "/apps/CodexNotify/CodexNotifyData",
            "/apps/CodexNotify/CodexNotifyData/config",
            "/apps/CodexNotify/CodexNotifyData/data",
            "/apps/CodexNotify/CodexNotifyData/logs",
            "/home/u/.config/codex-notify/storage.json",
        ]
    );
    let custom = StorageInfo { mode: StorageMode::Custom, ..storage };
    assert_eq!(uninstall_targets(&custom, &vec![], None).len(), 4);
}

#[test]
fn the_program_is_the_appimage_or_the_executable() {
    assert_eq!(application_binary(Some("/home/u/CodexNotify.AppImage"), "/tmp/.mount/codex-notify"), "/home/u/CodexNotify.AppImage");
    assert_eq!(application_binary(None, "/opt/CodexNotify/codex-notify"), "/opt/CodexNotify/codex-notify");
}
