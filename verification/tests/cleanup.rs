use codex_notify_core::cleanup::{cleanup_plan, is_same_path, shares_root, CleanupStep};
use codex_notify_core::paths::AppPaths;

fn steps(plan: &[CleanupStep]) -> Vec<(&str, bool)> {
    plan.iter().map(|s| (s.path.as_str(), s.keep_index)).collect()
}

fn location(config: &str, data: &str, log: &str) -> AppPaths {
    AppPaths { config_dir: config.into(), data_dir: data.into(), log_dir: log.into() }
}

#[test]
fn previous_location_is_removed_after_migration() {
    let previous = AppPaths::from_root("/old");
    let target = AppPaths::from_root("/new");
    let keep = vec![target.config_dir.clone(), target.data_dir.clone(), target.log_dir.clone()];
    let plan = cleanup_plan(&previous, &keep, "/home/u/.config/codex-notify", true);
    assert_eq!(
        steps(&plan),
        vec![("/old/config", false), ("/old/data", false), ("/old/logs", false)]
    );
    assert!(shares_root(&previous));
}

#[test]
fn system_config_directory_keeps_the_storage_index() {
    let default = location(
        "/home/u/.config/codex-notify",
        "/home/u/.local/share/codex-notify",
        "/home/u/.local/share/codex-notify/logs",
    );
    let plan = cleanup_plan(&default, &vec![], "/home/u/.config/codex-notify/", true);
    assert_eq!(
        steps(&plan),
        vec![("/home/u/.config/codex-notify", true), ("/home/u/.local/share/codex-notify", false)]
    );
    assert!(!shares_root(&default));
}

#[test]
fn shallow_directories_go_first_and_repeats_once() {
    let scattered = location("/a/b/c/config", "/a/data", "/a/b/logs");
    let plan = cleanup_plan(&scattered, &vec![], "/sys/config", false);
    assert_eq!(
        steps(&plan),
        vec![("/a/data", false), ("/a/b/logs", false), ("/a/b/c/config", false)]
    );
    let repeated = location("/x/data", "/x/data/", "/x/logs");
    let plan = cleanup_plan(&repeated, &vec![], "/sys/config", true);
    assert_eq!(steps(&plan), vec![("/x/data", false), ("/x/logs", false)]);
}

#[test]
fn the_location_in_use_is_never_removed() {
    let previous = location("/data/app/config", "/data/shared", "/data/app/logs");
    let keep = vec!["/data/shared".to_string()];
    let plan = cleanup_plan(&previous, &keep, "/sys/config", true);
    assert_eq!(steps(&plan), vec![("/data/app/config", false), ("/data/app/logs", false)]);
    assert!(!shares_root(&previous));
    assert!(is_same_path("/data/./shared/", "/data/shared"));
    assert!(!is_same_path("/data/shared/x", "/data/shared"));
}
