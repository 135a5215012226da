use updatekit::update_config::UpdateConfig;

#[test]
fn default_config_has_builtin_values() {
    let c = UpdateConfig::default();
    assert!(c.auto_check_enabled);
    assert_eq!(c.check_interval_hours, 24);
    assert!(c.auto_download_hotfix);
    assert!(!c.auto_install_hotfix);
    assert_eq!(c.update_server, "http://localhost:3001");
    assert_eq!(c.release_channel, "stable");
    assert!(c.last_check_time.is_none());
    assert!(c.ignored_versions.is_empty());
}

#[test]
fn ignore_version_is_idempotent() {
    let mut c = UpdateConfig::default();
    c.ignore_version(String::from("1.2.3"));
    c.ignore_version(String::from("1.2.3"));
    let occurrences = c.ignored_versions.iter().filter(|v| v.as_str() == "1.2.3").count();
    assert_eq!(occurrences, 1);
}

#[test]
fn ignore_then_unignore_version() {
    let mut c = UpdateConfig::default();
    c.ignore_version(String::from("2.0.0"));
    assert!(c.is_version_ignored("2.0.0"));
    assert!(!c.is_version_ignored("2.0.1"));
    c.unignore_version("2.0.0");
    assert!(!c.is_version_ignored("2.0.0"));
}

#[test]
fn clear_ignored_versions_empties_the_set() {
    let mut c = UpdateConfig::default();
    c.ignore_version(String::from("1.0.0"));
    c.ignore_version(String::from("1.0.1"));
    c.clear_ignored_versions();
    assert!(c.ignored_versions.is_empty());
}

#[test]
fn update_last_check_time_sets_a_time() {
    let mut c = UpdateConfig::default();
    assert!(c.last_check_time.is_none());
    c.update_last_check_time();
    assert!(c.last_check_time.is_some());
}
