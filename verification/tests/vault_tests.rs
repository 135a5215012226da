use updatekit::clock::UtcDateTime;
use updatekit::config_vault::{
    default_tools_config_text, default_update_config_text, default_user_settings_text,
    ConfigRoot,
};
use updatekit::errors::UpdateError;

fn time(second: u8) -> UtcDateTime {
    UtcDateTime { year: 2024, month: 1, day: 2, hour: 3, minute: 4, second }
}

fn root_with_docs() -> ConfigRoot {
    let mut root = ConfigRoot::new();
    root.set_document("update-config.json", String::from("{\"a\":1}"));
    root.set_document("user-settings.json", String::from("{\"b\":2}"));
    root
}

#[test]
fn backup_copies_every_live_document() {
    let mut root = root_with_docs();
    root.backup_config(&time(5), 1000);
    assert_eq!(root.backups.len(), 1);
    let dir = &root.backups[0];
    assert_eq!(dir.name, "config_backup_20240102_030405");
    assert_eq!(dir.mtime, 1000);
    assert_eq!(dir.files.len(), 2);
}

#[test]
fn listing_labels_are_newest_first() {
    let mut root = root_with_docs();
    root.backup_config(&time(5), 1000);
    root.backup_config(&time(7), 1002);
    let labels = root.list_config_backups();
    assert_eq!(labels.len(), 2);
    assert_eq!(labels[0], "20240102_030407 (2024-01-02 03:04:07)");
    assert_eq!(labels[1], "20240102_030405 (2024-01-02 03:04:05)");
}

#[test]
fn backup_extends_listing_by_one_newest_label() {
    let mut root = root_with_docs();
    root.backup_config(&time(5), 1000);
    let before = root.list_config_backups();
    root.backup_config(&time(9), 1004);
    let after = root.list_config_backups();
    assert_eq!(after.len(), before.len() + 1);
    assert_eq!(after[0], "20240102_030409 (2024-01-02 03:04:09)");
}

#[test]
fn retention_deletes_least_recently_modified() {
    let mut root = root_with_docs();
    root.keep_count = 2;
    root.backup_config(&time(1), 1001);
    root.backup_config(&time(2), 1002);
    root.backup_config(&time(3), 1003);
    assert_eq!(root.backups.len(), 2);
    let labels = root.list_config_backups();
    assert_eq!(labels.len(), 2);
    assert_eq!(labels[0], "20240102_030403 (2024-01-02 03:04:03)");
    assert_eq!(labels[1], "20240102_030402 (2024-01-02 03:04:02)");
}

#[test]
fn oddly_named_directories_are_listed_raw_and_kept() {
    let mut root = ConfigRoot::new();
    root.backups.push(updatekit::config_vault::BackupDir {
        name: String::from("config_backup_byhand"),
        mtime: 1,
        files: Vec::new(),
    });
    root.backup_config(&time(5), 1000);
    let labels = root.list_config_backups();
    assert_eq!(labels.len(), 2);
    assert_eq!(labels[0], "config_backup_byhand");
    assert_eq!(labels[1], "20240102_030405 (2024-01-02 03:04:05)");
}

#[test]
fn restore_overwrites_from_backup_and_keeps_the_rest() {
    let mut root = root_with_docs();
    root.backup_config(&time(5), 1000);
    root.set_document("update-config.json", String::from("{\"a\":9}"));
    root.set_document("tools-config.json", String::from("{\"c\":3}"));

    let r = root.restore_config_backup("20240102_030405 (2024-01-02 03:04:05)");
    assert!(r.is_ok());
    assert_eq!(
        root.get_document("update-config.json").map(String::as_str),
        Some("{\"a\":1}")
    );
    assert_eq!(
        root.get_document("user-settings.json").map(String::as_str),
        Some("{\"b\":2}")
    );
    assert_eq!(
        root.get_document("tools-config.json").map(String::as_str),
        Some("{\"c\":3}")
    );
}

#[test]
fn restore_of_unknown_backup_is_refused() {
    let mut root = root_with_docs();
    let r = root.restore_config_backup("20990101_000000 (2099-01-01 00:00:00)");
    assert!(matches!(r, Err(UpdateError::NotFound(_))));
    assert_eq!(
        root.get_document("update-config.json").map(String::as_str),
        Some("{\"a\":1}")
    );
}

#[test]
fn reset_backs_up_then_restores_defaults() {
    let mut root = root_with_docs();
    root.reset_all_configs(&time(5), 1000);

    assert_eq!(root.backups.len(), 1);
    let dir = &root.backups[0];
    assert_eq!(dir.files.len(), 2);
    assert!(dir.files.iter().any(|f| f.name == "update-config.json"));
    assert!(dir.files.iter().any(|f| f.name == "user-settings.json"));

    assert_eq!(
        root.get_document("update-config.json").map(String::as_str),
        Some(default_update_config_text().as_str())
    );
    assert_eq!(
        root.get_document("user-settings.json").map(String::as_str),
        Some(default_user_settings_text().as_str())
    );
    assert_eq!(
        root.get_document("tools-config.json").map(String::as_str),
        Some(default_tools_config_text().as_str())
    );
}

#[test]
fn initialize_creates_only_missing_documents() {
    let mut root = ConfigRoot::new();
    root.set_document("user-settings.json", String::from("{\"kept\":true}"));
    root.initialize_app_config();
    assert_eq!(
        root.get_document("update-config.json").map(String::as_str),
        Some(default_update_config_text().as_str())
    );
    assert_eq!(
        root.get_document("user-settings.json").map(String::as_str),
        Some("{\"kept\":true}")
    );
    assert_eq!(
        root.get_document("tools-config.json").map(String::as_str),
        Some(default_tools_config_text().as_str())
    );
}

#[test]
fn export_import_round_trip_is_byte_for_byte() {
    let source = root_with_docs();
    let bundle = source.export_config(String::from("1.0.0"), &time(5));
    assert_eq!(bundle.export_version, "1.0");
    assert_eq!(bundle.export_time, "2024-01-02T03:04:05+00:00");
    assert_eq!(bundle.app_version, "1.0.0");
    assert!(bundle.tools_config.is_none());

    let mut target = ConfigRoot::new();
    target.set_document("update-config.json", String::from("{\"different\":true}"));
    target.set_document("tools-config.json", String::from("{\"kept\":1}"));
    target.import_config(&bundle, &time(6), 1001);

    assert_eq!(
        target.get_document("update-config.json").map(String::as_str),
        Some("{\"a\":1}")
    );
    assert_eq!(
        target.get_document("user-settings.json").map(String::as_str),
        Some("{\"b\":2}")
    );
    assert_eq!(
        target.get_document("tools-config.json").map(String::as_str),
        Some("{\"kept\":1}")
    );
    assert_eq!(target.backups.len(), 1);
}
