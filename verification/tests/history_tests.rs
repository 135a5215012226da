use updatekit::history::{UpdateHistory, VersionHistory};

fn entry(version: &str, installed_at: i64) -> VersionHistory {
    VersionHistory {
        version: String::from(version),
        update_type: String::from("hotfix"),
        installed_at,
        success: true,
        error_message: None,
    }
}

#[test]
fn record_update_appends_an_entry() {
    let mut h = UpdateHistory::new();
    h.record_update(String::from("1.0.1"), String::from("hotfix"), true, None);
    assert_eq!(h.entries.len(), 1);
    assert_eq!(h.entries[0].version, "1.0.1");
    assert!(h.entries[0].success);
    assert!(h.entries[0].error_message.is_none());
}

#[test]
fn record_update_caps_at_fifty_entries() {
    let mut h = UpdateHistory::new();
    for i in 0..55 {
        h.record_update(format!("1.0.{}", i), String::from("hotfix"), true, None);
    }
    assert_eq!(h.entries.len(), 50);
    assert_eq!(h.entries[0].version, "1.0.5");
    assert_eq!(h.entries[49].version, "1.0.54");
}

#[test]
fn record_update_keeps_failure_details() {
    let mut h = UpdateHistory::new();
    h.record_update(
        String::from("2.0.0"),
        String::from("major"),
        false,
        Some(String::from("download interrupted")),
    );
    assert!(!h.entries[0].success);
    assert_eq!(
        h.entries[0].error_message.as_deref(),
        Some("download interrupted")
    );
}

#[test]
fn get_recent_histories_sorts_newest_first() {
    let h = UpdateHistory::from_entries(vec![
        entry("1.0.0", 100),
        entry("1.0.2", 300),
        entry("1.0.1", 200),
    ]);
    let recent = h.get_recent_histories(2);
    assert_eq!(recent.len(), 2);
    assert_eq!(recent[0].version, "1.0.2");
    assert_eq!(recent[1].version, "1.0.1");
}

#[test]
fn get_recent_histories_with_large_limit() {
    let h = UpdateHistory::from_entries(vec![entry("1.0.0", 100), entry("1.0.1", 200)]);
    let recent = h.get_recent_histories(10);
    assert_eq!(recent.len(), 2);
    assert_eq!(recent[0].version, "1.0.1");
}

#[test]
fn clear_histories_empties_the_log() {
    let mut h = UpdateHistory::from_entries(vec![entry("1.0.0", 100)]);
    h.clear_histories();
    assert!(h.entries.is_empty());
}
