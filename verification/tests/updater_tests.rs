use updatekit::clock::UtcDateTime;
use updatekit::errors::UpdateError;
use updatekit::slot::UpdateManagerState;
use updatekit::update_config::UpdateConfig;
use updatekit::updater::{
    evaluate_check_response, major_update_filename, should_notify, update_available,
    DownloadProgress, UpdateManager, VersionInfo,
};

fn sample_info(latest: &str) -> VersionInfo {
    VersionInfo {
        current_version: String::from("1.0.0"),
        latest_version: String::from(latest),
        update_type: None,
        release_notes: String::from("fixes"),
        release_date: 1704164645,
        is_force_update: false,
    }
}

#[test]
fn check_url_carries_all_query_parameters() {
    let m = UpdateManager::new(
        String::from("http://localhost:3001"),
        String::from("1.0.0"),
    );
    assert_eq!(
        m.check_url("macos", "arm64"),
        "http://localhost:3001/api/v1/check-updates?current_version=1.0.0&platform=macos&arch=arm64"
    );
    assert_eq!(m.get_current_version(), "1.0.0");
}

#[test]
fn check_response_judgement() {
    let ok = evaluate_check_response(true, Some(sample_info("1.0.1")));
    assert!(ok.is_ok());
    assert_eq!(ok.unwrap().latest_version, "1.0.1");

    let bad_status = evaluate_check_response(false, Some(sample_info("1.0.1")));
    assert!(matches!(bad_status, Err(UpdateError::ProtocolError(_))));

    let unparsable = evaluate_check_response(true, None);
    assert!(matches!(unparsable, Err(UpdateError::ProtocolError(_))));
}

#[test]
fn silent_check_notifies_only_on_new_version() {
    assert!(should_notify("1.0.0", &sample_info("1.0.1")));
    assert!(!should_notify("1.0.0", &sample_info("1.0.0")));
}

#[test]
fn ignored_versions_filter_offered_updates() {
    let mut config = UpdateConfig::default();
    assert!(update_available(&config, &sample_info("1.0.1")));
    config.ignore_version(String::from("1.0.1"));
    assert!(!update_available(&config, &sample_info("1.0.1")));
    assert!(!update_available(&config, &sample_info("1.0.0")));
}

#[test]
fn download_progress_reports_whole_percentages() {
    let mut p = DownloadProgress::new(Some(200));
    assert_eq!(p.on_chunk(100), Some(50));
    assert_eq!(p.on_chunk(50), Some(75));
    assert_eq!(p.on_chunk(50), Some(100));
}

#[test]
fn download_progress_is_clamped_at_one_hundred() {
    let mut p = DownloadProgress::new(Some(100));
    assert_eq!(p.on_chunk(250), Some(100));
}

#[test]
fn download_progress_is_omitted_without_content_length() {
    let mut p = DownloadProgress::new(None);
    assert_eq!(p.on_chunk(4096), None);
    let mut z = DownloadProgress::new(Some(0));
    assert_eq!(z.on_chunk(4096), None);
}

#[test]
fn major_update_filename_is_stamped() {
    let t = UtcDateTime { year: 2024, month: 1, day: 2, hour: 3, minute: 4, second: 5 };
    assert_eq!(major_update_filename(&t), "util-update-20240102_030405.dmg");
}

#[test]
fn second_update_attempt_is_refused() {
    let mut slot = UpdateManagerState::new();
    assert!(!slot.in_progress());
    let first = slot.try_begin(UpdateManager::new(
        String::from("http://localhost:3001"),
        String::from("1.0.0"),
    ));
    assert!(first.is_ok());
    assert!(slot.in_progress());

    let second = slot.try_begin(UpdateManager::new(
        String::from("http://localhost:3001"),
        String::from("1.0.0"),
    ));
    assert!(matches!(second, Err(UpdateError::AlreadyInProgress)));

    let released = slot.end();
    assert!(released.is_some());
    assert!(!slot.in_progress());
    let third = slot.try_begin(UpdateManager::new(
        String::from("http://localhost:3001"),
        String::from("1.0.0"),
    ));
    assert!(third.is_ok());
}

#[test]
fn error_messages_name_their_failure() {
    assert_eq!(
        UpdateError::AlreadyInProgress.message(),
        "update already in progress"
    );
    assert_eq!(
        UpdateError::NetworkError(String::from("timed out")).message(),
        "network error: timed out"
    );
    assert_eq!(
        UpdateError::ProtocolError(String::from("bad body")).message(),
        "protocol error: bad body"
    );
    assert_eq!(
        UpdateError::IntegrityError(String::from("digest mismatch")).message(),
        "integrity error: digest mismatch"
    );
    assert_eq!(
        UpdateError::NotFound(String::from("backup")).message(),
        "not found: backup"
    );
    assert_eq!(
        UpdateError::IoError(String::from("disk full")).message(),
        "io error: disk full"
    );
    assert_eq!(
        UpdateError::ConfigParseError(String::from("bad json")).message(),
        "config parse error: bad json"
    );
}
