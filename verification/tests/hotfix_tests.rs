use updatekit::digest::digest_hex;
use updatekit::errors::UpdateError;
use updatekit::updater::{HotfixRun, UpdateFile, UpdateStatus};

fn one_file_manifest(payload: &[u8]) -> Vec<UpdateFile> {
    vec![UpdateFile {
        path: String::from("assets/a.png"),
        url: String::from("http://localhost:3001/files/a.png"),
        hash: digest_hex(payload),
        size: 100,
    }]
}

#[test]
fn hotfix_status_sequence_for_one_file() {
    let payload = b"fresh asset bytes";
    let mut run = HotfixRun::new(one_file_manifest(payload));
    assert!(matches!(run.status, UpdateStatus::Downloading { progress: 0 }));

    let file = run.next_file().expect("one file to fetch");
    assert_eq!(file.path, "assets/a.png");

    let write = run.deliver_payload(payload).expect("digest matches");
    assert_eq!(write.path, "assets/a.png");
    assert_eq!(write.progress, 100);

    assert!(run.next_file().is_none());
    run.begin_install();
    run.complete();

    assert_eq!(run.trace.len(), 4);
    assert!(matches!(run.trace[0], UpdateStatus::Downloading { progress: 0 }));
    assert!(matches!(run.trace[1], UpdateStatus::Downloading { progress: 100 }));
    assert!(matches!(run.trace[2], UpdateStatus::Installing));
    assert!(matches!(run.trace[3], UpdateStatus::Completed));
}

#[test]
fn hotfix_rejects_tampered_payload() {
    let payload = b"expected bytes";
    let mut run = HotfixRun::new(one_file_manifest(payload));
    let r = run.deliver_payload(b"tampered bytes");
    assert!(matches!(r, Err(UpdateError::IntegrityError(_))));
    assert!(matches!(run.status, UpdateStatus::Failed(_)));
    assert_eq!(run.done, 0);
    assert!(run.next_file().is_none());
}

#[test]
fn hotfix_progress_over_two_files() {
    let p1 = b"first payload";
    let p2 = b"second payload";
    let files = vec![
        UpdateFile {
            path: String::from("assets/a.png"),
            url: String::from("http://localhost:3001/files/a.png"),
            hash: digest_hex(p1),
            size: 13,
        },
        UpdateFile {
            path: String::from("assets/b.png"),
            url: String::from("http://localhost:3001/files/b.png"),
            hash: digest_hex(p2),
            size: 14,
        },
    ];
    let mut run = HotfixRun::new(files);
    let w1 = run.deliver_payload(p1).expect("first digest matches");
    assert_eq!(w1.progress, 50);
    let w2 = run.deliver_payload(p2).expect("second digest matches");
    assert_eq!(w2.progress, 100);
    assert_eq!(w2.path, "assets/b.png");
}

#[test]
fn hotfix_fetch_failure_is_a_network_error() {
    let mut run = HotfixRun::new(one_file_manifest(b"never fetched"));
    let e = run.fetch_failed(String::from("connection refused"));
    assert!(matches!(e, UpdateError::NetworkError(_)));
    assert!(matches!(run.status, UpdateStatus::Failed(_)));
}

#[test]
fn empty_hotfix_goes_straight_to_install() {
    let mut run = HotfixRun::new(Vec::new());
    assert!(run.next_file().is_none());
    run.begin_install();
    run.complete();
    assert!(matches!(run.status, UpdateStatus::Completed));
}
