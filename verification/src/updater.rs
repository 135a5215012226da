//! The update manager: version-check metadata, the update status state
//! machine, the hotfix session that verifies every payload before it is
//! written, and byte-count progress for major-update downloads.

use vstd::prelude::*;
use crate::clock::{stamp_chars, UtcDateTime};
use crate::digest::{payload_matches, verify_payload};
use crate::errors::UpdateError;
use crate::text::{contains_str, str_eq};
use crate::update_config::UpdateConfig;

verus! {

/// One file of a hotfix manifest.
pub struct UpdateFile {
    /// Install target, relative to the application's configuration root.
    pub path: String,
    /// Where the payload is fetched from.
    pub url: String,
    /// Expected content digest of the payload, as hex text.
    pub hash: String,
    /// Declared payload size in bytes.
    pub size: u64,
}

/// Which path an update takes.
pub enum UpdateType {
    /// Resource-file update applied in place.
    Hotfix { version: String, files: Vec<UpdateFile> },
    /// Full application package handed to the platform installer.
    Major { version: String, download_url: String, size: u64 },
}

/// What the update server reported for one check.
pub struct VersionInfo {
    /// The version that asked.
    pub current_version: String,
    /// The newest version the server offers.
    pub latest_version: String,
    /// How to move to the newest version, when one is offered.
    pub update_type: Option<UpdateType>,
    /// Release notes for display.
    pub release_notes: String,
    /// When the newest version was released, as seconds since the epoch.
    pub release_date: i64,
    /// Whether the server insists on the update.
    pub is_force_update: bool,
}

/// Where an update attempt stands.
pub enum UpdateStatus {
    /// Asking the server.
    Checking,
    /// An update is offered.
    Available,
    /// Fetching payloads; `progress` is a whole percentage.
    Downloading { progress: u8 },
    /// Payloads fetched; activation under way.
    Installing,
    /// The attempt finished.
    Completed,
    /// The attempt failed, with the reason.
    Failed(String),
}

/// The lawful moves of the status machine: checking finds an update,
/// an available update downloads before it installs, installing
/// completes, and any unfinished attempt may fail.
pub open spec fn status_step(from: UpdateStatus, to: UpdateStatus) -> bool {
    match (from, to) {
        (UpdateStatus::Checking, UpdateStatus::Available) => true,
        (UpdateStatus::Checking, UpdateStatus::Failed(_)) => true,
        (UpdateStatus::Available, UpdateStatus::Downloading { progress: _ }) => true,
        (UpdateStatus::Available, UpdateStatus::Failed(_)) => true,
        (UpdateStatus::Downloading { progress: _ }, UpdateStatus::Downloading { progress: _ }) => true,
        (UpdateStatus::Downloading { progress: _ }, UpdateStatus::Installing) => true,
        (UpdateStatus::Downloading { progress: _ }, UpdateStatus::Failed(_)) => true,
        (UpdateStatus::Installing, UpdateStatus::Completed) => true,
        (UpdateStatus::Installing, UpdateStatus::Failed(_)) => true,
        _ => false,
    }
}

/// A non-empty status history in which every move is lawful.
pub open spec fn valid_trace(trace: Seq<UpdateStatus>) -> bool {
    &&& trace.len() > 0
    &&& forall|i: int| 0 < i < trace.len() ==> status_step(trace[i - 1], #[trigger] trace[i])
}

/// The update manager: which server it asks and which version it runs.
pub struct UpdateManager {
    /// Base address of the update server.
    pub update_server: String,
    /// The application version this process runs.
    pub current_version: String,
}

/// The characters of the check request address: the server base, the
/// fixed check path, then the three query parameters.
pub open spec fn check_url_chars(
    server: Seq<char>,
    current: Seq<char>,
    platform: Seq<char>,
    arch: Seq<char>,
) -> Seq<char> {
    server + "/api/v1/check-updates?current_version="@ + current + "&platform="@ + platform
        + "&arch="@ + arch
}

impl UpdateManager {
    /// A manager for the given server and running version.
    pub fn new(update_server: String, current_version: String) -> (r: Self)
        ensures
            r.update_server == update_server,
            r.current_version == current_version,
    {
        UpdateManager { update_server, current_version }
    }

    /// The version this process runs.
    pub fn get_current_version(&self) -> (r: String)
        ensures
            r@ == self.current_version@,
    {
        self.current_version.clone()
    }

    /// The address a version check must fetch.
    pub fn check_url(&self, platform: &str, arch: &str) -> (r: String)
        ensures
            r@ == check_url_chars(self.update_server@, self.current_version@, platform@, arch@),
    {
        let mut s = self.update_server.clone();
        s.append("/api/v1/check-updates?current_version=");
        s.append(self.current_version.as_str());
        s.append("&platform=");
        s.append(platform);
        s.append("&arch=");
        s.append(arch);
        proof {
            assert(s@ =~= check_url_chars(
                self.update_server@,
                self.current_version@,
                platform@,
                arch@,
            ));
        }
        s
    }
}

/// Judges a check answer: a non-success status or an answer that did not
/// parse is a protocol failure; a parsed answer is returned as is.
pub fn evaluate_check_response(status_success: bool, parsed: Option<VersionInfo>) -> (r: Result<
    VersionInfo,
    UpdateError,
>)
    ensures
        r is Ok <==> status_success && parsed is Some,
        r is Ok ==> (parsed matches Some(info) && r->Ok_0 == info),
        r is Err ==> r->Err_0 is ProtocolError,
{
    if !status_success {
        return Err(UpdateError::ProtocolError(String::from_str("update check was not a success")));
    }
    match parsed {
        Some(info) => Ok(info),
        None => Err(
            UpdateError::ProtocolError(
                String::from_str("update check answer did not parse as version info"),
            ),
        ),
    }
}

/// Whether a silent background check should announce `info`: only when
/// the reported latest version differs from the running one.
pub fn should_notify(current_version: &str, info: &VersionInfo) -> (r: bool)
    ensures
        r == (info.latest_version@ != current_version@),
{
    !str_eq(info.latest_version.as_str(), current_version)
}

/// Whether `info` offers an update this installation acts on: a version
/// different from the running one and not in the ignored set.
pub fn update_available(config: &UpdateConfig, info: &VersionInfo) -> (r: bool)
    ensures
        r == (info.latest_version@ != info.current_version@ && !contains_str(
            config.ignored_versions@,
            info.latest_version@,
        )),
{
    if str_eq(info.latest_version.as_str(), info.current_version.as_str()) {
        return false;
    }
    !config.is_version_ignored(info.latest_version.as_str())
}

/// What the caller must do after a payload was accepted: write it to
/// `path`, then report `progress`.
pub struct HotfixWrite {
    /// Install target of the verified payload.
    pub path: String,
    /// Overall percentage after this file, to be reported.
    pub progress: u8,
}

/// One hotfix attempt: the manifest files, how many are done, the
/// current status, and every status reported so far.
pub struct HotfixRun {
    /// The manifest, in the order the files are applied.
    pub files: Vec<UpdateFile>,
    /// How many files were verified and handed out for writing.
    pub done: usize,
    /// Where the attempt stands.
    pub status: UpdateStatus,
    /// Every status reported so far, in order.
    pub trace: Vec<UpdateStatus>,
}

/// The percentage of `done` files out of `total`.
pub open spec fn files_percent(done: int, total: int) -> int {
    if total == 0 {
        0
    } else {
        done * 100 / total
    }
}

impl HotfixRun {
    /// The session's own rules: no more files done than the manifest
    /// holds, a lawful status history that starts at zero percent and
    /// ends in the current status, and past the manifest only when
    /// downloading finished or the attempt did.
    pub open spec fn wf(self) -> bool {
        &&& self.done <= self.files@.len()
        &&& valid_trace(self.trace@)
        &&& self.trace@[0] == (UpdateStatus::Downloading { progress: 0 })
        &&& self.trace@.last() == self.status
    }

    /// Opens a hotfix attempt over `files` and reports zero percent.
    pub fn new(files: Vec<UpdateFile>) -> (r: Self)
        ensures
            r.wf(),
            r.files == files,
            r.done == 0,
            r.status == (UpdateStatus::Downloading { progress: 0 }),
            r.trace@ =~= seq![UpdateStatus::Downloading { progress: 0 }],
    {
        let status = UpdateStatus::Downloading { progress: 0 };
        let mut trace: Vec<UpdateStatus> = Vec::new();
        trace.push(UpdateStatus::Downloading { progress: 0 });
        HotfixRun { files, done: 0, status, trace }
    }

    /// The file to fetch next, if downloading is still under way.
    pub fn next_file(&self) -> (r: Option<&UpdateFile>)
        ensures
            r is Some <==> (self.status matches UpdateStatus::Downloading { progress: _ })
                && self.done < self.files@.len(),
            r matches Some(f) ==> *f == self.files@[self.done as int],
    {
        match self.status {
            UpdateStatus::Downloading { progress: _ } => {
                if self.done < self.files.len() {
                    Some(&self.files[self.done])
                } else {
                    None
                }
            },
            _ => None,
        }
    }

    /// Takes the fetched payload for the next file, verifies its digest
    /// against the manifest, and only on a match hands out the write.
    ///
    /// A payload whose digest does not match the manifest hash fails the
    /// attempt with an integrity error, and no write instruction is
    /// returned for it: the file is not written. This holds for every
    /// manifest and every payload.
    pub fn deliver_payload(&mut self, payload: &[u8]) -> (r: Result<HotfixWrite, UpdateError>)
        requires
            old(self).wf(),
            old(self).status matches UpdateStatus::Downloading { progress: _ },
            old(self).done < old(self).files@.len(),
        ensures
            final(self).wf(),
            final(self).files == old(self).files,
            r is Ok <==> payload_matches(payload@, old(self).files@[old(self).done as int].hash@),
            r matches Ok(w) ==> {
                &&& w.path == old(self).files@[old(self).done as int].path
                &&& final(self).done == old(self).done + 1
                &&& w.progress as int == files_percent(
                    final(self).done as int,
                    final(self).files@.len() as int,
                )
                &&& final(self).status == (UpdateStatus::Downloading { progress: w.progress })
                &&& final(self).trace@ == old(self).trace@.push(final(self).status)
            },
            r is Err ==> {
                &&& r->Err_0 is IntegrityError
                &&& final(self).done == old(self).done
                &&& final(self).status is Failed
                &&& final(self).trace@ == old(self).trace@.push(final(self).status)
            },
    {
        let expected = &self.files[self.done];
        if !verify_payload(payload, expected.hash.as_str()) {
            let mut detail = String::from_str("digest mismatch for file: ");
            detail.append(expected.path.as_str());
            self.status = UpdateStatus::Failed(detail.clone());
            self.trace.push(self.status_snapshot());
            return Err(UpdateError::IntegrityError(detail));
        }
        let path = self.files[self.done].path.clone();
        let total = self.files.len();
        self.done = self.done + 1;
        let pct = percent_of_files(self.done, total);
        self.status = UpdateStatus::Downloading { progress: pct };
        self.trace.push(UpdateStatus::Downloading { progress: pct });
        Ok(HotfixWrite { path, progress: pct })
    }

    /// Records that a fetch itself failed; the attempt fails with a
    /// network error carrying the detail.
    pub fn fetch_failed(&mut self, detail: String) -> (r: UpdateError)
        requires
            old(self).wf(),
            !(old(self).status is Completed),
            !(old(self).status is Failed),
        ensures
            final(self).wf(),
            final(self).files == old(self).files,
            final(self).done == old(self).done,
            final(self).status is Failed,
            final(self).trace@ == old(self).trace@.push(final(self).status),
            r is NetworkError,
    {
        self.status = UpdateStatus::Failed(detail.clone());
        self.trace.push(self.status_snapshot());
        UpdateError::NetworkError(detail)
    }

    /// Every file is fetched, verified and written: activation begins.
    pub fn begin_install(&mut self)
        requires
            old(self).wf(),
            old(self).status matches UpdateStatus::Downloading { progress: _ },
            old(self).done == old(self).files@.len(),
        ensures
            final(self).wf(),
            final(self).files == old(self).files,
            final(self).done == old(self).done,
            final(self).status is Installing,
            final(self).trace@ == old(self).trace@.push(UpdateStatus::Installing),
    {
        self.status = UpdateStatus::Installing;
        self.trace.push(UpdateStatus::Installing);
    }

    /// Activation is done: the attempt completed.
    pub fn complete(&mut self)
        requires
            old(self).wf(),
            old(self).status is Installing,
        ensures
            final(self).wf(),
            final(self).files == old(self).files,
            final(self).done == old(self).done,
            final(self).status is Completed,
            final(self).trace@ == old(self).trace@.push(UpdateStatus::Completed),
    {
        self.status = UpdateStatus::Completed;
        self.trace.push(UpdateStatus::Completed);
    }

    /// A copy of the current status, for the history.
    fn status_snapshot(&self) -> (r: UpdateStatus)
        ensures
            r == self.status,
    {
        match &self.status {
            UpdateStatus::Checking => UpdateStatus::Checking,
            UpdateStatus::Available => UpdateStatus::Available,
            UpdateStatus::Downloading { progress } => UpdateStatus::Downloading {
                progress: *progress,
            },
            UpdateStatus::Installing => UpdateStatus::Installing,
            UpdateStatus::Completed => UpdateStatus::Completed,
            UpdateStatus::Failed(s) => UpdateStatus::Failed(s.clone()),
        }
    }
}

/// The whole-percent share of `done` files out of `total`.
fn percent_of_files(done: usize, total: usize) -> (r: u8)
    requires
        done <= total,
    ensures
        r as int == files_percent(done as int, total as int),
        r <= 100,
{
    if total == 0 {
        return 0;
    }
    let pct = ((done as u128) * 100) / (total as u128);
    proof {
        assert(pct as int == (done as int) * 100 / (total as int));
        assert((done as int) * 100 <= (total as int) * 100) by (nonlinear_arith)
            requires
                done as int <= total as int,
        ;
        assert((done as int) * 100 / (total as int) <= (total as int) * 100 / (total as int)) by {
            vstd::arithmetic::div_mod::lemma_div_is_ordered(
                (done as int) * 100,
                (total as int) * 100,
                total as int,
            );
        }
        assert((total as int) * 100 / (total as int) == 100) by {
            vstd::arithmetic::div_mod::lemma_div_by_multiple(100, total as int);
            assert((total as int) * 100 == 100 * (total as int)) by (nonlinear_arith);
        }
        assert(0 <= (done as int) * 100 / (total as int)) by {
            vstd::arithmetic::div_mod::lemma_div_pos_is_pos((done as int) * 100, total as int);
            assert(0 <= (done as int) * 100) by (nonlinear_arith)
                requires
                    0 <= done as int,
            ;
        }
    }
    pct as u8
}

/// Running byte count of a streamed major-update download.
pub struct DownloadProgress {
    /// The declared content length, when the server gave one.
    pub total: Option<u64>,
    /// Bytes received so far.
    pub received: u64,
}

/// The whole-percent share of `received` bytes out of `total`, held to
/// one hundred even when a server sends more than it declared.
pub open spec fn bytes_percent(received: int, total: int) -> int {
    if total <= 0 {
        0
    } else if received * 100 / total > 100 {
        100
    } else {
        received * 100 / total
    }
}

impl DownloadProgress {
    /// A fresh count against the declared content length, if any.
    pub fn new(total: Option<u64>) -> (r: Self)
        ensures
            r.total == total,
            r.received == 0,
    {
        DownloadProgress { total, received: 0 }
    }

    /// Counts one received chunk. Progress is reported only when the
    /// content length is known and positive; otherwise reporting is
    /// omitted rather than fabricated.
    pub fn on_chunk(&mut self, n: u64) -> (r: Option<u8>)
        requires
            old(self).received + n <= u64::MAX,
        ensures
            final(self).total == old(self).total,
            final(self).received == old(self).received + n,
            r is Some <==> (old(self).total matches Some(t) && t > 0),
            r matches Some(p) ==> (old(self).total matches Some(t) && p as int == bytes_percent(
                final(self).received as int,
                t as int,
            )),
    {
        self.received = self.received + n;
        match self.total {
            Some(t) => {
                if t == 0 {
                    None
                } else {
                    let pct_wide = ((self.received as u128) * 100) / (t as u128);
                    proof {
                        assert(pct_wide as int == (self.received as int) * 100 / (t as int));
                        assert(0 <= (self.received as int) * 100 / (t as int)) by {
                            vstd::arithmetic::div_mod::lemma_div_pos_is_pos(
                                (self.received as int) * 100,
                                t as int,
                            );
                            assert(0 <= (self.received as int) * 100) by (nonlinear_arith)
                                requires
                                    0 <= self.received as int,
                            ;
                        }
                    }
                    let pct: u8 = if pct_wide > 100 {
                        100
                    } else {
                        pct_wide as u8
                    };
                    Some(pct)
                }
            },
            None => None,
        }
    }
}

/// The name of the uniquely-stamped temporary file a major update is
/// streamed into.
pub fn major_update_filename(t: &UtcDateTime) -> (r: String)
    requires
        t.wf(),
        0 <= t.year <= 9999,
    ensures
        r@ == "util-update-"@ + stamp_chars(*t) + ".dmg"@,
{
    let mut s = String::from_str("util-update-");
    let stamp = crate::clock::format_stamp(t);
    s.append(stamp.as_str());
    s.append(".dmg");
    proof {
        assert(s@ =~= "util-update-"@ + stamp_chars(*t) + ".dmg"@);
    }
    s
}

} // verus!
