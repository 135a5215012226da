//! The persisted update configuration record and its mutating helpers.
//!
//! Loading and saving the record are plain serialization at the process
//! edge; every rule about the record's content — defaults, the ignored
//! version set, the last-check time — is stated and verified here.

use vstd::prelude::*;
use crate::clock::now_epoch_secs;
use crate::text::{contains_str, count_str, remove_str, vec_contains_str};
use crate::text::{lemma_count_positive, lemma_count_push, lemma_remove_str_counts};

verus! {

/// The persisted update configuration record.
pub struct UpdateConfig {
    /// Whether the periodic background check runs at all.
    pub auto_check_enabled: bool,
    /// Hours between periodic checks.
    pub check_interval_hours: u32,
    /// Whether hotfix payloads are fetched without being asked.
    pub auto_download_hotfix: bool,
    /// Whether fetched hotfixes are applied without being asked.
    pub auto_install_hotfix: bool,
    /// Base address of the update server.
    pub update_server: String,
    /// Release channel the checks follow.
    pub release_channel: String,
    /// When a check last ran, as seconds since the Unix epoch.
    pub last_check_time: Option<i64>,
    /// Versions the user asked to hear no more about.
    pub ignored_versions: Vec<String>,
}

/// The ignored set holds no version twice.
pub open spec fn ignored_wf(items: Seq<String>) -> bool {
    forall|i: int, j: int| #![trigger items[i]@, items[j]@] 0 <= i < j < items.len() ==> items[i]@ != items[j]@
}

/// What ignoring a version does to the set: nothing when it is already
/// there, otherwise it is appended.
pub open spec fn spec_ignore(items: Seq<String>, version: String) -> Seq<String> {
    if contains_str(items, version@) {
        items
    } else {
        items.push(version)
    }
}

impl UpdateConfig {
    /// Every field other than the ignored set and the last-check time is
    /// the same in both records.
    pub open spec fn same_but_ignored(self, other: UpdateConfig) -> bool {
        &&& self.auto_check_enabled == other.auto_check_enabled
        &&& self.check_interval_hours == other.check_interval_hours
        &&& self.auto_download_hotfix == other.auto_download_hotfix
        &&& self.auto_install_hotfix == other.auto_install_hotfix
        &&& self.update_server == other.update_server
        &&& self.release_channel == other.release_channel
        &&& self.last_check_time == other.last_check_time
    }

    /// Records that a check ran just now.
    pub fn update_last_check_time(&mut self)
        ensures
            final(self).last_check_time is Some,
            final(self).same_but_ignored_time(*old(self)),
            final(self).ignored_versions == old(self).ignored_versions,
    {
        self.last_check_time = Some(now_epoch_secs());
    }

    /// Every field other than the last-check time is the same.
    pub open spec fn same_but_ignored_time(self, other: UpdateConfig) -> bool {
        &&& self.auto_check_enabled == other.auto_check_enabled
        &&& self.check_interval_hours == other.check_interval_hours
        &&& self.auto_download_hotfix == other.auto_download_hotfix
        &&& self.auto_install_hotfix == other.auto_install_hotfix
        &&& self.update_server == other.update_server
        &&& self.release_channel == other.release_channel
    }

    /// Adds `version` to the ignored set unless it is already there.
    pub fn ignore_version(&mut self, version: String)
        ensures
            final(self).ignored_versions@ == spec_ignore(old(self).ignored_versions@, version),
            final(self).same_but_ignored(*old(self)),
            ignored_wf(old(self).ignored_versions@) ==> ignored_wf(final(self).ignored_versions@),
    {
        if !vec_contains_str(&self.ignored_versions, version.as_str()) {
            proof {
                if ignored_wf(self.ignored_versions@) {
                    lemma_ignore_push_wf(self.ignored_versions@, version);
                }
            }
            self.ignored_versions.push(version);
        }
    }

    /// Whether `version` is in the ignored set.
    pub fn is_version_ignored(&self, version: &str) -> (r: bool)
        ensures
            r == contains_str(self.ignored_versions@, version@),
    {
        vec_contains_str(&self.ignored_versions, version)
    }

    /// Removes every occurrence of `version` from the ignored set.
    pub fn unignore_version(&mut self, version: &str)
        ensures
            final(self).ignored_versions@ == remove_str(old(self).ignored_versions@, version@),
            !contains_str(final(self).ignored_versions@, version@),
            final(self).same_but_ignored(*old(self)),
    {
        let mut kept: Vec<String> = Vec::new();
        let mut i: usize = 0;
        proof {
            assert(self.ignored_versions@.skip(0) =~= self.ignored_versions@);
        }
        while i < self.ignored_versions.len()
            invariant
                i <= self.ignored_versions@.len(),
                kept@ + remove_str(self.ignored_versions@.skip(i as int), version@) == remove_str(
                    self.ignored_versions@,
                    version@,
                ),
            decreases self.ignored_versions@.len() - i,
        {
            let keep = !crate::text::str_eq(self.ignored_versions[i].as_str(), version);
            proof {
                let tail = self.ignored_versions@.skip(i as int);
                assert(tail[0] == self.ignored_versions@[i as int]);
                assert(tail.skip(1) =~= self.ignored_versions@.skip(i + 1));
            }
            if keep {
                kept.push(self.ignored_versions[i].clone());
                proof {
                    let tail1 = remove_str(self.ignored_versions@.skip(i + 1), version@);
                    assert(kept@ + tail1 =~= remove_str(self.ignored_versions@, version@));
                }
            } else {
                proof {
                    assert(kept@ + remove_str(self.ignored_versions@.skip(i + 1), version@)
                        =~= remove_str(self.ignored_versions@, version@));
                }
            }
            i += 1;
        }
        proof {
            let n = self.ignored_versions@.len() as int;
            assert(self.ignored_versions@.skip(n) =~= Seq::<String>::empty());
            assert(kept@ =~= remove_str(self.ignored_versions@, version@));
            lemma_remove_str_counts(self.ignored_versions@, version@, version@);
            lemma_count_positive(kept@, version@);
        }
        self.ignored_versions = kept;
    }

    /// Empties the ignored set.
    pub fn clear_ignored_versions(&mut self)
        ensures
            final(self).ignored_versions@ == Seq::<String>::empty(),
            final(self).same_but_ignored(*old(self)),
    {
        self.ignored_versions = Vec::new();
    }
}

/// Appending a version that is not yet present keeps the set free of
/// duplicates.
proof fn lemma_ignore_push_wf(items: Seq<String>, version: String)
    requires
        ignored_wf(items),
        !contains_str(items, version@),
    ensures
        ignored_wf(items.push(version)),
{
    let pushed = items.push(version);
    assert forall|i: int, j: int| #![trigger pushed[i]@, pushed[j]@] 0 <= i < j < pushed.len() implies pushed[i]@ != pushed[j]@ by {
        if j < items.len() {
        } else {
            assert(pushed[j] == version);
            assert(pushed[i] == items[i]);
        }
    }
}

/// Ignoring a version is idempotent: ignoring it a second time changes
/// nothing, and a duplicate-free set then holds it exactly once.
pub proof fn lemma_ignore_version_idempotent(before: Seq<String>, v1: String, v2: String)
    requires
        v1@ == v2@,
        ignored_wf(before),
    ensures
        spec_ignore(spec_ignore(before, v1), v2) == spec_ignore(before, v1),
        count_str(spec_ignore(spec_ignore(before, v1), v2), v1@) == 1,
{
    let mid = spec_ignore(before, v1);
    if contains_str(before, v1@) {
        assert(mid == before);
        lemma_count_at_most_one(before, v1@);
        lemma_count_positive(before, v1@);
    } else {
        assert(mid == before.push(v1));
        assert(mid[mid.len() - 1]@ == v2@);
        assert(contains_str(mid, v2@));
        lemma_count_push(before, v1, v1@);
        lemma_count_positive(before, v1@);
    }
}

/// A duplicate-free set holds any version at most once.
proof fn lemma_count_at_most_one(items: Seq<String>, needle: Seq<char>)
    requires
        ignored_wf(items),
    ensures
        count_str(items, needle) <= 1,
    decreases items.len(),
{
    if items.len() == 0 {
    } else {
        let tail = items.skip(1);
        assert forall|i: int, j: int| #![trigger tail[i]@, tail[j]@] 0 <= i < j < tail.len() implies tail[i]@ != tail[j]@ by {
            assert(tail[i] == items[i + 1]);
            assert(tail[j] == items[j + 1]);
        }
        lemma_count_at_most_one(tail, needle);
        if items[0]@ == needle {
            assert forall|k: int| 0 <= k < tail.len() implies tail[k]@ != needle by {
                assert(tail[k] == items[k + 1]);
            }
            lemma_count_positive(tail, needle);
        }
    }
}

impl Default for UpdateConfig {
    /// The built-in first-run record: checks on daily, hotfixes fetched
    /// but not installed unasked, the stable channel of the local
    /// development server, nothing checked yet and nothing ignored.
    fn default() -> (r: Self)
        ensures
            r.auto_check_enabled == true,
            r.check_interval_hours == 24,
            r.auto_download_hotfix == true,
            r.auto_install_hotfix == false,
            r.update_server@ == "http://localhost:3001"@,
            r.release_channel@ == "stable"@,
            r.last_check_time is None,
            r.ignored_versions@ == Seq::<String>::empty(),
            ignored_wf(r.ignored_versions@),
    {
        UpdateConfig {
            auto_check_enabled: true,
            check_interval_hours: 24,
            auto_download_hotfix: true,
            auto_install_hotfix: false,
            update_server: String::from_str("http://localhost:3001"),
            release_channel: String::from_str("stable"),
            last_check_time: None,
            ignored_versions: Vec::new(),
        }
    }
}

} // verus!
