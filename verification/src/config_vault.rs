//! The configuration vault: the tracked configuration documents of one
//! configuration root, its backup directories, and every rule about
//! initializing, backing up, restoring, resetting, exporting and
//! importing them. The surrounding process mirrors each outcome onto
//! the real filesystem; the decisions all stand here.

use vstd::prelude::*;
use crate::clock::{format_stamp, rfc3339_chars, stamp_chars, UtcDateTime};
use crate::errors::UpdateError;
use crate::text::{lemma_lex_total, lemma_lex_trans, lex_le, lex_lt, str_eq, str_le};

verus! {

broadcast use vstd::seq_lib::group_to_multiset_ensures, vstd::multiset::group_multiset_axioms;

/// One tracked configuration document: its file name and its text.
pub struct TrackedFile {
    /// File name within the configuration root.
    pub name: String,
    /// The document text.
    pub content: String,
}

/// One backup directory: its name, when it was last modified, and the
/// copies of the documents it holds.
pub struct BackupDir {
    /// Directory name under the backups root.
    pub name: String,
    /// Modification time, as seconds since the Unix epoch.
    pub mtime: i64,
    /// The document copies inside.
    pub files: Vec<TrackedFile>,
}

/// A configuration root: the live tracked documents, the backup
/// directories, and how many backups retention keeps.
pub struct ConfigRoot {
    /// The tracked documents now present, by name.
    pub files: Vec<TrackedFile>,
    /// The directories under the backups root.
    pub backups: Vec<BackupDir>,
    /// How many prefixed backups retention keeps.
    pub keep_count: usize,
}

/// The text of the document called `name`, if present; first match.
pub open spec fn doc_of(files: Seq<TrackedFile>, name: Seq<char>) -> Option<Seq<char>>
    decreases files.len(),
{
    if files.len() == 0 {
        None
    } else if files[0].name@ == name {
        Some(files[0].content@)
    } else {
        doc_of(files.skip(1), name)
    }
}

/// No two documents share a name.
pub open spec fn files_wf(files: Seq<TrackedFile>) -> bool {
    forall|i: int, j: int|
        #![trigger files[i].name@, files[j].name@]
        0 <= i < j < files.len() ==> files[i].name@ != files[j].name@
}

/// The default document texts written on first run and after a reset.
pub fn default_update_config_text() -> (r: String)
    ensures
        r@ == default_update_config_chars(),
{
    String::from_str(
        "{\n  \"auto_check_enabled\": true,\n  \"check_interval_hours\": 24,\n  \"auto_download_hotfix\": true,\n  \"auto_install_hotfix\": false,\n  \"update_server\": \"http://localhost:3001\",\n  \"release_channel\": \"stable\",\n  \"last_check_time\": null,\n  \"ignored_versions\": []\n}",
    )
}

/// The characters of the built-in update configuration document.
pub open spec fn default_update_config_chars() -> Seq<char> {
    "{\n  \"auto_check_enabled\": true,\n  \"check_interval_hours\": 24,\n  \"auto_download_hotfix\": true,\n  \"auto_install_hotfix\": false,\n  \"update_server\": \"http://localhost:3001\",\n  \"release_channel\": \"stable\",\n  \"last_check_time\": null,\n  \"ignored_versions\": []\n}"@
}

/// The built-in user settings document.
pub fn default_user_settings_text() -> (r: String)
    ensures
        r@ == default_user_settings_chars(),
{
    String::from_str(
        "{\n  \"theme\": \"auto\",\n  \"language\": \"zh-CN\",\n  \"auto_start\": false,\n  \"minimize_to_tray\": true,\n  \"show_notifications\": true,\n  \"window_settings\": {\n    \"remember_size\": true,\n    \"remember_position\": true\n  },\n  \"tools\": {\n    \"remember_last_used\": true,\n    \"favorites\": []\n  }\n}",
    )
}

/// The characters of the built-in user settings document.
pub open spec fn default_user_settings_chars() -> Seq<char> {
    "{\n  \"theme\": \"auto\",\n  \"language\": \"zh-CN\",\n  \"auto_start\": false,\n  \"minimize_to_tray\": true,\n  \"show_notifications\": true,\n  \"window_settings\": {\n    \"remember_size\": true,\n    \"remember_position\": true\n  },\n  \"tools\": {\n    \"remember_last_used\": true,\n    \"favorites\": []\n  }\n}"@
}

/// The built-in tool settings document.
pub fn default_tools_config_text() -> (r: String)
    ensures
        r@ == default_tools_config_chars(),
{
    String::from_str(
        "{\n  \"port_checker\": {\n    \"default_ports\": [80, 443, 8080, 3000, 5000],\n    \"timeout\": 5000\n  },\n  \"whois_lookup\": {\n    \"default_servers\": [\"whois.verisign-grs.com\", \"whois.crsnic.net\"],\n    \"timeout\": 10000\n  },\n  \"qr_code\": {\n    \"default_size\": 200,\n    \"error_correction\": \"M\",\n    \"default_format\": \"png\"\n  }\n}",
    )
}

/// The characters of the built-in tool settings document.
pub open spec fn default_tools_config_chars() -> Seq<char> {
    "{\n  \"port_checker\": {\n    \"default_ports\": [80, 443, 8080, 3000, 5000],\n    \"timeout\": 5000\n  },\n  \"whois_lookup\": {\n    \"default_servers\": [\"whois.verisign-grs.com\", \"whois.crsnic.net\"],\n    \"timeout\": 10000\n  },\n  \"qr_code\": {\n    \"default_size\": 200,\n    \"error_correction\": \"M\",\n    \"default_format\": \"png\"\n  }\n}"@
}

/// A fresh copy of a tracked document, equal to the original.
fn clone_tracked(f: &TrackedFile) -> (r: TrackedFile)
    ensures
        r == *f,
{
    TrackedFile { name: f.name.clone(), content: f.content.clone() }
}

/// A fresh copy of a document list, equal to the original.
fn clone_files(files: &Vec<TrackedFile>) -> (r: Vec<TrackedFile>)
    ensures
        r@ == files@,
{
    let mut out: Vec<TrackedFile> = Vec::new();
    let mut i: usize = 0;
    while i < files.len()
        invariant
            i <= files@.len(),
            out@ =~= files@.subrange(0, i as int),
        decreases files@.len() - i,
    {
        out.push(clone_tracked(&files[i]));
        proof {
            assert(out@ =~= files@.subrange(0, i + 1));
        }
        i += 1;
    }
    proof {
        assert(out@ =~= files@);
    }
    out
}

impl ConfigRoot {
    /// An empty configuration root with the default retention of ten.
    pub fn new() -> (r: Self)
        ensures
            r.files@ == Seq::<TrackedFile>::empty(),
            r.backups@ == Seq::<BackupDir>::empty(),
            r.keep_count == 10,
            files_wf(r.files@),
    {
        ConfigRoot { files: Vec::new(), backups: Vec::new(), keep_count: 10 }
    }

    /// The text of the document called `name`, if present.
    pub fn get_document(&self, name: &str) -> (r: Option<&String>)
        ensures
            r is Some <==> doc_of(self.files@, name@) is Some,
            r matches Some(c) ==> doc_of(self.files@, name@) == Some(c@),
    {
        let mut i: usize = 0;
        proof {
            assert(self.files@.skip(0) =~= self.files@);
        }
        while i < self.files.len()
            invariant
                i <= self.files@.len(),
                doc_of(self.files@.skip(i as int), name@) == doc_of(self.files@, name@),
                forall|j: int| 0 <= j < i ==> #[trigger] self.files@[j].name@ != name@,
            decreases self.files@.len() - i,
        {
            proof {
                let tail = self.files@.skip(i as int);
                assert(tail[0] == self.files@[i as int]);
                assert(tail.skip(1) =~= self.files@.skip(i + 1));
            }
            if str_eq(self.files[i].name.as_str(), name) {
                return Some(&self.files[i].content);
            }
            i += 1;
        }
        proof {
            assert(self.files@.skip(self.files@.len() as int) =~= Seq::<TrackedFile>::empty());
        }
        None
    }

    /// Writes the document called `name`: its text becomes `content`,
    /// and no other document changes.
    pub fn set_document(&mut self, name: &str, content: String)
        requires
            files_wf(old(self).files@),
        ensures
            files_wf(final(self).files@),
            doc_of(final(self).files@, name@) == Some(content@),
            forall|other: Seq<char>|
                other != name@ ==> #[trigger] doc_of(final(self).files@, other) == doc_of(
                    old(self).files@,
                    other,
                ),
            final(self).backups == old(self).backups,
            final(self).keep_count == old(self).keep_count,
    {
        let ghost orig = self.files@;
        let mut i: usize = 0;
        while i < self.files.len()
            invariant
                i <= self.files@.len(),
                self.files@ == orig,
                orig == old(self).files@,
                self.backups == old(self).backups,
                self.keep_count == old(self).keep_count,
                files_wf(orig),
                forall|j: int| 0 <= j < i ==> #[trigger] orig[j].name@ != name@,
            decreases self.files@.len() - i,
        {
            if str_eq(self.files[i].name.as_str(), name) {
                let replacement = TrackedFile { name: String::from_str(name), content };
                let _old_entry = self.files.remove(i);
                self.files.insert(i, replacement);
                proof {
                    let now_files = self.files@;
                    assert(now_files.len() == orig.len());
                    assert(now_files[i as int].name@ == name@);
                    assert forall|j: int|
                        0 <= j < orig.len() && j != i implies now_files[j] == orig[j] by {
                        if j < i {
                            assert(orig.remove(i as int)[j] == orig[j]);
                        } else {
                            assert(orig.remove(i as int)[j - 1] == orig[j]);
                        }
                    }
                    lemma_doc_of_update(orig, now_files, i as int, name@);
                }
                return ;
            }
            i += 1;
        }
        let entry = TrackedFile { name: String::from_str(name), content };
        self.files.push(entry);
        proof {
            lemma_doc_of_push(orig, self.files@, name@);
        }
    }

    /// Removes the document called `name`, if present; no other
    /// document changes.
    pub fn remove_document(&mut self, name: &str)
        requires
            files_wf(old(self).files@),
        ensures
            files_wf(final(self).files@),
            doc_of(final(self).files@, name@) is None,
            forall|other: Seq<char>|
                other != name@ ==> #[trigger] doc_of(final(self).files@, other) == doc_of(
                    old(self).files@,
                    other,
                ),
            final(self).backups == old(self).backups,
            final(self).keep_count == old(self).keep_count,
    {
        let ghost orig = self.files@;
        let mut i: usize = 0;
        while i < self.files.len()
            invariant
                i <= self.files@.len(),
                self.files@ == orig,
                orig == old(self).files@,
                self.backups == old(self).backups,
                self.keep_count == old(self).keep_count,
                files_wf(orig),
                forall|j: int| 0 <= j < i ==> #[trigger] orig[j].name@ != name@,
            decreases self.files@.len() - i,
        {
            if str_eq(self.files[i].name.as_str(), name) {
                let _removed = self.files.remove(i);
                proof {
                    lemma_doc_of_remove(orig, self.files@, i as int, name@);
                }
                return ;
            }
            i += 1;
        }
        proof {
            lemma_doc_of_absent(orig, name@);
        }
    }
}

/// With no duplicate names, the document a name reads is the content
/// of the one entry carrying that name, and a name no entry carries
/// reads as absent.
proof fn lemma_doc_by_index(files: Seq<TrackedFile>, name: Seq<char>)
    requires
        files_wf(files),
    ensures
        doc_of(files, name) is Some <==> (exists|j: int|
            0 <= j < files.len() && #[trigger] files[j].name@ == name),
        forall|j: int|
            0 <= j < files.len() && #[trigger] files[j].name@ == name ==> doc_of(files, name)
                == Some(files[j].content@),
    decreases files.len(),
{
    if files.len() == 0 {
    } else if files[0].name@ == name {
        assert forall|j: int|
            0 <= j < files.len() && #[trigger] files[j].name@ == name implies doc_of(files, name)
            == Some(files[j].content@) by {
            if j != 0 {
                assert(files[0].name@ != files[j].name@);
            }
        }
    } else {
        let tail = files.skip(1);
        assert forall|p: int, q: int|
            #![trigger tail[p].name@, tail[q].name@]
            0 <= p < q < tail.len() implies tail[p].name@ != tail[q].name@ by {
            assert(tail[p] == files[p + 1]);
            assert(tail[q] == files[q + 1]);
        }
        lemma_doc_by_index(tail, name);
        if doc_of(files, name) is Some {
            let j = choose|j: int| 0 <= j < tail.len() && #[trigger] tail[j].name@ == name;
            assert(files[j + 1].name@ == name);
        }
        if exists|j: int| 0 <= j < files.len() && #[trigger] files[j].name@ == name {
            let j = choose|j: int| 0 <= j < files.len() && #[trigger] files[j].name@ == name;
            assert(j != 0);
            assert(tail[j - 1].name@ == name);
        }
        assert forall|j: int|
            0 <= j < files.len() && #[trigger] files[j].name@ == name implies doc_of(files, name)
            == Some(files[j].content@) by {
            assert(j != 0);
            assert(tail[j - 1].name@ == name);
            assert(tail[j - 1].content@ == files[j].content@);
        }
    }
}

/// Replacing the one entry named `name` keeps the list duplicate-free,
/// makes that name read the new text, and leaves every other name as
/// before.
proof fn lemma_doc_of_update(
    orig: Seq<TrackedFile>,
    updated: Seq<TrackedFile>,
    i: int,
    name: Seq<char>,
)
    requires
        files_wf(orig),
        0 <= i < orig.len(),
        orig[i].name@ == name,
        updated.len() == orig.len(),
        updated[i].name@ == name,
        forall|j: int| 0 <= j < orig.len() && j != i ==> updated[j] == orig[j],
    ensures
        files_wf(updated),
        doc_of(updated, name) == Some(updated[i].content@),
        forall|other: Seq<char>|
            other != name ==> #[trigger] doc_of(updated, other) == doc_of(orig, other),
{
    assert forall|p: int, q: int|
        #![trigger updated[p].name@, updated[q].name@]
        0 <= p < q < updated.len() implies updated[p].name@ != updated[q].name@ by {
        if p != i && q != i {
            assert(updated[p] == orig[p]);
            assert(updated[q] == orig[q]);
        } else if p == i {
            assert(updated[q] == orig[q]);
            assert(orig[i].name@ != orig[q].name@);
        } else {
            assert(updated[p] == orig[p]);
            assert(orig[p].name@ != orig[i].name@);
        }
    }
    lemma_doc_by_index(orig, name);
    lemma_doc_by_index(updated, name);
    assert forall|other: Seq<char>| other != name implies #[trigger] doc_of(updated, other)
        == doc_of(orig, other) by {
        lemma_doc_by_index(orig, other);
        lemma_doc_by_index(updated, other);
        if doc_of(orig, other) is Some {
            let j = choose|j: int| 0 <= j < orig.len() && #[trigger] orig[j].name@ == other;
            assert(j != i);
            assert(updated[j].name@ == other);
            assert(updated[j].content@ == orig[j].content@);
        } else {
            assert forall|j: int|
                0 <= j < updated.len() implies #[trigger] updated[j].name@ != other by {
                if j != i {
                    assert(updated[j] == orig[j]);
                }
            }
        }
    }
}

/// Appending a document named `name` to a list that lacks it keeps the
/// list duplicate-free, makes that name read the appended text, and
/// leaves every other name as before.
proof fn lemma_doc_of_push(orig: Seq<TrackedFile>, pushed: Seq<TrackedFile>, name: Seq<char>)
    requires
        files_wf(orig),
        forall|j: int| 0 <= j < orig.len() ==> #[trigger] orig[j].name@ != name,
        pushed.len() == orig.len() + 1,
        pushed[orig.len() as int].name@ == name,
        forall|j: int| 0 <= j < orig.len() ==> pushed[j] == orig[j],
    ensures
        files_wf(pushed),
        doc_of(pushed, name) == Some(pushed[orig.len() as int].content@),
        forall|other: Seq<char>|
            other != name ==> #[trigger] doc_of(pushed, other) == doc_of(orig, other),
{
    let n = orig.len() as int;
    assert forall|p: int, q: int|
        #![trigger pushed[p].name@, pushed[q].name@]
        0 <= p < q < pushed.len() implies pushed[p].name@ != pushed[q].name@ by {
        if q < n {
            assert(pushed[p] == orig[p]);
            assert(pushed[q] == orig[q]);
        } else {
            assert(pushed[p] == orig[p]);
        }
    }
    lemma_doc_by_index(pushed, name);
    assert(pushed[n].name@ == name);
    assert forall|other: Seq<char>| other != name implies #[trigger] doc_of(pushed, other)
        == doc_of(orig, other) by {
        lemma_doc_by_index(orig, other);
        lemma_doc_by_index(pushed, other);
        if doc_of(orig, other) is Some {
            let j = choose|j: int| 0 <= j < orig.len() && #[trigger] orig[j].name@ == other;
            assert(pushed[j].name@ == other);
            assert(pushed[j].content@ == orig[j].content@);
        } else {
            assert forall|j: int|
                0 <= j < pushed.len() implies #[trigger] pushed[j].name@ != other by {
                if j < n {
                    assert(pushed[j] == orig[j]);
                }
            }
        }
    }
}

/// Removing the one entry named `name` keeps the list duplicate-free,
/// makes that name absent, and leaves every other name as before.
proof fn lemma_doc_of_remove(
    orig: Seq<TrackedFile>,
    removed: Seq<TrackedFile>,
    i: int,
    name: Seq<char>,
)
    requires
        files_wf(orig),
        0 <= i < orig.len(),
        orig[i].name@ == name,
        removed == orig.remove(i),
    ensures
        files_wf(removed),
        doc_of(removed, name) is None,
        forall|other: Seq<char>|
            other != name ==> #[trigger] doc_of(removed, other) == doc_of(orig, other),
{
    assert forall|p: int, q: int|
        #![trigger removed[p].name@, removed[q].name@]
        0 <= p < q < removed.len() implies removed[p].name@ != removed[q].name@ by {
        let p0 = if p < i { p } else { p + 1 };
        let q0 = if q < i { q } else { q + 1 };
        assert(removed[p] == orig[p0]);
        assert(removed[q] == orig[q0]);
    }
    lemma_doc_by_index(removed, name);
    assert forall|j: int| 0 <= j < removed.len() implies #[trigger] removed[j].name@ != name by {
        let j0 = if j < i { j } else { j + 1 };
        assert(removed[j] == orig[j0]);
        if j0 != i {
            assert(orig[j0].name@ != orig[i].name@);
        }
    }
    assert forall|other: Seq<char>| other != name implies #[trigger] doc_of(removed, other)
        == doc_of(orig, other) by {
        lemma_doc_by_index(orig, other);
        lemma_doc_by_index(removed, other);
        if doc_of(orig, other) is Some {
            let j = choose|j: int| 0 <= j < orig.len() && #[trigger] orig[j].name@ == other;
            assert(j != i);
            let j1 = if j < i { j } else { j - 1 };
            assert(removed[j1] == orig[j]);
            assert(removed[j1].name@ == other);
        } else {
            assert forall|j: int|
                0 <= j < removed.len() implies #[trigger] removed[j].name@ != other by {
                let j0 = if j < i { j } else { j + 1 };
                assert(removed[j] == orig[j0]);
            }
        }
    }
}

/// A name no entry carries reads as absent.
proof fn lemma_doc_of_absent(files: Seq<TrackedFile>, name: Seq<char>)
    requires
        forall|j: int| 0 <= j < files.len() ==> #[trigger] files[j].name@ != name,
    ensures
        doc_of(files, name) is None,
    decreases files.len(),
{
    if files.len() == 0 {
    } else {
        assert forall|j: int| 0 <= j < files.skip(1).len() implies #[trigger] files.skip(
            1,
        )[j].name@ != name by {
            assert(files.skip(1)[j] == files[j + 1]);
        }
        lemma_doc_of_absent(files.skip(1), name);
    }
}

/// Whether a directory name carries the backup prefix.
pub open spec fn has_backup_prefix(name: Seq<char>) -> bool {
    name.len() >= 14 && name.subrange(0, 14) == "config_backup_"@
}

/// The directory name of a backup taken at `t`.
pub open spec fn backup_name_chars(t: UtcDateTime) -> Seq<char> {
    "config_backup_"@ + stamp_chars(t)
}

/// How many directories carry the backup prefix.
pub open spec fn prefixed_count(dirs: Seq<BackupDir>) -> int
    decreases dirs.len(),
{
    if dirs.len() == 0 {
        0
    } else {
        (if has_backup_prefix(dirs[0].name@) {
            1int
        } else {
            0int
        }) + prefixed_count(dirs.skip(1))
    }
}

/// The directories that do not carry the backup prefix, in order.
pub open spec fn non_prefixed(dirs: Seq<BackupDir>) -> Seq<BackupDir>
    decreases dirs.len(),
{
    if dirs.len() == 0 {
        Seq::empty()
    } else if has_backup_prefix(dirs[0].name@) {
        non_prefixed(dirs.skip(1))
    } else {
        seq![dirs[0]] + non_prefixed(dirs.skip(1))
    }
}

/// Whether `name` carries the backup prefix.
fn is_prefixed(name: &str) -> (r: bool)
    ensures
        r == has_backup_prefix(name@),
{
    let n = name.unicode_len();
    if n < 14 {
        return false;
    }
    let head = name.substring_char(0, 14);
    str_eq(head, "config_backup_")
}

/// Counts the directories that carry the backup prefix.
fn count_prefixed(dirs: &Vec<BackupDir>) -> (r: usize)
    ensures
        r as int == prefixed_count(dirs@),
        r <= dirs@.len(),
{
    let mut cnt: usize = 0;
    let mut i: usize = 0;
    proof {
        assert(dirs@.skip(0) =~= dirs@);
        lemma_prefixed_count_bounds(dirs@);
    }
    while i < dirs.len()
        invariant
            i <= dirs@.len(),
            cnt <= i,
            cnt + prefixed_count(dirs@.skip(i as int)) == prefixed_count(dirs@),
        decreases dirs@.len() - i,
    {
        proof {
            let tail = dirs@.skip(i as int);
            assert(tail[0] == dirs@[i as int]);
            assert(tail.skip(1) =~= dirs@.skip(i + 1));
        }
        if is_prefixed(dirs[i].name.as_str()) {
            cnt += 1;
        }
        i += 1;
    }
    proof {
        assert(dirs@.skip(dirs@.len() as int) =~= Seq::<BackupDir>::empty());
    }
    cnt
}

/// The prefixed-directory count is between zero and the length.
proof fn lemma_prefixed_count_bounds(dirs: Seq<BackupDir>)
    ensures
        0 <= prefixed_count(dirs) <= dirs.len(),
    decreases dirs.len(),
{
    if dirs.len() == 0 {
    } else {
        lemma_prefixed_count_bounds(dirs.skip(1));
    }
}

/// A list with no prefixed directory counts zero of them.
proof fn lemma_prefixed_count_zero(dirs: Seq<BackupDir>)
    requires
        forall|j: int| 0 <= j < dirs.len() ==> !has_backup_prefix(#[trigger] dirs[j].name@),
    ensures
        prefixed_count(dirs) == 0,
    decreases dirs.len(),
{
    if dirs.len() == 0 {
    } else {
        assert forall|j: int|
            0 <= j < dirs.skip(1).len() implies !has_backup_prefix(
            #[trigger] dirs.skip(1)[j].name@,
        ) by {
            assert(dirs.skip(1)[j] == dirs[j + 1]);
        }
        lemma_prefixed_count_zero(dirs.skip(1));
    }
}

/// A list holding a prefixed directory counts at least one.
proof fn lemma_prefixed_count_positive(dirs: Seq<BackupDir>, i: int)
    requires
        0 <= i < dirs.len(),
        has_backup_prefix(dirs[i].name@),
    ensures
        prefixed_count(dirs) > 0,
    decreases dirs.len(),
{
    lemma_prefixed_count_bounds(dirs.skip(1));
    if i == 0 {
    } else {
        assert(dirs.skip(1)[i - 1] == dirs[i]);
        lemma_prefixed_count_positive(dirs.skip(1), i - 1);
    }
}

/// Removing one directory lowers the prefixed count by one when it is
/// prefixed and not at all otherwise, and keeps the non-prefixed
/// directories exactly when it is prefixed.
proof fn lemma_remove_dir(dirs: Seq<BackupDir>, i: int)
    requires
        0 <= i < dirs.len(),
    ensures
        prefixed_count(dirs.remove(i)) == prefixed_count(dirs) - (if has_backup_prefix(
            dirs[i].name@,
        ) {
            1int
        } else {
            0int
        }),
        has_backup_prefix(dirs[i].name@) ==> non_prefixed(dirs.remove(i)) == non_prefixed(dirs),
    decreases dirs.len(),
{
    if i == 0 {
        assert(dirs.remove(0) =~= dirs.skip(1));
    } else {
        let tail = dirs.skip(1);
        assert(dirs.remove(i).skip(1) =~= tail.remove(i - 1));
        assert(dirs.remove(i)[0] == dirs[0]);
        assert(tail[i - 1] == dirs[i]);
        lemma_remove_dir(tail, i - 1);
    }
}

/// What one backup call does to the backup directories: a fresh
/// prefixed directory stamped `t` and modified at `now_secs`, holding a
/// copy of the live documents, is added; retention then deletes the
/// least recently modified prefixed directories beyond the keep count,
/// touching nothing else. While under the keep count, the directories
/// grow by exactly the new one.
pub open spec fn backup_outcome(
    old_files: Seq<TrackedFile>,
    old_backups: Seq<BackupDir>,
    keep: int,
    t: UtcDateTime,
    now_secs: i64,
    new_backups: Seq<BackupDir>,
) -> bool {
    &&& prefixed_count(new_backups) == if prefixed_count(old_backups) + 1 <= keep {
        prefixed_count(old_backups) + 1
    } else {
        keep
    }
    &&& prefixed_count(old_backups) + 1 <= keep ==> {
        &&& new_backups.len() == old_backups.len() + 1
        &&& new_backups.subrange(0, old_backups.len() as int) == old_backups
        &&& new_backups.last().name@ == backup_name_chars(t)
        &&& new_backups.last().mtime == now_secs
        &&& new_backups.last().files@ == old_files
    }
    &&& exists|nd: BackupDir|
        {
            &&& #[trigger] nd.name@ == backup_name_chars(t)
            &&& nd.mtime == now_secs
            &&& nd.files@ == old_files
            &&& new_backups.to_multiset().subset_of(old_backups.push(nd).to_multiset())
            &&& non_prefixed(new_backups) == non_prefixed(old_backups)
            &&& forall|d: BackupDir, j: int|
                #![trigger old_backups.push(nd).to_multiset().count(d), new_backups[j]]
                old_backups.push(nd).to_multiset().count(d) > new_backups.to_multiset().count(d)
                    && 0 <= j < new_backups.len() && has_backup_prefix(new_backups[j].name@)
                    ==> has_backup_prefix(d.name@) && d.mtime <= new_backups[j].mtime
        }
}

/// Every member of the list is counted by its multiset.
proof fn lemma_seq_contains_to_multiset(dirs: Seq<BackupDir>, i: int)
    requires
        0 <= i < dirs.len(),
    ensures
        dirs.to_multiset().count(dirs[i]) > 0,
{
    broadcast use vstd::seq_lib::group_to_multiset_ensures;

    assert(dirs.contains(dirs[i]));
}

impl ConfigRoot {
    /// The index of the least recently modified prefixed backup, when
    /// one exists: prefixed, and no prefixed directory is older.
    fn min_prefixed_index(&self) -> (r: Option<usize>)
        ensures
            r is Some <==> prefixed_count(self.backups@) > 0,
            r matches Some(m) ==> {
                &&& m < self.backups@.len()
                &&& has_backup_prefix(self.backups@[m as int].name@)
                &&& forall|j: int|
                    0 <= j < self.backups@.len() && has_backup_prefix(
                        #[trigger] self.backups@[j].name@,
                    ) ==> self.backups@[m as int].mtime <= self.backups@[j].mtime
            },
    {
        let mut best: Option<usize> = None;
        let mut i: usize = 0;
        while i < self.backups.len()
            invariant
                i <= self.backups@.len(),
                best is None ==> forall|j: int|
                    0 <= j < i ==> !has_backup_prefix(#[trigger] self.backups@[j].name@),
                best matches Some(m) ==> {
                    &&& m < i
                    &&& has_backup_prefix(self.backups@[m as int].name@)
                    &&& forall|j: int|
                        0 <= j < i && has_backup_prefix(#[trigger] self.backups@[j].name@)
                            ==> self.backups@[m as int].mtime <= self.backups@[j].mtime
                },
            decreases self.backups@.len() - i,
        {
            if is_prefixed(self.backups[i].name.as_str()) {
                match best {
                    None => {
                        best = Some(i);
                    },
                    Some(m) => {
                        if self.backups[i].mtime < self.backups[m].mtime {
                            best = Some(i);
                        }
                    },
                }
            }
            i += 1;
        }
        proof {
            if best is None {
                lemma_prefixed_count_zero(self.backups@);
            } else {
                let m = best->Some_0 as int;
                lemma_prefixed_count_positive(self.backups@, m);
            }
        }
        best
    }

    /// Deletes the least recently modified prefixed backups until at
    /// most the keep count remain. Non-prefixed directories are kept
    /// exactly; nothing is added; and every deleted backup was no newer
    /// than any kept one.
    fn cleanup_old_backups(&mut self)
        ensures
            final(self).files == old(self).files,
            final(self).keep_count == old(self).keep_count,
            prefixed_count(final(self).backups@) == if prefixed_count(old(self).backups@)
                <= old(self).keep_count as int {
                prefixed_count(old(self).backups@)
            } else {
                old(self).keep_count as int
            },
            prefixed_count(old(self).backups@) <= old(self).keep_count as int ==> final(self).backups@ == old(self).backups@,
            non_prefixed(final(self).backups@) == non_prefixed(old(self).backups@),
            final(self).backups@.to_multiset().subset_of(old(self).backups@.to_multiset()),
            forall|d: BackupDir, j: int|
                #![trigger old(self).backups@.to_multiset().count(d), final(self).backups@[j]]
                old(self).backups@.to_multiset().count(d) > final(self).backups@.to_multiset().count(d) && 0 <= j < final(self).backups@.len()
                    && has_backup_prefix(final(self).backups@[j].name@) ==> has_backup_prefix(
                    d.name@,
                ) && d.mtime <= final(self).backups@[j].mtime,
    {
        let ghost orig = self.backups@;
        loop
            invariant
                self.files == old(self).files,
                self.keep_count == old(self).keep_count,
                non_prefixed(self.backups@) == non_prefixed(orig),
                orig == old(self).backups@,
                self.backups@.to_multiset().subset_of(orig.to_multiset()),
                prefixed_count(orig) <= old(self).keep_count as int ==> self.backups@ == orig,
                prefixed_count(self.backups@) >= if prefixed_count(orig) <= old(self).keep_count as int {
                    prefixed_count(orig)
                } else {
                    old(self).keep_count as int
                },
                prefixed_count(self.backups@) <= prefixed_count(orig),
                forall|d: BackupDir, j: int|
                    #![trigger orig.to_multiset().count(d), self.backups@[j]]
                    orig.to_multiset().count(d) > self.backups@.to_multiset().count(d) && 0 <= j
                        < self.backups@.len() && has_backup_prefix(self.backups@[j].name@)
                        ==> has_backup_prefix(d.name@) && d.mtime <= self.backups@[j].mtime,
            decreases prefixed_count(self.backups@),
        {
            let count = count_prefixed(&self.backups);
            if count <= self.keep_count {
                proof {
                    lemma_prefixed_count_bounds(orig);
                }
                return ;
            }
            let m = match self.min_prefixed_index() {
                Some(m) => m,
                None => {
                    return ;
                },
            };
            let ghost before = self.backups@;
            let ghost victim = self.backups@[m as int];
            let _removed = self.backups.remove(m);
            proof {
                lemma_remove_dir(before, m as int);
                lemma_seq_contains_to_multiset(before, m as int);
                assert(before.remove(m as int).to_multiset() =~= before.to_multiset().remove(
                    victim,
                ));
                assert(self.backups@.to_multiset().subset_of(orig.to_multiset()));
                assert forall|d: BackupDir, j: int|
                    #![trigger orig.to_multiset().count(d), self.backups@[j]]
                    orig.to_multiset().count(d) > self.backups@.to_multiset().count(d) && 0 <= j
                        < self.backups@.len() && has_backup_prefix(
                        self.backups@[j].name@,
                    ) implies has_backup_prefix(d.name@) && d.mtime
                    <= self.backups@[j].mtime by {
                    let j0 = if j < m { j } else { j + 1 };
                    assert(self.backups@[j] == before[j0]);
                    if orig.to_multiset().count(d) > before.to_multiset().count(d) {
                    } else {
                        assert(before.to_multiset().count(d) > self.backups@.to_multiset().count(
                            d,
                        ));
                        assert(d == victim);
                    }
                }
            }
        }
    }

    /// Takes a backup: a fresh prefixed directory named with the stamp
    /// of `now`, modified at `now_secs`, holding a copy of every live
    /// document; then retention deletes the least recently modified
    /// prefixed backups beyond the keep count. While under the keep
    /// count, the listing grows by exactly the new directory.
    pub fn backup_config(&mut self, now: &UtcDateTime, now_secs: i64)
        requires
            now.wf(),
            0 <= now.year <= 9999,
        ensures
            final(self).files == old(self).files,
            final(self).keep_count == old(self).keep_count,
            backup_outcome(
                old(self).files@,
                old(self).backups@,
                old(self).keep_count as int,
                *now,
                now_secs,
                final(self).backups@,
            ),
    {
        let mut dir_name = String::from_str("config_backup_");
        let stamp = format_stamp(now);
        dir_name.append(stamp.as_str());
        let copies = clone_files(&self.files);
        let new_dir = BackupDir { name: dir_name, mtime: now_secs, files: copies };
        let ghost nd = new_dir;
        let ghost before_push = self.backups@;
        self.backups.push(new_dir);
        proof {
            reveal_strlit("config_backup_");
            assert(nd.name@ =~= backup_name_chars(*now));
            assert(has_backup_prefix(nd.name@)) by {
                assert("config_backup_"@.len() == 14);
                assert(nd.name@.subrange(0, 14) =~= "config_backup_"@);
            }
            lemma_push_prefixed(before_push, nd);
        }
        let ghost after_push = self.backups@;
        self.cleanup_old_backups();
        proof {
            assert(prefixed_count(after_push) == prefixed_count(before_push) + 1);
            assert(non_prefixed(after_push) == non_prefixed(before_push));
            if prefixed_count(before_push) + 1 <= self.keep_count as int {
                assert(self.backups@ == after_push);
                assert(after_push.subrange(0, before_push.len() as int) =~= before_push);
            }
            assert(nd.name@ == backup_name_chars(*now) && nd.mtime == now_secs && nd.files@ == old(self).files@ && self.backups@.to_multiset().subset_of(old(self).backups@.push(nd).to_multiset())
                && non_prefixed(self.backups@) == non_prefixed(old(self).backups@) && forall|
                d: BackupDir,
                j: int,
            |
                #![trigger old(self).backups@.push(nd).to_multiset().count(d), self.backups@[j]]
                old(self).backups@.push(nd).to_multiset().count(d)
                    > self.backups@.to_multiset().count(d) && 0 <= j < self.backups@.len()
                    && has_backup_prefix(self.backups@[j].name@) ==> has_backup_prefix(d.name@)
                    && d.mtime <= self.backups@[j].mtime);
        }
    }
}

/// Appending a prefixed directory raises the prefixed count by one and
/// keeps the non-prefixed directories.
proof fn lemma_push_prefixed(dirs: Seq<BackupDir>, nd: BackupDir)
    requires
        has_backup_prefix(nd.name@),
    ensures
        prefixed_count(dirs.push(nd)) == prefixed_count(dirs) + 1,
        non_prefixed(dirs.push(nd)) == non_prefixed(dirs),
    decreases dirs.len(),
{
    if dirs.len() == 0 {
        assert(dirs.push(nd)[0] == nd);
        assert(dirs.push(nd).skip(1) =~= Seq::<BackupDir>::empty());
        assert(prefixed_count(dirs.push(nd).skip(1)) == 0);
        assert(non_prefixed(dirs.push(nd).skip(1)) =~= Seq::<BackupDir>::empty());
        assert(non_prefixed(dirs) =~= Seq::<BackupDir>::empty());
        assert(non_prefixed(dirs.push(nd)) =~= non_prefixed(dirs));
    } else {
        assert(dirs.push(nd)[0] == dirs[0]);
        assert(dirs.push(nd).skip(1) =~= dirs.skip(1).push(nd));
        lemma_push_prefixed(dirs.skip(1), nd);
        assert(prefixed_count(dirs.push(nd).skip(1)) == prefixed_count(dirs.skip(1)) + 1);
        assert(non_prefixed(dirs.push(nd).skip(1)) =~= non_prefixed(dirs.skip(1)));
        if has_backup_prefix(dirs[0].name@) {
            assert(non_prefixed(dirs.push(nd)) =~= non_prefixed(dirs));
        } else {
            assert(non_prefixed(dirs.push(nd)) =~= seq![dirs[0]] + non_prefixed(
                dirs.skip(1),
            ));
            assert(non_prefixed(dirs.push(nd)) =~= non_prefixed(dirs));
        }
    }
}

/// The four tracked document names are pairwise distinct.
proof fn lemma_tracked_names_distinct()
    ensures
        "update-config.json"@ != "user-settings.json"@,
        "update-config.json"@ != "tools-config.json"@,
        "update-config.json"@ != "update-history.json"@,
        "user-settings.json"@ != "tools-config.json"@,
        "user-settings.json"@ != "update-history.json"@,
        "tools-config.json"@ != "update-history.json"@,
{
    reveal_strlit("update-config.json");
    reveal_strlit("user-settings.json");
    reveal_strlit("tools-config.json");
    reveal_strlit("update-history.json");
    assert("update-config.json"@[1] == 'p' && "user-settings.json"@[1] == 's');
    assert("update-config.json"@[0] == 'u' && "tools-config.json"@[0] == 't');
    assert("update-config.json"@.len() == 18 && "update-history.json"@.len() == 19);
    assert("user-settings.json"@[0] == 'u');
    assert("user-settings.json"@.len() == 18);
    assert("tools-config.json"@.len() == 17);
}

/// The label text up to a human-readable suffix: everything before the
/// first space-and-parenthesis pair, or all of it when none occurs.
pub open spec fn strip_label(s: Seq<char>) -> Seq<char>
    decreases s.len(),
{
    if s.len() < 2 {
        s
    } else if s[0] == ' ' && s[1] == '(' {
        Seq::empty()
    } else {
        seq![s[0]] + strip_label(s.skip(1))
    }
}

/// The directory a label resolves to: the label without its suffix,
/// prefixed when it is a bare stamp.
pub open spec fn resolved_name(label: Seq<char>) -> Seq<char> {
    if has_backup_prefix(strip_label(label)) {
        strip_label(label)
    } else {
        "config_backup_"@ + strip_label(label)
    }
}

/// The files of the first backup directory called `name`, if any.
pub open spec fn backup_files_of(dirs: Seq<BackupDir>, name: Seq<char>) -> Option<
    Seq<TrackedFile>,
>
    decreases dirs.len(),
{
    if dirs.len() == 0 {
        None
    } else if dirs[0].name@ == name {
        Some(dirs[0].files@)
    } else {
        backup_files_of(dirs.skip(1), name)
    }
}

/// A restored document: the backup's copy when it holds one, else the
/// live text untouched.
pub open spec fn restored_doc(backup: Option<Seq<char>>, live: Option<Seq<char>>) -> Option<
    Seq<char>,
> {
    if backup is Some {
        backup
    } else {
        live
    }
}

/// Cuts a label before its human-readable suffix.
fn strip_label_exec(label: &str) -> (r: String)
    ensures
        r@ == strip_label(label@),
{
    let n = label.unicode_len();
    let mut i: usize = 0;
    proof {
        assert(label@.skip(0) =~= label@);
    }
    while i < n
        invariant
            n == label@.len(),
            i <= n,
            strip_label(label@) == label@.subrange(0, i as int) + strip_label(
                label@.skip(i as int),
            ),
            forall|k: int|
                0 <= k < i && k + 1 < n ==> !(label@[k] == ' ' && #[trigger] label@[k + 1] == '('),
        decreases n - i,
    {
        let c = label.get_char(i);
        if c == ' ' && i + 1 < n {
            if label.get_char(i + 1) == '(' {
                proof {
                    lemma_strip_label_cut(label@, i as int);
                }
                let head = label.substring_char(0, i);
                return head.to_owned();
            }
        }
        proof {
            let tail = label@.skip(i as int);
            assert(tail[0] == label@[i as int]);
            if tail.len() >= 2 {
                assert(tail[1] == label@[i + 1]);
            }
            assert(tail.skip(1) =~= label@.skip(i + 1));
            assert(label@.subrange(0, i + 1) =~= label@.subrange(0, i as int) + seq![
                label@[i as int],
            ]);
            if i + 1 < n {
                assert(!(label@[i as int] == ' ' && label@[i + 1] == '(')) by {
                    if c == ' ' {
                        assert(label@[i + 1] != '(');
                    }
                }
            }
        }
        i += 1;
    }
    proof {
        assert(label@.skip(n as int) =~= Seq::<char>::empty());
        assert(label@.subrange(0, n as int) =~= label@);
        assert(strip_label(label@) == label@);
    }
    label.to_owned()
}

/// Where the suffix pattern first occurs, the stripped label is the
/// text before it.
proof fn lemma_strip_label_cut(s: Seq<char>, i: int)
    requires
        0 <= i,
        i + 1 < s.len(),
        s[i] == ' ',
        s[i + 1] == '(',
        forall|k: int| 0 <= k < i && k + 1 < s.len() ==> !(s[k] == ' ' && #[trigger] s[k + 1] == '('),
        strip_label(s) == s.subrange(0, i) + strip_label(s.skip(i)),
    ensures
        strip_label(s) == s.subrange(0, i),
{
    let tail = s.skip(i);
    assert(tail.len() >= 2);
    assert(tail[0] == ' ');
    assert(tail[1] == '(');
    assert(strip_label(tail) == Seq::<char>::empty());
    assert(strip_label(s) =~= s.subrange(0, i));
}

/// A freshly cloned copy of the text of the document called `name`.
fn get_file_content(files: &Vec<TrackedFile>, name: &str) -> (r: Option<String>)
    ensures
        r is Some <==> doc_of(files@, name@) is Some,
        r matches Some(c) ==> doc_of(files@, name@) == Some(c@),
{
    let mut i: usize = 0;
    proof {
        assert(files@.skip(0) =~= files@);
    }
    while i < files.len()
        invariant
            i <= files@.len(),
            doc_of(files@.skip(i as int), name@) == doc_of(files@, name@),
        decreases files@.len() - i,
    {
        proof {
            let tail = files@.skip(i as int);
            assert(tail[0] == files@[i as int]);
            assert(tail.skip(1) =~= files@.skip(i + 1));
        }
        if str_eq(files[i].name.as_str(), name) {
            return Some(files[i].content.clone());
        }
        i += 1;
    }
    proof {
        assert(files@.skip(files@.len() as int) =~= Seq::<TrackedFile>::empty());
    }
    None
}

impl ConfigRoot {
    /// The index of the first backup directory called `name`, if any.
    fn find_backup(&self, name: &str) -> (r: Option<usize>)
        ensures
            r is Some <==> backup_files_of(self.backups@, name@) is Some,
            r matches Some(i) ==> i < self.backups@.len() && self.backups@[i as int].name@ == name@
                && backup_files_of(self.backups@, name@) == Some(self.backups@[i as int].files@),
    {
        let mut i: usize = 0;
        proof {
            assert(self.backups@.skip(0) =~= self.backups@);
        }
        while i < self.backups.len()
            invariant
                i <= self.backups@.len(),
                backup_files_of(self.backups@.skip(i as int), name@) == backup_files_of(
                    self.backups@,
                    name@,
                ),
            decreases self.backups@.len() - i,
        {
            proof {
                let tail = self.backups@.skip(i as int);
                assert(tail[0] == self.backups@[i as int]);
                assert(tail.skip(1) =~= self.backups@.skip(i + 1));
            }
            if str_eq(self.backups[i].name.as_str(), name) {
                return Some(i);
            }
            i += 1;
        }
        proof {
            assert(self.backups@.skip(self.backups@.len() as int) =~= Seq::<BackupDir>::empty());
        }
        None
    }

    /// Restores a backup named by a listing label: the label's suffix is
    /// stripped and the bare stamp prefixed before lookup. A label that
    /// resolves to no directory is refused with `NotFound` and nothing
    /// changes. Otherwise every tracked document the backup holds is
    /// copied over the live one, and documents absent from the backup
    /// are left untouched.
    pub fn restore_config_backup(&mut self, backup_name: &str) -> (r: Result<(), UpdateError>)
        requires
            files_wf(old(self).files@),
        ensures
            files_wf(final(self).files@),
            final(self).backups == old(self).backups,
            final(self).keep_count == old(self).keep_count,
            r is Ok <==> backup_files_of(old(self).backups@, resolved_name(backup_name@)) is Some,
            r is Err ==> *final(self) == *old(self) && r->Err_0 is NotFound,
            r is Ok ==> (backup_files_of(old(self).backups@, resolved_name(backup_name@))
                matches Some(bfiles) && {
                &&& doc_of(final(self).files@, "update-config.json"@) == restored_doc(
                    doc_of(bfiles, "update-config.json"@),
                    doc_of(old(self).files@, "update-config.json"@),
                )
                &&& doc_of(final(self).files@, "user-settings.json"@) == restored_doc(
                    doc_of(bfiles, "user-settings.json"@),
                    doc_of(old(self).files@, "user-settings.json"@),
                )
                &&& doc_of(final(self).files@, "tools-config.json"@) == restored_doc(
                    doc_of(bfiles, "tools-config.json"@),
                    doc_of(old(self).files@, "tools-config.json"@),
                )
                &&& doc_of(final(self).files@, "update-history.json"@) == restored_doc(
                    doc_of(bfiles, "update-history.json"@),
                    doc_of(old(self).files@, "update-history.json"@),
                )
                &&& forall|other: Seq<char>|
                    other != "update-config.json"@ && other != "user-settings.json"@ && other
                        != "tools-config.json"@ && other != "update-history.json"@
                        ==> #[trigger] doc_of(final(self).files@, other) == doc_of(
                        old(self).files@,
                        other,
                    )
            }),
    {
        let stripped = strip_label_exec(backup_name);
        let dir_name = if is_prefixed(stripped.as_str()) {
            stripped
        } else {
            let mut with_prefix = String::from_str("config_backup_");
            with_prefix.append(stripped.as_str());
            proof {
                assert(with_prefix@ =~= "config_backup_"@ + strip_label(backup_name@));
            }
            with_prefix
        };
        proof {
            assert(dir_name@ == resolved_name(backup_name@));
        }
        let idx = match self.find_backup(dir_name.as_str()) {
            Some(i) => i,
            None => {
                return Err(UpdateError::NotFound(dir_name));
            },
        };
        let c_update = get_file_content(&self.backups[idx].files, "update-config.json");
        let c_user = get_file_content(&self.backups[idx].files, "user-settings.json");
        let c_tools = get_file_content(&self.backups[idx].files, "tools-config.json");
        let c_history = get_file_content(&self.backups[idx].files, "update-history.json");
        proof {
            lemma_tracked_names_distinct();
        }
        if let Some(c) = c_update {
            self.set_document("update-config.json", c);
        }
        if let Some(c) = c_user {
            self.set_document("user-settings.json", c);
        }
        if let Some(c) = c_tools {
            self.set_document("tools-config.json", c);
        }
        if let Some(c) = c_history {
            self.set_document("update-history.json", c);
        }
        Ok(())
    }

    /// Resets every configuration document to its built-in default —
    /// after taking a backup first, so the reset is reversible. The
    /// update history document is not touched.
    pub fn reset_all_configs(&mut self, now: &UtcDateTime, now_secs: i64)
        requires
            files_wf(old(self).files@),
            now.wf(),
            0 <= now.year <= 9999,
        ensures
            files_wf(final(self).files@),
            final(self).keep_count == old(self).keep_count,
            backup_outcome(
                old(self).files@,
                old(self).backups@,
                old(self).keep_count as int,
                *now,
                now_secs,
                final(self).backups@,
            ),
            doc_of(final(self).files@, "update-config.json"@) == Some(
                default_update_config_chars(),
            ),
            doc_of(final(self).files@, "user-settings.json"@) == Some(
                default_user_settings_chars(),
            ),
            doc_of(final(self).files@, "tools-config.json"@) == Some(default_tools_config_chars()),
            forall|other: Seq<char>|
                other != "update-config.json"@ && other != "user-settings.json"@ && other
                    != "tools-config.json"@ ==> #[trigger] doc_of(final(self).files@, other)
                    == doc_of(old(self).files@, other),
    {
        self.backup_config(now, now_secs);
        proof {
            lemma_tracked_names_distinct();
        }
        self.remove_document("update-config.json");
        self.remove_document("user-settings.json");
        self.remove_document("tools-config.json");
        self.set_document("update-config.json", default_update_config_text());
        self.set_document("user-settings.json", default_user_settings_text());
        self.set_document("tools-config.json", default_tools_config_text());
    }

    /// Creates any of the three configuration documents that is absent,
    /// with its built-in default text; present documents are untouched.
    pub fn initialize_app_config(&mut self)
        requires
            files_wf(old(self).files@),
        ensures
            files_wf(final(self).files@),
            final(self).backups == old(self).backups,
            final(self).keep_count == old(self).keep_count,
            doc_of(final(self).files@, "update-config.json"@) == restored_doc(
                doc_of(old(self).files@, "update-config.json"@),
                Some(default_update_config_chars()),
            ),
            doc_of(final(self).files@, "user-settings.json"@) == restored_doc(
                doc_of(old(self).files@, "user-settings.json"@),
                Some(default_user_settings_chars()),
            ),
            doc_of(final(self).files@, "tools-config.json"@) == restored_doc(
                doc_of(old(self).files@, "tools-config.json"@),
                Some(default_tools_config_chars()),
            ),
            forall|other: Seq<char>|
                other != "update-config.json"@ && other != "user-settings.json"@ && other
                    != "tools-config.json"@ ==> #[trigger] doc_of(final(self).files@, other)
                    == doc_of(old(self).files@, other),
    {
        proof {
            lemma_tracked_names_distinct();
        }
        if self.get_document("update-config.json").is_none() {
            self.set_document("update-config.json", default_update_config_text());
        }
        if self.get_document("user-settings.json").is_none() {
            self.set_document("user-settings.json", default_user_settings_text());
        }
        if self.get_document("tools-config.json").is_none() {
            self.set_document("tools-config.json", default_tools_config_text());
        }
    }
}

/// One exported configuration bundle: the current document texts plus
/// the export metadata. The surrounding process writes it as one JSON
/// document and reads one back into this shape.
pub struct ConfigExport {
    /// The update configuration document, when present.
    pub update_config: Option<String>,
    /// The user settings document, when present.
    pub user_settings: Option<String>,
    /// The tool settings document, when present.
    pub tools_config: Option<String>,
    /// Format version of the bundle.
    pub export_version: String,
    /// When the bundle was made.
    pub export_time: String,
    /// The application version that made it.
    pub app_version: String,
}

/// The characters of an optional text.
pub open spec fn opt_chars(o: Option<String>) -> Option<Seq<char>> {
    match o {
        Some(s) => Some(s@),
        None => None,
    }
}

/// Whether a bundle carries exactly the documents of `files`.
pub open spec fn export_matches(files: Seq<TrackedFile>, e: ConfigExport) -> bool {
    &&& opt_chars(e.update_config) == doc_of(files, "update-config.json"@)
    &&& opt_chars(e.user_settings) == doc_of(files, "user-settings.json"@)
    &&& opt_chars(e.tools_config) == doc_of(files, "tools-config.json"@)
}

/// What importing a bundle leaves in the live documents: each document
/// present in the bundle overwrites its live counterpart, each absent
/// one leaves it untouched, and every other document is kept.
pub open spec fn import_applies(
    before: Seq<TrackedFile>,
    e: ConfigExport,
    after: Seq<TrackedFile>,
) -> bool {
    &&& doc_of(after, "update-config.json"@) == restored_doc(
        opt_chars(e.update_config),
        doc_of(before, "update-config.json"@),
    )
    &&& doc_of(after, "user-settings.json"@) == restored_doc(
        opt_chars(e.user_settings),
        doc_of(before, "user-settings.json"@),
    )
    &&& doc_of(after, "tools-config.json"@) == restored_doc(
        opt_chars(e.tools_config),
        doc_of(before, "tools-config.json"@),
    )
    &&& forall|other: Seq<char>|
        other != "update-config.json"@ && other != "user-settings.json"@ && other
            != "tools-config.json"@ ==> #[trigger] doc_of(after, other) == doc_of(before, other)
}

impl ConfigRoot {
    /// Bundles the current configuration documents with the export
    /// metadata: format version `1.0`, the export timestamp, and the
    /// application version that asked.
    pub fn export_config(&self, app_version: String, now: &UtcDateTime) -> (r: ConfigExport)
        requires
            now.wf(),
            0 <= now.year <= 9999,
        ensures
            export_matches(self.files@, r),
            r.export_version@ == "1.0"@,
            r.export_time@ == rfc3339_chars(*now),
            r.app_version == app_version,
    {
        ConfigExport {
            update_config: get_file_content(&self.files, "update-config.json"),
            user_settings: get_file_content(&self.files, "user-settings.json"),
            tools_config: get_file_content(&self.files, "tools-config.json"),
            export_version: String::from_str("1.0"),
            export_time: crate::clock::format_rfc3339(now),
            app_version,
        }
    }

    /// Imports a bundle — after taking a backup first, so the import is
    /// reversible. Each document present in the bundle overwrites its
    /// live counterpart; documents absent from the bundle, and every
    /// untracked document, are left untouched.
    pub fn import_config(&mut self, data: &ConfigExport, now: &UtcDateTime, now_secs: i64)
        requires
            files_wf(old(self).files@),
            now.wf(),
            0 <= now.year <= 9999,
        ensures
            files_wf(final(self).files@),
            final(self).keep_count == old(self).keep_count,
            backup_outcome(
                old(self).files@,
                old(self).backups@,
                old(self).keep_count as int,
                *now,
                now_secs,
                final(self).backups@,
            ),
            import_applies(old(self).files@, *data, final(self).files@),
    {
        self.backup_config(now, now_secs);
        proof {
            lemma_tracked_names_distinct();
        }
        if let Some(c) = &data.update_config {
            self.set_document("update-config.json", c.clone());
        }
        if let Some(c) = &data.user_settings {
            self.set_document("user-settings.json", c.clone());
        }
        if let Some(c) = &data.tools_config {
            self.set_document("tools-config.json", c.clone());
        }
    }
}

/// Exporting and then importing the bundle reproduces the exported
/// documents exactly: after the import, every document present in the
/// bundle reads in the target as the very text the source held, for
/// every source and every target.
pub proof fn lemma_export_import_round_trip(
    source_files: Seq<TrackedFile>,
    e: ConfigExport,
    target_before: Seq<TrackedFile>,
    target_after: Seq<TrackedFile>,
)
    requires
        export_matches(source_files, e),
        import_applies(target_before, e, target_after),
    ensures
        e.update_config is Some ==> doc_of(target_after, "update-config.json"@) == doc_of(
            source_files,
            "update-config.json"@,
        ),
        e.user_settings is Some ==> doc_of(target_after, "user-settings.json"@) == doc_of(
            source_files,
            "user-settings.json"@,
        ),
        e.tools_config is Some ==> doc_of(target_after, "tools-config.json"@) == doc_of(
            source_files,
            "tools-config.json"@,
        ),
{
}

/// Retention after one more backup at the cap: with the keep count
/// reached and a fresh backup newer than every existing one, exactly
/// the keep count of prefixed directories remain, the fresh backup is
/// among them, and every deleted directory was least recently modified:
/// no older than any directory that was kept.
pub proof fn lemma_retention_at_cap(
    old_files: Seq<TrackedFile>,
    old_backups: Seq<BackupDir>,
    keep: int,
    t: UtcDateTime,
    now_secs: i64,
    new_backups: Seq<BackupDir>,
)
    requires
        keep >= 1,
        prefixed_count(old_backups) == keep,
        backup_outcome(old_files, old_backups, keep, t, now_secs, new_backups),
        forall|j: int|
            0 <= j < old_backups.len() && has_backup_prefix(#[trigger] old_backups[j].name@)
                ==> old_backups[j].mtime < now_secs,
    ensures
        prefixed_count(new_backups) == keep,
        exists|j: int|
            0 <= j < new_backups.len() && #[trigger] new_backups[j].name@ == backup_name_chars(t)
                && new_backups[j].mtime == now_secs && new_backups[j].files@ == old_files,
        forall|d: BackupDir, j: int|
            #![trigger d.mtime, new_backups[j].mtime]
            old_backups.to_multiset().count(d) > new_backups.to_multiset().count(d) && 0 <= j
                < new_backups.len() && has_backup_prefix(new_backups[j].name@) ==> d.mtime
                <= new_backups[j].mtime,
{
    let nd = choose|nd: BackupDir|
        {
            &&& #[trigger] nd.name@ == backup_name_chars(t)
            &&& nd.mtime == now_secs
            &&& nd.files@ == old_files
            &&& new_backups.to_multiset().subset_of(old_backups.push(nd).to_multiset())
            &&& non_prefixed(new_backups) == non_prefixed(old_backups)
            &&& forall|d: BackupDir, j: int|
                #![trigger old_backups.push(nd).to_multiset().count(d), new_backups[j]]
                old_backups.push(nd).to_multiset().count(d) > new_backups.to_multiset().count(d)
                    && 0 <= j < new_backups.len() && has_backup_prefix(new_backups[j].name@)
                    ==> has_backup_prefix(d.name@) && d.mtime <= new_backups[j].mtime
        };
    let pushed = old_backups.push(nd);
    // The fresh directory is among the kept ones: were it deleted, every
    // kept prefixed directory would be at least as new, yet every kept
    // directory comes from the old ones, which are all strictly older.
    if new_backups.to_multiset().count(nd) == 0 {
        assert(prefixed_count(new_backups) == keep);
        lemma_prefixed_count_nonzero(new_backups);
        let k = choose|k: int|
            0 <= k < new_backups.len() && has_backup_prefix(#[trigger] new_backups[k].name@);
        assert(pushed.to_multiset().count(nd) > new_backups.to_multiset().count(nd)) by {
            assert(pushed.to_multiset() == old_backups.to_multiset().insert(nd));
        }
        assert(nd.mtime <= new_backups[k].mtime);
        assert(new_backups.to_multiset().count(new_backups[k]) > 0) by {
            assert(new_backups.contains(new_backups[k]));
        }
        assert(pushed.to_multiset().count(new_backups[k]) > 0);
        assert(new_backups[k] != nd);
        assert(old_backups.to_multiset().count(new_backups[k]) > 0) by {
            assert(pushed.to_multiset() == old_backups.to_multiset().insert(nd));
        }
        assert(old_backups.contains(new_backups[k]));
        let k0 = choose|k0: int| 0 <= k0 < old_backups.len() && old_backups[k0] == new_backups[k];
        assert(old_backups[k0].mtime < now_secs);
        assert(false);
    }
    assert(new_backups.to_multiset().count(nd) > 0);
    assert(new_backups.contains(nd));
    let j = choose|j: int| 0 <= j < new_backups.len() && new_backups[j] == nd;
    assert(new_backups[j].name@ == backup_name_chars(t));
    // A deleted directory is no newer than any kept prefixed one.
    assert forall|d: BackupDir, j2: int|
        #![trigger d.mtime, new_backups[j2].mtime]
        old_backups.to_multiset().count(d) > new_backups.to_multiset().count(d) && 0 <= j2
            < new_backups.len() && has_backup_prefix(new_backups[j2].name@) implies d.mtime
        <= new_backups[j2].mtime by {
        assert(pushed.to_multiset() == old_backups.to_multiset().insert(nd));
        assert(pushed.to_multiset().count(d) >= old_backups.to_multiset().count(d));
        assert(pushed.to_multiset().count(d) > new_backups.to_multiset().count(d));
    }
}

/// A list with a positive prefixed count holds a prefixed directory.
proof fn lemma_prefixed_count_nonzero(dirs: Seq<BackupDir>)
    requires
        prefixed_count(dirs) > 0,
    ensures
        exists|j: int| 0 <= j < dirs.len() && has_backup_prefix(#[trigger] dirs[j].name@),
    decreases dirs.len(),
{
    if dirs.len() == 0 {
    } else if has_backup_prefix(dirs[0].name@) {
    } else {
        lemma_prefixed_count_nonzero(dirs.skip(1));
        let j = choose|j: int|
            0 <= j < dirs.skip(1).len() && has_backup_prefix(#[trigger] dirs.skip(1)[j].name@);
        assert(dirs[j + 1].name@ == dirs.skip(1)[j].name@);
    }
}

/// The listing label of a backup directory: a stamp-named directory
/// shows its stamp and a human-readable form in parentheses; any other
/// name is shown as it is.
pub open spec fn label_of(d: BackupDir) -> Seq<char> {
    if has_backup_prefix(d.name@) && crate::clock::stamp_wf(d.name@.skip(14)) {
        d.name@.skip(14) + seq![' ', '('] + crate::clock::pretty_chars(
            crate::clock::stamp_to_datetime(d.name@.skip(14)),
        ) + seq![')']
    } else {
        d.name@
    }
}

/// The labels of the prefixed directories, in directory order.
pub open spec fn prefixed_labels(dirs: Seq<BackupDir>) -> Seq<Seq<char>>
    decreases dirs.len(),
{
    if dirs.len() == 0 {
        Seq::empty()
    } else if has_backup_prefix(dirs[0].name@) {
        seq![label_of(dirs[0])] + prefixed_labels(dirs.skip(1))
    } else {
        prefixed_labels(dirs.skip(1))
    }
}

/// Newest-first label order: each label at or after the one following it.
pub open spec fn labels_sorted_desc(labels: Seq<Seq<char>>) -> bool {
    forall|i: int, j: int|
        #![trigger labels[i], labels[j]]
        0 <= i < j < labels.len() ==> lex_le(labels[j], labels[i])
}

/// Appending a directory appends its label when it is prefixed.
proof fn lemma_prefixed_labels_push(dirs: Seq<BackupDir>, nd: BackupDir)
    ensures
        has_backup_prefix(nd.name@) ==> prefixed_labels(dirs.push(nd)) == prefixed_labels(
            dirs,
        ).push(label_of(nd)),
        !has_backup_prefix(nd.name@) ==> prefixed_labels(dirs.push(nd)) == prefixed_labels(dirs),
    decreases dirs.len(),
{
    if dirs.len() == 0 {
        assert(dirs.push(nd)[0] == nd);
        assert(dirs.push(nd).skip(1) =~= Seq::<BackupDir>::empty());
        assert(prefixed_labels(dirs.push(nd).skip(1)) =~= Seq::<Seq<char>>::empty());
        if has_backup_prefix(nd.name@) {
            assert(prefixed_labels(dirs.push(nd)) =~= prefixed_labels(dirs).push(label_of(nd)));
        }
    } else {
        assert(dirs.push(nd)[0] == dirs[0]);
        assert(dirs.push(nd).skip(1) =~= dirs.skip(1).push(nd));
        lemma_prefixed_labels_push(dirs.skip(1), nd);
        if has_backup_prefix(nd.name@) {
            if has_backup_prefix(dirs[0].name@) {
                assert(prefixed_labels(dirs.push(nd)) =~= seq![label_of(dirs[0])]
                    + prefixed_labels(dirs.skip(1)).push(label_of(nd)));
                assert(prefixed_labels(dirs.push(nd)) =~= prefixed_labels(dirs).push(
                    label_of(nd),
                ));
            } else {
                assert(prefixed_labels(dirs.push(nd)) =~= prefixed_labels(dirs).push(
                    label_of(nd),
                ));
            }
        }
    }
}

/// Every listed label is the label of some prefixed directory.
proof fn lemma_prefixed_labels_member(dirs: Seq<BackupDir>, m: int)
    requires
        0 <= m < prefixed_labels(dirs).len(),
    ensures
        exists|j: int|
            0 <= j < dirs.len() && has_backup_prefix(#[trigger] dirs[j].name@) && label_of(dirs[j])
                == prefixed_labels(dirs)[m],
    decreases dirs.len(),
{
    if dirs.len() == 0 {
    } else if has_backup_prefix(dirs[0].name@) {
        if m == 0 {
            assert(prefixed_labels(dirs)[0] == label_of(dirs[0]));
        } else {
            lemma_prefixed_labels_member(dirs.skip(1), m - 1);
            let j = choose|j: int|
                0 <= j < dirs.skip(1).len() && has_backup_prefix(
                    #[trigger] dirs.skip(1)[j].name@,
                ) && label_of(dirs.skip(1)[j]) == prefixed_labels(dirs.skip(1))[m - 1];
            assert(dirs[j + 1] == dirs.skip(1)[j]);
            assert(prefixed_labels(dirs)[m] == prefixed_labels(dirs.skip(1))[m - 1]);
        }
    } else {
        lemma_prefixed_labels_member(dirs.skip(1), m);
        let j = choose|j: int|
            0 <= j < dirs.skip(1).len() && has_backup_prefix(#[trigger] dirs.skip(1)[j].name@)
                && label_of(dirs.skip(1)[j]) == prefixed_labels(dirs.skip(1))[m];
        assert(dirs[j + 1] == dirs.skip(1)[j]);
    }
}

/// Inserts a label into a newest-first list, keeping the order and
/// adding exactly that label.
fn insert_label_sorted(out: &mut Vec<String>, label: String)
    requires
        labels_sorted_desc(old(out)@.map_values(|s: String| s@)),
    ensures
        labels_sorted_desc(final(out)@.map_values(|s: String| s@)),
        final(out)@.map_values(|s: String| s@).to_multiset() == old(out)@.map_values(
            |s: String| s@,
        ).to_multiset().insert(label@),
{
    let mut j: usize = 0;
    while j < out.len() && str_le(label.as_str(), out[j].as_str())
        invariant
            j <= out@.len(),
            out == old(out),
            forall|k: int| 0 <= k < j ==> lex_le(label@, #[trigger] out@[k]@),
        decreases out@.len() - j,
    {
        j += 1;
    }
    let ghost before = out@;
    let ghost bviews = before.map_values(|s: String| s@);
    proof {
        if (j as int) < before.len() {
            lemma_lex_total(label@, before[j as int]@);
        }
    }
    out.insert(j, label);
    proof {
        let after = out@;
        let aviews = after.map_values(|s: String| s@);
        assert(aviews =~= bviews.insert(j as int, after[j as int]@));
        assert(after[j as int]@ == label@);
        assert forall|p: int, q: int|
            #![trigger aviews[p], aviews[q]]
            0 <= p < q < aviews.len() implies lex_le(aviews[q], aviews[p]) by {
            let pv = aviews[p];
            let qv = aviews[q];
            if q < j {
                assert(pv == bviews[p] && qv == bviews[q]);
            } else if p < j && q == j {
                assert(pv == bviews[p]);
                assert(qv == label@);
            } else if p < j && q > j {
                assert(pv == bviews[p] && qv == bviews[q - 1]);
            } else if p == j && q > j {
                assert(pv == label@ && qv == bviews[q - 1]);
                assert(lex_lt(bviews[j as int], label@));
                if q - 1 > j {
                    assert(lex_le(bviews[q - 1], bviews[j as int]));
                    lemma_lex_trans(bviews[q - 1], bviews[j as int], label@);
                }
            } else {
                assert(pv == bviews[p - 1] && qv == bviews[q - 1]);
            }
        }
        assert(aviews.to_multiset() =~= bviews.to_multiset().insert(label@));
    }
}

impl ConfigRoot {
    /// The labels of the prefixed backup directories, newest label
    /// first: exactly one label per prefixed directory, sorted in
    /// descending order.
    pub fn list_config_backups(&self) -> (r: Vec<String>)
        ensures
            r@.map_values(|s: String| s@).to_multiset() == prefixed_labels(
                self.backups@,
            ).to_multiset(),
            labels_sorted_desc(r@.map_values(|s: String| s@)),
    {
        let mut out: Vec<String> = Vec::new();
        let mut i: usize = 0;
        proof {
            assert(self.backups@.take(0) =~= Seq::<BackupDir>::empty());
            assert(out@.map_values(|s: String| s@).to_multiset() =~= prefixed_labels(
                self.backups@.take(0),
            ).to_multiset());
        }
        while i < self.backups.len()
            invariant
                i <= self.backups@.len(),
                out@.map_values(|s: String| s@).to_multiset() == prefixed_labels(
                    self.backups@.take(i as int),
                ).to_multiset(),
                labels_sorted_desc(out@.map_values(|s: String| s@)),
            decreases self.backups@.len() - i,
        {
            let ghost d = self.backups@[i as int];
            let name = self.backups[i].name.as_str();
            if is_prefixed(name) {
                let n = name.unicode_len();
                let rest = name.substring_char(14, n);
                proof {
                    assert(rest@ =~= d.name@.skip(14));
                }
                let label: String = match crate::clock::parse_stamp(rest) {
                    Some(stamp_time) => {
                        let mut l = rest.to_owned();
                        l.append(" (");
                        let pretty = crate::clock::format_pretty(&stamp_time);
                        l.append(pretty.as_str());
                        l.append(")");
                        proof {
                            reveal_strlit(" (");
                            reveal_strlit(")");
                            assert(l@ =~= label_of(d));
                        }
                        l
                    },
                    None => {
                        let l = self.backups[i].name.clone();
                        proof {
                            assert(l@ == label_of(d));
                        }
                        l
                    },
                };
                insert_label_sorted(&mut out, label);
            }
            proof {
                assert(self.backups@.take(i + 1) =~= self.backups@.take(i as int).push(d));
                lemma_prefixed_labels_push(self.backups@.take(i as int), d);
                if has_backup_prefix(d.name@) {
                    assert(prefixed_labels(self.backups@.take(i + 1)).to_multiset()
                        =~= prefixed_labels(self.backups@.take(i as int)).to_multiset().insert(
                        label_of(d),
                    ));
                }
            }
            i += 1;
        }
        proof {
            assert(self.backups@.take(self.backups@.len() as int) =~= self.backups@);
        }
        out
    }
}

/// Taking a backup under the keep count and listing again: the listing
/// grows by exactly one label, and with the fresh backup's label above
/// every existing one, any newest-first listing of the new state puts
/// the fresh label first.
pub proof fn lemma_backup_then_list(
    old_files: Seq<TrackedFile>,
    old_backups: Seq<BackupDir>,
    keep: int,
    t: UtcDateTime,
    now_secs: i64,
    new_backups: Seq<BackupDir>,
    listing: Seq<Seq<char>>,
)
    requires
        t.wf(),
        0 <= t.year <= 9999,
        prefixed_count(old_backups) + 1 <= keep,
        backup_outcome(old_files, old_backups, keep, t, now_secs, new_backups),
        forall|j: int|
            0 <= j < old_backups.len() && has_backup_prefix(#[trigger] old_backups[j].name@)
                ==> lex_lt(label_of(old_backups[j]), label_of(new_backups.last())),
        labels_sorted_desc(listing),
        listing.to_multiset() == prefixed_labels(new_backups).to_multiset(),
    ensures
        listing.len() == prefixed_labels(old_backups).len() + 1,
        listing.len() > 0,
        listing[0] == label_of(new_backups.last()),
{
    broadcast use vstd::seq_lib::group_to_multiset_ensures;
    broadcast use vstd::multiset::group_multiset_axioms;

    let nd = new_backups.last();
    assert(new_backups =~= old_backups.push(nd));
    assert(has_backup_prefix(nd.name@)) by {
        reveal_strlit("config_backup_");
        assert("config_backup_"@.len() == 14);
        assert(nd.name@.subrange(0, 14) =~= "config_backup_"@);
    }
    lemma_prefixed_labels_push(old_backups, nd);
    let new_label = label_of(nd);
    let labels = prefixed_labels(new_backups);
    assert(labels == prefixed_labels(old_backups).push(new_label));
    assert(listing.len() == labels.len()) by {
        assert(listing.to_multiset().len() == labels.to_multiset().len());
    }
    assert(labels.len() == prefixed_labels(old_backups).len() + 1);
    assert(listing.len() > 0);
    // The fresh label is in the listing.
    assert(labels.to_multiset().count(new_label) > 0) by {
        assert(labels.contains(new_label)) by {
            assert(labels[labels.len() - 1] == new_label);
        }
    }
    assert(listing.contains(new_label));
    let k = choose|k: int| 0 <= k < listing.len() && listing[k] == new_label;
    // The head of the listing is a label of the new state, so either the
    // fresh label itself or an older one that sorts strictly below it.
    assert(listing.to_multiset().count(listing[0]) > 0) by {
        assert(listing.contains(listing[0]));
    }
    assert(labels.contains(listing[0]));
    let m = choose|m: int| 0 <= m < labels.len() && labels[m] == listing[0];
    if listing[0] != new_label {
        assert(m < labels.len() - 1);
        assert(labels[m] == prefixed_labels(old_backups)[m]);
        lemma_prefixed_labels_member(old_backups, m);
        let j = choose|j: int|
            0 <= j < old_backups.len() && has_backup_prefix(#[trigger] old_backups[j].name@)
                && label_of(old_backups[j]) == prefixed_labels(old_backups)[m];
        assert(lex_lt(listing[0], new_label));
        assert(lex_le(listing[k], listing[0]));
        assert(lex_le(new_label, listing[0]));
        crate::text::lemma_lex_antisym(new_label, listing[0]);
        assert(false);
    }
}

/// Taking a backup under the keep count and listing again, stated
/// chronologically: when every existing prefixed backup is stamp-named
/// and strictly older than the fresh backup's reading, the listing
/// grows by exactly one label and any newest-first listing of the new
/// state puts the fresh backup's label first.
pub proof fn lemma_backup_then_list_chron(
    old_files: Seq<TrackedFile>,
    old_backups: Seq<BackupDir>,
    keep: int,
    t: UtcDateTime,
    now_secs: i64,
    new_backups: Seq<BackupDir>,
    listing: Seq<Seq<char>>,
)
    requires
        t.wf(),
        0 <= t.year <= 9999,
        prefixed_count(old_backups) + 1 <= keep,
        backup_outcome(old_files, old_backups, keep, t, now_secs, new_backups),
        forall|j: int|
            0 <= j < old_backups.len() && has_backup_prefix(#[trigger] old_backups[j].name@) ==> {
                &&& crate::clock::stamp_wf(old_backups[j].name@.skip(14))
                &&& crate::clock::chron_lt(
                    crate::clock::stamp_to_datetime(old_backups[j].name@.skip(14)),
                    t,
                )
            },
        labels_sorted_desc(listing),
        listing.to_multiset() == prefixed_labels(new_backups).to_multiset(),
    ensures
        listing.len() == prefixed_labels(old_backups).len() + 1,
        listing.len() > 0,
        listing[0] == label_of(new_backups.last()),
{
    let nd = new_backups.last();
    assert(new_backups =~= old_backups.push(nd)) by {
        assert(new_backups.subrange(0, old_backups.len() as int) == old_backups);
        assert(forall|j: int|
            0 <= j < old_backups.len() ==> new_backups[j] == new_backups.subrange(
                0,
                old_backups.len() as int,
            )[j]);
    }
    assert(has_backup_prefix(nd.name@) && nd.name@.skip(14) =~= crate::clock::stamp_chars(t)) by {
        reveal_strlit("config_backup_");
        assert("config_backup_"@.len() == 14);
        assert(nd.name@.subrange(0, 14) =~= "config_backup_"@);
    }
    crate::clock::lemma_stamp_chars_wf(t);
    let nd_stamp = crate::clock::stamp_chars(t);
    let nd_suffix = seq![' ', '('] + crate::clock::pretty_chars(
        crate::clock::stamp_to_datetime(nd_stamp),
    ) + seq![')'];
    assert(label_of(nd) =~= nd_stamp + nd_suffix);
    assert forall|j: int|
        0 <= j < old_backups.len() && has_backup_prefix(#[trigger] old_backups[j].name@) implies lex_lt(
        label_of(old_backups[j]),
        label_of(new_backups.last()),
    ) by {
        let rest = old_backups[j].name@.skip(14);
        crate::clock::lemma_stamp_wf_props(rest);
        let tj = crate::clock::stamp_to_datetime(rest);
        crate::clock::lemma_stamp_monotone(tj, t);
        let suffix_j = seq![' ', '('] + crate::clock::pretty_chars(tj) + seq![')'];
        assert(label_of(old_backups[j]) =~= rest + suffix_j);
        assert(rest == crate::clock::stamp_chars(tj));
        crate::text::lemma_lex_concat_lt(
            crate::clock::stamp_chars(tj),
            nd_stamp,
            suffix_j,
            nd_suffix,
        );
    }
    lemma_backup_then_list(old_files, old_backups, keep, t, now_secs, new_backups, listing);
}

} // verus!
