//! The append-only log of update attempts, capped at the most recent
//! fifty entries, with newest-first retrieval.

use vstd::prelude::*;
use crate::clock::now_epoch_secs;

verus! {

broadcast use vstd::seq_lib::group_to_multiset_ensures;

/// One recorded update attempt.
pub struct VersionHistory {
    /// The version the attempt targeted.
    pub version: String,
    /// Which path was taken: a hotfix or a major update.
    pub update_type: String,
    /// When the attempt finished, as seconds since the Unix epoch.
    pub installed_at: i64,
    /// Whether the attempt succeeded.
    pub success: bool,
    /// The failure text of an unsuccessful attempt.
    pub error_message: Option<String>,
}

/// How many entries the log keeps.
pub const HISTORY_CAP: usize = 50;

/// Appending an entry, evicting the oldest once the cap is passed.
pub open spec fn spec_record(entries: Seq<VersionHistory>, entry: VersionHistory) -> Seq<
    VersionHistory,
> {
    let pushed = entries.push(entry);
    if pushed.len() > HISTORY_CAP {
        pushed.skip(pushed.len() - HISTORY_CAP)
    } else {
        pushed
    }
}

/// Newest first: each entry finished no earlier than the one after it.
pub open spec fn sorted_newest_first(entries: Seq<VersionHistory>) -> bool {
    forall|i: int, j: int|
        #![trigger entries[i].installed_at, entries[j].installed_at]
        0 <= i < j < entries.len() ==> entries[i].installed_at >= entries[j].installed_at
}

/// The in-memory log of update attempts.
pub struct UpdateHistory {
    /// The recorded attempts, oldest first.
    pub entries: Vec<VersionHistory>,
}

impl UpdateHistory {
    /// An empty log.
    pub fn new() -> (r: Self)
        ensures
            r.entries@ == Seq::<VersionHistory>::empty(),
    {
        UpdateHistory { entries: Vec::new() }
    }

    /// A log holding the given entries, as read back from disk.
    pub fn from_entries(entries: Vec<VersionHistory>) -> (r: Self)
        ensures
            r.entries == entries,
    {
        UpdateHistory { entries }
    }

    /// Records one attempt, stamped with the current time; once the log
    /// passes its cap, the oldest entry leaves.
    pub fn record_update(
        &mut self,
        version: String,
        update_type: String,
        success: bool,
        error_message: Option<String>,
    )
        ensures
            final(self).entries@.len() > 0,
            final(self).entries@ == spec_record(
                old(self).entries@,
                final(self).entries@.last(),
            ),
            final(self).entries@.last().version == version,
            final(self).entries@.last().update_type == update_type,
            final(self).entries@.last().success == success,
            final(self).entries@.last().error_message == error_message,
    {
        let entry = VersionHistory {
            version,
            update_type,
            installed_at: now_epoch_secs(),
            success,
            error_message,
        };
        self.push_capped(entry);
    }

    /// Appends one entry and enforces the cap.
    fn push_capped(&mut self, entry: VersionHistory)
        ensures
            final(self).entries@ == spec_record(old(self).entries@, entry),
            final(self).entries@.len() > 0,
            final(self).entries@.last() == entry,
    {
        self.entries.push(entry);
        if self.entries.len() > HISTORY_CAP {
            let excess = self.entries.len() - HISTORY_CAP;
            let mut kept: Vec<VersionHistory> = Vec::new();
            let mut i: usize = excess;
            while i < self.entries.len()
                invariant
                    excess <= i <= self.entries@.len(),
                    kept@ =~= self.entries@.subrange(excess as int, i as int),
                decreases self.entries@.len() - i,
            {
                kept.push(clone_entry(&self.entries[i]));
                proof {
                    assert(kept@ =~= self.entries@.subrange(excess as int, i + 1));
                }
                i += 1;
            }
            proof {
                assert(kept@ =~= self.entries@.skip(excess as int));
            }
            self.entries = kept;
        }
    }

    /// Clears the log.
    pub fn clear_histories(&mut self)
        ensures
            final(self).entries@ == Seq::<VersionHistory>::empty(),
    {
        self.entries = Vec::new();
    }

    /// The recorded attempts, newest first: a reordering of the log with
    /// no entry changed, added or lost.
    pub fn sorted_newest(&self) -> (r: Vec<VersionHistory>)
        ensures
            r@.to_multiset() == self.entries@.to_multiset(),
            sorted_newest_first(r@),
    {
        let mut out: Vec<VersionHistory> = Vec::new();
        let mut i: usize = 0;
        proof {
            assert(self.entries@.take(0) =~= Seq::<VersionHistory>::empty());
            assert(out@.to_multiset() =~= self.entries@.take(0).to_multiset());
        }
        while i < self.entries.len()
            invariant
                i <= self.entries@.len(),
                out@.to_multiset() == self.entries@.take(i as int).to_multiset(),
                sorted_newest_first(out@),
            decreases self.entries@.len() - i,
        {
            let e = clone_entry(&self.entries[i]);
            insert_sorted(&mut out, e);
            proof {
                assert(self.entries@.take(i + 1) =~= self.entries@.take(i as int).push(
                    self.entries@[i as int],
                ));
                assert(self.entries@.take(i + 1).to_multiset() =~= self.entries@.take(
                    i as int,
                ).to_multiset().insert(self.entries@[i as int]));
            }
            i += 1;
        }
        proof {
            assert(self.entries@.take(self.entries@.len() as int) =~= self.entries@);
        }
        out
    }

    /// The most recent attempts, newest first, at most `limit` of them:
    /// the front of a newest-first reordering of the whole log.
    pub fn get_recent_histories(&self, limit: usize) -> (r: Vec<VersionHistory>)
        ensures
            sorted_newest_first(r@),
            r@.len() == if limit <= self.entries@.len() {
                limit as int
            } else {
                self.entries@.len() as int
            },
            exists|full: Seq<VersionHistory>|
                {
                    &&& #[trigger] full.to_multiset() == self.entries@.to_multiset()
                    &&& sorted_newest_first(full)
                    &&& r@ == full.take(r@.len() as int)
                },
    {
        let mut full = self.sorted_newest();
        let ghost full_seq = full@;
        proof {
            assert(full@.len() == full@.to_multiset().len());
            assert(self.entries@.len() == self.entries@.to_multiset().len());
        }
        full.truncate(limit);
        proof {
            if limit <= full_seq.len() {
                assert(full@ =~= full_seq.take(limit as int));
            } else {
                assert(full@ =~= full_seq.take(full_seq.len() as int));
            }
            assert forall|i: int, j: int|
                #![trigger full@[i].installed_at, full@[j].installed_at]
                0 <= i < j < full@.len() implies full@[i].installed_at
                >= full@[j].installed_at by {
                assert(full@[i] == full_seq[i]);
                assert(full@[j] == full_seq[j]);
            }
        }
        full
    }
}

/// A fresh copy of an entry, equal to the original.
fn clone_entry(e: &VersionHistory) -> (r: VersionHistory)
    ensures
        r == *e,
{
    VersionHistory {
        version: e.version.clone(),
        update_type: e.update_type.clone(),
        installed_at: e.installed_at,
        success: e.success,
        error_message: match &e.error_message {
            Some(m) => Some(m.clone()),
            None => None,
        },
    }
}

/// Inserts an entry into a newest-first list, keeping the order and
/// adding exactly that entry.
fn insert_sorted(out: &mut Vec<VersionHistory>, e: VersionHistory)
    requires
        sorted_newest_first(old(out)@),
    ensures
        sorted_newest_first(final(out)@),
        final(out)@.to_multiset() == old(out)@.to_multiset().insert(e),
{
    let mut j: usize = 0;
    while j < out.len() && out[j].installed_at >= e.installed_at
        invariant
            j <= out@.len(),
            forall|k: int| 0 <= k < j ==> #[trigger] out@[k].installed_at >= e.installed_at,
            out == old(out),
        decreases out@.len() - j,
    {
        j += 1;
    }
    let ghost before = out@;
    out.insert(j, e);
    proof {
        let after = out@;
        assert(after == before.insert(j as int, e));
        assert forall|p: int, q: int|
            #![trigger after[p].installed_at, after[q].installed_at]
            0 <= p < q < after.len() implies after[p].installed_at
            >= after[q].installed_at by {
            if p < j && q == j {
            } else if p == j && q > j {
                assert(after[q] == before[q - 1]);
                if j < before.len() {
                    assert(before[j as int].installed_at < e.installed_at);
                }
            } else if p < j && q > j {
                assert(after[p] == before[p]);
                assert(after[q] == before[q - 1]);
            } else if p > j && q > j {
                assert(after[p] == before[p - 1]);
                assert(after[q] == before[q - 1]);
            } else {
                assert(after[p] == before[p]);
                assert(after[q] == before[q]);
            }
        }
        assert(after.remove(j as int) =~= before);
        assert(after.remove(j as int).to_multiset() =~= after.to_multiset().remove(after[j as int]));
        assert(after[j as int] == e);
        assert(after.to_multiset().contains(e)) by {
            assert(after.contains(e));
        }
        assert(after.to_multiset() =~= before.to_multiset().insert(e));
    }
}

} // verus!
