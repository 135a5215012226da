//! The single-flight guard: at most one update attempt owns the manager
//! slot at a time; a second attempt is refused rather than interleaved.

use vstd::prelude::*;
use crate::errors::UpdateError;
use crate::updater::UpdateManager;

verus! {

/// The guarded slot holding the manager of the one in-flight update
/// attempt, if any. The caller wraps it in its mutual-exclusion
/// primitive; the slot itself enforces the begin/end protocol.
pub struct UpdateManagerState {
    /// The manager of the attempt in flight, if one is.
    pub active: Option<UpdateManager>,
}

impl UpdateManagerState {
    /// An empty slot: nothing in flight.
    pub fn new() -> (r: Self)
        ensures
            r.active is None,
    {
        UpdateManagerState { active: None }
    }

    /// Whether an attempt is in flight.
    pub fn in_progress(&self) -> (r: bool)
        ensures
            r == (self.active is Some),
    {
        match &self.active {
            Some(_) => true,
            None => false,
        }
    }

    /// Claims the slot for a new attempt. While an attempt is in
    /// flight, a second claim is refused with `AlreadyInProgress` and
    /// the slot is left as it was; otherwise the manager takes the slot.
    pub fn try_begin(&mut self, manager: UpdateManager) -> (r: Result<(), UpdateError>)
        ensures
            final(self).active == spec_try_begin(old(self).active, manager).0,
            (r is Ok) == spec_try_begin(old(self).active, manager).1,
            old(self).active is Some ==> {
                &&& r is Err
                &&& r->Err_0 is AlreadyInProgress
                &&& *final(self) == *old(self)
            },
            old(self).active is None ==> {
                &&& r is Ok
                &&& final(self).active == Some(manager)
            },
    {
        match &self.active {
            Some(_) => Err(UpdateError::AlreadyInProgress),
            None => {
                self.active = Some(manager);
                Ok(())
            },
        }
    }

    /// Releases the slot, handing back the manager of the attempt that
    /// just ended, if one was in flight.
    pub fn end(&mut self) -> (r: Option<UpdateManager>)
        ensures
            final(self).active is None,
            r == old(self).active,
    {
        self.active.take()
    }
}

/// What claiming the slot does: an occupied slot is kept and the claim
/// refused; an empty slot takes the manager and the claim succeeds.
pub open spec fn spec_try_begin(active: Option<UpdateManager>, manager: UpdateManager) -> (
    Option<UpdateManager>,
    bool,
) {
    match active {
        Some(_) => (active, false),
        None => (Some(manager), true),
    }
}

/// Two claims back to back: the first succeeds on an empty slot, and
/// while it is still in flight the second claim is refused and the
/// slot keeps the first manager.
pub proof fn lemma_second_begin_refused(m1: UpdateManager, m2: UpdateManager)
    ensures
        spec_try_begin(None, m1).1,
        !spec_try_begin(spec_try_begin(None, m1).0, m2).1,
        spec_try_begin(spec_try_begin(None, m1).0, m2).0 == Some(m1),
{
}

} // verus!
