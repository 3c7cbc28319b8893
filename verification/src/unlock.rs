//! Waiting for the application's executable to be released before the
//! updater replaces it: a state machine that the updater drives. Each
//! attempt checks whether the file still exists, then tries to rename it
//! away and back; between failed attempts the updater sleeps. It gives up
//! after a fixed number of attempts.

use vstd::prelude::*;

verus! {

/// How many attempts the wait makes before it gives up.
pub const UNLOCK_ATTEMPTS: u8 = 60;

/// What the updater does next while waiting.
pub enum UnlockAction {
    /// Check whether the file exists and report it to [`UnlockWait::exists_checked`].
    CheckExists,
    /// Rename the file away and back and report the outcome to
    /// [`UnlockWait::rename_tried`].
    TryRename,
    /// Sleep, then call [`UnlockWait::slept`].
    Sleep,
    /// Stop waiting.
    Done,
}

/// A wait in progress: the index of the current attempt.
pub struct UnlockWait {
    pub attempt: u8,
}

impl UnlockWait {
    /// Starts the first attempt.
    pub fn start() -> (r: (UnlockWait, UnlockAction))
        ensures
            r.0.attempt == 0,
            r.1 is CheckExists,
    {
        (UnlockWait { attempt: 0 }, UnlockAction::CheckExists)
    }

    /// After the existence check of the current attempt: a missing file ends
    /// the wait, an existing one is tried.
    pub fn exists_checked(self, exists: bool) -> (r: (UnlockWait, UnlockAction))
        ensures
            r.0.attempt == self.attempt,
            exists ==> r.1 is TryRename,
            !exists ==> r.1 is Done,
    {
        if exists {
            (self, UnlockAction::TryRename)
        } else {
            (self, UnlockAction::Done)
        }
    }

    /// After the rename of the current attempt: success ends the wait,
    /// failure means a sleep.
    pub fn rename_tried(self, renamed: bool) -> (r: (UnlockWait, UnlockAction))
        ensures
            r.0.attempt == self.attempt,
            renamed ==> r.1 is Done,
            !renamed ==> r.1 is Sleep,
    {
        if renamed {
            (self, UnlockAction::Done)
        } else {
            (self, UnlockAction::Sleep)
        }
    }

    /// After a sleep: the next attempt, unless this was the last one.
    pub fn slept(self) -> (r: (UnlockWait, UnlockAction))
        ensures
            self.attempt + 1 < UNLOCK_ATTEMPTS ==> r.1 is CheckExists && r.0.attempt == self.attempt + 1,
            self.attempt + 1 >= UNLOCK_ATTEMPTS ==> r.1 is Done && r.0.attempt == self.attempt,
    {
        if self.attempt < UNLOCK_ATTEMPTS - 1 {
            (UnlockWait { attempt: self.attempt + 1 }, UnlockAction::CheckExists)
        } else {
            (self, UnlockAction::Done)
        }
    }
}

} // verus!
