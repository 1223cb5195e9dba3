//! The expiring edit lock and the provenance record of the last edit.
//!
//! A lock is an exclusive, expiring claim on editing one file. It is live
//! exactly while `now < acquired_at + ttl`; an expired lock is inert and is
//! implicitly replaced on the next acquisition attempt, so no explicit
//! release message is ever needed and a silently disconnected holder yields
//! the file moments after going idle.

use vstd::prelude::*;

use crate::ids::EditorId;

verus! {

/// An exclusive, expiring claim on editing a file.
#[derive(PartialEq, Eq, Structural, Clone, Copy, Debug)]
pub struct EditLock {
    /// The editor holding the claim.
    pub holder: EditorId,
    /// When the claim was (last) acquired or renewed.
    pub acquired_at: u64,
    /// How long past `acquired_at` the claim stays live.
    pub ttl: u64,
}

/// Provenance of the most recent source edit to a file: who edited, and when.
#[derive(PartialEq, Eq, Structural, Clone, Copy, Debug)]
pub struct Change {
    /// The editor that made the edit.
    pub by: EditorId,
    /// When the edit was committed.
    pub at: u64,
}

impl EditLock {
    /// A lock is live exactly while `now` is before `acquired_at + ttl`,
    /// computed without wrap-around.
    pub open spec fn is_live_spec(self, now: u64) -> bool {
        (now as int) < self.acquired_at + self.ttl
    }

    /// Whether this lock is still live at `now`.
    pub fn is_live(&self, now: u64) -> (r: bool)
        ensures
            r == self.is_live_spec(now),
    {
        (now as u128) < (self.acquired_at as u128) + (self.ttl as u128)
    }

    /// How much of the claim remains at `now`: zero once expired, and capped
    /// at `u64::MAX` so it stays representable.
    pub open spec fn remaining_spec(self, now: u64) -> int {
        if self.is_live_spec(now) {
            if self.acquired_at + self.ttl - now > u64::MAX {
                u64::MAX as int
            } else {
                self.acquired_at + self.ttl - now
            }
        } else {
            0
        }
    }

    /// Remaining time-to-live at `now`, saturating at zero, so a client can
    /// show how long the holder's claim lasts.
    pub fn remaining(&self, now: u64) -> (r: u64)
        ensures
            r == self.remaining_spec(now),
    {
        let expiry: u128 = (self.acquired_at as u128) + (self.ttl as u128);
        if (now as u128) < expiry {
            let d: u128 = expiry - (now as u128);
            if d > (u64::MAX as u128) {
                u64::MAX
            } else {
                d as u64
            }
        } else {
            0
        }
    }
}

/// A request by `editor` at `now` is refused exactly when a live lock held
/// by a different editor stands.
pub open spec fn lock_blocks(lock: Option<EditLock>, editor: EditorId, now: u64) -> bool {
    match lock {
        Some(l) => l.holder != editor && l.is_live_spec(now),
        None => false,
    }
}

/// Lock mutual exclusion: while one editor holds a live lock, a request by
/// any other editor is refused. Together with the contract of
/// `File::acquire_or_renew` (which leaves the file unchanged whenever
/// `lock_blocks` holds) this gives at most one live claim per file at any
/// instant.
pub proof fn lemma_lock_mutual_exclusion(lock: EditLock, other: EditorId, now: u64)
    requires
        lock.is_live_spec(now),
        other != lock.holder,
    ensures
        lock_blocks(Some(lock), other, now),
{
}

/// Lock expiry self-heals: once a lock has expired, it blocks nobody, so any
/// editor can preempt the idle holder without an explicit release.
pub proof fn lemma_expired_lock_blocks_nobody(lock: EditLock, editor: EditorId, now: u64)
    requires
        !lock.is_live_spec(now),
    ensures
        !lock_blocks(Some(lock), editor, now),
{
}

} // verus!
