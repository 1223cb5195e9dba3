//! One editable document: source text, its derived compiled tree, the edit
//! lock that arbitrates concurrent writers, and the change timestamps the
//! index/delta protocol compares.
//!
//! A file is mutated only through the edit protocol: `edit` first acquires
//! or renews the expiring lock, and only on success replaces the source,
//! records the change's provenance and marks the compiled tree stale. A
//! failed acquisition changes nothing, so a live lock held by another
//! editor is exclusive. Recompilation is driven by the embedding program
//! between `edit` and `apply_compile`, inside the project's serialized
//! execution, so callers observe a consistent source/compiled pair.

use vstd::prelude::*;

use crate::doc::Doc;
use crate::ids::EditorId;
use crate::ids::FileId;
use crate::lock::Change;
use crate::lock::EditLock;
use crate::lock::lock_blocks;
use crate::s2c::Lock;

verus! {

/// The derived output of one file, a single consistent state machine: never
/// compiled, compiled but edited since (still usable for display, due for
/// recompilation), or matching the current source. Any source edit moves
/// `Fresh` to `Stale`; a successful compile moves `Absent` or `Stale` to
/// `Fresh`; compilation is skipped entirely when already `Fresh`.
#[derive(Debug)]
pub enum Compiled {
    /// Never compiled.
    Absent,
    /// The source was edited after this artifact was produced.
    Stale(Doc),
    /// The artifact matches the current source.
    Fresh(Doc),
}

/// What an edit-protocol operation can be refused with.
#[derive(Debug)]
pub enum EditError {
    /// The file is being edited: a live lock held by another editor, whose
    /// identity and claim are surfaced so a client can show who.
    Locked(EditLock),
    /// No such project or file.
    NotFound,
    /// The file has no compiled artifact yet.
    NotCompiled,
}

/// A source edit moves a fresh artifact to stale and keeps everything else
/// as it is: the previous artifact stays usable for display.
pub open spec fn stale_of(c: Compiled) -> Compiled {
    match c {
        Compiled::Fresh(a) => Compiled::Stale(a),
        Compiled::Stale(a) => Compiled::Stale(a),
        Compiled::Absent => Compiled::Absent,
    }
}

/// The synchronization-relevant metadata of one file, cheap to transmit:
/// its lock and change timestamps, explicitly excluding source and compiled
/// content.
#[derive(PartialEq, Eq, Structural, Clone, Copy, Debug)]
pub struct FileIndex {
    pub lock: Option<EditLock>,
    pub last_source_change: Option<Change>,
    pub last_compiled_at: Option<u64>,
}

/// A file's display identity: its name and id.
#[derive(Debug)]
pub struct FileInfo {
    pub name: String,
    pub id: FileId,
}

/// One editable document and everything derived from it.
#[derive(Debug)]
pub struct File {
    pub id: FileId,
    pub name: String,
    pub src: String,
    pub compiled: Compiled,
    pub lock: Option<EditLock>,
    pub last_source_change: Option<Change>,
    pub last_compiled_at: Option<u64>,
}

impl File {
    /// A fresh file: seed source, never compiled, unlocked, no recorded
    /// change.
    pub fn new(id: FileId, name: String, src: String) -> (r: File)
        ensures
            r.id == id,
            r.name == name,
            r.src == src,
            r.compiled is Absent,
            r.lock is None,
            r.last_source_change is None,
            r.last_compiled_at is None,
    {
        File {
            id,
            name,
            src,
            compiled: Compiled::Absent,
            lock: None,
            last_source_change: None,
            last_compiled_at: None,
        }
    }

    /// Acquire or renew the edit lock: succeeds when the file is unlocked,
    /// the lock is already held by this editor, or the lock has expired;
    /// fails with the standing lock — and changes nothing — only while a
    /// live lock is held by a different editor.
    pub fn acquire_or_renew(&mut self, editor: EditorId, now: u64, ttl: u64) -> (r: Result<
        (),
        EditLock,
    >)
        ensures
            lock_blocks(old(self).lock, editor, now) ==> (r matches Err(l) && Some(l) == old(
                self,
            ).lock && *final(self) == *old(self)),
            !lock_blocks(old(self).lock, editor, now) ==> r is Ok && *final(self) == (File {
                lock: Some(EditLock { holder: editor, acquired_at: now, ttl }),
                ..*old(self)
            }),
    {
        match self.lock {
            Some(l) => {
                if l.holder != editor && l.is_live(now) {
                    Err(l)
                } else {
                    self.lock = Some(EditLock { holder: editor, acquired_at: now, ttl });
                    Ok(())
                }
            },
            None => {
                self.lock = Some(EditLock { holder: editor, acquired_at: now, ttl });
                Ok(())
            },
        }
    }

    /// The edit operation: acquire or renew the lock, and on success commit
    /// the new source, record who edited and when, and mark a fresh
    /// artifact stale. A refused edit mutates nothing — in particular the
    /// source is untouched while another editor holds a live lock.
    pub fn edit(&mut self, editor: EditorId, now: u64, ttl: u64, new_src: String) -> (r: Result<
        (),
        EditLock,
    >)
        ensures
            lock_blocks(old(self).lock, editor, now) ==> (r matches Err(l) && Some(l) == old(
                self,
            ).lock && *final(self) == *old(self)),
            !lock_blocks(old(self).lock, editor, now) ==> r is Ok && *final(self) == (File {
                lock: Some(EditLock { holder: editor, acquired_at: now, ttl }),
                src: new_src,
                last_source_change: Some(Change { by: editor, at: now }),
                compiled: stale_of(old(self).compiled),
                ..*old(self)
            }),
    {
        match self.acquire_or_renew(editor, now, ttl) {
            Err(l) => Err(l),
            Ok(()) => {
                self.src = new_src;
                self.last_source_change = Some(Change { by: editor, at: now });
                let mut c = Compiled::Absent;
                std::mem::swap(&mut c, &mut self.compiled);
                self.compiled = match c {
                    Compiled::Fresh(a) => Compiled::Stale(a),
                    other => other,
                };
                Ok(())
            },
        }
    }

    /// Whether a compile is due: anything but a fresh artifact. Compilation
    /// is skipped entirely when the artifact already matches the source.
    pub fn needs_compile(&self) -> (r: bool)
        ensures
            r == !(self.compiled is Fresh),
    {
        match self.compiled {
            Compiled::Fresh(_) => false,
            _ => true,
        }
    }

    /// Commit a successful compile: the artifact becomes fresh and the
    /// compile time is recorded. Nothing else changes — and on a failed
    /// compile the embedding program simply never calls this, leaving the
    /// previous, still-displayable state in place.
    pub fn apply_compile(&mut self, doc: Doc, now: u64)
        requires
            !(old(self).compiled is Fresh),
        ensures
            *final(self) == (File {
                compiled: Compiled::Fresh(doc),
                last_compiled_at: Some(now),
                ..*old(self)
            }),
    {
        self.compiled = Compiled::Fresh(doc);
        self.last_compiled_at = Some(now);
    }

    /// The last produced artifact, fresh or stale: what a newly joining
    /// subscriber of the compiled view is shown.
    pub fn artifact(&self) -> (r: Option<&Doc>)
        ensures
            match r {
                Some(d) => ((self.compiled matches Compiled::Stale(a) && *d == a) || (
                self.compiled matches Compiled::Fresh(a) && *d == a)),
                None => self.compiled is Absent,
            },
    {
        match &self.compiled {
            Compiled::Absent => None,
            Compiled::Stale(a) => Some(a),
            Compiled::Fresh(a) => Some(a),
        }
    }

    /// This file's synchronization metadata, exactly as the index/delta
    /// protocol compares it.
    pub fn index(&self) -> (r: FileIndex)
        ensures
            r == (FileIndex {
                lock: self.lock,
                last_source_change: self.last_source_change,
                last_compiled_at: self.last_compiled_at,
            }),
    {
        FileIndex {
            lock: self.lock,
            last_source_change: self.last_source_change,
            last_compiled_at: self.last_compiled_at,
        }
    }

    /// The file's display identity.
    pub fn get_info(&self) -> (r: FileInfo)
        ensures
            r.name == self.name,
            r.id == self.id,
    {
        FileInfo { name: self.name.clone(), id: self.id }
    }

    /// The lock state as presented to `editor` at `now`: free when no live
    /// lock stands, held by me, or held by somebody else.
    pub fn lock_status(&self, editor: EditorId, now: u64) -> (r: Lock)
        ensures
            r == lock_status_spec(self.lock, editor, now),
    {
        match self.lock {
            Some(l) => {
                if l.is_live(now) {
                    if l.holder == editor {
                        Lock::LockByMe
                    } else {
                        Lock::LockBy {}
                    }
                } else {
                    Lock::Unlock
                }
            },
            None => Lock::Unlock,
        }
    }
}

/// The client-facing lock state: an expired lock shows as free, a live one
/// as held by me or by another editor.
pub open spec fn lock_status_spec(lock: Option<EditLock>, editor: EditorId, now: u64) -> Lock {
    match lock {
        Some(l) => {
            if l.is_live_spec(now) {
                if l.holder == editor {
                    Lock::LockByMe
                } else {
                    Lock::LockBy {}
                }
            } else {
                Lock::Unlock
            }
        },
        None => Lock::Unlock,
    }
}

} // verus!
