use coedit::file::{Compiled, EditError, File};
use coedit::ids::{EditorId, FileId};
use coedit::lock::EditLock;
use coedit::s2c::Lock;

fn editor(n: u64) -> EditorId {
    EditorId { editor_id: n }
}

fn fresh_file() -> File {
    File::new(FileId { file_id: 0 }, "index.md".to_string(), "# Index".to_string())
}

#[test]
fn acquire_when_unlocked_succeeds() {
    let mut f = fresh_file();
    assert!(f.acquire_or_renew(editor(1), 100, 1000).is_ok());
    let l = f.lock.unwrap();
    assert_eq!(l.holder, editor(1));
    assert_eq!(l.acquired_at, 100);
    assert_eq!(l.ttl, 1000);
}

#[test]
fn acquire_by_other_while_live_is_refused_and_mutates_nothing() {
    let mut f = fresh_file();
    assert!(f.edit(editor(1), 100, 1000, "# A".to_string()).is_ok());
    let before_src = f.src.clone();
    let r = f.edit(editor(2), 500, 1000, "# B".to_string());
    let standing = r.unwrap_err();
    assert_eq!(standing.holder, editor(1));
    assert_eq!(f.src, before_src);
    assert_eq!(f.last_source_change.unwrap().by, editor(1));
}

#[test]
fn holder_renews_its_own_live_lock() {
    let mut f = fresh_file();
    assert!(f.acquire_or_renew(editor(1), 100, 1000).is_ok());
    assert!(f.acquire_or_renew(editor(1), 600, 1000).is_ok());
    let l = f.lock.unwrap();
    assert_eq!(l.holder, editor(1));
    assert_eq!(l.acquired_at, 600);
}

#[test]
fn expired_lock_yields_to_any_editor() {
    let mut f = fresh_file();
    assert!(f.acquire_or_renew(editor(1), 100, 1000).is_ok());
    // at 1100 the lock is exactly expired: now >= acquired_at + ttl
    let r = f.edit(editor(2), 1100, 1000, "# B".to_string());
    assert!(r.is_ok());
    assert_eq!(f.lock.unwrap().holder, editor(2));
    assert_eq!(f.src, "# B");
}

#[test]
fn lock_liveness_boundary() {
    let l = EditLock { holder: editor(1), acquired_at: 100, ttl: 1000 };
    assert!(l.is_live(100));
    assert!(l.is_live(1099));
    assert!(!l.is_live(1100));
    assert_eq!(l.remaining(100), 1000);
    assert_eq!(l.remaining(1099), 1);
    assert_eq!(l.remaining(1100), 0);
    assert_eq!(l.remaining(5000), 0);
}

#[test]
fn lock_liveness_never_wraps() {
    let l = EditLock { holder: editor(1), acquired_at: u64::MAX - 1, ttl: u64::MAX };
    assert!(l.is_live(u64::MAX));
    assert_eq!(l.remaining(0), u64::MAX);
}

#[test]
fn edit_marks_fresh_artifact_stale_and_keeps_it_displayable() {
    let mut f = fresh_file();
    assert!(matches!(f.compiled, Compiled::Absent));
    assert!(f.needs_compile());
    f.apply_compile(Vec::new(), 50);
    assert!(matches!(f.compiled, Compiled::Fresh(_)));
    assert!(!f.needs_compile());
    assert_eq!(f.last_compiled_at, Some(50));
    assert!(f.edit(editor(1), 100, 1000, "# New".to_string()).is_ok());
    assert!(matches!(f.compiled, Compiled::Stale(_)));
    assert!(f.artifact().is_some());
    assert!(f.needs_compile());
}

#[test]
fn edit_of_never_compiled_file_stays_absent() {
    let mut f = fresh_file();
    assert!(f.edit(editor(1), 100, 1000, "# New".to_string()).is_ok());
    assert!(matches!(f.compiled, Compiled::Absent));
    assert!(f.artifact().is_none());
}

#[test]
fn edit_records_provenance() {
    let mut f = fresh_file();
    assert!(f.edit(editor(7), 123, 1000, "# New".to_string()).is_ok());
    let c = f.last_source_change.unwrap();
    assert_eq!(c.by, editor(7));
    assert_eq!(c.at, 123);
}

#[test]
fn lock_status_as_presented_to_clients() {
    let mut f = fresh_file();
    assert_eq!(f.lock_status(editor(1), 0), Lock::Unlock);
    assert!(f.acquire_or_renew(editor(1), 100, 1000).is_ok());
    assert_eq!(f.lock_status(editor(1), 200), Lock::LockByMe);
    assert_eq!(f.lock_status(editor(2), 200), Lock::LockBy {});
    // expired lock shows as free to everybody
    assert_eq!(f.lock_status(editor(2), 2000), Lock::Unlock);
    assert_eq!(f.lock_status(editor(1), 2000), Lock::Unlock);
}

#[test]
fn file_index_is_the_metadata_projection() {
    let mut f = fresh_file();
    assert!(f.edit(editor(1), 100, 1000, "x".to_string()).is_ok());
    let idx = f.index();
    assert_eq!(idx.lock, f.lock);
    assert_eq!(idx.last_source_change, f.last_source_change);
    assert_eq!(idx.last_compiled_at, f.last_compiled_at);
}

#[test]
fn not_found_error_variant_exists_for_unknown_file() {
    let p = coedit::project::Project::empty(
        coedit::ids::ProjectId { project_id: 0 },
        "p".to_string(),
    );
    let r = p.get_source(FileId { file_id: 3 });
    assert!(matches!(r, Err(EditError::NotFound)));
}
