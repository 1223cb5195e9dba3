use coedit::file::{EditError, FileIndex};
use coedit::ids::{EditorId, FileId, ProjectId};
use coedit::project::{apply_delta, diff, Project, ProjectIndex};

fn editor(n: u64) -> EditorId {
    EditorId { editor_id: n }
}

fn fid(n: u64) -> FileId {
    FileId { file_id: n }
}

fn two_file_project() -> Project {
    let mut p = Project::empty(ProjectId { project_id: 0 }, "p".to_string());
    p.new_file("index.md".to_string(), "# Index".to_string());
    p.new_file("abstract.md".to_string(), "# Abstract".to_string());
    p
}

fn lookup(index: &ProjectIndex, id: FileId) -> Option<FileIndex> {
    for (k, v) in &index.files {
        if *k == id {
            return Some(*v);
        }
    }
    None
}

#[test]
fn new_file_assigns_dense_ids_in_order() {
    let mut p = Project::empty(ProjectId { project_id: 0 }, "p".to_string());
    let a = p.new_file("a.md".to_string(), String::new());
    let b = p.new_file("b.md".to_string(), String::new());
    assert_eq!(a, fid(0));
    assert_eq!(b, fid(1));
    assert_eq!(p.order, vec![fid(0), fid(1)]);
    assert_eq!(p.get_source(a).unwrap(), "");
    assert_eq!(p.files[1].name, "b.md");
}

#[test]
fn edit_file_commits_and_reports_time() {
    let mut p = two_file_project();
    let t = p.edit_file(editor(1), fid(0), 100, 1000, "# New".to_string()).unwrap();
    assert_eq!(t, 100);
    assert_eq!(p.get_source(fid(0)).unwrap(), "# New");
    assert_eq!(p.get_source(fid(1)).unwrap(), "# Abstract");
}

#[test]
fn edit_file_unknown_id_is_not_found() {
    let mut p = two_file_project();
    let r = p.edit_file(editor(1), fid(9), 100, 1000, "x".to_string());
    assert!(matches!(r, Err(EditError::NotFound)));
}

#[test]
fn edit_file_locked_by_other_reports_the_standing_lock() {
    let mut p = two_file_project();
    p.edit_file(editor(1), fid(0), 100, 1000, "a".to_string()).unwrap();
    let r = p.edit_file(editor(2), fid(0), 500, 1000, "b".to_string());
    match r {
        Err(EditError::Locked(l)) => {
            assert_eq!(l.holder, editor(1));
            assert_eq!(l.acquired_at, 100);
        }
        _ => panic!("expected the standing lock"),
    }
    assert_eq!(p.get_source(fid(0)).unwrap(), "a");
}

#[test]
fn get_compiled_before_any_compile_is_not_compiled() {
    let p = two_file_project();
    assert!(matches!(p.get_compiled(fid(0)), Err(EditError::NotCompiled)));
    assert!(matches!(p.get_compiled(fid(9)), Err(EditError::NotFound)));
}

#[test]
fn apply_compile_then_get_compiled() {
    let mut p = two_file_project();
    p.apply_compile(fid(0), Vec::new(), 42).unwrap();
    assert!(p.get_compiled(fid(0)).is_ok());
    assert_eq!(p.files[0].last_compiled_at, Some(42));
}

#[test]
fn reorder_moves_file_and_keeps_the_same_ids() {
    let mut p = two_file_project();
    p.new_file("c.md".to_string(), String::new());
    assert_eq!(p.order, vec![fid(0), fid(1), fid(2)]);
    p.reorder_file(fid(0), 2);
    assert_eq!(p.order.len(), 3);
    let mut sorted = p.order.clone();
    sorted.sort_by_key(|f| f.file_id);
    assert_eq!(sorted, vec![fid(0), fid(1), fid(2)]);
    assert_eq!(p.order, vec![fid(1), fid(0), fid(2)]);
}

#[test]
fn reorder_twice_with_same_target_is_a_no_op() {
    let mut p = two_file_project();
    p.new_file("c.md".to_string(), String::new());
    p.reorder_file(fid(0), 2);
    let once = p.order.clone();
    p.reorder_file(fid(0), 2);
    assert_eq!(p.order, once);
}

#[test]
fn reorder_to_front() {
    let mut p = two_file_project();
    p.reorder_file(fid(1), 0);
    assert_eq!(p.order, vec![fid(1), fid(0)]);
    p.reorder_file(fid(1), 0);
    assert_eq!(p.order, vec![fid(1), fid(0)]);
}

#[test]
fn snapshot_covers_every_file_in_order() {
    let mut p = two_file_project();
    p.edit_file(editor(1), fid(0), 100, 1000, "x".to_string()).unwrap();
    let s = p.index();
    assert_eq!(s.order, p.order);
    assert_eq!(s.files.len(), 2);
    assert_eq!(s.files[0].0, fid(0));
    assert_eq!(s.files[1].0, fid(1));
    assert_eq!(s.files[0].1.last_source_change.unwrap().by, editor(1));
    assert!(s.files[1].1.last_source_change.is_none());
}

#[test]
fn diff_self_edit_is_suppressed_but_visible_to_others() {
    let mut p = two_file_project();
    let before = p.index();
    p.edit_file(editor(1), fid(0), 100, 1000, "x".to_string()).unwrap();
    let d_self = p.index_delta(editor(1), before);
    assert!(d_self.changed_source_files.is_empty());
    let before = p.index();
    p.edit_file(editor(1), fid(0), 2000, 1000, "y".to_string()).unwrap();
    let d_other = p.index_delta(editor(2), before);
    assert_eq!(d_other.changed_source_files.len(), 1);
    assert_eq!(d_other.changed_source_files[0].0, fid(0));
}

#[test]
fn diff_reports_new_files_against_an_older_baseline() {
    let mut p = two_file_project();
    let before = p.index();
    let c = p.new_file("c.md".to_string(), String::new());
    let d = p.index_delta(editor(1), before);
    assert_eq!(d.new_files.len(), 1);
    assert_eq!(d.new_files[0].0, c);
    assert!(d.removed_files.is_empty());
}

#[test]
fn diff_reports_compiles_without_author_filtering() {
    let mut p = two_file_project();
    let before = p.index();
    p.edit_file(editor(1), fid(0), 100, 1000, "x".to_string()).unwrap();
    p.apply_compile(fid(0), Vec::new(), 101).unwrap();
    // the editor's own source change is suppressed, but not the compile
    let d = p.index_delta(editor(1), before);
    assert!(d.changed_source_files.is_empty());
    assert_eq!(d.changed_compiled_files.len(), 1);
    assert_eq!(d.changed_compiled_files[0].0, fid(0));
}

#[test]
fn diff_equal_timestamps_are_not_news() {
    let mut p = two_file_project();
    p.edit_file(editor(1), fid(0), 100, 1000, "x".to_string()).unwrap();
    let baseline = p.index();
    let d = p.index_delta(editor(2), baseline);
    assert!(d.changed_source_files.is_empty());
    assert!(d.changed_compiled_files.is_empty());
    assert!(d.new_files.is_empty());
    assert!(d.removed_files.is_empty());
}

#[test]
fn successive_deltas_converge_to_the_fresh_snapshot() {
    // a client that polls with deltas ends up with the same per-file
    // metadata as a client that takes one fresh snapshot at the end
    let requester = editor(9);
    let mut p = two_file_project();
    let mut held = p.index();

    p.edit_file(editor(1), fid(0), 100, 1000, "e1".to_string()).unwrap();
    p.apply_compile(fid(0), Vec::new(), 101).unwrap();
    let d1 = diff(requester, &held, &p.index());
    held = apply_delta(&held, &d1);

    p.edit_file(editor(2), fid(1), 200, 1000, "e2".to_string()).unwrap();
    let c = p.new_file("c.md".to_string(), String::new());
    let d2 = diff(requester, &held, &p.index());
    held = apply_delta(&held, &d2);

    p.edit_file(editor(1), fid(0), 2300, 1000, "e3".to_string()).unwrap();
    p.apply_compile(fid(0), Vec::new(), 2301).unwrap();
    let d3 = diff(requester, &held, &p.index());
    held = apply_delta(&held, &d3);

    let fresh = p.index();
    for (id, fresh_entry) in &fresh.files {
        let held_entry = lookup(&held, *id).expect("file missing after applying deltas");
        assert_eq!(held_entry, *fresh_entry);
    }
    assert!(lookup(&held, c).is_some());
    assert_eq!(held.files.len(), fresh.files.len());
}

#[test]
fn diff_reports_files_the_fresh_snapshot_lacks() {
    // a baseline from elsewhere may hold entries this project never had;
    // they are reported as removed, never silently ignored
    let p = two_file_project();
    let mut baseline = p.index();
    baseline.files.push((
        fid(9),
        FileIndex { lock: None, last_source_change: None, last_compiled_at: None },
    ));
    let d = p.index_delta(editor(1), baseline);
    assert_eq!(d.removed_files, vec![fid(9)]);
    assert!(d.new_files.is_empty());
}

#[test]
fn apply_delta_drops_removed_and_adds_new_files() {
    let mut p = two_file_project();
    let mut baseline = p.index();
    baseline.files.push((
        fid(9),
        FileIndex { lock: None, last_source_change: None, last_compiled_at: None },
    ));
    let c = p.new_file("c.md".to_string(), String::new());
    let d = diff(editor(1), &baseline, &p.index());
    let applied = apply_delta(&baseline, &d);
    assert!(lookup(&applied, fid(9)).is_none());
    assert!(lookup(&applied, c).is_some());
    assert_eq!(applied.files.len(), 3);
}
