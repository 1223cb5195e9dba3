use coedit::c2s::Client2ServerProjectFile;
use coedit::cache::ContentCache;
use coedit::doc::{compile, pending_blocks, Attr, Block, Doc};
use coedit::file::Compiled;
use coedit::ids::{ClientId, EditorId, FileId, ProjectId};
use coedit::project::diff;
use coedit::project_actor::{FileOutcome, ListenKind, ProjectActor};
use coedit::s2c::{Server2Client, Server2ClientProject, Server2ClientProjectFile};

fn client(n: u64) -> ClientId {
    ClientId { client_id: n }
}

fn editor(n: u64) -> EditorId {
    EditorId { editor_id: n }
}

fn fid(n: u64) -> FileId {
    FileId { file_id: n }
}

/// The embedding program's side of one compile: parse the source (standing
/// in for the external markdown compiler), run the interpreter for each
/// pending code text, and run the transforms against the filled caches.
fn parse_markdown(src: &str) -> Doc {
    // a stand-in for the external compiler: one python code block per
    // ```python fence, everything else one paragraph per line
    let mut blocks = Vec::new();
    let mut rest = src;
    while let Some(start) = rest.find("```python\n") {
        let before = &rest[..start];
        if !before.trim().is_empty() {
            blocks.push(Block::Para(vec![coedit::doc::Inline::Str(before.trim().to_string())]));
        }
        let after = &rest[start + 10..];
        let end = after.find("```").unwrap_or(after.len());
        blocks.push(Block::CodeBlock(
            Attr {
                identifier: String::new(),
                classes: vec!["python".to_string()],
                attributes: Vec::new(),
            },
            after[..end].trim_end().to_string(),
        ));
        rest = &after[(end + 3).min(after.len())..];
    }
    if !rest.trim().is_empty() {
        blocks.push(Block::Para(vec![coedit::doc::Inline::Str(rest.trim().to_string())]));
    }
    blocks
}

#[test]
fn end_to_end_edit_compile_and_reconcile() {
    // Project P has files [index, abstract].
    let mut actor = ProjectActor::new_({
        let mut p = coedit::project::Project::empty(ProjectId { project_id: 0 }, "P".to_string());
        p.new_file("index".to_string(), String::new());
        p.new_file("abstract".to_string(), String::new());
        p
    });
    let a_editor = editor(1);
    let a_client = client(1);
    let b_client = client(2);

    // A and B subscribe to index's compiled view; A also to its source view.
    let (is_new, _) = actor.join_file(a_client, fid(0), ListenKind::Doc).unwrap();
    assert!(is_new);
    let (is_new, _) = actor.join_file(b_client, fid(0), ListenKind::Doc).unwrap();
    assert!(is_new);
    let (is_new, _) = actor.join_file(b_client, fid(0), ListenKind::Src).unwrap();
    assert!(is_new);

    let s_before = actor.project.index();
    assert!(matches!(actor.project.files[0].compiled, Compiled::Absent));

    // A edits index with new text containing a python code block printing 7.
    let text = "intro\n```python\nprint(7)\n```\n".to_string();
    let outcome = actor
        .handle_file_message(
            a_client,
            a_editor,
            fid(0),
            100,
            1000,
            Client2ServerProjectFile::EditFileSource { contents: text.clone() },
        )
        .unwrap();
    let committed_at = match outcome {
        FileOutcome::Edited { committed_at } => committed_at,
        _ => panic!("expected a committed edit"),
    };
    assert_eq!(committed_at, 100);

    // The embedding program now recompiles, inside the project's
    // serialized execution: parse, run pending code, apply transforms.
    let mut code_cache = ContentCache::new();
    let diagram_cache = ContentCache::new();
    let parsed = parse_markdown(actor.project.get_source(fid(0)).unwrap());
    let mut external_runs = 0;
    for text in pending_blocks(&parsed, "python", &code_cache) {
        external_runs += 1;
        assert_eq!(text, "print(7)");
        code_cache.insert(text, "7".to_string());
    }
    assert_eq!(external_runs, 1);
    let compiled = compile(parsed, &code_cache, &diagram_cache);
    actor.apply_compile(fid(0), compiled, 101).unwrap();

    // index.compiled went Absent -> Fresh, with an appended output block "7".
    match &actor.project.files[0].compiled {
        Compiled::Fresh(doc) => {
            assert_eq!(doc.len(), 3);
            assert!(matches!(&doc[1], Block::CodeBlock(_, s) if s == "print(7)"));
            assert!(matches!(&doc[2], Block::CodeBlock(_, s) if s == "7"));
        }
        _ => panic!("expected a fresh artifact"),
    }

    // Compiling again runs the external process zero more times: the text
    // is served from the content-addressed cache.
    let parsed_again = parse_markdown(actor.project.get_source(fid(0)).unwrap());
    assert!(pending_blocks(&parsed_again, "python", &code_cache).is_empty());

    // Subscribers of index's compiled view, excluding A, receive the tree.
    let targets = actor
        .recipients(fid(0), ListenKind::Doc, Some(a_client), &Vec::new())
        .unwrap();
    assert_eq!(targets, vec![b_client]);
    let push = actor.build_update_event(fid(0), ListenKind::Doc).unwrap();
    match push {
        Server2Client::Project { id, msg } => {
            assert_eq!(id, ProjectId { project_id: 0 });
            match msg {
                Server2ClientProject::File { id, msg } => {
                    assert_eq!(id, fid(0));
                    match msg {
                        Server2ClientProjectFile::FileDoc { doc } => assert_eq!(doc.len(), 3),
                        _ => panic!("expected the compiled tree"),
                    }
                }
                _ => panic!("expected a file update"),
            }
        }
        _ => panic!("expected a project-addressed update"),
    }

    // The source broadcast likewise reaches B but never echoes back to A.
    let src_targets = actor
        .recipients(fid(0), ListenKind::Src, Some(a_client), &Vec::new())
        .unwrap();
    assert_eq!(src_targets, vec![b_client]);

    // Pull path: B sees index in both changed lists, A in neither.
    let fresh = actor.project.index();
    let d_b = diff(editor(2), &s_before, &fresh);
    assert_eq!(d_b.changed_source_files.len(), 1);
    assert_eq!(d_b.changed_source_files[0].0, fid(0));
    assert_eq!(d_b.changed_compiled_files.len(), 1);
    assert_eq!(d_b.changed_compiled_files[0].0, fid(0));
    let fresh = actor.project.index();
    let d_a = diff(a_editor, &s_before, &fresh);
    assert!(d_a.changed_source_files.is_empty());
    assert_eq!(d_a.changed_compiled_files.len(), 1);
}

#[test]
fn join_is_idempotent_and_only_new_joiners_get_the_push() {
    let mut actor = ProjectActor::new(ProjectId { project_id: 0 }, "P".to_string());
    let (first, _) = actor.join_file(client(1), fid(0), ListenKind::Src).unwrap();
    let (second, _) = actor.join_file(client(1), fid(0), ListenKind::Src).unwrap();
    assert!(first);
    assert!(!second);
}

#[test]
fn join_snapshot_carries_the_current_source() {
    let mut actor = ProjectActor::new(ProjectId { project_id: 0 }, "P".to_string());
    let (_, snapshot) = actor.join_file(client(1), fid(0), ListenKind::Src).unwrap();
    match snapshot {
        Server2Client::Project { msg: Server2ClientProject::File { msg, .. }, .. } => match msg {
            Server2ClientProjectFile::FileSource { src } => assert_eq!(src, "# Index"),
            _ => panic!("expected the source view"),
        },
        _ => panic!("expected a file update"),
    }
}

#[test]
fn leave_file_stops_deliveries() {
    let mut actor = ProjectActor::new(ProjectId { project_id: 0 }, "P".to_string());
    actor.join_file(client(1), fid(0), ListenKind::Src).unwrap();
    actor.join_file(client(2), fid(0), ListenKind::Src).unwrap();
    actor
        .handle_file_message(
            client(1),
            editor(1),
            fid(0),
            1,
            1000,
            Client2ServerProjectFile::LeaveFileSource,
        )
        .unwrap();
    let targets = actor.recipients(fid(0), ListenKind::Src, None, &Vec::new()).unwrap();
    assert_eq!(targets, vec![client(2)]);
}

#[test]
fn dead_subscribers_are_skipped_then_pruned() {
    let mut actor = ProjectActor::new(ProjectId { project_id: 0 }, "P".to_string());
    actor.join_file(client(1), fid(0), ListenKind::Doc).unwrap();
    actor.join_file(client(2), fid(0), ListenKind::Doc).unwrap();
    let dead = vec![client(1)];
    let targets = actor.recipients(fid(0), ListenKind::Doc, None, &dead).unwrap();
    assert_eq!(targets, vec![client(2)]);
    actor.prune(fid(0), ListenKind::Doc, &dead).unwrap();
    let targets = actor.recipients(fid(0), ListenKind::Doc, None, &Vec::new()).unwrap();
    assert_eq!(targets, vec![client(2)]);
}

#[test]
fn actor_reorder_returns_fresh_info_for_broadcast() {
    let mut actor = ProjectActor::new(ProjectId { project_id: 0 }, "P".to_string());
    let info = actor.reorder_file(fid(2), 0, 77).unwrap();
    assert_eq!(info.files, vec![fid(2), fid(0), fid(1)]);
    assert_eq!(actor.last_changed, Some(77));
    assert!(actor.reorder_file(fid(9), 0, 78).is_err());
}

#[test]
fn unknown_file_intents_are_rejected_untouched() {
    let mut actor = ProjectActor::new(ProjectId { project_id: 0 }, "P".to_string());
    let r = actor.handle_file_message(
        client(1),
        editor(1),
        fid(7),
        1,
        1000,
        Client2ServerProjectFile::JoinFileSource,
    );
    assert!(r.is_err());
    let r = actor.build_update_event(fid(7), ListenKind::Src);
    assert!(r.is_err());
}

#[test]
fn assemble_doc_concatenates_artifacts_in_display_order() {
    let mut actor = ProjectActor::new(ProjectId { project_id: 0 }, "P".to_string());
    actor
        .apply_compile(fid(0), vec![Block::HorizontalRule], 1)
        .unwrap();
    actor
        .apply_compile(
            fid(2),
            vec![Block::Para(vec![coedit::doc::Inline::Str("c".to_string())])],
            2,
        )
        .unwrap();
    // fid(1) was never compiled and contributes nothing
    actor.project.reorder_file(fid(2), 0);
    let doc = actor.project.assemble_doc();
    assert_eq!(doc.len(), 2);
    assert!(matches!(&doc[0], Block::Para(_)));
    assert!(matches!(&doc[1], Block::HorizontalRule));
}
