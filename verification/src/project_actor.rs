//! The serialized execution context around one project: its state, its
//! change timestamp, and the listener registries of its subjects.
//!
//! All operations that mutate one project — edits, reorders, joins and
//! leaves — are processed here one at a time in arrival order; the
//! embedding program owns each actor exclusively (one mailbox or one
//! mutex per project, never shared across projects), which is the
//! serialization that makes the edit-lock and index invariants hold.
//! Methods mutate state and return the outbound messages to deliver; the
//! transport resolves client handles, reports dead ones, and sends.

use vstd::prelude::*;

use crate::c2s::Client2ServerProjectFile;
use crate::doc::Doc;
use crate::doc::blocks_view;
use crate::doc::clone_doc;
use crate::file::EditError;
use crate::file::File;
use crate::ids::ClientId;
use crate::ids::EditorId;
use crate::ids::FileId;
use crate::ids::ProjectId;
use crate::listeners::Registry;
use crate::lock::lock_blocks;
use crate::project::Project;
use crate::project::ProjectInfo;
use crate::project::edited_file;
use crate::project::spec_reorder;
use crate::s2c::Server2Client;
use crate::s2c::Server2ClientProject;
use crate::s2c::Server2ClientProjectFile;

verus! {

/// Which view of a file a subscriber watches: its source text or its
/// compiled tree.
#[derive(PartialEq, Eq, Structural, Clone, Copy, Debug)]
pub enum ListenKind {
    Src,
    Doc,
}

/// What one file intent did, and what the transport owes whom: a joiner is
/// owed an initial full-state push only when new; a committed edit is
/// followed by recompilation and broadcasts, which the embedding program
/// drives through `recipients` and `build_update_event`.
#[derive(Debug)]
pub enum FileOutcome {
    /// The client joined a view; `snapshot` is the initial push it is owed
    /// if and only if it is a new subscriber.
    Joined { is_new: bool, snapshot: Server2Client },
    /// The client left a view.
    Left,
    /// An edit was committed at this time.
    Edited { committed_at: u64 },
}

/// One project's serialized state: the project itself, when it last
/// changed, and who is subscribed to it and to each of its files' views.
#[derive(Debug)]
pub struct ProjectActor {
    pub project: Project,
    pub last_changed: Option<u64>,
    pub project_listeners: Registry,
    pub file_src_listeners: Vec<Registry>,
    pub file_doc_listeners: Vec<Registry>,
}

/// The tree shown to a subscriber of a file's compiled view: the last
/// artifact, stale or fresh, or an empty document when none exists yet.
pub open spec fn display_doc_view(f: File) -> Seq<crate::doc::BlockView> {
    match f.compiled {
        crate::file::Compiled::Absent => Seq::empty(),
        crate::file::Compiled::Stale(a) => blocks_view(a@),
        crate::file::Compiled::Fresh(a) => blocks_view(a@),
    }
}

impl ProjectActor {
    /// Well-formedness: the project is well-formed, every file has one
    /// registry per view, and every registry is duplicate-free.
    pub open spec fn wf(self) -> bool {
        &&& self.project.wf()
        &&& self.file_src_listeners@.len() == self.project.files@.len()
        &&& self.file_doc_listeners@.len() == self.project.files@.len()
        &&& self.project_listeners.wf()
        &&& forall|i: int|
            0 <= i < self.file_src_listeners@.len()
                ==> (#[trigger] self.file_src_listeners@[i]).wf()
        &&& forall|i: int|
            0 <= i < self.file_doc_listeners@.len()
                ==> (#[trigger] self.file_doc_listeners@[i]).wf()
    }

    /// The registry of one file view.
    pub open spec fn listeners_of(self, kind: ListenKind, file_id: FileId) -> Registry {
        match kind {
            ListenKind::Src => self.file_src_listeners@[file_id.file_id as int],
            ListenKind::Doc => self.file_doc_listeners@[file_id.file_id as int],
        }
    }

    /// Wrap an existing project in an actor with nobody subscribed yet.
    pub fn new_(project: Project) -> (r: ProjectActor)
        requires
            project.wf(),
        ensures
            r.wf(),
            r.project == project,
            r.last_changed is None,
            r.project_listeners.ids@ =~= Seq::<ClientId>::empty(),
            forall|i: int|
                0 <= i < r.file_src_listeners@.len()
                    ==> (#[trigger] r.file_src_listeners@[i]).ids@.len() == 0,
            forall|i: int|
                0 <= i < r.file_doc_listeners@.len()
                    ==> (#[trigger] r.file_doc_listeners@[i]).ids@.len() == 0,
    {
        let n = project.files.len();
        let mut file_src_listeners: Vec<Registry> = Vec::new();
        let mut file_doc_listeners: Vec<Registry> = Vec::new();
        let mut i: usize = 0;
        while i < n
            invariant
                i <= n,
                file_src_listeners@.len() == i,
                file_doc_listeners@.len() == i,
                forall|k: int|
                    0 <= k < i ==> (#[trigger] file_src_listeners@[k]).wf()
                        && file_src_listeners@[k].ids@.len() == 0,
                forall|k: int|
                    0 <= k < i ==> (#[trigger] file_doc_listeners@[k]).wf()
                        && file_doc_listeners@[k].ids@.len() == 0,
            decreases n - i,
        {
            file_src_listeners.push(Registry::new());
            file_doc_listeners.push(Registry::new());
            i = i + 1;
        }
        ProjectActor {
            project,
            last_changed: None,
            project_listeners: Registry::new(),
            file_src_listeners,
            file_doc_listeners,
        }
    }

    /// A fresh project with its three seed files, created in order and not
    /// yet compiled, ready for clients.
    pub fn new(id: ProjectId, name: String) -> (r: ProjectActor)
        ensures
            r.wf(),
            r.project.id == id,
            r.project.name@ == name@,
            r.project.files@.len() == 3,
            r.project.files@[0].name@ == "index.md"@,
            r.project.files@[1].name@ == "abstract.md"@,
            r.project.files@[2].name@ == "conlusion.md"@,
            r.project.files@[0].src@ == "# Index"@,
            r.project.files@[1].src@ == "# Abstract"@,
            r.project.files@[2].src@ == "# Conlusion"@,
            forall|i: int| 0 <= i < 3 ==> (#[trigger] r.project.files@[i]).compiled is Absent,
            r.project.order@ =~= seq![
                FileId { file_id: 0 },
                FileId { file_id: 1 },
                FileId { file_id: 2 },
            ],
            r.last_changed is None,
    {
        let mut project = Project::empty(id, name);
        project.new_file("index.md".to_owned(), "# Index".to_owned());
        project.new_file("abstract.md".to_owned(), "# Abstract".to_owned());
        project.new_file("conlusion.md".to_owned(), "# Conlusion".to_owned());
        ProjectActor::new_(project)
    }

    /// A client joins the project view: it is subscribed to project-info
    /// updates, and handed the current file list.
    pub fn join_project(&mut self, client: ClientId) -> (r: (bool, Server2Client))
        requires
            old(self).wf(),
        ensures
            final(self).wf(),
            final(self).project == old(self).project,
            final(self).last_changed == old(self).last_changed,
            final(self).file_src_listeners == old(self).file_src_listeners,
            final(self).file_doc_listeners == old(self).file_doc_listeners,
            r.0 == !old(self).project_listeners.subscribed(client),
            final(self).project_listeners.subscribed(client),
            forall|c: ClientId|
                c != client ==> final(self).project_listeners.subscribed(c) == old(
                    self,
                ).project_listeners.subscribed(c),
            (r.1 matches Server2Client::Project { id, msg } && id == old(self).project.id && (
            msg matches Server2ClientProject::Files { list } && list@.len() == old(
                self,
            ).project.files@.len() && (forall|i: int|
                0 <= i < list@.len() ==> (#[trigger] list@[i]).id == old(self).project.files@[i].id
                    && list@[i].name@ == old(self).project.files@[i].name@))),
    {
        let is_new = self.project_listeners.subscribe(client);
        proof {
            broadcast use vstd::seq_lib::group_seq_properties;

            if is_new {
                assert(self.project_listeners.ids@.last() == client);
                assert(self.project_listeners.subscribed(client));
            }
            assert forall|c: ClientId|
                c != client implies self.project_listeners.subscribed(c) == old(
                self,
            ).project_listeners.subscribed(c) by {
                if is_new {
                    let orig = old(self).project_listeners.ids@;
                    if orig.contains(c) {
                        let w = choose|w: int| 0 <= w < orig.len() && orig[w] == c;
                        assert(self.project_listeners.ids@[w] == c);
                    }
                    if self.project_listeners.ids@.contains(c) {
                        let w = choose|w: int|
                            0 <= w < self.project_listeners.ids@.len()
                                && self.project_listeners.ids@[w] == c;
                        assert(w < orig.len());
                        assert(orig[w] == c);
                    }
                }
            }
        }
        let list = self.project.generate_file_info();
        let msg = Server2Client::Project {
            id: self.project.id,
            msg: Server2ClientProject::Files { list },
        };
        (is_new, msg)
    }

    /// A client leaves the project view.
    pub fn leave_project(&mut self, client: ClientId)
        requires
            old(self).wf(),
        ensures
            final(self).wf(),
            final(self).project == old(self).project,
            final(self).last_changed == old(self).last_changed,
            final(self).file_src_listeners == old(self).file_src_listeners,
            final(self).file_doc_listeners == old(self).file_doc_listeners,
            forall|c: ClientId|
                final(self).project_listeners.subscribed(c) == (old(
                    self,
                ).project_listeners.subscribed(c) && c != client),
    {
        self.project_listeners.unsubscribe(client);
    }

    /// The current full state of one file view, as pushed to a subscriber:
    /// its source text, or its last compiled tree.
    pub fn build_update_event(&self, file_id: FileId, kind: ListenKind) -> (r: Result<
        Server2Client,
        EditError,
    >)
        requires
            self.wf(),
        ensures
            !self.project.has_file(file_id) ==> (r matches Err(e) && e is NotFound),
            self.project.has_file(file_id) ==> (r matches Ok(m) && update_event_ok(
                *self,
                file_id,
                kind,
                m,
            )),
    {
        if file_id.file_id >= self.project.files.len() as u64 {
            return Err(EditError::NotFound);
        }
        let file = &self.project.files[file_id.file_id as usize];
        let inner = match kind {
            ListenKind::Src => Server2ClientProjectFile::FileSource { src: file.src.clone() },
            ListenKind::Doc => {
                let doc: Doc = match file.artifact() {
                    Some(d) => clone_doc(d),
                    None => Vec::new(),
                };
                proof {
                    assert(blocks_view(Seq::<crate::doc::Block>::empty()) =~= Seq::<
                        crate::doc::BlockView,
                    >::empty());
                }
                Server2ClientProjectFile::FileDoc { doc }
            },
        };
        Ok(
            Server2Client::Project {
                id: self.project.id,
                msg: Server2ClientProject::File { id: file_id, msg: inner },
            },
        )
    }

    /// A client joins one file view: it is subscribed, and — exactly when
    /// it is a new subscriber — owed the initial full-state push returned
    /// beside the flag. Unknown files are rejected untouched.
    pub fn join_file(&mut self, client: ClientId, file_id: FileId, kind: ListenKind) -> (r: Result<
        (bool, Server2Client),
        EditError,
    >)
        requires
            old(self).wf(),
        ensures
            final(self).wf(),
            !old(self).project.has_file(file_id) ==> (r matches Err(e) && e is NotFound && *final(self) == *old(self)),
            old(self).project.has_file(file_id) ==> (r matches Ok(p) && {
                &&& p.0 == !old(self).listeners_of(kind, file_id).subscribed(client)
                &&& final(self).listeners_of(kind, file_id).subscribed(client)
                &&& forall|c: ClientId|
                    c != client ==> final(self).listeners_of(kind, file_id).subscribed(c) == old(
                        self,
                    ).listeners_of(kind, file_id).subscribed(c)
                &&& registries_unchanged_but(*old(self), *final(self), kind, file_id)
                &&& final(self).project == old(self).project
                &&& final(self).last_changed == old(self).last_changed
                &&& update_event_ok(*old(self), file_id, kind, p.1)
            }),
    {
        if file_id.file_id >= self.project.files.len() as u64 {
            return Err(EditError::NotFound);
        }
        let snapshot = match self.build_update_event(file_id, kind) {
            Ok(m) => m,
            Err(e) => {
                return Err(e);
            },
        };
        let i = file_id.file_id as usize;
        let ghost reg0 = old(self).listeners_of(kind, file_id);
        let is_new = match kind {
            ListenKind::Src => {
                let reg = &mut self.file_src_listeners[i];
                reg.subscribe(client)
            },
            ListenKind::Doc => {
                let reg = &mut self.file_doc_listeners[i];
                reg.subscribe(client)
            },
        };
        proof {
            let reg1 = self.listeners_of(kind, file_id);
            if is_new {
                assert(reg1.ids@ == reg0.ids@.push(client));
                assert(reg1.ids@.last() == client);
                assert(reg1.subscribed(client));
            }
            assert forall|c: ClientId|
                c != client implies reg1.subscribed(c) == reg0.subscribed(c) by {
                if is_new {
                    if reg0.ids@.contains(c) {
                        let w = choose|w: int| 0 <= w < reg0.ids@.len() && reg0.ids@[w] == c;
                        assert(reg1.ids@[w] == c);
                    }
                    if reg1.ids@.contains(c) {
                        let w = choose|w: int| 0 <= w < reg1.ids@.len() && reg1.ids@[w] == c;
                        assert(w < reg0.ids@.len());
                        assert(reg0.ids@[w] == c);
                    }
                }
            }
        }
        Ok((is_new, snapshot))
    }

    /// A client leaves one file view. Unknown files are rejected untouched.
    pub fn leave_file(&mut self, client: ClientId, file_id: FileId, kind: ListenKind) -> (r: Result<
        (),
        EditError,
    >)
        requires
            old(self).wf(),
        ensures
            final(self).wf(),
            !old(self).project.has_file(file_id) ==> (r matches Err(e) && e is NotFound && *final(self) == *old(self)),
            old(self).project.has_file(file_id) ==> (r is Ok && {
                &&& forall|c: ClientId|
                    final(self).listeners_of(kind, file_id).subscribed(c) == (old(
                        self,
                    ).listeners_of(kind, file_id).subscribed(c) && c != client)
                &&& registries_unchanged_but(*old(self), *final(self), kind, file_id)
                &&& final(self).project == old(self).project
                &&& final(self).last_changed == old(self).last_changed
            }),
    {
        if file_id.file_id >= self.project.files.len() as u64 {
            return Err(EditError::NotFound);
        }
        let i = file_id.file_id as usize;
        match kind {
            ListenKind::Src => {
                let reg = &mut self.file_src_listeners[i];
                reg.unsubscribe(client);
            },
            ListenKind::Doc => {
                let reg = &mut self.file_doc_listeners[i];
                reg.unsubscribe(client);
            },
        }
        Ok(())
    }

    /// The delivery set of a broadcast on one file view: every subscriber
    /// not reported dead, except the change's originator.
    pub fn recipients(
        &self,
        file_id: FileId,
        kind: ListenKind,
        except: Option<ClientId>,
        dead: &Vec<ClientId>,
    ) -> (r: Result<Vec<ClientId>, EditError>)
        requires
            self.wf(),
        ensures
            !self.project.has_file(file_id) ==> (r matches Err(e) && e is NotFound),
            self.project.has_file(file_id) ==> (r matches Ok(v) && crate::listeners::recipients_ok(
                self.listeners_of(kind, file_id),
                except,
                dead@,
                v@,
            )),
    {
        if file_id.file_id >= self.project.files.len() as u64 {
            return Err(EditError::NotFound);
        }
        let i = file_id.file_id as usize;
        let v = match kind {
            ListenKind::Src => self.file_src_listeners[i].recipients(except, dead),
            ListenKind::Doc => self.file_doc_listeners[i].recipients(except, dead),
        };
        Ok(v)
    }

    /// The delivery set of a project-info broadcast.
    pub fn project_recipients(&self, except: Option<ClientId>, dead: &Vec<ClientId>) -> (r: Vec<
        ClientId,
    >)
        requires
            self.wf(),
        ensures
            crate::listeners::recipients_ok(self.project_listeners, except, dead@, r@),
    {
        self.project_listeners.recipients(except, dead)
    }

    /// Drop every dead subscriber of one file view, after a broadcast's
    /// iteration completed.
    pub fn prune(&mut self, file_id: FileId, kind: ListenKind, dead: &Vec<ClientId>) -> (r: Result<
        (),
        EditError,
    >)
        requires
            old(self).wf(),
        ensures
            final(self).wf(),
            !old(self).project.has_file(file_id) ==> (r matches Err(e) && e is NotFound && *final(self) == *old(self)),
            old(self).project.has_file(file_id) ==> (r is Ok && {
                &&& forall|c: ClientId|
                    final(self).listeners_of(kind, file_id).subscribed(c) == (old(
                        self,
                    ).listeners_of(kind, file_id).subscribed(c) && !dead@.contains(c))
                &&& registries_unchanged_but(*old(self), *final(self), kind, file_id)
                &&& final(self).project == old(self).project
                &&& final(self).last_changed == old(self).last_changed
            }),
    {
        if file_id.file_id >= self.project.files.len() as u64 {
            return Err(EditError::NotFound);
        }
        let i = file_id.file_id as usize;
        match kind {
            ListenKind::Src => {
                let reg = &mut self.file_src_listeners[i];
                reg.prune(dead);
            },
            ListenKind::Doc => {
                let reg = &mut self.file_doc_listeners[i];
                reg.prune(dead);
            },
        }
        Ok(())
    }

    /// Edit one file's source through the lock protocol, and mark the
    /// project changed at the commit time. A refused edit changes nothing.
    pub fn edit_file(
        &mut self,
        editor: EditorId,
        file_id: FileId,
        now: u64,
        ttl: u64,
        new_src: String,
    ) -> (r: Result<u64, EditError>)
        requires
            old(self).wf(),
        ensures
            final(self).wf(),
            final(self).project_listeners == old(self).project_listeners,
            final(self).file_src_listeners == old(self).file_src_listeners,
            final(self).file_doc_listeners == old(self).file_doc_listeners,
            !old(self).project.has_file(file_id) ==> (r matches Err(e) && e is NotFound && *final(self) == *old(self)),
            old(self).project.has_file(file_id) && lock_blocks(
                old(self).project.file_at(file_id).lock,
                editor,
                now,
            ) ==> (r matches Err(e) && e matches EditError::Locked(l) && Some(l) == old(
                self,
            ).project.file_at(file_id).lock && final(self).project.files@ == old(
                self,
            ).project.files@ && final(self).last_changed == old(self).last_changed),
            old(self).project.has_file(file_id) && !lock_blocks(
                old(self).project.file_at(file_id).lock,
                editor,
                now,
            ) ==> (r matches Ok(t) && t == now && final(self).project.files@ == old(
                self,
            ).project.files@.update(
                file_id.file_id as int,
                edited_file(old(self).project.file_at(file_id), editor, now, ttl, new_src),
            ) && final(self).last_changed == Some(now)),
            final(self).project.order == old(self).project.order,
            final(self).project.id == old(self).project.id,
            final(self).project.name == old(self).project.name,
    {
        let r = self.project.edit_file(editor, file_id, now, ttl, new_src);
        match r {
            Ok(t) => {
                self.last_changed = Some(t);
                Ok(t)
            },
            Err(e) => Err(e),
        }
    }

    /// Commit a recompilation of one file; a file whose artifact is already
    /// fresh is skipped.
    pub fn apply_compile(&mut self, file_id: FileId, doc: Doc, now: u64) -> (r: Result<
        (),
        EditError,
    >)
        requires
            old(self).wf(),
        ensures
            final(self).wf(),
            final(self).project_listeners == old(self).project_listeners,
            final(self).file_src_listeners == old(self).file_src_listeners,
            final(self).file_doc_listeners == old(self).file_doc_listeners,
            final(self).last_changed == old(self).last_changed,
            !old(self).project.has_file(file_id) ==> (r matches Err(e) && e is NotFound && *final(self) == *old(self)),
            old(self).project.has_file(file_id) && old(self).project.file_at(file_id).compiled
                is Fresh ==> (r is Ok && final(self).project.files@ == old(self).project.files@),
            old(self).project.has_file(file_id) && !(old(self).project.file_at(file_id).compiled
                is Fresh) ==> (r is Ok && final(self).project.files@ == old(
                self,
            ).project.files@.update(
                file_id.file_id as int,
                File {
                    compiled: crate::file::Compiled::Fresh(doc),
                    last_compiled_at: Some(now),
                    ..old(self).project.file_at(file_id)
                },
            )),
            final(self).project.order == old(self).project.order,
            final(self).project.id == old(self).project.id,
            final(self).project.name == old(self).project.name,
    {
        self.project.apply_compile(file_id, doc, now)
    }

    /// Move one file in the display order, mark the project changed, and
    /// return the fresh project info for broadcasting. A rejected move —
    /// unknown file, or a target past the end — changes nothing.
    pub fn reorder_file(&mut self, file_id: FileId, new_index: usize, now: u64) -> (r: Result<
        ProjectInfo,
        EditError,
    >)
        requires
            old(self).wf(),
        ensures
            final(self).wf(),
            final(self).project_listeners == old(self).project_listeners,
            final(self).file_src_listeners == old(self).file_src_listeners,
            final(self).file_doc_listeners == old(self).file_doc_listeners,
            !(old(self).project.order@.contains(file_id) && new_index
                <= old(self).project.order@.len()) ==> (r matches Err(e) && e is NotFound
                && *final(self) == *old(self)),
            old(self).project.order@.contains(file_id) && new_index <= old(
                self,
            ).project.order@.len() ==> (r matches Ok(info) && {
                &&& final(self).project.order@ == spec_reorder(
                    old(self).project.order@,
                    file_id,
                    new_index as int,
                )
                &&& final(self).project.order@.to_multiset() == old(
                    self,
                ).project.order@.to_multiset()
                &&& final(self).project.order@.len() == old(self).project.order@.len()
                &&& final(self).project.files == old(self).project.files
                &&& final(self).last_changed == Some(now)
                &&& info.id == old(self).project.id
                &&& info.files@ == final(self).project.order@
                &&& info.name@ == old(self).project.name@
            }),
            final(self).project.id == old(self).project.id,
            final(self).project.name == old(self).project.name,
    {
        if !self.project.order_contains(file_id) {
            return Err(EditError::NotFound);
        }
        if new_index > self.project.order.len() {
            return Err(EditError::NotFound);
        }
        self.project.reorder_file(file_id, new_index);
        self.last_changed = Some(now);
        let info = self.project.generate_info();
        Ok(info)
    }

    /// Dispatch one file intent: join or leave a view, or edit the source.
    /// A committed edit is returned to the embedding program, which then
    /// drives recompilation and the source and compiled broadcasts, all
    /// within this project's serialized execution.
    pub fn handle_file_message(
        &mut self,
        client: ClientId,
        editor: EditorId,
        file_id: FileId,
        now: u64,
        ttl: u64,
        msg: Client2ServerProjectFile,
    ) -> (r: Result<FileOutcome, EditError>)
        requires
            old(self).wf(),
        ensures
            final(self).wf(),
            msg matches Client2ServerProjectFile::EditFileSource { contents } ==> ((old(
                self,
            ).project.has_file(file_id) && !lock_blocks(
                old(self).project.file_at(file_id).lock,
                editor,
                now,
            )) ==> (r matches Ok(o) && o matches FileOutcome::Edited { committed_at }
                && committed_at == now && final(self).project.files@ == old(
                self,
            ).project.files@.update(
                file_id.file_id as int,
                edited_file(old(self).project.file_at(file_id), editor, now, ttl, contents),
            ))),
            msg is EditFileSource && old(self).project.has_file(file_id) && lock_blocks(
                old(self).project.file_at(file_id).lock,
                editor,
                now,
            ) ==> (r matches Err(e) && e matches EditError::Locked(l) && Some(l) == old(
                self,
            ).project.file_at(file_id).lock && final(self).project.files@ == old(
                self,
            ).project.files@),
            msg matches Client2ServerProjectFile::JoinFileSource && old(self).project.has_file(
                file_id,
            ) ==> (r matches Ok(o) && o matches FileOutcome::Joined { is_new, snapshot } && is_new
                == !old(self).listeners_of(ListenKind::Src, file_id).subscribed(client) && final(self).listeners_of(ListenKind::Src, file_id).subscribed(client)),
            msg matches Client2ServerProjectFile::JoinFileDoc && old(self).project.has_file(
                file_id,
            ) ==> (r matches Ok(o) && o matches FileOutcome::Joined { is_new, snapshot } && is_new
                == !old(self).listeners_of(ListenKind::Doc, file_id).subscribed(client) && final(self).listeners_of(ListenKind::Doc, file_id).subscribed(client)),
            msg matches Client2ServerProjectFile::LeaveFileSource && old(self).project.has_file(
                file_id,
            ) ==> (r matches Ok(o) && o is Left && !final(self).listeners_of(
                ListenKind::Src,
                file_id,
            ).subscribed(client)),
            msg matches Client2ServerProjectFile::LeaveFileDoc && old(self).project.has_file(
                file_id,
            ) ==> (r matches Ok(o) && o is Left && !final(self).listeners_of(
                ListenKind::Doc,
                file_id,
            ).subscribed(client)),
            !old(self).project.has_file(file_id) ==> (r matches Err(e) && e is NotFound && *final(self) == *old(self)),
    {
        match msg {
            Client2ServerProjectFile::JoinFileSource => {
                let (is_new, snapshot) = self.join_file(client, file_id, ListenKind::Src)?;
                Ok(FileOutcome::Joined { is_new, snapshot })
            },
            Client2ServerProjectFile::LeaveFileSource => {
                self.leave_file(client, file_id, ListenKind::Src)?;
                Ok(FileOutcome::Left)
            },
            Client2ServerProjectFile::EditFileSource { contents } => {
                let committed_at = self.edit_file(editor, file_id, now, ttl, contents)?;
                Ok(FileOutcome::Edited { committed_at })
            },
            Client2ServerProjectFile::JoinFileDoc => {
                let (is_new, snapshot) = self.join_file(client, file_id, ListenKind::Doc)?;
                Ok(FileOutcome::Joined { is_new, snapshot })
            },
            Client2ServerProjectFile::LeaveFileDoc => {
                self.leave_file(client, file_id, ListenKind::Doc)?;
                Ok(FileOutcome::Left)
            },
        }
    }
}

/// What a full-state push for one file view holds: the file's current
/// source text, or its last compiled tree (empty when never compiled),
/// wrapped in the project- and file-addressed envelope.
pub open spec fn update_event_ok(
    a: ProjectActor,
    file_id: FileId,
    kind: ListenKind,
    m: Server2Client,
) -> bool {
    &&& m matches Server2Client::Project { id, msg } ==> id == a.project.id
    &&& m matches Server2Client::Project { id, msg: Server2ClientProject::File { id: fid, msg: inner } }
    &&& m->Project_id == a.project.id
    &&& m->Project_msg matches Server2ClientProject::File { id: fid, msg: inner } && fid == file_id
        && (match kind {
        ListenKind::Src => inner matches Server2ClientProjectFile::FileSource { src } && src@
            == a.project.file_at(file_id).src@,
        ListenKind::Doc => inner matches Server2ClientProjectFile::FileDoc { doc } && blocks_view(
            doc@,
        ) == display_doc_view(a.project.file_at(file_id)),
    })
}

/// All file-view registries except the named one are untouched.
pub open spec fn registries_unchanged_but(
    a: ProjectActor,
    b: ProjectActor,
    kind: ListenKind,
    file_id: FileId,
) -> bool {
    &&& b.project_listeners == a.project_listeners
    &&& b.file_src_listeners@.len() == a.file_src_listeners@.len()
    &&& b.file_doc_listeners@.len() == a.file_doc_listeners@.len()
    &&& forall|j: int|
        0 <= j < a.file_src_listeners@.len() && (kind != ListenKind::Src || j
            != file_id.file_id as int) ==> b.file_src_listeners@[j] == a.file_src_listeners@[j]
    &&& forall|j: int|
        0 <= j < a.file_doc_listeners@.len() && (kind != ListenKind::Doc || j
            != file_id.file_id as int) ==> b.file_doc_listeners@[j] == a.file_doc_listeners@[j]
}

} // verus!
