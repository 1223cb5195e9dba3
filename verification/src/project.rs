//! An ordered collection of files sharing one editing session namespace.
//!
//! A project owns its files exclusively. Files are identified by dense ids
//! assigned at creation (one greater than the current count, never reused),
//! and `order` — the display and assembly order — holds every file's id
//! exactly once; removal is unsupported upstream, so the collection only
//! grows. All mutation of one project is serialized by the embedding
//! program, which is what makes the edit-lock and index invariants hold
//! without finer locking.

use vstd::prelude::*;

use crate::doc::Doc;
use crate::doc::blocks_view;
use crate::doc::clone_doc;
use crate::file::Compiled;
use crate::file::EditError;
use crate::file::File;
use crate::file::FileIndex;
use crate::file::FileInfo;
use crate::ids::EditorId;
use crate::ids::FileId;
use crate::ids::ProjectId;
use crate::lock::Change;
use crate::lock::EditLock;
use crate::lock::lock_blocks;

verus! {

/// The edit lock's default time to live: short by design, a crash and
/// disconnect safety net rather than a long-held reservation, so the lock
/// silently yields to any other request moments after its holder goes idle.
pub const DEFAULT_TTL_MS: u64 = 1000;

/// What a project persists as: its identity plus the ordered list of its
/// file names. The embedding program writes this beside the files' raw
/// source text and reads it back through `Project::from_parts`.
#[derive(Debug)]
pub struct ProjectConfig {
    pub id: ProjectId,
    pub name: String,
    pub order: Vec<String>,
}

/// A project's display identity: its name, id, and file order.
#[derive(Debug)]
pub struct ProjectInfo {
    pub name: String,
    pub id: ProjectId,
    pub files: Vec<FileId>,
}

/// An ordered collection of files.
#[derive(Debug)]
pub struct Project {
    pub id: ProjectId,
    pub name: String,
    pub order: Vec<FileId>,
    pub files: Vec<File>,
}

/// The file resulting from a committed edit: new source, fresh claim,
/// recorded provenance, and a stale artifact.
pub open spec fn edited_file(
    f: File,
    editor: EditorId,
    now: u64,
    ttl: u64,
    new_src: String,
) -> File {
    File {
        lock: Some(EditLock { holder: editor, acquired_at: now, ttl }),
        src: new_src,
        last_source_change: Some(Change { by: editor, at: now }),
        compiled: crate::file::stale_of(f.compiled),
        ..f
    }
}

impl Project {
    /// Well-formedness: file ids are dense (the file at position `i` has id
    /// `i`), and `order` holds every file's id exactly once. Constructors
    /// establish this and every method preserves it.
    pub open spec fn wf(self) -> bool {
        &&& self.files@.len() == self.order@.len()
        &&& forall|i: int|
            0 <= i < self.files@.len() ==> (#[trigger] self.files@[i]).id.file_id == i
        &&& forall|k: int|
            0 <= k < self.order@.len() ==> (#[trigger] self.order@[k]).file_id
                < self.files@.len()
        &&& self.order@.no_duplicates()
    }

    /// Whether `file_id` names a file of this project.
    pub open spec fn has_file(self, file_id: FileId) -> bool {
        file_id.file_id < self.files@.len()
    }

    /// The file named by `file_id`, as a spec-level value.
    pub open spec fn file_at(self, file_id: FileId) -> File {
        self.files@[file_id.file_id as int]
    }

    /// A project with no files.
    pub fn empty(id: ProjectId, name: String) -> (r: Project)
        ensures
            r.wf(),
            r.id == id,
            r.name == name,
            r.order@ =~= Seq::<FileId>::empty(),
            r.files@ =~= Seq::<File>::empty(),
    {
        Project { id, name, order: Vec::new(), files: Vec::new() }
    }

    /// Create a file with a fresh id — one greater than the current count,
    /// so ids are never reused — holding the given seed source, and append
    /// it to the order.
    pub fn new_file(&mut self, name: String, src: String) -> (r: FileId)
        requires
            old(self).wf(),
            old(self).files@.len() < u64::MAX,
        ensures
            final(self).wf(),
            r.file_id == old(self).files@.len(),
            !old(self).order@.contains(r),
            final(self).id == old(self).id,
            final(self).name == old(self).name,
            final(self).order@ == old(self).order@.push(r),
            final(self).files@.len() == old(self).files@.len() + 1,
            final(self).files@ == old(self).files@.push(final(self).files@.last()),
            final(self).file_at(r).name == name,
            final(self).file_at(r).src == src,
            final(self).file_at(r).compiled is Absent,
            final(self).file_at(r).lock is None,
            final(self).file_at(r).last_source_change is None,
            final(self).file_at(r).last_compiled_at is None,
    {
        let id = FileId { file_id: self.files.len() as u64 };
        let file = File::new(id, name, src);
        self.files.push(file);
        self.order.push(id);
        proof {
            assert(final(self).files@.last() == final(self).files@[id.file_id as int]);
            assert forall|i: int|
                0 <= i < self.files@.len() implies (#[trigger] self.files@[i]).id.file_id
                == i by {
                if i < old(self).files@.len() {
                    assert(self.files@[i] == old(self).files@[i]);
                }
            }
        }
        id
    }

    /// The file named by `file_id`, if this project has one.
    pub fn get_file(&self, file_id: FileId) -> (r: Option<&File>)
        requires
            self.wf(),
        ensures
            match r {
                Some(f) => self.has_file(file_id) && *f == self.file_at(file_id),
                None => !self.has_file(file_id),
            },
    {
        if file_id.file_id < self.files.len() as u64 {
            Some(&self.files[file_id.file_id as usize])
        } else {
            None
        }
    }

    /// The current source text of one file. Unknown ids are a rejected
    /// operation, never silently ignored.
    pub fn get_source(&self, file_id: FileId) -> (r: Result<&String, EditError>)
        requires
            self.wf(),
        ensures
            self.has_file(file_id) ==> (r matches Ok(s) && *s == self.file_at(file_id).src),
            !self.has_file(file_id) ==> (r matches Err(e) && e is NotFound),
    {
        if file_id.file_id < self.files.len() as u64 {
            Ok(&self.files[file_id.file_id as usize].src)
        } else {
            Err(EditError::NotFound)
        }
    }

    /// The last compiled artifact of one file, stale or fresh; a file that
    /// was never compiled is reported as such.
    pub fn get_compiled(&self, file_id: FileId) -> (r: Result<&Doc, EditError>)
        requires
            self.wf(),
        ensures
            match r {
                Ok(d) => self.has_file(file_id) && ((self.file_at(file_id).compiled
                    matches Compiled::Stale(a) && *d == a) || (self.file_at(file_id).compiled
                    matches Compiled::Fresh(a) && *d == a)),
                Err(e) => (!self.has_file(file_id) && e is NotFound) || (self.has_file(file_id)
                    && self.file_at(file_id).compiled is Absent && e is NotCompiled),
            },
    {
        if file_id.file_id < self.files.len() as u64 {
            self.files[file_id.file_id as usize].artifact().ok_or(EditError::NotCompiled)
        } else {
            Err(EditError::NotFound)
        }
    }

    /// Edit one file's source: acquire or renew its expiring lock, and on
    /// success commit the new text, record its provenance, and mark the
    /// artifact stale. Returns the commit time. A refused edit — unknown
    /// id, or a live lock held by another editor — changes nothing.
    pub fn edit_file(
        &mut self,
        editor: EditorId,
        file_id: FileId,
        now: u64,
        ttl: u64,
        new_src: String,
    ) -> (r: Result<u64, EditError>)
        requires
            old(self).wf(),
        ensures
            final(self).wf(),
            !old(self).has_file(file_id) ==> (r matches Err(e) && e is NotFound && *final(self)
                == *old(self)),
            old(self).has_file(file_id) && lock_blocks(
                old(self).file_at(file_id).lock,
                editor,
                now,
            ) ==> (r matches Err(e) && e matches EditError::Locked(l) && Some(l) == old(
                self,
            ).file_at(file_id).lock && final(self).files@ == old(self).files@ && final(self).order
                == old(self).order && final(self).id == old(self).id && final(self).name == old(
                self,
            ).name),
            old(self).has_file(file_id) && !lock_blocks(
                old(self).file_at(file_id).lock,
                editor,
                now,
            ) ==> (r matches Ok(t) && t == now && final(self).files@ == old(self).files@.update(
                file_id.file_id as int,
                edited_file(old(self).file_at(file_id), editor, now, ttl, new_src),
            ) && final(self).order == old(self).order && final(self).id == old(self).id
                && final(self).name == old(self).name),
    {
        if file_id.file_id >= self.files.len() as u64 {
            return Err(EditError::NotFound);
        }
        let i = file_id.file_id as usize;
        let file = &mut self.files[i];
        match file.edit(editor, now, ttl, new_src) {
            Ok(()) => {
                proof {
                    assert(self.files@ =~= old(self).files@.update(
                        file_id.file_id as int,
                        edited_file(old(self).file_at(file_id), editor, now, ttl, new_src),
                    ));
                }
                Ok(now)
            },
            Err(l) => {
                proof {
                    assert(self.files@ =~= old(self).files@);
                }
                Err(EditError::Locked(l))
            },
        }
    }

    /// Commit a successful recompilation of one file. A file whose artifact
    /// is already fresh is skipped entirely — that compile was not needed —
    /// and an unknown id is rejected.
    pub fn apply_compile(&mut self, file_id: FileId, doc: Doc, now: u64) -> (r: Result<
        (),
        EditError,
    >)
        requires
            old(self).wf(),
        ensures
            final(self).wf(),
            !old(self).has_file(file_id) ==> (r matches Err(e) && e is NotFound && *final(self)
                == *old(self)),
            old(self).has_file(file_id) && old(self).file_at(file_id).compiled is Fresh ==> (r
                is Ok && *final(self) == *old(self)),
            old(self).has_file(file_id) && !(old(self).file_at(file_id).compiled is Fresh) ==> (r
                is Ok && final(self).files@ == old(self).files@.update(
                file_id.file_id as int,
                File {
                    compiled: Compiled::Fresh(doc),
                    last_compiled_at: Some(now),
                    ..old(self).file_at(file_id)
                },
            ) && final(self).order == old(self).order && final(self).id == old(self).id
                && final(self).name == old(self).name),
    {
        if file_id.file_id >= self.files.len() as u64 {
            return Err(EditError::NotFound);
        }
        let i = file_id.file_id as usize;
        if !self.files[i].needs_compile() {
            proof {
                assert(*final(self) =~= *old(self));
            }
            return Ok(());
        }
        let file = &mut self.files[i];
        file.apply_compile(doc, now);
        proof {
            assert(self.files@ =~= old(self).files@.update(
                file_id.file_id as int,
                File {
                    compiled: Compiled::Fresh(self.files@[file_id.file_id as int].compiled->Fresh_0),
                    last_compiled_at: Some(now),
                    ..old(self).file_at(file_id)
                },
            ));
        }
        Ok(())
    }

    /// The project's display identity: name, id, and file order.
    pub fn generate_info(&self) -> (r: ProjectInfo)
        ensures
            r.name@ == self.name@,
            r.id == self.id,
            r.files@ == self.order@,
    {
        let mut files: Vec<FileId> = Vec::new();
        let mut k: usize = 0;
        while k < self.order.len()
            invariant
                k <= self.order@.len(),
                files@ =~= self.order@.take(k as int),
            decreases self.order@.len() - k,
        {
            files.push(self.order[k]);
            proof {
                assert(files@ =~= self.order@.take(k + 1));
            }
            k = k + 1;
        }
        proof {
            assert(self.order@.take(self.order@.len() as int) =~= self.order@);
        }
        ProjectInfo { name: self.name.clone(), id: self.id, files }
    }

    /// The display identity of every file, in id order.
    pub fn generate_file_info(&self) -> (r: Vec<FileInfo>)
        requires
            self.wf(),
        ensures
            r@.len() == self.files@.len(),
            forall|i: int|
                0 <= i < r@.len() ==> (#[trigger] r@[i]).id == self.files@[i].id && r@[i].name@
                    == self.files@[i].name@,
    {
        let mut out: Vec<FileInfo> = Vec::new();
        let mut i: usize = 0;
        while i < self.files.len()
            invariant
                i <= self.files@.len(),
                out@.len() == i,
                forall|k: int|
                    0 <= k < i ==> (#[trigger] out@[k]).id == self.files@[k].id && out@[k].name@
                        == self.files@[k].name@,
            decreases self.files@.len() - i,
        {
            out.push(self.files[i].get_info());
            i = i + 1;
        }
        out
    }

    /// What this project persists as: its identity and its file names in
    /// display order.
    pub fn generate_config(&self) -> (r: ProjectConfig)
        requires
            self.wf(),
        ensures
            r.id == self.id,
            r.name@ == self.name@,
            r.order@.len() == self.order@.len(),
            forall|k: int|
                0 <= k < r.order@.len() ==> (#[trigger] r.order@[k])@ == self.file_at(
                    self.order@[k],
                ).name@,
    {
        let mut order: Vec<String> = Vec::new();
        let mut k: usize = 0;
        while k < self.order.len()
            invariant
                self.wf(),
                k <= self.order@.len(),
                order@.len() == k,
                forall|j: int|
                    0 <= j < k ==> (#[trigger] order@[j])@ == self.file_at(self.order@[j]).name@,
            decreases self.order@.len() - k,
        {
            let fid = self.order[k];
            order.push(self.files[fid.file_id as usize].name.clone());
            k = k + 1;
        }
        ProjectConfig { id: self.id, name: self.name.clone(), order }
    }

    /// Rebuild a project from its persisted parts: the ordered list of file
    /// names with each file's raw source text, as read back from disk by
    /// the embedding program.
    pub fn from_parts(id: ProjectId, name: String, parts: Vec<(String, String)>) -> (r: Project)
        requires
            parts@.len() < u64::MAX,
        ensures
            r.wf(),
            r.id == id,
            r.name@ == name@,
            r.files@.len() == parts@.len(),
            forall|i: int|
                0 <= i < parts@.len() ==> r.files@[i].name@ == (#[trigger] parts@[i]).0@
                    && r.files@[i].src@ == parts@[i].1@ && r.files@[i].compiled is Absent,
            forall|k: int| 0 <= k < r.order@.len() ==> (#[trigger] r.order@[k]).file_id == k,
    {
        let mut project = Project::empty(id, name);
        let mut parts = parts;
        let ghost all = parts@;
        let n = parts.len();
        proof {
            assert(all.len() == n);
        }
        let mut i: usize = 0;
        while parts.len() > 0
            invariant
                project.wf(),
                project.id == id,
                project.name@ == name@,
                i + parts@.len() == all.len(),
                all.len() < u64::MAX,
                all.len() <= usize::MAX,
                parts@ =~= all.skip(i as int),
                project.files@.len() == i,
                forall|j: int|
                    0 <= j < i ==> project.files@[j].name@ == (#[trigger] all[j]).0@
                        && project.files@[j].src@ == all[j].1@
                        && project.files@[j].compiled is Absent,
                forall|k: int|
                    0 <= k < project.order@.len() ==> (#[trigger] project.order@[k]).file_id == k,
            decreases parts@.len(),
        {
            let (file_name, src) = parts.remove(0);
            proof {
                assert(all.skip(i as int)[0] == all[i as int]);
            }
            project.new_file(file_name, src);
            proof {
                assert(parts@ =~= all.skip(i as int + 1));
            }
            i = i + 1;
        }
        project
    }

    /// The concatenation, in display order, of every file's last compiled
    /// artifact — the single document the final rendering is made from.
    /// Files never compiled contribute nothing.
    pub fn assemble_doc(&self) -> (r: Doc)
        requires
            self.wf(),
        ensures
            blocks_view(r@) == spec_assemble(self.order@, self.files@),
    {
        let mut out: Doc = Vec::new();
        let mut k: usize = 0;
        proof {
            assert(self.order@.skip(0) =~= self.order@);
            assert(blocks_view(out@) + spec_assemble(self.order@, self.files@) =~= spec_assemble(
                self.order@,
                self.files@,
            ));
        }
        while k < self.order.len()
            invariant
                self.wf(),
                k <= self.order@.len(),
                spec_assemble(self.order@, self.files@) == blocks_view(out@) + spec_assemble(
                    self.order@.skip(k as int),
                    self.files@,
                ),
            decreases self.order@.len() - k,
        {
            let ghost rest = self.order@.skip(k as int);
            proof {
                assert(rest[0] == self.order@[k as int]);
                assert(rest.drop_first() =~= self.order@.skip(k as int + 1));
            }
            let fid = self.order[k];
            let ghost out_before = out@;
            match self.files[fid.file_id as usize].artifact() {
                Some(doc) => {
                    let mut copy = clone_doc(doc);
                    let ghost copy_view = copy@;
                    out.append(&mut copy);
                    proof {
                        assert(out@ =~= out_before + copy_view);
                        crate::doc::lemma_blocks_view_add(out_before, copy_view);
                    }
                },
                None => {
                },
            }
            k = k + 1;
        }
        proof {
            assert(self.order@.skip(self.order@.len() as int) =~= Seq::<FileId>::empty());
            assert(blocks_view(out@) + Seq::<crate::doc::BlockView>::empty() =~= blocks_view(out@));
        }
        out
    }
}

/// The assembled document of a project: each file's artifact in display
/// order, files never compiled contributing nothing.
pub open spec fn spec_assemble(order: Seq<FileId>, files: Seq<File>) -> Seq<crate::doc::BlockView>
    decreases order,
{
    if order.len() == 0 {
        Seq::empty()
    } else {
        let f = files[order[0].file_id as int];
        let head = match f.compiled {
            Compiled::Absent => Seq::<crate::doc::BlockView>::empty(),
            Compiled::Stale(a) => blocks_view(a@),
            Compiled::Fresh(a) => blocks_view(a@),
        };
        head + spec_assemble(order.drop_first(), files)
    }
}


/// Where `id` stands in `s`: the index of its (under well-formedness, only)
/// occurrence.
pub open spec fn order_index_of(s: Seq<FileId>, id: FileId) -> int {
    s.index_of(id)
}

/// The display order after moving `id` to `new_index`, exactly as the
/// remove-and-insert pair performs it: a move to the element's own position
/// changes nothing.
pub open spec fn spec_reorder(s: Seq<FileId>, id: FileId, new_index: int) -> Seq<FileId> {
    let old_index = order_index_of(s, id);
    if old_index == new_index {
        s
    } else if old_index > new_index {
        s.remove(old_index).insert(new_index, id)
    } else {
        s.insert(new_index, id).remove(old_index)
    }
}

/// In a duplicate-free order holding `id` at `old_index`, no other position
/// holds `id`.
proof fn lemma_unique_occurrence(s: Seq<FileId>, id: FileId, old_index: int)
    requires
        s.no_duplicates(),
        0 <= old_index < s.len(),
        s[old_index] == id,
    ensures
        forall|k: int| 0 <= k < s.len() && k != old_index ==> s[k] != id,
{
}

/// `index_of` finds the one occurrence.
proof fn lemma_index_of_unique(s: Seq<FileId>, id: FileId, old_index: int)
    requires
        s.no_duplicates(),
        0 <= old_index < s.len(),
        s[old_index] == id,
    ensures
        order_index_of(s, id) == old_index,
{
    assert(s.contains(id));
    let c = s.index_of(id);
    assert(0 <= c < s.len() && s[c] == id);
    lemma_unique_occurrence(s, id, old_index);
}

impl Project {
    /// Move one file to a new position in the display order. The order stays
    /// a permutation of the same file ids — its length and multiset never
    /// change — and nothing else of the project is touched.
    pub fn reorder_file(&mut self, file_id: FileId, new_index: usize)
        requires
            old(self).wf(),
            old(self).order@.contains(file_id),
            new_index <= old(self).order@.len(),
        ensures
            final(self).wf(),
            final(self).order@ == spec_reorder(old(self).order@, file_id, new_index as int),
            final(self).order@.to_multiset() == old(self).order@.to_multiset(),
            final(self).order@.len() == old(self).order@.len(),
            final(self).files == old(self).files,
            final(self).id == old(self).id,
            final(self).name == old(self).name,
    {
        let ghost s = self.order@;
        let mut old_index: usize = 0;
        while old_index < self.order.len() && self.order[old_index] != file_id
            invariant
                self.order@ == s,
                old_index <= s.len(),
                forall|k: int| 0 <= k < old_index ==> s[k] != file_id,
            decreases s.len() - old_index,
        {
            old_index = old_index + 1;
        }
        proof {
            if old_index >= s.len() {
                let w = choose|w: int| 0 <= w < s.len() && s[w] == file_id;
                assert(false);
            }
            lemma_index_of_unique(s, file_id, old_index as int);
        }
        if old_index == new_index {
            return ;
        }
        if old_index > new_index {
            let moved = self.order.remove(old_index);
            self.order.insert(new_index, moved);
        } else {
            self.order.insert(new_index, file_id);
            self.order.remove(old_index);
        }
        proof {
            lemma_reorder_permutation(s, file_id, new_index as int);
            lemma_reorder_wf_order(s, file_id, new_index as int);
        }
    }
}

/// Reorder is a permutation: moving one file never changes the multiset of
/// ids in the order, and the order's length is invariant.
pub proof fn lemma_reorder_permutation(s: Seq<FileId>, id: FileId, new_index: int)
    requires
        s.contains(id),
        0 <= new_index <= s.len(),
    ensures
        spec_reorder(s, id, new_index).to_multiset() == s.to_multiset(),
        spec_reorder(s, id, new_index).len() == s.len(),
    decreases s.len(),
{
    broadcast use vstd::seq_lib::group_to_multiset_ensures;
    broadcast use vstd::seq_lib::to_multiset_insert;
    broadcast use vstd::multiset::group_multiset_axioms;

    let old_index = order_index_of(s, id);
    assert(0 <= old_index < s.len() && s[old_index] == id);
    if old_index == new_index {
    } else if old_index > new_index {
        let t = s.remove(old_index);
        s.insert_ensures(new_index, id);
        t.insert_ensures(new_index, id);
        assert(t.to_multiset() == s.to_multiset().remove(id));
        assert(t.insert(new_index, id).to_multiset() == t.to_multiset().insert(id));
        assert(s.to_multiset().remove(id).insert(id) =~= s.to_multiset());
    } else {
        let u = s.insert(new_index, id);
        s.insert_ensures(new_index, id);
        assert(u.to_multiset() == s.to_multiset().insert(id));
        assert(u[old_index] == s[old_index]);
        assert(u.remove(old_index).to_multiset() == u.to_multiset().remove(id));
        assert(s.to_multiset().insert(id).remove(id) =~= s.to_multiset());
    }
}

/// Reorder keeps the order duplicate-free.
proof fn lemma_reorder_wf_order(s: Seq<FileId>, id: FileId, new_index: int)
    requires
        s.no_duplicates(),
        s.contains(id),
        0 <= new_index <= s.len(),
    ensures
        spec_reorder(s, id, new_index).no_duplicates(),
{
    broadcast use vstd::seq_lib::group_to_multiset_ensures;
    broadcast use vstd::multiset::group_multiset_axioms;

    lemma_reorder_permutation(s, id, new_index);
    let r = spec_reorder(s, id, new_index);
    s.lemma_multiset_has_no_duplicates();
    assert forall|x: FileId| r.to_multiset().contains(x) implies r.to_multiset().count(x)
        == 1 by {
        assert(s.to_multiset().contains(x));
    }
    r.lemma_multiset_has_no_duplicates_conv();
}

/// Reorder is idempotent: a second move of the same file to the same target
/// index is a no-op.
pub proof fn lemma_reorder_idempotent(s: Seq<FileId>, id: FileId, new_index: int)
    requires
        s.no_duplicates(),
        s.contains(id),
        0 <= new_index <= s.len(),
    ensures
        spec_reorder(spec_reorder(s, id, new_index), id, new_index) == spec_reorder(
            s,
            id,
            new_index,
        ),
{
    let old_index = order_index_of(s, id);
    assert(0 <= old_index < s.len() && s[old_index] == id);
    let r = spec_reorder(s, id, new_index);
    lemma_reorder_wf_order(s, id, new_index);
    if old_index == new_index {
        lemma_index_of_unique(s, id, new_index);
    } else if old_index > new_index {
        let t = s.remove(old_index);
        s.remove_ensures(old_index);
        t.insert_ensures(new_index, id);
        assert(r[new_index] == id);
        lemma_index_of_unique(r, id, new_index);
    } else {
        let u = s.insert(new_index, id);
        s.insert_ensures(new_index, id);
        u.remove_ensures(old_index);
        assert(u[new_index] == id);
        assert(r[new_index - 1] == id);
        lemma_index_of_unique(r, id, new_index - 1);
        let r2 = spec_reorder(r, id, new_index);
        let v = r.insert(new_index, id);
        r.insert_ensures(new_index, id);
        v.remove_ensures(new_index - 1);
        assert(v[new_index - 1] == id);
        assert(v[new_index] == id);
        assert forall|k: int| 0 <= k < r2.len() implies r2[k] == r[k] by {
            if k < new_index - 1 {
                assert(r2[k] == v[k]);
                assert(v[k] == r[k]);
            } else if k == new_index - 1 {
                assert(r2[k] == v[k + 1]);
                assert(v[new_index] == id);
            } else {
                assert(r2[k] == v[k + 1]);
                assert(v[k + 1] == r[k]);
            }
        }
        assert(r2 =~= r);
    }
}


/// A full snapshot of a project's synchronization metadata: the display
/// order plus every file's `FileIndex`, excluding all content — cheap for a
/// client to cache and later present back to request a delta.
#[derive(Debug)]
pub struct ProjectIndex {
    pub order: Vec<FileId>,
    pub files: Vec<(FileId, FileIndex)>,
}

/// The minimal set of index entries a requesting client has not yet
/// observed, computed against the baseline snapshot it presented.
#[derive(Debug)]
pub struct ProjectIndexDelta {
    pub new_files: Vec<(FileId, FileIndex)>,
    pub removed_files: Vec<FileId>,
    pub changed_source_files: Vec<(FileId, FileIndex)>,
    pub changed_compiled_files: Vec<(FileId, FileIndex)>,
}

/// The index entry an id maps to: first match wins.
pub open spec fn idx_lookup(s: Seq<(FileId, FileIndex)>, id: FileId) -> Option<FileIndex>
    decreases s,
{
    if s.len() == 0 {
        None
    } else if s[0].0 == id {
        Some(s[0].1)
    } else {
        idx_lookup(s.drop_first(), id)
    }
}

/// Each id at most once.
pub open spec fn unique_keys(s: Seq<(FileId, FileIndex)>) -> bool {
    forall|i: int, j: int| 0 <= i < j < s.len() ==> s[i].0 != s[j].0
}

/// A source change the requester has not seen: the fresh snapshot records a
/// change by somebody else, and the baseline either recorded none or an
/// older one. The author filter is the self-echo suppression of the
/// pull-based path: an editor is never told of its own just-committed edit.
pub open spec fn source_changed(requester: EditorId, base: FileIndex, fresh: FileIndex) -> bool {
    match fresh.last_source_change {
        Some(c) => c.by != requester && (match base.last_source_change {
            None => true,
            Some(b) => c.at > b.at,
        }),
        None => false,
    }
}

/// A compile the baseline has not seen: the fresh snapshot records a compile
/// time the baseline lacked or an older one. Compiled output is impersonal,
/// so there is no author filter.
pub open spec fn compiled_changed(base: FileIndex, fresh: FileIndex) -> bool {
    match fresh.last_compiled_at {
        Some(t) => match base.last_compiled_at {
            None => true,
            Some(b) => t > b,
        },
        None => false,
    }
}

/// The entries of the fresh snapshot absent from the baseline, in fresh
/// order.
pub open spec fn spec_new_files(
    f: Seq<(FileId, FileIndex)>,
    b: Seq<(FileId, FileIndex)>,
) -> Seq<(FileId, FileIndex)>
    decreases f,
{
    if f.len() == 0 {
        Seq::empty()
    } else {
        let head: Seq<(FileId, FileIndex)> = if idx_lookup(b, f[0].0) is None {
            seq![f[0]]
        } else {
            Seq::empty()
        };
        head + spec_new_files(f.drop_first(), b)
    }
}

/// The ids of the baseline absent from the fresh snapshot, in baseline
/// order.
pub open spec fn spec_removed(
    b: Seq<(FileId, FileIndex)>,
    f: Seq<(FileId, FileIndex)>,
) -> Seq<FileId>
    decreases b,
{
    if b.len() == 0 {
        Seq::empty()
    } else {
        let head: Seq<FileId> = if idx_lookup(f, b[0].0) is None {
            seq![b[0].0]
        } else {
            Seq::empty()
        };
        head + spec_removed(b.drop_first(), f)
    }
}

/// The entries of the fresh snapshot, present in both, whose source change
/// the requester has not observed.
pub open spec fn spec_changed_source(
    requester: EditorId,
    f: Seq<(FileId, FileIndex)>,
    b: Seq<(FileId, FileIndex)>,
) -> Seq<(FileId, FileIndex)>
    decreases f,
{
    if f.len() == 0 {
        Seq::empty()
    } else {
        let head: Seq<(FileId, FileIndex)> = match idx_lookup(b, f[0].0) {
            Some(bfi) => {
                if source_changed(requester, bfi, f[0].1) {
                    seq![f[0]]
                } else {
                    Seq::empty()
                }
            },
            None => Seq::empty(),
        };
        head + spec_changed_source(requester, f.drop_first(), b)
    }
}

/// The entries of the fresh snapshot, present in both, whose compile the
/// baseline has not observed.
pub open spec fn spec_changed_compiled(
    f: Seq<(FileId, FileIndex)>,
    b: Seq<(FileId, FileIndex)>,
) -> Seq<(FileId, FileIndex)>
    decreases f,
{
    if f.len() == 0 {
        Seq::empty()
    } else {
        let head: Seq<(FileId, FileIndex)> = match idx_lookup(b, f[0].0) {
            Some(bfi) => {
                if compiled_changed(bfi, f[0].1) {
                    seq![f[0]]
                } else {
                    Seq::empty()
                }
            },
            None => Seq::empty(),
        };
        head + spec_changed_compiled(f.drop_first(), b)
    }
}

/// The index entry of one file.
pub open spec fn file_index(f: File) -> FileIndex {
    FileIndex {
        lock: f.lock,
        last_source_change: f.last_source_change,
        last_compiled_at: f.last_compiled_at,
    }
}

/// The files part of a project's snapshot: each file of the order, paired
/// with its index, in display order.
pub open spec fn spec_index_files(p: Project) -> Seq<(FileId, FileIndex)> {
    p.order@.map_values(|fid: FileId| (fid, file_index(p.files@[fid.file_id as int])))
}

/// Find the index entry an id maps to.
fn idx_find(v: &Vec<(FileId, FileIndex)>, id: FileId) -> (r: Option<FileIndex>)
    ensures
        r == idx_lookup(v@, id),
{
    let mut i: usize = 0;
    proof {
        assert(v@.skip(0) =~= v@);
    }
    while i < v.len()
        invariant
            i <= v@.len(),
            idx_lookup(v@, id) == idx_lookup(v@.skip(i as int), id),
        decreases v@.len() - i,
    {
        let ghost rest = v@.skip(i as int);
        proof {
            assert(rest[0] == v@[i as int]);
            assert(rest.drop_first() =~= v@.skip(i as int + 1));
        }
        if v[i].0 == id {
            return Some(v[i].1);
        }
        i = i + 1;
    }
    proof {
        assert(v@.skip(v@.len() as int) =~= Seq::<(FileId, FileIndex)>::empty());
    }
    None
}

/// Whether an id occurs in a list of ids.
fn ids_contain(v: &Vec<FileId>, id: FileId) -> (r: bool)
    ensures
        r == v@.contains(id),
{
    let mut i: usize = 0;
    while i < v.len()
        invariant
            i <= v@.len(),
            forall|k: int| 0 <= k < i ==> v@[k] != id,
        decreases v@.len() - i,
    {
        if v[i] == id {
            return true;
        }
        i = i + 1;
    }
    false
}

impl Project {
    /// Whether `file_id` stands in the display order.
    pub fn order_contains(&self, file_id: FileId) -> (r: bool)
        ensures
            r == self.order@.contains(file_id),
    {
        let mut i: usize = 0;
        while i < self.order.len()
            invariant
                i <= self.order@.len(),
                forall|k: int| 0 <= k < i ==> self.order@[k] != file_id,
            decreases self.order@.len() - i,
        {
            if self.order[i] == file_id {
                return true;
            }
            i = i + 1;
        }
        false
    }

    /// A full snapshot of this project's synchronization metadata: the
    /// current order plus, for every file, its index. Pure and read-only.
    pub fn index(&self) -> (r: ProjectIndex)
        requires
            self.wf(),
        ensures
            r.order@ == self.order@,
            r.files@ == spec_index_files(*self),
            unique_keys(r.files@),
    {
        let mut files: Vec<(FileId, FileIndex)> = Vec::new();
        let mut k: usize = 0;
        while k < self.order.len()
            invariant
                self.wf(),
                k <= self.order@.len(),
                files@ =~= spec_index_files(*self).take(k as int),
            decreases self.order@.len() - k,
        {
            let fid = self.order[k];
            let fi = self.files[fid.file_id as usize].index();
            files.push((fid, fi));
            proof {
                assert(spec_index_files(*self)[k as int] == (
                    fid,
                    file_index(self.files@[fid.file_id as int]),
                ));
                assert(files@ =~= spec_index_files(*self).take(k as int + 1));
            }
            k = k + 1;
        }
        proof {
            assert(spec_index_files(*self).take(self.order@.len() as int) =~= spec_index_files(
                *self,
            ));
            assert forall|i: int, j: int|
                0 <= i < j < spec_index_files(*self).len() implies spec_index_files(*self)[i].0
                != spec_index_files(*self)[j].0 by {
                assert(spec_index_files(*self)[i].0 == self.order@[i]);
                assert(spec_index_files(*self)[j].0 == self.order@[j]);
            }
        }
        let info = self.generate_info();
        ProjectIndex { order: info.files, files }
    }

    /// Compare a requester-held baseline snapshot against a fresh one and
    /// return only what the requester has not yet observed: files it has
    /// never seen, files that are gone, and files whose source or compiled
    /// side effects are news to it — its own edits suppressed, mirroring
    /// the push path's echo suppression.
    pub fn index_delta(&self, requester: EditorId, baseline: ProjectIndex) -> (r: ProjectIndexDelta)
        requires
            self.wf(),
        ensures
            r.new_files@ == spec_new_files(spec_index_files(*self), baseline.files@),
            r.removed_files@ == spec_removed(baseline.files@, spec_index_files(*self)),
            r.changed_source_files@ == spec_changed_source(
                requester,
                spec_index_files(*self),
                baseline.files@,
            ),
            r.changed_compiled_files@ == spec_changed_compiled(
                spec_index_files(*self),
                baseline.files@,
            ),
    {
        let fresh = self.index();
        diff(requester, &baseline, &fresh)
    }
}

/// Compare a baseline snapshot against a fresh one, as `index_delta` does,
/// as a pure function of the two snapshots.
pub fn diff(requester: EditorId, baseline: &ProjectIndex, fresh: &ProjectIndex) -> (r:
    ProjectIndexDelta)
    ensures
        r.new_files@ == spec_new_files(fresh.files@, baseline.files@),
        r.removed_files@ == spec_removed(baseline.files@, fresh.files@),
        r.changed_source_files@ == spec_changed_source(requester, fresh.files@, baseline.files@),
        r.changed_compiled_files@ == spec_changed_compiled(fresh.files@, baseline.files@),
{
    let f = &fresh.files;
    let b = &baseline.files;
    let mut new_files: Vec<(FileId, FileIndex)> = Vec::new();
    let mut changed_source_files: Vec<(FileId, FileIndex)> = Vec::new();
    let mut changed_compiled_files: Vec<(FileId, FileIndex)> = Vec::new();
    let mut removed_files: Vec<FileId> = Vec::new();
    let mut i: usize = 0;
    proof {
        assert(f@.skip(0) =~= f@);
        assert(new_files@ + spec_new_files(f@, b@) =~= spec_new_files(f@, b@));
        assert(changed_source_files@ + spec_changed_source(requester, f@, b@) =~=
            spec_changed_source(requester, f@, b@));
        assert(changed_compiled_files@ + spec_changed_compiled(f@, b@) =~= spec_changed_compiled(
            f@,
            b@,
        ));
    }
    while i < f.len()
        invariant
            i <= f@.len(),
            spec_new_files(f@, b@) == new_files@ + spec_new_files(f@.skip(i as int), b@),
            spec_changed_source(requester, f@, b@) == changed_source_files@ + spec_changed_source(
                requester,
                f@.skip(i as int),
                b@,
            ),
            spec_changed_compiled(f@, b@) == changed_compiled_files@ + spec_changed_compiled(
                f@.skip(i as int),
                b@,
            ),
        decreases f@.len() - i,
    {
        let ghost rest = f@.skip(i as int);
        proof {
            assert(rest[0] == f@[i as int]);
            assert(rest.drop_first() =~= f@.skip(i as int + 1));
        }
        let (id, fi) = f[i];
        match idx_find(b, id) {
            None => {
                let ghost before = new_files@;
                new_files.push((id, fi));
                proof {
                    assert(before + (seq![rest[0]] + spec_new_files(rest.drop_first(), b@)) =~=
                        new_files@ + spec_new_files(rest.drop_first(), b@));
                }
            },
            Some(bfi) => {
                let emit_source = match fi.last_source_change {
                    Some(c) => c.by != requester && (match bfi.last_source_change {
                        None => true,
                        Some(bc) => c.at > bc.at,
                    }),
                    None => false,
                };
                if emit_source {
                    let ghost before = changed_source_files@;
                    changed_source_files.push((id, fi));
                    proof {
                        assert(before + (seq![rest[0]] + spec_changed_source(
                            requester,
                            rest.drop_first(),
                            b@,
                        )) =~= changed_source_files@ + spec_changed_source(
                            requester,
                            rest.drop_first(),
                            b@,
                        ));
                    }
                }
                let emit_compiled = match fi.last_compiled_at {
                    Some(t) => match bfi.last_compiled_at {
                        None => true,
                        Some(bt) => t > bt,
                    },
                    None => false,
                };
                if emit_compiled {
                    let ghost before = changed_compiled_files@;
                    changed_compiled_files.push((id, fi));
                    proof {
                        assert(before + (seq![rest[0]] + spec_changed_compiled(
                            rest.drop_first(),
                            b@,
                        )) =~= changed_compiled_files@ + spec_changed_compiled(
                            rest.drop_first(),
                            b@,
                        ));
                    }
                }
            },
        }
        i = i + 1;
    }
    proof {
        assert(f@.skip(f@.len() as int) =~= Seq::<(FileId, FileIndex)>::empty());
        assert(new_files@ + Seq::<(FileId, FileIndex)>::empty() =~= new_files@);
        assert(changed_source_files@ + Seq::<(FileId, FileIndex)>::empty() =~=
            changed_source_files@);
        assert(changed_compiled_files@ + Seq::<(FileId, FileIndex)>::empty() =~=
            changed_compiled_files@);
    }
    let mut j: usize = 0;
    proof {
        assert(b@.skip(0) =~= b@);
        assert(removed_files@ + spec_removed(b@, f@) =~= spec_removed(b@, f@));
    }
    while j < b.len()
        invariant
            j <= b@.len(),
            spec_removed(b@, f@) == removed_files@ + spec_removed(b@.skip(j as int), f@),
        decreases b@.len() - j,
    {
        let ghost rest = b@.skip(j as int);
        proof {
            assert(rest[0] == b@[j as int]);
            assert(rest.drop_first() =~= b@.skip(j as int + 1));
        }
        let (id, _bfi) = b[j];
        match idx_find(f, id) {
            None => {
                let ghost before = removed_files@;
                removed_files.push(id);
                proof {
                    assert(before + (seq![rest[0].0] + spec_removed(rest.drop_first(), f@)) =~=
                        removed_files@ + spec_removed(rest.drop_first(), f@));
                }
            },
            Some(_) => {
            },
        }
        j = j + 1;
    }
    proof {
        assert(b@.skip(b@.len() as int) =~= Seq::<(FileId, FileIndex)>::empty());
        assert(removed_files@ + Seq::<FileId>::empty() =~= removed_files@);
    }
    ProjectIndexDelta { new_files, removed_files, changed_source_files, changed_compiled_files }
}


/// The replacement entry for one baseline file when a delta is applied: a
/// reported source change wins, then a reported compile, else the baseline
/// entry stands.
pub open spec fn apply_replacement(
    bfi: FileIndex,
    id: FileId,
    cs: Seq<(FileId, FileIndex)>,
    cc: Seq<(FileId, FileIndex)>,
) -> FileIndex {
    match idx_lookup(cs, id) {
        Some(nf) => nf,
        None => match idx_lookup(cc, id) {
            Some(nf) => nf,
            None => bfi,
        },
    }
}

/// The baseline part of an applied delta: removed files dropped, changed
/// files replaced, the rest kept, in baseline order.
pub open spec fn spec_apply_base(
    b: Seq<(FileId, FileIndex)>,
    rem: Seq<FileId>,
    cs: Seq<(FileId, FileIndex)>,
    cc: Seq<(FileId, FileIndex)>,
) -> Seq<(FileId, FileIndex)>
    decreases b,
{
    if b.len() == 0 {
        Seq::empty()
    } else {
        let head: Seq<(FileId, FileIndex)> = if rem.contains(b[0].0) {
            Seq::empty()
        } else {
            seq![(b[0].0, apply_replacement(b[0].1, b[0].0, cs, cc))]
        };
        head + spec_apply_base(b.drop_first(), rem, cs, cc)
    }
}

/// What applying a delta to a baseline yields: the reconciled baseline plus
/// every file the requester had never seen.
pub open spec fn spec_apply(
    b: Seq<(FileId, FileIndex)>,
    rem: Seq<FileId>,
    cs: Seq<(FileId, FileIndex)>,
    cc: Seq<(FileId, FileIndex)>,
    new: Seq<(FileId, FileIndex)>,
) -> Seq<(FileId, FileIndex)> {
    spec_apply_base(b, rem, cs, cc) + new
}

/// Apply a delta to the baseline snapshot it was computed against: the
/// client-pull analogue of receiving every broadcast it missed. The order
/// is the baseline's own — a delta carries no order.
pub fn apply_delta(baseline: &ProjectIndex, delta: &ProjectIndexDelta) -> (r: ProjectIndex)
    ensures
        r.order@ == baseline.order@,
        r.files@ == spec_apply(
            baseline.files@,
            delta.removed_files@,
            delta.changed_source_files@,
            delta.changed_compiled_files@,
            delta.new_files@,
        ),
{
    let b = &baseline.files;
    let ghost rem = delta.removed_files@;
    let ghost cs = delta.changed_source_files@;
    let ghost cc = delta.changed_compiled_files@;
    let mut files: Vec<(FileId, FileIndex)> = Vec::new();
    let mut i: usize = 0;
    proof {
        assert(b@.skip(0) =~= b@);
        assert(files@ + spec_apply_base(b@, rem, cs, cc) =~= spec_apply_base(b@, rem, cs, cc));
    }
    while i < b.len()
        invariant
            i <= b@.len(),
            rem == delta.removed_files@,
            cs == delta.changed_source_files@,
            cc == delta.changed_compiled_files@,
            spec_apply_base(b@, rem, cs, cc) == files@ + spec_apply_base(
                b@.skip(i as int),
                rem,
                cs,
                cc,
            ),
        decreases b@.len() - i,
    {
        let ghost rest = b@.skip(i as int);
        proof {
            assert(rest[0] == b@[i as int]);
            assert(rest.drop_first() =~= b@.skip(i as int + 1));
        }
        let (id, bfi) = b[i];
        if !ids_contain(&delta.removed_files, id) {
            let replacement = match idx_find(&delta.changed_source_files, id) {
                Some(nf) => nf,
                None => match idx_find(&delta.changed_compiled_files, id) {
                    Some(nf) => nf,
                    None => bfi,
                },
            };
            let ghost before = files@;
            files.push((id, replacement));
            proof {
                assert(before + (seq![rest[0].0].map_values(
                    |x: FileId| (x, apply_replacement(rest[0].1, rest[0].0, cs, cc)),
                ) + spec_apply_base(rest.drop_first(), rem, cs, cc)) =~= files@ + spec_apply_base(
                    rest.drop_first(),
                    rem,
                    cs,
                    cc,
                ));
            }
        }
        i = i + 1;
    }
    proof {
        assert(b@.skip(b@.len() as int) =~= Seq::<(FileId, FileIndex)>::empty());
        assert(files@ + Seq::<(FileId, FileIndex)>::empty() =~= files@);
    }
    let mut j: usize = 0;
    let ghost base_done = files@;
    while j < delta.new_files.len()
        invariant
            j <= delta.new_files@.len(),
            files@ =~= base_done + delta.new_files@.take(j as int),
        decreases delta.new_files@.len() - j,
    {
        files.push(delta.new_files[j]);
        proof {
            assert(files@ =~= base_done + delta.new_files@.take(j as int + 1));
        }
        j = j + 1;
    }
    let mut order: Vec<FileId> = Vec::new();
    let mut k: usize = 0;
    while k < baseline.order.len()
        invariant
            k <= baseline.order@.len(),
            order@ =~= baseline.order@.take(k as int),
        decreases baseline.order@.len() - k,
    {
        order.push(baseline.order[k]);
        proof {
            assert(order@ =~= baseline.order@.take(k as int + 1));
        }
        k = k + 1;
    }
    proof {
        assert(baseline.order@.take(baseline.order@.len() as int) =~= baseline.order@);
        assert(delta.new_files@.take(delta.new_files@.len() as int) =~= delta.new_files@);
    }
    ProjectIndex { order, files }
}


/// Looking up a one-entry list.
proof fn lemma_idx_lookup_single(p: (FileId, FileIndex), id: FileId)
    ensures
        idx_lookup(seq![p], id) == (if p.0 == id {
            Some(p.1)
        } else {
            None::<FileIndex>
        }),
{
    assert(seq![p][0] == p);
    assert(seq![p].drop_first() =~= Seq::<(FileId, FileIndex)>::empty());
    assert(idx_lookup(Seq::<(FileId, FileIndex)>::empty(), id) is None);
}

/// An id no entry holds maps to nothing.
proof fn lemma_idx_lookup_absent(s: Seq<(FileId, FileIndex)>, id: FileId)
    requires
        forall|k: int| 0 <= k < s.len() ==> (#[trigger] s[k]).0 != id,
    ensures
        idx_lookup(s, id) is None,
    decreases s,
{
    if s.len() > 0 {
        assert(s.drop_first().len() == s.len() - 1);
        assert forall|k: int|
            0 <= k < s.drop_first().len() implies (#[trigger] s.drop_first()[k]).0 != id by {
            assert(s.drop_first()[k] == s[k + 1]);
        }
        lemma_idx_lookup_absent(s.drop_first(), id);
    }
}

/// Looking up a concatenation: the left part wins.
proof fn lemma_idx_lookup_add(s: Seq<(FileId, FileIndex)>, t: Seq<(FileId, FileIndex)>, id: FileId)
    ensures
        idx_lookup(s + t, id) == (if idx_lookup(s, id) is Some {
            idx_lookup(s, id)
        } else {
            idx_lookup(t, id)
        }),
    decreases s,
{
    if s.len() == 0 {
        assert(s + t =~= t);
    } else {
        assert((s + t)[0] == s[0]);
        assert((s + t).drop_first() =~= s.drop_first() + t);
        lemma_idx_lookup_add(s.drop_first(), t, id);
    }
}

/// What the new-files list maps an id to: the fresh entry, exactly for ids
/// the fresh snapshot has and the baseline lacks.
proof fn lemma_new_files_lookup(
    f: Seq<(FileId, FileIndex)>,
    b: Seq<(FileId, FileIndex)>,
    id: FileId,
)
    requires
        unique_keys(f),
    ensures
        idx_lookup(spec_new_files(f, b), id) == (if idx_lookup(f, id) is Some && idx_lookup(b, id)
            is None {
            idx_lookup(f, id)
        } else {
            None::<FileIndex>
        }),
    decreases f,
{
    if f.len() > 0 {
        let head: Seq<(FileId, FileIndex)> = if idx_lookup(b, f[0].0) is None {
            seq![f[0]]
        } else {
            Seq::empty()
        };
        assert forall|i: int, j: int|
            0 <= i < j < f.drop_first().len() implies f.drop_first()[i].0
            != f.drop_first()[j].0 by {
            assert(f.drop_first()[i] == f[i + 1]);
            assert(f.drop_first()[j] == f[j + 1]);
        }
        lemma_new_files_lookup(f.drop_first(), b, id);
        assert(spec_new_files(f, b) == head + spec_new_files(f.drop_first(), b));
        lemma_idx_lookup_add(head, spec_new_files(f.drop_first(), b), id);
        if idx_lookup(b, f[0].0) is None {
            lemma_idx_lookup_single(f[0], id);
        } else {
            assert(idx_lookup(head, id) is None);
        }
        if f[0].0 == id {
            assert forall|k: int|
                0 <= k < f.drop_first().len() implies (#[trigger] f.drop_first()[k]).0
                != id by {
                assert(f.drop_first()[k] == f[k + 1]);
            }
            lemma_idx_lookup_absent(f.drop_first(), id);
        }
    }
}

/// What the changed-source list maps an id to: the fresh entry, exactly for
/// ids in both snapshots whose source change the requester has not seen.
proof fn lemma_changed_source_lookup(
    requester: EditorId,
    f: Seq<(FileId, FileIndex)>,
    b: Seq<(FileId, FileIndex)>,
    id: FileId,
)
    requires
        unique_keys(f),
    ensures
        idx_lookup(spec_changed_source(requester, f, b), id) == (match (
            idx_lookup(f, id),
            idx_lookup(b, id),
        ) {
            (Some(ffi), Some(bfi)) => if source_changed(requester, bfi, ffi) {
                Some(ffi)
            } else {
                None::<FileIndex>
            },
            _ => None::<FileIndex>,
        }),
    decreases f,
{
    if f.len() > 0 {
        let head: Seq<(FileId, FileIndex)> = match idx_lookup(b, f[0].0) {
            Some(bfi) => {
                if source_changed(requester, bfi, f[0].1) {
                    seq![f[0]]
                } else {
                    Seq::empty()
                }
            },
            None => Seq::empty(),
        };
        assert forall|i: int, j: int|
            0 <= i < j < f.drop_first().len() implies f.drop_first()[i].0
            != f.drop_first()[j].0 by {
            assert(f.drop_first()[i] == f[i + 1]);
            assert(f.drop_first()[j] == f[j + 1]);
        }
        lemma_changed_source_lookup(requester, f.drop_first(), b, id);
        assert(spec_changed_source(requester, f, b) == head + spec_changed_source(
            requester,
            f.drop_first(),
            b,
        ));
        lemma_idx_lookup_add(head, spec_changed_source(requester, f.drop_first(), b), id);
        if head.len() > 0 {
            lemma_idx_lookup_single(f[0], id);
        } else {
            assert(idx_lookup(head, id) is None);
        }
        if f[0].0 == id {
            assert forall|k: int|
                0 <= k < f.drop_first().len() implies (#[trigger] f.drop_first()[k]).0
                != id by {
                assert(f.drop_first()[k] == f[k + 1]);
            }
            lemma_idx_lookup_absent(f.drop_first(), id);
        }
    }
}

/// What the changed-compiled list maps an id to: the fresh entry, exactly
/// for ids in both snapshots whose compile the baseline has not seen.
proof fn lemma_changed_compiled_lookup(
    f: Seq<(FileId, FileIndex)>,
    b: Seq<(FileId, FileIndex)>,
    id: FileId,
)
    requires
        unique_keys(f),
    ensures
        idx_lookup(spec_changed_compiled(f, b), id) == (match (
            idx_lookup(f, id),
            idx_lookup(b, id),
        ) {
            (Some(ffi), Some(bfi)) => if compiled_changed(bfi, ffi) {
                Some(ffi)
            } else {
                None::<FileIndex>
            },
            _ => None::<FileIndex>,
        }),
    decreases f,
{
    if f.len() > 0 {
        let head: Seq<(FileId, FileIndex)> = match idx_lookup(b, f[0].0) {
            Some(bfi) => {
                if compiled_changed(bfi, f[0].1) {
                    seq![f[0]]
                } else {
                    Seq::empty()
                }
            },
            None => Seq::empty(),
        };
        assert forall|i: int, j: int|
            0 <= i < j < f.drop_first().len() implies f.drop_first()[i].0
            != f.drop_first()[j].0 by {
            assert(f.drop_first()[i] == f[i + 1]);
            assert(f.drop_first()[j] == f[j + 1]);
        }
        lemma_changed_compiled_lookup(f.drop_first(), b, id);
        assert(spec_changed_compiled(f, b) == head + spec_changed_compiled(f.drop_first(), b));
        lemma_idx_lookup_add(head, spec_changed_compiled(f.drop_first(), b), id);
        if head.len() > 0 {
            lemma_idx_lookup_single(f[0], id);
        } else {
            assert(idx_lookup(head, id) is None);
        }
        if f[0].0 == id {
            assert forall|k: int|
                0 <= k < f.drop_first().len() implies (#[trigger] f.drop_first()[k]).0
                != id by {
                assert(f.drop_first()[k] == f[k + 1]);
            }
            lemma_idx_lookup_absent(f.drop_first(), id);
        }
    }
}

/// Whether the removed list holds an id: exactly the ids the baseline has
/// and the fresh snapshot lacks.
proof fn lemma_removed_contains(
    b: Seq<(FileId, FileIndex)>,
    f: Seq<(FileId, FileIndex)>,
    id: FileId,
)
    ensures
        spec_removed(b, f).contains(id) == (idx_lookup(b, id) is Some && idx_lookup(f, id)
            is None),
    decreases b,
{
    broadcast use vstd::seq_lib::group_seq_properties;

    if b.len() > 0 {
        let head: Seq<FileId> = if idx_lookup(f, b[0].0) is None {
            seq![b[0].0]
        } else {
            Seq::empty()
        };
        lemma_removed_contains(b.drop_first(), f, id);
        let tail = spec_removed(b.drop_first(), f);
        assert(spec_removed(b, f) == head + tail);
        if head.contains(id) || tail.contains(id) {
            assert((head + tail).contains(id));
        }
        if (head + tail).contains(id) {
            let w = choose|w: int| 0 <= w < (head + tail).len() && (head + tail)[w] == id;
            if w < head.len() {
                assert(head.contains(id));
            } else {
                assert(tail[w - head.len()] == id);
                assert(tail.contains(id));
            }
        }
    }
}

/// What the applied baseline maps an id to, entry by entry.
proof fn lemma_apply_base_lookup(
    b: Seq<(FileId, FileIndex)>,
    rem: Seq<FileId>,
    cs: Seq<(FileId, FileIndex)>,
    cc: Seq<(FileId, FileIndex)>,
    id: FileId,
)
    ensures
        idx_lookup(spec_apply_base(b, rem, cs, cc), id) == (match idx_lookup(b, id) {
            Some(bfi) => if rem.contains(id) {
                None::<FileIndex>
            } else {
                Some(apply_replacement(bfi, id, cs, cc))
            },
            None => None::<FileIndex>,
        }),
    decreases b,
{
    if b.len() > 0 {
        let head: Seq<(FileId, FileIndex)> = if rem.contains(b[0].0) {
            Seq::empty()
        } else {
            seq![(b[0].0, apply_replacement(b[0].1, b[0].0, cs, cc))]
        };
        lemma_apply_base_lookup(b.drop_first(), rem, cs, cc, id);
        assert(spec_apply_base(b, rem, cs, cc) == head + spec_apply_base(
            b.drop_first(),
            rem,
            cs,
            cc,
        ));
        lemma_idx_lookup_add(head, spec_apply_base(b.drop_first(), rem, cs, cc), id);
        if head.len() > 0 {
            lemma_idx_lookup_single((b[0].0, apply_replacement(b[0].1, b[0].0, cs, cc)), id);
        } else {
            assert(idx_lookup(head, id) is None);
        }
    }
}

/// Every difference between a requester's baseline entry and the fresh
/// entry for the same file is one the delta reports: either a source change
/// the requester may see — authored by somebody else and strictly newer —
/// or, with source and lock untouched, a compile the baseline has not seen.
pub open spec fn delta_reports_change(
    requester: EditorId,
    bfi: FileIndex,
    ffi: FileIndex,
) -> bool {
    ffi != bfi ==> (source_changed(requester, bfi, ffi) || (ffi.last_source_change
        == bfi.last_source_change && ffi.lock == bfi.lock && compiled_changed(bfi, ffi)))
}

/// Index/delta completeness, one step: applying the delta a project computes
/// against a requester's baseline reconstructs the fresh snapshot's files
/// map exactly, provided every change since the baseline is one the delta
/// can report — authored by somebody else and strictly newer, or carried by
/// a reported compile. A client that polls with its last known index
/// converges to the same per-file metadata as one that takes a fresh
/// snapshot.
pub proof fn lemma_delta_reconstructs(
    requester: EditorId,
    b: Seq<(FileId, FileIndex)>,
    f: Seq<(FileId, FileIndex)>,
)
    requires
        unique_keys(f),
        forall|id: FileId|
            (#[trigger] idx_lookup(b, id)) matches Some(bfi) && idx_lookup(f, id) matches Some(
                ffi,
            ) ==> delta_reports_change(requester, bfi, ffi),
    ensures
        forall|id: FileId|
            idx_lookup(
                #[trigger] spec_apply(
                    b,
                    spec_removed(b, f),
                    spec_changed_source(requester, f, b),
                    spec_changed_compiled(f, b),
                    spec_new_files(f, b),
                ),
                id,
            ) == idx_lookup(f, id),
{
    let rem = spec_removed(b, f);
    let cs = spec_changed_source(requester, f, b);
    let cc = spec_changed_compiled(f, b);
    let new = spec_new_files(f, b);
    let applied = spec_apply(b, rem, cs, cc, new);
    assert forall|id: FileId| idx_lookup(applied, id) == idx_lookup(f, id) by {
        lemma_idx_lookup_add(spec_apply_base(b, rem, cs, cc), new, id);
        lemma_apply_base_lookup(b, rem, cs, cc, id);
        lemma_removed_contains(b, f, id);
        lemma_new_files_lookup(f, b, id);
        lemma_changed_source_lookup(requester, f, b, id);
        lemma_changed_compiled_lookup(f, b, id);
        match (idx_lookup(b, id), idx_lookup(f, id)) {
            (Some(bfi), Some(ffi)) => {
                assert(delta_reports_change(requester, bfi, ffi));
                assert(!rem.contains(id));
                if ffi == bfi {
                    assert(!source_changed(requester, bfi, ffi)) by {
                        if ffi.last_source_change is Some {
                            assert(ffi.last_source_change->0.at <= bfi.last_source_change->0.at);
                        }
                    }
                    assert(!compiled_changed(bfi, ffi)) by {
                        if ffi.last_compiled_at is Some {
                            assert(ffi.last_compiled_at->0 <= bfi.last_compiled_at->0);
                        }
                    }
                    assert(apply_replacement(bfi, id, cs, cc) == bfi);
                } else {
                    assert(source_changed(requester, bfi, ffi) || compiled_changed(bfi, ffi));
                    assert(apply_replacement(bfi, id, cs, cc) == ffi);
                }
            },
            _ => {
            },
        }
    }
}


/// Echo suppression, pull path: right after editor `a` commits an edit of
/// one file, a delta requested by `a` against a baseline taken before the
/// edit reports no source change for that file, while a delta requested by
/// any other editor reports exactly the fresh entry — provided the edit's
/// commit time is strictly newer than the baseline's recorded change.
pub proof fn lemma_pull_echo_suppression(
    a: EditorId,
    other: EditorId,
    base: Seq<(FileId, FileIndex)>,
    fresh: Seq<(FileId, FileIndex)>,
    id: FileId,
    now: u64,
)
    requires
        unique_keys(fresh),
        idx_lookup(fresh, id) matches Some(ffi) && ffi.last_source_change == Some(
            Change { by: a, at: now },
        ),
        idx_lookup(base, id) matches Some(bfi) && (bfi.last_source_change matches Some(c) ==> c.at
            < now),
        other != a,
    ensures
        idx_lookup(spec_changed_source(a, fresh, base), id) is None,
        idx_lookup(spec_changed_source(other, fresh, base), id) == idx_lookup(fresh, id),
{
    lemma_changed_source_lookup(a, fresh, base, id);
    lemma_changed_source_lookup(other, fresh, base, id);
}

} // verus!
