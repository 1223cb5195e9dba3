//! The top-level directory of projects, and the set of connected clients.
//!
//! The hub assigns project identities: a new project always receives a
//! fresh id one greater than the current count, and ids are never reused,
//! so identity issuance is monotonic and collision-free for the process
//! lifetime. Lookups route clients to the project actor that serializes
//! all mutation of that project.

use vstd::prelude::*;

use crate::ids::ClientId;
use crate::ids::ProjectId;
use crate::listeners::Registry;
use crate::project::Project;
use crate::project::ProjectInfo;
use crate::project_actor::ProjectActor;
use crate::s2c::Server2Client;

verus! {

/// The directory of all projects and the connected clients.
#[derive(Debug)]
pub struct Hub {
    pub projects: Vec<ProjectActor>,
    pub connections: Registry,
    pub editor_count: u64,
}

impl Hub {
    /// Well-formedness: project ids are dense — the actor at position `i`
    /// owns the project with id `i` — and every part is well-formed.
    pub open spec fn wf(self) -> bool {
        &&& forall|i: int|
            0 <= i < self.projects@.len()
                ==> (#[trigger] self.projects@[i]).project.id.project_id == i
        &&& forall|i: int| 0 <= i < self.projects@.len() ==> (#[trigger] self.projects@[i]).wf()
        &&& self.connections.wf()
    }

    /// Whether `id` names a project of this hub.
    pub open spec fn has_project(self, id: ProjectId) -> bool {
        id.project_id < self.projects@.len()
    }

    /// An empty hub.
    pub fn new() -> (r: Hub)
        ensures
            r.wf(),
            r.projects@ =~= Seq::<ProjectActor>::empty(),
            r.connections.ids@ =~= Seq::<ClientId>::empty(),
            r.editor_count == 0,
    {
        Hub { projects: Vec::new(), connections: Registry::new(), editor_count: 0 }
    }

    /// Issue a fresh editor identity: one greater than every identity
    /// issued before, unique for the process lifetime.
    pub fn new_editor(&mut self) -> (r: crate::ids::EditorId)
        requires
            old(self).editor_count < u64::MAX,
        ensures
            r.editor_id == old(self).editor_count,
            final(self).editor_count == old(self).editor_count + 1,
            final(self).projects == old(self).projects,
            final(self).connections == old(self).connections,
    {
        let id = crate::ids::EditorId { editor_id: self.editor_count };
        self.editor_count = self.editor_count + 1;
        id
    }

    /// A client connects: it is registered, and handed the current project
    /// list.
    pub fn connect(&mut self, client: ClientId) -> (r: Server2Client)
        requires
            old(self).wf(),
        ensures
            final(self).wf(),
            final(self).projects == old(self).projects,
            final(self).connections.subscribed(client),
            (r matches Server2Client::Projects { list } && list@.len()
                == old(self).projects@.len() && (forall|i: int|
                0 <= i < list@.len() ==> (#[trigger] list@[i]).id
                    == old(self).projects@[i].project.id && list@[i].files@ == old(
                self,
                ).projects@[i].project.order@)),
    {
        self.connections.subscribe(client);
        proof {
            if self.connections.ids@ == old(self).connections.ids@.push(client) {
                assert(self.connections.ids@.last() == client);
            }
        }
        let list = self.generate_project_info_list();
        Server2Client::Projects { list }
    }

    /// A client disconnects.
    pub fn disconnect(&mut self, client: ClientId)
        requires
            old(self).wf(),
        ensures
            final(self).wf(),
            final(self).projects == old(self).projects,
            !final(self).connections.subscribed(client),
    {
        self.connections.unsubscribe(client);
    }

    /// The display identity of every project, in id order.
    pub fn generate_project_info_list(&self) -> (r: Vec<ProjectInfo>)
        requires
            self.wf(),
        ensures
            r@.len() == self.projects@.len(),
            forall|i: int|
                0 <= i < r@.len() ==> (#[trigger] r@[i]).id == self.projects@[i].project.id
                    && r@[i].files@ == self.projects@[i].project.order@ && r@[i].name@
                    == self.projects@[i].project.name@,
    {
        let mut out: Vec<ProjectInfo> = Vec::new();
        let mut i: usize = 0;
        while i < self.projects.len()
            invariant
                self.wf(),
                i <= self.projects@.len(),
                out@.len() == i,
                forall|k: int|
                    0 <= k < i ==> (#[trigger] out@[k]).id == self.projects@[k].project.id
                        && out@[k].files@ == self.projects@[k].project.order@ && out@[k].name@
                        == self.projects@[k].project.name@,
            decreases self.projects@.len() - i,
        {
            out.push(self.projects[i].project.generate_info());
            i = i + 1;
        }
        out
    }

    /// Create a project under a fresh identity: one greater than the
    /// current count, never reused even after deletion (which is
    /// unsupported), so issuance is monotonic and collision-free. The new
    /// project carries its seed files; every existing project is untouched.
    pub fn create_project(&mut self, name: String) -> (r: ProjectId)
        requires
            old(self).wf(),
            old(self).projects@.len() < u64::MAX,
        ensures
            final(self).wf(),
            r.project_id == old(self).projects@.len(),
            !old(self).has_project(r),
            final(self).has_project(r),
            final(self).projects@.len() == old(self).projects@.len() + 1,
            forall|j: int|
                0 <= j < old(self).projects@.len() ==> final(self).projects@[j] == old(
                    self,
                ).projects@[j],
            final(self).projects@.last().project.id == r,
            final(self).projects@.last().project.name@ == name@,
            final(self).projects@.last().project.files@.len() == 3,
            final(self).projects@.last().project.files@[0].name@ == "index.md"@,
            final(self).projects@.last().project.files@[1].name@ == "abstract.md"@,
            final(self).projects@.last().project.files@[2].name@ == "conlusion.md"@,
            final(self).projects@.last().project.files@[0].src@ == "# Index"@,
            final(self).projects@.last().project.files@[1].src@ == "# Abstract"@,
            final(self).projects@.last().project.files@[2].src@ == "# Conlusion"@,
            final(self).projects@.last().project.order@ =~= seq![
                crate::ids::FileId { file_id: 0 },
                crate::ids::FileId { file_id: 1 },
                crate::ids::FileId { file_id: 2 },
            ],
            final(self).connections == old(self).connections,
    {
        let id = ProjectId { project_id: self.projects.len() as u64 };
        let actor = ProjectActor::new(id, name);
        self.projects.push(actor);
        proof {
            assert forall|i: int|
                0 <= i < self.projects@.len() implies (#[trigger] self.projects@[i]).project.id
                .project_id == i && self.projects@[i].wf() by {
                if i < old(self).projects@.len() {
                    assert(self.projects@[i] == old(self).projects@[i]);
                }
            }
        }
        id
    }

    /// Register a project restored from disk under a fresh identity, as
    /// `create_project` does for a new one.
    pub fn load_project(&mut self, name: String, parts: Vec<(String, String)>) -> (r: ProjectId)
        requires
            old(self).wf(),
            old(self).projects@.len() < u64::MAX,
            parts@.len() < u64::MAX,
        ensures
            final(self).wf(),
            r.project_id == old(self).projects@.len(),
            !old(self).has_project(r),
            final(self).has_project(r),
            final(self).projects@.len() == old(self).projects@.len() + 1,
            forall|j: int|
                0 <= j < old(self).projects@.len() ==> final(self).projects@[j] == old(
                    self,
                ).projects@[j],
            final(self).projects@.last().project.id == r,
            final(self).projects@.last().project.name@ == name@,
            final(self).projects@.last().project.files@.len() == parts@.len(),
            forall|i: int|
                0 <= i < parts@.len() ==> final(self).projects@.last().project.files@[i].name@ == (
                #[trigger] parts@[i]).0@ && final(self).projects@.last().project.files@[i].src@
                    == parts@[i].1@
                    && final(self).projects@.last().project.files@[i].compiled is Absent,
            forall|k: int|
                0 <= k < final(self).projects@.last().project.order@.len() ==> (
                #[trigger] final(self).projects@.last().project.order@[k]).file_id == k,
            final(self).connections == old(self).connections,
    {
        let id = ProjectId { project_id: self.projects.len() as u64 };
        let project = Project::from_parts(id, name, parts);
        let actor = ProjectActor::new_(project);
        self.projects.push(actor);
        proof {
            assert forall|i: int|
                0 <= i < self.projects@.len() implies (#[trigger] self.projects@[i]).project.id
                .project_id == i && self.projects@[i].wf() by {
                if i < old(self).projects@.len() {
                    assert(self.projects@[i] == old(self).projects@[i]);
                }
            }
        }
        id
    }

    /// The actor of one project, for reading.
    pub fn get_project(&self, id: ProjectId) -> (r: Option<&ProjectActor>)
        requires
            self.wf(),
        ensures
            match r {
                Some(a) => self.has_project(id) && *a == self.projects@[id.project_id as int],
                None => !self.has_project(id),
            },
    {
        if id.project_id < self.projects.len() as u64 {
            Some(&self.projects[id.project_id as usize])
        } else {
            None
        }
    }

    /// The actor of one project, for its serialized mutation: the hub after
    /// the borrow holds whatever the caller made of the actor, every other
    /// project untouched.
    pub fn get_project_mut(&mut self, id: ProjectId) -> (r: Option<&mut ProjectActor>)
        requires
            old(self).wf(),
        ensures
            match r {
                Some(a) => old(self).has_project(id) && *a == old(self).projects@[
                    id.project_id as int
                ] && final(self).projects@ == old(self).projects@.update(
                    id.project_id as int,
                    *final(a),
                ) && final(self).connections == old(self).connections,
                None => !old(self).has_project(id) && *final(self) == *old(self),
            },
    {
        if id.project_id < self.projects.len() as u64 {
            Some(&mut self.projects[id.project_id as usize])
        } else {
            None
        }
    }
}

} // verus!
