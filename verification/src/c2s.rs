//! Client-to-server messages: the discrete intents the transport layer
//! delivers into the engine, each tagged with the sending client.

use vstd::prelude::*;

use crate::ids::EditorId;
use crate::ids::FileId;
use crate::ids::ProjectId;
use crate::project::ProjectIndex;

verus! {

/// A client's intent at the top level: create a project, or address one.
#[derive(Debug)]
pub enum Client2Server {
    CreateProject { project_name: String },
    Project { id: ProjectId, msg: Client2ServerProject },
}

/// A client's intent within one project.
#[derive(Debug)]
pub enum Client2ServerProject {
    JoinProject,
    LeaveProject,
    CreateFile { file_name: String },
    Reorder { id: FileId, new_index: usize },
    File { id: FileId, msg: Client2ServerProjectFile },
}

/// A client's intent for one file: join or leave its source or compiled
/// view, or replace its source text.
#[derive(Debug)]
pub enum Client2ServerProjectFile {
    JoinFileSource,
    LeaveFileSource,
    EditFileSource { contents: String },
    JoinFileDoc,
    LeaveFileDoc,
}

/// Request payload for creating a file.
#[derive(Debug)]
pub struct NewFile {
    pub name: String,
}

/// Request payload of the pull-based reconciliation path: the requesting
/// editor presents the last index snapshot it holds.
#[derive(Debug)]
pub struct IndexDeltaRequest {
    pub index: ProjectIndex,
    pub editor: EditorId,
}

} // verus!
