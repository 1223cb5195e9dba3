//! Server-to-client messages: the outbound updates the engine produces for
//! the transport layer to deliver to subscribed clients.

use vstd::prelude::*;

use crate::doc::Doc;
use crate::file::FileInfo;
use crate::ids::FileId;
use crate::ids::ProjectId;
use crate::project::ProjectInfo;

verus! {

/// A file's edit-lock state as presented to one client: free, held by
/// somebody else, or held by the asking client itself.
#[derive(PartialEq, Eq, Structural, Clone, Copy, Debug)]
pub enum Lock {
    Unlock,
    LockBy {},
    LockByMe,
}

/// An outbound update at the top level: the full project list, or an
/// update within one project.
#[derive(Debug)]
pub enum Server2Client {
    Projects { list: Vec<ProjectInfo> },
    Project { id: ProjectId, msg: Server2ClientProject },
}

/// An outbound update within one project.
#[derive(Debug)]
pub enum Server2ClientProject {
    Files { list: Vec<FileInfo> },
    UpdateInfo { info: ProjectInfo },
    File { id: FileId, msg: Server2ClientProjectFile },
}

/// An outbound update for one file: its lock state, its current source, or
/// its current compiled tree.
#[derive(Debug)]
pub enum Server2ClientProjectFile {
    FileLock { lock: Lock },
    FileSource { src: String },
    FileDoc { doc: Doc },
}

} // verus!
