//! Opaque identifiers for connected sessions, projects and files.
//!
//! Identifiers are plain integers wrapped in distinct types so that they
//! cannot be confused with one another. Each kind is unique within its
//! parent scope and assigned monotonically (see `Hub` and `Project`), and
//! is immutable after creation.

use vstd::prelude::*;

verus! {

/// Identifier of a connected client session, unique for the process lifetime.
#[derive(PartialEq, Eq, Structural, Clone, Copy, Debug)]
pub struct ClientId {
    pub client_id: u64,
}

/// Identifier of an editing session, used by the edit-lock protocol and by
/// the pull-based index/delta path to suppress a client's own echoes.
#[derive(PartialEq, Eq, Structural, Clone, Copy, Debug)]
pub struct EditorId {
    pub editor_id: u64,
}

/// Identifier of a project, unique within its `Hub`.
#[derive(PartialEq, Eq, Structural, Clone, Copy, Debug)]
pub struct ProjectId {
    pub project_id: u64,
}

/// Identifier of a file, unique within its `Project`.
#[derive(PartialEq, Eq, Structural, Clone, Copy, Debug)]
pub struct FileId {
    pub file_id: u64,
}

} // verus!
