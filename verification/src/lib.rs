//! Synchronization and compilation engine for a collaborative document editor.
//!
//! A `Hub` owns an ordered directory of `Project`s; each project owns an
//! ordered collection of `File`s (source text plus a derived document tree).
//! Edits are arbitrated by an expiring per-file lock, changes are pushed to
//! subscribers through a listener registry with echo suppression, and clients
//! without an open connection reconcile through index snapshots and deltas.
//! The compilation pipeline rewrites a parsed document tree through an ordered
//! list of transforms backed by content-addressed caches; the external
//! processes themselves (markdown compiler, interpreter, diagram renderer) are
//! driven by the embedding program, which feeds their results back in as plain
//! values.

pub mod c2s;
pub mod cache;
pub mod doc;
pub mod file;
pub mod hub;
pub mod ids;
pub mod listeners;
pub mod lock;
pub mod project;
pub mod project_actor;
pub mod s2c;
pub mod walk_pandoc;
