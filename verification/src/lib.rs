//! A verified directory-synchronization engine.
//!
//! The engine works on an in-memory model of a filesystem tree. It locates a
//! routing descriptor file in a source tree, derives a destination path from
//! the fields of that descriptor, and plans a resilient recursive copy of the
//! source tree, skipping OS-reserved housekeeping entries. A companion volume
//! module models the selection of removable volumes from raw enumeration data.
//! All filesystem and operating-system calls are left to the surrounding
//! application, which feeds this library plain values.

pub mod copy;
pub mod descriptor;
pub mod fs_tree;
pub mod resolve;
pub mod text;
pub mod volumes;

use vstd::prelude::*;

verus! {

/// The failures the engine can surface. Resolution failures carry the first
/// two variants; the copy planner carries the last two.
#[derive(Clone, Copy, Debug, PartialEq, Eq, Structural)]
pub enum EngineError {
    /// No descriptor file is reachable from the source root.
    DescriptorNotFound,
    /// The first file reached by the descriptor search could not be read, or
    /// a directory on the search path could not be listed.
    DescriptorUnreadable,
    /// A source directory could not be listed during the copy.
    SourceDirUnreadable,
    /// The source root is a single file and could not be read.
    SourceFileUnreadable,
}

} // verus!
