//! Sorts the files of a directory tree into groups by regular expressions on their
//! paths, and plans how each group is copied or moved into a folder of its own.
//!
//! - [`scan`] walks the source tree, one directory listing at a time.
//! - [`pattern`] compiles the expressions.
//! - [`classify`] builds one group per expression.
//! - [`plan`] lists the directories each group needs, and the groups themselves.
//! - [`transfer`] drives the copies or moves, with a copy-and-remove fallback.
//!
//! Paths are strings whose segments are separated by `/`.
use vstd::prelude::*;

pub mod path;
pub mod pattern;
pub mod classify;
pub mod plan;
pub mod transfer;
pub mod scan;

verus! {

/// The file handler that acts on the real file system. The library only decides
/// which operation comes next (see [`transfer::Transfer`] and [`scan::Scanner`]);
/// the program around it carries each one out through this handler.
pub struct FileHandlerMain;

} // verus!
