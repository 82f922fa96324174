//! Builds and maintains an inventory of the regular files under a
//! repository directory — each file's size and one or more content
//! digests — and re-checks a later snapshot of the repository against it
//! to detect drift: files added, removed, resized, or content-altered.
//!
//! The library works on plain snapshot values (relative paths, sizes,
//! contents); listing directories, reading files and persisting the
//! inventory as JSON belong to the surrounding application. Digest
//! computations are carried out by the `md-5` and `sha1` crates behind
//! narrow trusted wrappers; everything else is verified.

pub mod document;
pub mod hash;
pub mod inventory;
pub mod laws;
pub mod util;

use vstd::prelude::*;

verus! {

/// Version string recorded in every configuration this tool builds.
pub const TOOL_VERSION: &'static str = "0.1.0";

} // verus!
