//! Packs a paperdoll project (a manifest plus one RGBA image per doll and
//! fragment) into a single tar container, and unpacks such a container back
//! into a project, with deterministic, collision-free entry naming and a
//! lossless default image format.

use vstd::prelude::*;

pub mod error;
pub mod laws;
pub mod model;
pub mod pack;
pub mod unpack;
pub mod policy;
pub mod trusted;

verus! {

/// The customary file extension of a container file (informational only).
pub const EXTENSION_NAME: &'static str = "ppd";

/// The name of the manifest entry inside a container.
pub const FILE_NAME_MANIFEST: &'static str = "manifest.yml";

} // verus!
