use vstd::prelude::*;
use crate::model::LayerKind;

verus! {

/// Everything that can go wrong while packing or unpacking a container.
/// The image errors name the offending entry's kind, id and path.
#[derive(Debug)]
pub enum PpdError {
    /// The container bytes are not a readable archive.
    Archive,
    /// The container holds no entry named `manifest.yml`.
    MissingManifest,
    /// The manifest entry is not a well-formed manifest document.
    ManifestParse,
    /// A backing image file is missing or its bytes do not decode.
    ImageDecode { kind: LayerKind, id: u32, path: Vec<u8> },
    /// A pixel buffer could not be encoded to its chosen format.
    ImageEncode { kind: LayerKind, id: u32, path: Vec<u8> },
    /// The manifest could not be rendered to text.
    ManifestSerialize,
    /// The archive writer failed while the container was being built.
    ArchiveWrite,
    /// The document factory refused the reconstructed manifest.
    Factory,
}

} // verus!
