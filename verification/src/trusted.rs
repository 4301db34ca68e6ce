//! The boundary to the outside crates: type declarations, names for what
//! their pure calls return, and thin wrappers whose contracts Verus
//! believes. Everything else in this crate is verified against these.

use vstd::prelude::*;
use crate::model::{Layer, LayerM, idps, layer_from_idp, png_ext, portable_name};

verus! {

#[verifier::external_type_specification]
#[verifier::external_body]
pub struct ExManifest(paperdoll::Manifest);

#[verifier::external_type_specification]
#[verifier::external_body]
pub struct ExPaperdollFactory(paperdoll::PaperdollFactory);

/// The dolls a manifest holds, in order, as plain layer records.
pub uninterp spec fn dolls_model(m: paperdoll::Manifest) -> Seq<LayerM>;

/// The fragments a manifest holds, in order, as plain layer records.
pub uninterp spec fn fragments_model(m: paperdoll::Manifest) -> Seq<LayerM>;

/// What parsing the given bytes as a manifest document yields: the id/path
/// pairs of the dolls and of the fragments, in order; nothing when the
/// bytes are not a well-formed manifest document.
pub uninterp spec fn yaml_model_of(b: Seq<u8>) -> Option<(Seq<(u32, Seq<u8>)>, Seq<(u32, Seq<u8>)>)>;

/// What decoding the given bytes as a raster image yields: width, height
/// and the RGBA8 buffer; nothing when the bytes decode as no known format.
pub uninterp spec fn img_decode_of(b: Seq<u8>) -> Option<(u32, u32, Seq<u8>)>;

/// The named entries a tar byte stream holds, in order; nothing when the
/// bytes are not a readable archive.
pub uninterp spec fn tar_entries_of(b: Seq<u8>) -> Option<Seq<(Seq<u8>, Seq<u8>)>>;

/// What encoding a pixel buffer to the format of the given extension
/// yields: the encoded file bytes, a function of extension, dimensions and
/// buffer alone; nothing when the extension names no writable format or
/// the encoder refuses the buffer.
pub uninterp spec fn img_encode_res(ext: Seq<u8>, w: u32, h: u32, px: Seq<u8>) -> Option<Seq<u8>>;

/// What rendering the given manifest to text yields: the document bytes,
/// a function of the manifest value alone; nothing when rendering fails.
pub uninterp spec fn yaml_ser_of(m: paperdoll::Manifest) -> Option<Seq<u8>>;

/// What building an archive from the given entries yields: the container
/// bytes, a function of the entries alone; nothing when the build fails.
pub uninterp spec fn tar_pack_res(es: Seq<(Seq<u8>, Seq<u8>)>) -> Option<Seq<u8>>;

/// Whether the document factory accepts a manifest: it checks that ids
/// are unique within each collection, a function of the manifest alone.
pub uninterp spec fn factory_accepts(m: paperdoll::Manifest) -> bool;

/// The document the factory builds from a manifest it accepts: a function
/// of the manifest alone.
pub uninterp spec fn factory_of(m: paperdoll::Manifest) -> paperdoll::PaperdollFactory;

// ----- paperdoll manifest access -----

/// Relies on the `dolls` field of paperdoll's `Manifest` being the ordered
/// doll collection.
#[verifier::external_body]
pub(crate) fn dolls_len(m: &paperdoll::Manifest) -> (n: usize)
    ensures
        n == dolls_model(*m).len(),
{
    m.dolls.len()
}

/// Relies on the `fragments` field of paperdoll's `Manifest` being the
/// ordered fragment collection.
#[verifier::external_body]
pub(crate) fn fragments_len(m: &paperdoll::Manifest) -> (n: usize)
    ensures
        n == fragments_model(*m).len(),
{
    m.fragments.len()
}

/// Relies on paperdoll's `Doll`: `id()`, the public `path` string and the
/// public `image` record carry exactly the modelled fields.
#[verifier::external_body]
pub(crate) fn doll_at(m: &paperdoll::Manifest, i: usize) -> (l: Layer)
    requires
        i < dolls_model(*m).len(),
    ensures
        l@ == dolls_model(*m)[i as int],
{
    let d = &m.dolls[i];
    Layer {
        id: d.id(),
        path: d.path.clone().into_bytes(),
        width: d.image.width,
        height: d.image.height,
        pixels: d.image.pixels.clone(),
    }
}

/// Relies on paperdoll's `Fragment` in the same way as `doll_at`.
#[verifier::external_body]
pub(crate) fn fragment_at(m: &paperdoll::Manifest, i: usize) -> (l: Layer)
    requires
        i < fragments_model(*m).len(),
    ensures
        l@ == fragments_model(*m)[i as int],
{
    let f = &m.fragments[i];
    Layer {
        id: f.id(),
        path: f.path.clone().into_bytes(),
        width: f.image.width,
        height: f.image.height,
        pixels: f.image.pixels.clone(),
    }
}

/// Relies on assigning the public `path` field of paperdoll's `Doll`; the
/// bytes are ASCII, so the stored string holds exactly them.
#[verifier::external_body]
pub(crate) fn doll_set_path(m: &mut paperdoll::Manifest, i: usize, path: Vec<u8>)
    requires
        i < dolls_model(*old(m)).len(),
        forall|j: int| 0 <= j < path@.len() ==> path@[j] < 128,
    ensures
        dolls_model(*final(m)) == dolls_model(*old(m)).update(
            i as int,
            (LayerM { path: path@, ..dolls_model(*old(m))[i as int] }),
        ),
        fragments_model(*final(m)) == fragments_model(*old(m)),
{
    m.dolls[i].path = String::from_utf8_lossy(&path).into_owned();
}

/// Relies on assigning the public `path` field of paperdoll's `Fragment`.
#[verifier::external_body]
pub(crate) fn fragment_set_path(m: &mut paperdoll::Manifest, i: usize, path: Vec<u8>)
    requires
        i < fragments_model(*old(m)).len(),
        forall|j: int| 0 <= j < path@.len() ==> path@[j] < 128,
    ensures
        fragments_model(*final(m)) == fragments_model(*old(m)).update(
            i as int,
            (LayerM { path: path@, ..fragments_model(*old(m))[i as int] }),
        ),
        dolls_model(*final(m)) == dolls_model(*old(m)),
{
    m.fragments[i].path = String::from_utf8_lossy(&path).into_owned();
}

/// Relies on assigning the public `image` record of paperdoll's `Doll`.
#[verifier::external_body]
pub(crate) fn doll_set_image(m: &mut paperdoll::Manifest, i: usize, w: u32, h: u32, px: Vec<u8>)
    requires
        i < dolls_model(*old(m)).len(),
    ensures
        dolls_model(*final(m)) == dolls_model(*old(m)).update(
            i as int,
            (LayerM { width: w, height: h, pixels: px@, ..dolls_model(*old(m))[i as int] }),
        ),
        fragments_model(*final(m)) == fragments_model(*old(m)),
{
    let d = &mut m.dolls[i];
    d.image.width = w;
    d.image.height = h;
    d.image.pixels = px;
}

/// Relies on assigning the public `image` record of paperdoll's `Fragment`.
#[verifier::external_body]
pub(crate) fn fragment_set_image(
    m: &mut paperdoll::Manifest,
    i: usize,
    w: u32,
    h: u32,
    px: Vec<u8>,
)
    requires
        i < fragments_model(*old(m)).len(),
    ensures
        fragments_model(*final(m)) == fragments_model(*old(m)).update(
            i as int,
            (LayerM { width: w, height: h, pixels: px@, ..fragments_model(*old(m))[i as int] }),
        ),
        dolls_model(*final(m)) == dolls_model(*old(m)),
{
    let f = &mut m.fragments[i];
    f.image.width = w;
    f.image.height = h;
    f.image.pixels = px;
}

/// Relies on paperdoll's `PaperdollFactory::from_manifest`: pure id
/// bookkeeping over the manifest's collections, deterministic in the
/// manifest value, succeeding exactly when it accepts the ids.
#[verifier::external_body]
pub(crate) fn factory_from_manifest(m: paperdoll::Manifest) -> (r: Result<
    paperdoll::PaperdollFactory,
    (),
>)
    ensures
        r is Ok <==> factory_accepts(m),
        r matches Ok(f) ==> f == factory_of(m),
{
    paperdoll::PaperdollFactory::from_manifest(m).map_err(|_| ())
}

// ----- manifest text -----

/// Relies on serde_yaml::from_str with paperdoll's derived `Deserialize`:
/// the parsed manifest is a function of the bytes; its dolls and fragments
/// carry the ids and paths of the text, in order; the manifest text never
/// carries pixel data, so every parsed image record is empty.
#[verifier::external_body]
pub(crate) fn yaml_parse(bytes: &Vec<u8>) -> (r: Result<paperdoll::Manifest, ()>)
    ensures
        match r {
            Ok(m) => {
                &&& yaml_model_of(bytes@) matches Some(dp)
                &&& dolls_model(m) == dp.0.map_values(|p: (u32, Seq<u8>)| layer_from_idp(p))
                &&& fragments_model(m) == dp.1.map_values(|p: (u32, Seq<u8>)| layer_from_idp(p))
            },
            Err(_) => yaml_model_of(bytes@) is None,
        },
{
    let s = match std::str::from_utf8(bytes) {
        Ok(s) => s,
        Err(_) => return Err(()),
    };
    serde_yaml::from_str(s).map_err(|_| ())
}

/// Relies on serde_yaml::to_string with paperdoll's derived `Serialize`,
/// and on serde's round trip for derived impls: parsing the rendered text
/// gives back the same dolls and fragments (their ids and paths; image
/// records are skipped by the format).
#[verifier::external_body]
pub(crate) fn yaml_serialize(m: &paperdoll::Manifest) -> (r: Result<Vec<u8>, ()>)
    ensures
        r matches Ok(b) ==> yaml_ser_of(*m) == Some(b@) && yaml_model_of(b@) == Some(
            (idps(dolls_model(*m)), idps(fragments_model(*m))),
        ),
        r is Err ==> yaml_ser_of(*m) is None,
{
    match serde_yaml::to_string(m) {
        Ok(s) => Ok(s.into_bytes()),
        Err(_) => Err(()),
    }
}

// ----- raster images -----

/// Relies on image::load_from_memory and `DynamicImage::into_rgba8`: the
/// decoded buffer is a function of the bytes alone and holds exactly
/// width * height RGBA quadruples.
#[verifier::external_body]
pub(crate) fn img_decode(bytes: &Vec<u8>) -> (r: Result<(u32, u32, Vec<u8>), ()>)
    ensures
        match r {
            Ok(t) => img_decode_of(bytes@) == Some((t.0, t.1, t.2@)) && t.2@.len() == t.0
                * t.1 * 4,
            Err(_) => img_decode_of(bytes@) is None,
        },
{
    match image::load_from_memory(bytes) {
        Ok(img) => {
            let img = img.into_rgba8();
            let (w, h) = (img.width(), img.height());
            Ok((w, h, img.into_vec()))
        },
        Err(_) => Err(()),
    }
}

/// Relies on image::write_buffer_with_format, with the format taken from
/// the extension as image::ImageFormat::from_extension does, and on PNG
/// being lossless for RGBA8: decoding a PNG it produced yields the same
/// dimensions and bytes.
#[verifier::external_body]
pub(crate) fn img_encode(ext: &Vec<u8>, width: u32, height: u32, pixels: &Vec<u8>) -> (r: Result<
    Vec<u8>,
    (),
>)
    requires
        pixels@.len() == width * height * 4,
    ensures
        r matches Ok(b) ==> img_encode_res(ext@, width, height, pixels@) == Some(b@) && (ext@
            == png_ext() ==> img_decode_of(b@) == Some((width, height, pixels@))) && (forall|
            j: int,
        | 0 <= j < ext@.len() ==> #[trigger] ext@[j] < 128),
        r is Err ==> img_encode_res(ext@, width, height, pixels@) is None,
{
    let fmt = match std::str::from_utf8(ext).ok().and_then(image::ImageFormat::from_extension) {
        Some(f) => f,
        None => return Err(()),
    };
    let mut out = std::io::Cursor::new(Vec::new());
    match image::write_buffer_with_format(
        &mut out, pixels, width, height, image::ExtendedColorType::Rgba8, fmt,
    ) {
        Ok(()) => Ok(out.into_inner()),
        Err(_) => Err(()),
    }
}

// ----- tar containers -----

/// Relies on tar::Archive, `Entry::path_bytes` and `read_to_end`: the
/// entries read from a byte stream are a function of those bytes, returned
/// with their names and contents in archive order.
#[verifier::external_body]
pub(crate) fn tar_unpack(bytes: &Vec<u8>) -> (r: Result<Vec<(Vec<u8>, Vec<u8>)>, ()>)
    ensures
        match r {
            Ok(es) => tar_entries_of(bytes@) == Some(es.deep_view()),
            Err(_) => tar_entries_of(bytes@) is None,
        },
{
    let mut ar = tar::Archive::new(std::io::Cursor::new(bytes.as_slice()));
    let mut out: Vec<(Vec<u8>, Vec<u8>)> = Vec::new();
    for entry in ar.entries().map_err(|_| ())? {
        let mut entry = entry.map_err(|_| ())?;
        let name = entry.path_bytes().to_vec();
        let mut data = Vec::new();
        std::io::Read::read_to_end(&mut entry, &mut data).map_err(|_| ())?;
        out.push((name, data));
    }
    Ok(out)
}

/// Relies on tar::Builder::append_data and `into_inner`: the build is a
/// deterministic function of the entries (fixed header fields, no clock),
/// and reading the archive back yields exactly the given names and
/// contents, in order, whenever every name is portable — a single
/// printable-ASCII path component: slashes would go through path
/// normalization, which drops `.` components and doubled separators.
#[verifier::external_body]
pub(crate) fn tar_pack(entries: &Vec<(Vec<u8>, Vec<u8>)>) -> (r: Result<Vec<u8>, ()>)
    ensures
        r matches Ok(b) ==> tar_pack_res(entries.deep_view()) == Some(b@) && ((forall|i: int|
            0 <= i < entries@.len() ==> portable_name(#[trigger] entries@[i].0@))
            ==> tar_entries_of(b@) == Some(entries.deep_view())),
        r is Err ==> tar_pack_res(entries.deep_view()) is None,
{
    let mut builder = tar::Builder::new(Vec::new());
    for (name, data) in entries.iter() {
        let name = std::str::from_utf8(name).map_err(|_| ())?;
        let mut header = tar::Header::new_gnu();
        header.set_size(data.len() as u64);
        header.set_mode(0o644);
        builder.append_data(&mut header, name, data.as_slice()).map_err(|_| ())?;
    }
    builder.into_inner().map_err(|_| ())
}

} // verus!
