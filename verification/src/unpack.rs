//! The unpack pipeline: reads the entries of a container, parses the
//! manifest entry, decodes the backing image file of every entry whose
//! manifest record names one, and rebuilds the in-memory document.

use vstd::prelude::*;
use crate::error::PpdError;
use crate::model::{LayerKind, LayerM, layer_from_idp, manifest_name, norm_name};
use crate::policy::{bytes_eq, manifest_name_bytes};
use crate::trusted::{
    doll_at, doll_set_image, dolls_len, dolls_model, factory_accepts, factory_from_manifest,
    factory_of, fragment_at, fragment_set_image, fragments_len, fragments_model, img_decode,
    img_decode_of, tar_entries_of, tar_unpack, yaml_model_of, yaml_parse,
};

verus! {

/// The contents of the first entry whose (normalized) name is `name`.
pub open spec fn find_entry(es: Seq<(Seq<u8>, Seq<u8>)>, name: Seq<u8>) -> Option<Seq<u8>>
    decreases es.len(),
{
    if es.len() == 0 {
        None
    } else if norm_name(es[0].0) == name {
        Some(es[0].1)
    } else {
        find_entry(es.drop_first(), name)
    }
}

pub proof fn lemma_find_entry_at(es: Seq<(Seq<u8>, Seq<u8>)>, name: Seq<u8>, i: int)
    requires
        0 <= i < es.len(),
        norm_name(es[i].0) == name,
        forall|j: int| 0 <= j < i ==> norm_name(#[trigger] es[j].0) != name,
    ensures
        find_entry(es, name) == Some(es[i].1),
    decreases i,
{
    if i == 0 {
    } else {
        assert(norm_name(es[0].0) != name);
        assert forall|j: int| 0 <= j < i - 1 implies norm_name(
            #[trigger] es.drop_first()[j].0,
        ) != name by {
            assert(es.drop_first()[j] == es[j + 1]);
        }
        lemma_find_entry_at(es.drop_first(), name, i - 1);
        assert(es.drop_first()[i - 1] == es[i]);
    }
}

pub proof fn lemma_find_entry_none(es: Seq<(Seq<u8>, Seq<u8>)>, name: Seq<u8>)
    requires
        forall|j: int| 0 <= j < es.len() ==> norm_name(#[trigger] es[j].0) != name,
    ensures
        find_entry(es, name) is None,
    decreases es.len(),
{
    if es.len() > 0 {
        assert forall|j: int| 0 <= j < es.len() - 1 implies norm_name(
            #[trigger] es.drop_first()[j].0,
        ) != name by {
            assert(es.drop_first()[j] == es[j + 1]);
        }
        lemma_find_entry_none(es.drop_first(), name);
    }
}

/// What reading one manifest record out of the container yields: a record
/// with an empty path keeps its (empty) inline image; one with a path is
/// rebuilt from the decoded contents of the entry of that name; reading
/// fails when that entry is missing or does not decode.
pub open spec fn unpack_layer(es: Seq<(Seq<u8>, Seq<u8>)>, p: (u32, Seq<u8>)) -> Option<LayerM> {
    if p.1.len() == 0 {
        Some(layer_from_idp(p))
    } else {
        match find_entry(es, p.1) {
            None => None,
            Some(data) => match img_decode_of(data) {
                None => None,
                Some(t) => Some(LayerM { id: p.0, path: p.1, width: t.0, height: t.1, pixels: t.2 }),
            },
        }
    }
}

/// A successful unpack of `es`: the manifest entry is present and parses,
/// and every record of both collections unpacks, giving the models `dm`
/// and `fm`.
pub open spec fn unpack_ok_shape(
    es: Seq<(Seq<u8>, Seq<u8>)>,
    dm: Seq<LayerM>,
    fm: Seq<LayerM>,
) -> bool {
    match find_entry(es, manifest_name()) {
        None => false,
        Some(mb) => match yaml_model_of(mb) {
            None => false,
            Some(dpfp) => {
                &&& dm.len() == dpfp.0.len()
                &&& fm.len() == dpfp.1.len()
                &&& forall|i: int|
                    0 <= i < dm.len() ==> Some(#[trigger] dm[i]) == unpack_layer(es, dpfp.0[i])
                &&& forall|i: int|
                    0 <= i < fm.len() ==> Some(#[trigger] fm[i]) == unpack_layer(es, dpfp.1[i])
            },
        },
    }
}

/// An image-decode failure: the manifest parsed, every record before the
/// named one unpacked, and the named record (of the error's kind, id and
/// path) is the first that does not.
pub open spec fn decode_err_shape(
    es: Seq<(Seq<u8>, Seq<u8>)>,
    kind: LayerKind,
    id: u32,
    path: Seq<u8>,
) -> bool {
    match find_entry(es, manifest_name()) {
        None => false,
        Some(mb) => match yaml_model_of(mb) {
            None => false,
            Some(dpfp) => match kind {
                LayerKind::Doll => exists|i: int|
                    0 <= i < dpfp.0.len() && (#[trigger] unpack_layer(es, dpfp.0[i])) is None
                        && dpfp.0[i].0 == id && dpfp.0[i].1 == path && (forall|j: int|
                        0 <= j < i ==> (#[trigger] unpack_layer(es, dpfp.0[j])) is Some),
                LayerKind::Fragment => (forall|j: int|
                    0 <= j < dpfp.0.len() ==> (#[trigger] unpack_layer(es, dpfp.0[j])) is Some)
                    && exists|i: int|
                    0 <= i < dpfp.1.len() && (#[trigger] unpack_layer(es, dpfp.1[i])) is None
                        && dpfp.1[i].0 == id && dpfp.1[i].1 == path && (forall|j: int|
                        0 <= j < i ==> (#[trigger] unpack_layer(es, dpfp.1[j])) is Some),
            },
        },
    }
}

/// Returns the index of the first entry whose normalized name is `name`.
fn find_entry_exec(entries: &Vec<(Vec<u8>, Vec<u8>)>, name: &Vec<u8>) -> (r: Option<usize>)
    ensures
        match r {
            Some(i) => i < entries@.len() && find_entry(entries.deep_view(), name@) == Some(
                entries.deep_view()[i as int].1,
            ) && entries.deep_view()[i as int].1 =~= entries@[i as int].1@,
            None => find_entry(entries.deep_view(), name@) is None,
        },
{
    let ghost es = entries.deep_view();
    let mut i: usize = 0;
    while i < entries.len()
        invariant
            es == entries.deep_view(),
            es.len() == entries@.len(),
            i <= entries@.len(),
            forall|j: int| 0 <= j < i ==> norm_name(#[trigger] es[j].0) != name@,
        decreases entries@.len() - i,
    {
        let entry_name = &entries[i].0;
        let norm = norm_name_exec(entry_name);
        proof {
            assert(es[i as int].0 =~= entries@[i as int].0@);
        }
        if bytes_eq(&norm, name) {
            proof {
                lemma_find_entry_at(es, name@, i as int);
                assert(es[i as int].1 =~= entries@[i as int].1@);
            }
            return Some(i);
        }
        i += 1;
    }
    proof {
        lemma_find_entry_none(es, name@);
    }
    None
}

/// Strips a leading `./` from an entry name, if present.
fn norm_name_exec(v: &Vec<u8>) -> (r: Vec<u8>)
    ensures
        r@ == norm_name(v@),
{
    let start: usize = if v.len() >= 2 && v[0] == 46 && v[1] == 47 {
        2
    } else {
        0
    };
    let mut r: Vec<u8> = Vec::new();
    let mut i: usize = start;
    while i < v.len()
        invariant
            start <= i <= v.len(),
            r@ == v@.subrange(start as int, i as int),
        decreases v.len() - i,
    {
        r.push(v[i]);
        i += 1;
        proof {
            assert(v@.subrange(start as int, i - 1) + seq![v@[i - 1]] =~= v@.subrange(
                start as int,
                i as int,
            ));
        }
    }
    proof {
        if start == 2 {
            assert(r@ =~= norm_name(v@));
        } else {
            assert(v@.subrange(0, v@.len() as int) =~= v@);
        }
    }
    r
}

/// Rebuilds a manifest from container entries: locates `manifest.yml`
/// (allowing a leading `./` on entry names), parses it, and then decodes
/// the backing image of every doll and fragment whose record names one,
/// in collection order, stopping at the first failure.
pub fn unpack_manifest(entries: &Vec<(Vec<u8>, Vec<u8>)>) -> (r: Result<
    paperdoll::Manifest,
    PpdError,
>)
    ensures
        match r {
            Ok(m) => unpack_ok_shape(entries.deep_view(), dolls_model(m), fragments_model(m)),
            Err(e) => match e {
                PpdError::MissingManifest => find_entry(entries.deep_view(), manifest_name())
                    is None,
                PpdError::ManifestParse => (find_entry(entries.deep_view(), manifest_name())
                    matches Some(mb) && yaml_model_of(mb) is None),
                PpdError::ImageDecode { kind, id, path } => decode_err_shape(
                    entries.deep_view(),
                    kind,
                    id,
                    path@,
                ),
                _ => false,
            },
        },
{
    let ghost es = entries.deep_view();
    let mn = manifest_name_bytes();
    let mi = match find_entry_exec(entries, &mn) {
        Some(i) => i,
        None => {
            return Err(PpdError::MissingManifest);
        },
    };
    let mut m = match yaml_parse(&entries[mi].1) {
        Ok(m) => m,
        Err(_) => {
            return Err(PpdError::ManifestParse);
        },
    };
    let ghost dpfp = yaml_model_of(find_entry(es, manifest_name())->Some_0)->Some_0;
    let nd = dolls_len(&m);
    let mut i: usize = 0;
    while i < nd
        invariant
            es == entries.deep_view(),
            find_entry(es, manifest_name()) matches Some(mb) && yaml_model_of(mb) == Some(dpfp),
            nd == dpfp.0.len(),
            i <= nd,
            dolls_model(m).len() == dpfp.0.len(),
            fragments_model(m).len() == dpfp.1.len(),
            forall|j: int|
                0 <= j < i ==> Some(#[trigger] dolls_model(m)[j]) == unpack_layer(es, dpfp.0[j]),
            forall|j: int|
                i <= j < nd ==> #[trigger] dolls_model(m)[j] == layer_from_idp(dpfp.0[j]),
            forall|j: int|
                0 <= j < dpfp.1.len() ==> #[trigger] fragments_model(m)[j] == layer_from_idp(
                    dpfp.1[j],
                ),
        decreases nd - i,
    {
        let layer = doll_at(&m, i);
        proof {
            assert(layer@ == layer_from_idp(dpfp.0[i as int]));
        }
        if layer.path.len() > 0 {
            let found = find_entry_exec(entries, &layer.path);
            let ei = match found {
                Some(e) => e,
                None => {
                    proof {
                        assert(unpack_layer(es, dpfp.0[i as int]) is None);
                        assert forall|j: int| 0 <= j < i implies (#[trigger] unpack_layer(
                            es,
                            dpfp.0[j],
                        )) is Some by {
                            assert(Some(dolls_model(m)[j]) == unpack_layer(es, dpfp.0[j]));
                        }
                    }
                    return Err(PpdError::ImageDecode {
                        kind: LayerKind::Doll,
                        id: layer.id,
                        path: layer.path,
                    });
                },
            };
            let decoded = match img_decode(&entries[ei].1) {
                Ok(d) => d,
                Err(_) => {
                    proof {
                        assert(unpack_layer(es, dpfp.0[i as int]) is None);
                        assert forall|j: int| 0 <= j < i implies (#[trigger] unpack_layer(
                            es,
                            dpfp.0[j],
                        )) is Some by {
                            assert(Some(dolls_model(m)[j]) == unpack_layer(es, dpfp.0[j]));
                        }
                    }
                    return Err(PpdError::ImageDecode {
                        kind: LayerKind::Doll,
                        id: layer.id,
                        path: layer.path,
                    });
                },
            };
            let (w, h, px) = decoded;
            doll_set_image(&mut m, i, w, h, px);
        }
        i += 1;
    }
    let nf = fragments_len(&m);
    let mut i2: usize = 0;
    while i2 < nf
        invariant
            es == entries.deep_view(),
            find_entry(es, manifest_name()) matches Some(mb) && yaml_model_of(mb) == Some(dpfp),
            nf == dpfp.1.len(),
            i2 <= nf,
            dolls_model(m).len() == dpfp.0.len(),
            fragments_model(m).len() == dpfp.1.len(),
            forall|j: int|
                0 <= j < dpfp.0.len() ==> Some(#[trigger] dolls_model(m)[j]) == unpack_layer(
                    es,
                    dpfp.0[j],
                ),
            forall|j: int|
                0 <= j < i2 ==> Some(#[trigger] fragments_model(m)[j]) == unpack_layer(
                    es,
                    dpfp.1[j],
                ),
            forall|j: int|
                i2 <= j < nf ==> #[trigger] fragments_model(m)[j] == layer_from_idp(dpfp.1[j]),
        decreases nf - i2,
    {
        let layer = fragment_at(&m, i2);
        proof {
            assert(layer@ == layer_from_idp(dpfp.1[i2 as int]));
        }
        if layer.path.len() > 0 {
            let found = find_entry_exec(entries, &layer.path);
            let ei = match found {
                Some(e) => e,
                None => {
                    proof {
                        assert(unpack_layer(es, dpfp.1[i2 as int]) is None);
                        assert forall|j: int| 0 <= j < dpfp.0.len() implies (
                        #[trigger] unpack_layer(es, dpfp.0[j])) is Some by {
                            assert(Some(dolls_model(m)[j]) == unpack_layer(es, dpfp.0[j]));
                        }
                        assert forall|j: int| 0 <= j < i2 implies (#[trigger] unpack_layer(
                            es,
                            dpfp.1[j],
                        )) is Some by {
                            assert(Some(fragments_model(m)[j]) == unpack_layer(es, dpfp.1[j]));
                        }
                    }
                    return Err(PpdError::ImageDecode {
                        kind: LayerKind::Fragment,
                        id: layer.id,
                        path: layer.path,
                    });
                },
            };
            let decoded = match img_decode(&entries[ei].1) {
                Ok(d) => d,
                Err(_) => {
                    proof {
                        assert(unpack_layer(es, dpfp.1[i2 as int]) is None);
                        assert forall|j: int| 0 <= j < dpfp.0.len() implies (
                        #[trigger] unpack_layer(es, dpfp.0[j])) is Some by {
                            assert(Some(dolls_model(m)[j]) == unpack_layer(es, dpfp.0[j]));
                        }
                        assert forall|j: int| 0 <= j < i2 implies (#[trigger] unpack_layer(
                            es,
                            dpfp.1[j],
                        )) is Some by {
                            assert(Some(fragments_model(m)[j]) == unpack_layer(es, dpfp.1[j]));
                        }
                    }
                    return Err(PpdError::ImageDecode {
                        kind: LayerKind::Fragment,
                        id: layer.id,
                        path: layer.path,
                    });
                },
            };
            let (w, h, px) = decoded;
            fragment_set_image(&mut m, i2, w, h, px);
        }
        i2 += 1;
    }
    Ok(m)
}

/// Reads a paperdoll project from the bytes of a container and rebuilds
/// the in-memory document through the external factory, which succeeds
/// exactly when it accepts the reconstructed manifest's ids.
pub fn read(bytes: &Vec<u8>) -> (r: Result<paperdoll::PaperdollFactory, PpdError>)
    ensures
        match r {
            Ok(f) => (tar_entries_of(bytes@) matches Some(es) && (exists|
                m: paperdoll::Manifest,
            |
                unpack_ok_shape(es, #[trigger] dolls_model(m), fragments_model(m))
                    && factory_accepts(m) && f == factory_of(m))),
            Err(e) => match e {
                PpdError::Archive => tar_entries_of(bytes@) is None,
                PpdError::MissingManifest => (tar_entries_of(bytes@) matches Some(es)
                    && find_entry(es, manifest_name()) is None),
                PpdError::ManifestParse => (tar_entries_of(bytes@) matches Some(es)
                    && find_entry(es, manifest_name()) matches Some(mb) && yaml_model_of(mb)
                    is None),
                PpdError::ImageDecode { kind, id, path } => (tar_entries_of(bytes@) matches Some(
                    es,
                ) && decode_err_shape(es, kind, id, path@)),
                PpdError::Factory => (tar_entries_of(bytes@) matches Some(es) && (exists|
                    m: paperdoll::Manifest,
                |
                    unpack_ok_shape(es, #[trigger] dolls_model(m), fragments_model(m))
                        && !factory_accepts(m))),
                _ => false,
            },
        },
{
    let entries = match tar_unpack(bytes) {
        Ok(es) => es,
        Err(_) => {
            return Err(PpdError::Archive);
        },
    };
    let m = match unpack_manifest(&entries) {
        Ok(m) => m,
        Err(e) => {
            return Err(e);
        },
    };
    let ghost gm = m;
    match factory_from_manifest(m) {
        Ok(f) => {
            proof {
                assert(unpack_ok_shape(
                    entries.deep_view(),
                    dolls_model(gm),
                    fragments_model(gm),
                ) && factory_accepts(gm) && f == factory_of(gm));
            }
            Ok(f)
        },
        Err(_) => {
            proof {
                assert(unpack_ok_shape(
                    entries.deep_view(),
                    dolls_model(gm),
                    fragments_model(gm),
                ) && !factory_accepts(gm));
            }
            Err(PpdError::Factory)
        },
    }
}

} // verus!
