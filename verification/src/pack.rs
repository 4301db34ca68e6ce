//! The pack pipeline: encodes every image-bearing entry that holds pixels,
//! rewrites its stored path to the synthesized entry name, serializes the
//! manifest, and builds the container bytes.

use vstd::prelude::*;
use crate::error::PpdError;
use crate::model::{LayerKind, LayerM, idps, manifest_name, png_ext, portable_name, valid_layer};
use crate::policy::{
    choose_extension, chosen_ext, image_file_name, image_file_name_exec, manifest_name_bytes,
};
use crate::trusted::{
    doll_at, doll_set_path, dolls_len, dolls_model, fragment_at, fragment_set_path,
    fragments_len, fragments_model, img_decode_of, img_encode, img_encode_res, tar_entries_of,
    tar_pack, tar_pack_res, yaml_model_of, yaml_ser_of, yaml_serialize,
};

verus! {

/// What saving does to one layer: a layer with pixels gets the synthesized
/// name as its path; a layer without pixels is left untouched.
pub open spec fn packed_layer(l: LayerM, k: LayerKind) -> LayerM {
    if l.pixels.len() == 0 {
        l
    } else {
        LayerM { path: image_file_name(k, l.id, chosen_ext(l.path)), ..l }
    }
}

/// `new` is `old` with every layer packed.
pub open spec fn packed_all(old: Seq<LayerM>, new: Seq<LayerM>, k: LayerKind) -> bool {
    &&& new.len() == old.len()
    &&& forall|i: int| 0 <= i < old.len() ==> new[i] == packed_layer(#[trigger] old[i], k)
}

/// How many of the first `n` layers carry pixels, i.e. produce an entry.
pub open spec fn count_px(ls: Seq<LayerM>, n: int) -> int
    decreases n,
{
    if n <= 0 {
        0
    } else {
        count_px(ls, n - 1) + (if ls[n - 1].pixels.len() == 0 {
            0int
        } else {
            1int
        })
    }
}

pub proof fn lemma_count_px_mono(ls: Seq<LayerM>, a: int, b: int)
    requires
        0 <= a <= b,
    ensures
        count_px(ls, a) <= count_px(ls, b),
        a < b && ls[a].pixels.len() > 0 ==> count_px(ls, a) < count_px(ls, b),
        count_px(ls, b) <= count_px(ls, a) + (b - a),
    decreases b - a,
{
    if a < b {
        lemma_count_px_mono(ls, a, b - 1);
        if a < b - 1 {
        }
    }
}

pub proof fn lemma_count_px_nonneg(ls: Seq<LayerM>, n: int)
    ensures
        0 <= count_px(ls, n) <= (if n >= 0 { n } else { 0 }),
    decreases n,
{
    if n > 0 {
        lemma_count_px_nonneg(ls, n - 1);
    }
}

/// The entry at position `pos` is the one saving produced for layer `l`:
/// it carries the synthesized name, and (for the lossless default format)
/// bytes that decode back to exactly the layer's pixels.
pub open spec fn entry_for(es: Seq<(Seq<u8>, Seq<u8>)>, pos: int, k: LayerKind, l: LayerM) -> bool {
    &&& 0 <= pos < es.len()
    &&& es[pos].0 == image_file_name(k, l.id, chosen_ext(l.path))
    &&& (chosen_ext(l.path) == png_ext() ==> img_decode_of(es[pos].1) == Some(
        (l.width, l.height, l.pixels),
    ))
}

/// Position `p` (relative to the collection's own block of entries) is the
/// entry of some pixel-bearing layer.
pub open spec fn pos_covered(ls: Seq<LayerM>, p: int) -> bool {
    exists|i: int|
        0 <= i < ls.len() && #[trigger] ls[i].pixels.len() > 0 && count_px(ls, i) == p
}

/// The full shape of a saved container's entries: one image entry per
/// pixel-bearing doll, then one per pixel-bearing fragment, in collection
/// order, and the manifest entry last, whose text parses back to the
/// rewritten id/path pairs.
pub open spec fn pack_entries_ok(
    es: Seq<(Seq<u8>, Seq<u8>)>,
    dolls: Seq<LayerM>,
    frags: Seq<LayerM>,
    packed_d: Seq<LayerM>,
    packed_f: Seq<LayerM>,
) -> bool {
    let nd = count_px(dolls, dolls.len() as int);
    let nf = count_px(frags, frags.len() as int);
    &&& es.len() == nd + nf + 1
    &&& forall|i: int|
        0 <= i < dolls.len() && #[trigger] dolls[i].pixels.len() > 0 ==> entry_for(
            es,
            count_px(dolls, i),
            LayerKind::Doll,
            dolls[i],
        )
    &&& forall|i: int|
        0 <= i < frags.len() && #[trigger] frags[i].pixels.len() > 0 ==> entry_for(
            es,
            nd + count_px(frags, i),
            LayerKind::Fragment,
            frags[i],
        )
    &&& forall|p: int| 0 <= p < nd ==> #[trigger] pos_covered(dolls, p)
    &&& forall|p: int| nd <= p < nd + nf ==> #[trigger] pos_covered(frags, p - nd)
    &&& es[es.len() - 1].0 == manifest_name()
    &&& yaml_model_of(es[es.len() - 1].1) == Some((idps(packed_d), idps(packed_f)))
}

/// Every pixel-bearing layer's buffer matches its declared dimensions.
pub open spec fn layers_valid(ls: Seq<LayerM>) -> bool {
    forall|i: int|
        0 <= i < ls.len() ==> (#[trigger] ls[i].pixels.len() > 0 ==> valid_layer(ls[i]))
}

/// The chosen output extension of every pixel-bearing layer is made of
/// printable ASCII bytes other than backslash; an extension is slash-free
/// by construction, so the entry name is then a single portable path
/// component and tar stores it verbatim.
pub open spec fn all_ext_portable(ls: Seq<LayerM>) -> bool {
    forall|i: int|
        0 <= i < ls.len() && #[trigger] ls[i].pixels.len() > 0 ==> (forall|j: int|
            0 <= j < chosen_ext(ls[i].path).len() ==> 32 <= #[trigger] chosen_ext(ls[i].path)[j]
                < 127 && chosen_ext(ls[i].path)[j] != 92)
}

/// A layer that the encoder handles: either it has no pixels to write,
/// or encoding its buffer to its chosen format succeeds.
pub open spec fn layer_encodes(l: LayerM) -> bool {
    l.pixels.len() == 0 || img_encode_res(chosen_ext(l.path), l.width, l.height, l.pixels)
        is Some
}

/// Every layer of the collection encodes.
pub open spec fn all_encode(ls: Seq<LayerM>) -> bool {
    forall|i: int| 0 <= i < ls.len() ==> #[trigger] layer_encodes(ls[i])
}

/// `i` is the first layer of the collection that does not encode.
pub open spec fn first_bad_encode(ls: Seq<LayerM>, i: int) -> bool {
    &&& 0 <= i < ls.len()
    &&& !layer_encodes(ls[i])
    &&& forall|j: int| 0 <= j < i ==> #[trigger] layer_encodes(ls[j])
}

/// The image entry a layer contributes: none without pixels, else its
/// synthesized name with the encoder's output bytes.
pub open spec fn layer_entry(l: LayerM, k: LayerKind) -> Seq<(Seq<u8>, Seq<u8>)> {
    if l.pixels.len() == 0 {
        Seq::empty()
    } else {
        seq![
            (
                image_file_name(k, l.id, chosen_ext(l.path)),
                img_encode_res(chosen_ext(l.path), l.width, l.height, l.pixels)->Some_0,
            )
        ]
    }
}

/// The image entries of a whole collection, in order.
pub open spec fn image_entries(ls: Seq<LayerM>, k: LayerKind) -> Seq<(Seq<u8>, Seq<u8>)>
    decreases ls.len(),
{
    if ls.len() == 0 {
        Seq::empty()
    } else {
        image_entries(ls.drop_last(), k) + layer_entry(ls.last(), k)
    }
}

/// Exactly the entries a successful save builds: the dolls' image entries,
/// then the fragments', then the manifest entry.
pub open spec fn pack_result_entries(
    dolls: Seq<LayerM>,
    frags: Seq<LayerM>,
    mb: Seq<u8>,
) -> Seq<(Seq<u8>, Seq<u8>)> {
    image_entries(dolls, LayerKind::Doll) + image_entries(frags, LayerKind::Fragment)
        + seq![(manifest_name(), mb)]
}

/// An image-encode failure: the named layer is the first of its collection
/// that does not encode (dolls are tried before fragments), the error
/// carries its id and its chosen output name, every layer before it has
/// its path rewritten, and the failing layer and everything after it —
/// the failing layer's own path included — are untouched.
pub open spec fn encode_failure(
    kind: LayerKind,
    id: u32,
    path: Seq<u8>,
    dolls: Seq<LayerM>,
    frags: Seq<LayerM>,
    new_d: Seq<LayerM>,
    new_f: Seq<LayerM>,
) -> bool {
    match kind {
        LayerKind::Doll => exists|i: int|
            #![trigger dolls[i]]
            {
                &&& first_bad_encode(dolls, i)
                &&& dolls[i].id == id
                &&& path == image_file_name(LayerKind::Doll, id, chosen_ext(dolls[i].path))
                &&& forall|j: int|
                    0 <= j < i ==> new_d[j] == packed_layer(#[trigger] dolls[j], LayerKind::Doll)
                &&& forall|j: int| i <= j < dolls.len() ==> new_d[j] == #[trigger] dolls[j]
                &&& new_f == frags
            },
        LayerKind::Fragment => {
            &&& all_encode(dolls)
            &&& packed_all(dolls, new_d, LayerKind::Doll)
            &&& exists|i: int|
                #![trigger frags[i]]
                {
                    &&& first_bad_encode(frags, i)
                    &&& frags[i].id == id
                    &&& path == image_file_name(
                        LayerKind::Fragment,
                        id,
                        chosen_ext(frags[i].path),
                    )
                    &&& forall|j: int|
                        0 <= j < i ==> new_f[j] == packed_layer(
                            #[trigger] frags[j],
                            LayerKind::Fragment,
                        )
                    &&& forall|j: int| i <= j < frags.len() ==> new_f[j] == #[trigger] frags[j]
                }
        },
    }
}

/// Saves a manifest into container bytes: every pixel-bearing doll and
/// fragment is encoded to an image entry named `{kind}_{id}.{extension}`
/// (the extension chosen by the naming policy) and, once its encode has
/// succeeded, its `path` field is rewritten in place to that name; the
/// first entry that fails to encode aborts the save with its path still
/// unrewritten. Entries without pixel data are left untouched, and the
/// manifest itself goes in last under `manifest.yml`.
pub fn save(manifest: &mut paperdoll::Manifest) -> (r: Result<Vec<u8>, PpdError>)
    requires
        layers_valid(dolls_model(*old(manifest))),
        layers_valid(fragments_model(*old(manifest))),
    ensures
        dolls_model(*final(manifest)).len() == dolls_model(*old(manifest)).len(),
        fragments_model(*final(manifest)).len() == fragments_model(*old(manifest)).len(),
        forall|i: int|
            0 <= i < dolls_model(*old(manifest)).len() ==> dolls_model(*final(manifest))[i]
                == packed_layer(#[trigger] dolls_model(*old(manifest))[i], LayerKind::Doll)
                || dolls_model(*final(manifest))[i] == dolls_model(*old(manifest))[i],
        forall|i: int|
            0 <= i < fragments_model(*old(manifest)).len() ==> fragments_model(
                *final(manifest),
            )[i] == packed_layer(
                #[trigger] fragments_model(*old(manifest))[i],
                LayerKind::Fragment,
            ) || fragments_model(*final(manifest))[i] == fragments_model(*old(manifest))[i],
        r is Ok ==> packed_all(
            dolls_model(*old(manifest)),
            dolls_model(*final(manifest)),
            LayerKind::Doll,
        ) && packed_all(
            fragments_model(*old(manifest)),
            fragments_model(*final(manifest)),
            LayerKind::Fragment,
        ),
        r matches Ok(b) ==> ((all_ext_portable(dolls_model(*old(manifest)))
            && all_ext_portable(fragments_model(*old(manifest)))) ==> (tar_entries_of(b@)
            matches Some(es) && pack_entries_ok(
            es,
            dolls_model(*old(manifest)),
            fragments_model(*old(manifest)),
            dolls_model(*final(manifest)),
            fragments_model(*final(manifest)),
        ))),
        r matches Ok(b) ==> all_encode(dolls_model(*old(manifest))) && all_encode(
            fragments_model(*old(manifest)),
        ) && (yaml_ser_of(*final(manifest)) matches Some(mb) && tar_pack_res(
            pack_result_entries(
                dolls_model(*old(manifest)),
                fragments_model(*old(manifest)),
                mb,
            ),
        ) == Some(b@)),
        r matches Err(e) ==> match e {
            PpdError::ImageEncode { kind, id, path } => encode_failure(
                kind,
                id,
                path@,
                dolls_model(*old(manifest)),
                fragments_model(*old(manifest)),
                dolls_model(*final(manifest)),
                fragments_model(*final(manifest)),
            ),
            PpdError::ManifestSerialize => all_encode(dolls_model(*old(manifest)))
                && all_encode(fragments_model(*old(manifest))) && packed_all(
                dolls_model(*old(manifest)),
                dolls_model(*final(manifest)),
                LayerKind::Doll,
            ) && packed_all(
                fragments_model(*old(manifest)),
                fragments_model(*final(manifest)),
                LayerKind::Fragment,
            ) && yaml_ser_of(*final(manifest)) is None,
            PpdError::ArchiveWrite => all_encode(dolls_model(*old(manifest))) && all_encode(
                fragments_model(*old(manifest)),
            ) && packed_all(
                dolls_model(*old(manifest)),
                dolls_model(*final(manifest)),
                LayerKind::Doll,
            ) && packed_all(
                fragments_model(*old(manifest)),
                fragments_model(*final(manifest)),
                LayerKind::Fragment,
            ) && (yaml_ser_of(*final(manifest)) matches Some(mb) && tar_pack_res(
                pack_result_entries(
                    dolls_model(*old(manifest)),
                    fragments_model(*old(manifest)),
                    mb,
                ),
            ) is None),
            _ => false,
        },
{
    let ghost dolls0 = dolls_model(*manifest);
    let ghost frags0 = fragments_model(*manifest);
    let mut entries: Vec<(Vec<u8>, Vec<u8>)> = Vec::new();
    let nd = dolls_len(manifest);
    let mut i: usize = 0;
    while i < nd
        invariant
            dolls0 == dolls_model(*old(manifest)),
            frags0 == fragments_model(*old(manifest)),
            nd == dolls0.len(),
            i <= nd,
            layers_valid(dolls0),
            dolls_model(*manifest).len() == dolls0.len(),
            fragments_model(*manifest) == frags0,
            forall|j: int|
                0 <= j < i ==> dolls_model(*manifest)[j] == packed_layer(
                    #[trigger] dolls0[j],
                    LayerKind::Doll,
                ),
            forall|j: int| i <= j < dolls0.len() ==> dolls_model(*manifest)[j] == #[trigger] dolls0[j],
            forall|j: int| 0 <= j < i ==> #[trigger] layer_encodes(dolls0[j]),
            entries@.len() == count_px(dolls0, i as int),
            entries.deep_view() == image_entries(dolls0.take(i as int), LayerKind::Doll),
            forall|j: int|
                0 <= j < i && #[trigger] dolls0[j].pixels.len() > 0 ==> entry_for(
                    entries.deep_view(),
                    count_px(dolls0, j),
                    LayerKind::Doll,
                    dolls0[j],
                ),
            forall|p: int| 0 <= p < entries@.len() ==> #[trigger] pos_covered(dolls0, p),
        decreases nd - i,
    {
        let layer = doll_at(manifest, i);
        proof {
            assert(layer@ == dolls0[i as int]);
        }
        if layer.pixels.len() > 0 {
            proof {
                assert(valid_layer(dolls0[i as int]));
            }
            let ext = choose_extension(&layer.path);
            let name = image_file_name_exec(LayerKind::Doll, layer.id, &ext);
            let data = match img_encode(&ext, layer.width, layer.height, &layer.pixels) {
                Ok(d) => d,
                Err(_) => {
                    proof {
                        assert(!layer_encodes(dolls0[i as int]));
                        assert(first_bad_encode(dolls0, i as int));
                        assert(encode_failure(
                            LayerKind::Doll,
                            layer.id,
                            name@,
                            dolls0,
                            frags0,
                            dolls_model(*manifest),
                            fragments_model(*manifest),
                        ));
                    }
                    return Err(PpdError::ImageEncode {
                        kind: LayerKind::Doll,
                        id: layer.id,
                        path: name,
                    });
                },
            };
            let stored = image_file_name_exec(LayerKind::Doll, layer.id, &ext);
            proof {
                crate::policy::lemma_name_ascii(LayerKind::Doll, layer.id, ext@);
            }
            doll_set_path(manifest, i, stored);
            proof {
                assert(dolls_model(*manifest)[i as int] == packed_layer(
                    dolls0[i as int],
                    LayerKind::Doll,
                ));
            }
            let ghost old_dv = entries.deep_view();
            let ghost pos = entries@.len() as int;
            let ghost gname = name@;
            let ghost gdata = data@;
            entries.push((name, data));
            proof {
                assert(entries.deep_view() =~~= old_dv.push((gname, gdata)));
                assert(gname == image_file_name(LayerKind::Doll, dolls0[i as int].id,
                    chosen_ext(dolls0[i as int].path)));
                assert(layer_entry(dolls0[i as int], LayerKind::Doll) =~= seq![(gname, gdata)]);
                assert(dolls0.take(i as int + 1).drop_last() =~= dolls0.take(i as int));
                assert(dolls0.take(i as int + 1).last() == dolls0[i as int]);
                assert(entries.deep_view() =~= image_entries(dolls0.take(i as int),
                    LayerKind::Doll) + layer_entry(dolls0[i as int], LayerKind::Doll));
                assert(entries.deep_view() == image_entries(
                    dolls0.take(i as int + 1),
                    LayerKind::Doll,
                ));
                assert forall|j: int| 0 <= j < i + 1 && #[trigger] dolls0[j].pixels.len() > 0
                    implies entry_for(
                    entries.deep_view(),
                    count_px(dolls0, j),
                    LayerKind::Doll,
                    dolls0[j],
                ) by {
                    if j < i {
                        lemma_count_px_mono(dolls0, j, i as int);
                        assert(entries.deep_view()[count_px(dolls0, j)] == old_dv[count_px(
                            dolls0,
                            j,
                        )]);
                    } else {
                        assert(count_px(dolls0, j) == pos);
                    }
                }
                assert(pos_covered(dolls0, pos)) by {
                    assert(dolls0[i as int].pixels.len() > 0 && count_px(dolls0, i as int)
                        == pos);
                }
                assert(count_px(dolls0, i as int + 1) == pos + 1);
            }
        } else {
            proof {
                assert(packed_layer(dolls0[i as int], LayerKind::Doll) == dolls0[i as int]);
                assert(count_px(dolls0, i as int + 1) == count_px(dolls0, i as int));
                assert(dolls0.take(i as int + 1).drop_last() =~= dolls0.take(i as int));
                assert(dolls0.take(i as int + 1).last() == dolls0[i as int]);
                assert(entries.deep_view() =~= image_entries(
                    dolls0.take(i as int + 1),
                    LayerKind::Doll,
                ));
            }
        }
        i += 1;
    }
    let ghost nd_px = count_px(dolls0, dolls0.len() as int);
    proof {
        assert(dolls0.take(nd as int) =~= dolls0);
        assert(entries.deep_view() == image_entries(dolls0, LayerKind::Doll));
    }
    let nf = fragments_len(manifest);
    let mut i2: usize = 0;
    while i2 < nf
        invariant
            dolls0 == dolls_model(*old(manifest)),
            frags0 == fragments_model(*old(manifest)),
            nf == frags0.len(),
            i2 <= nf,
            layers_valid(frags0),
            nd_px == count_px(dolls0, dolls0.len() as int),
            dolls_model(*manifest).len() == dolls0.len(),
            fragments_model(*manifest).len() == frags0.len(),
            forall|j: int|
                0 <= j < dolls0.len() ==> dolls_model(*manifest)[j] == packed_layer(
                    #[trigger] dolls0[j],
                    LayerKind::Doll,
                ),
            forall|j: int|
                0 <= j < i2 ==> fragments_model(*manifest)[j] == packed_layer(
                    #[trigger] frags0[j],
                    LayerKind::Fragment,
                ),
            forall|j: int|
                i2 <= j < frags0.len() ==> fragments_model(*manifest)[j] == #[trigger] frags0[j],
            forall|j: int| 0 <= j < dolls0.len() ==> #[trigger] layer_encodes(dolls0[j]),
            forall|j: int| 0 <= j < i2 ==> #[trigger] layer_encodes(frags0[j]),
            entries@.len() == nd_px + count_px(frags0, i2 as int),
            entries.deep_view() == image_entries(dolls0, LayerKind::Doll) + image_entries(
                frags0.take(i2 as int),
                LayerKind::Fragment,
            ),
            forall|j: int|
                0 <= j < dolls0.len() && #[trigger] dolls0[j].pixels.len() > 0 ==> entry_for(
                    entries.deep_view(),
                    count_px(dolls0, j),
                    LayerKind::Doll,
                    dolls0[j],
                ),
            forall|j: int|
                0 <= j < i2 && #[trigger] frags0[j].pixels.len() > 0 ==> entry_for(
                    entries.deep_view(),
                    nd_px + count_px(frags0, j),
                    LayerKind::Fragment,
                    frags0[j],
                ),
            forall|p: int| 0 <= p < nd_px ==> #[trigger] pos_covered(dolls0, p),
            forall|p: int|
                nd_px <= p < entries@.len() ==> #[trigger] pos_covered(frags0, p - nd_px),
        decreases nf - i2,
    {
        let layer = fragment_at(manifest, i2);
        proof {
            assert(layer@ == frags0[i2 as int]);
        }
        if layer.pixels.len() > 0 {
            proof {
                assert(valid_layer(frags0[i2 as int]));
            }
            let ext = choose_extension(&layer.path);
            let name = image_file_name_exec(LayerKind::Fragment, layer.id, &ext);
            let data = match img_encode(&ext, layer.width, layer.height, &layer.pixels) {
                Ok(d) => d,
                Err(_) => {
                    proof {
                        assert(!layer_encodes(frags0[i2 as int]));
                        assert(first_bad_encode(frags0, i2 as int));
                        assert(packed_all(dolls0, dolls_model(*manifest), LayerKind::Doll));
                        assert(encode_failure(
                            LayerKind::Fragment,
                            layer.id,
                            name@,
                            dolls0,
                            frags0,
                            dolls_model(*manifest),
                            fragments_model(*manifest),
                        ));
                    }
                    return Err(PpdError::ImageEncode {
                        kind: LayerKind::Fragment,
                        id: layer.id,
                        path: name,
                    });
                },
            };
            let stored = image_file_name_exec(LayerKind::Fragment, layer.id, &ext);
            proof {
                crate::policy::lemma_name_ascii(LayerKind::Fragment, layer.id, ext@);
            }
            fragment_set_path(manifest, i2, stored);
            proof {
                assert(fragments_model(*manifest)[i2 as int] == packed_layer(
                    frags0[i2 as int],
                    LayerKind::Fragment,
                ));
            }
            let ghost old_dv = entries.deep_view();
            let ghost old_f = image_entries(frags0.take(i2 as int), LayerKind::Fragment);
            let ghost pos = entries@.len() as int;
            let ghost gname = name@;
            let ghost gdata = data@;
            entries.push((name, data));
            proof {
                assert(entries.deep_view() =~~= old_dv.push((gname, gdata)));
                assert(gname == image_file_name(LayerKind::Fragment, frags0[i2 as int].id,
                    chosen_ext(frags0[i2 as int].path)));
                assert(layer_entry(frags0[i2 as int], LayerKind::Fragment) =~= seq![
                    (gname, gdata),
                ]);
                assert(frags0.take(i2 as int + 1).drop_last() =~= frags0.take(i2 as int));
                assert(frags0.take(i2 as int + 1).last() == frags0[i2 as int]);
                assert(entries.deep_view() =~= image_entries(dolls0, LayerKind::Doll) + (old_f
                    + layer_entry(frags0[i2 as int], LayerKind::Fragment)));
                assert(entries.deep_view() == image_entries(dolls0, LayerKind::Doll)
                    + image_entries(frags0.take(i2 as int + 1), LayerKind::Fragment));
                assert forall|j: int| 0 <= j < dolls0.len() && #[trigger] dolls0[j].pixels.len()
                    > 0 implies entry_for(
                    entries.deep_view(),
                    count_px(dolls0, j),
                    LayerKind::Doll,
                    dolls0[j],
                ) by {
                    lemma_count_px_mono(dolls0, j, dolls0.len() as int);
                    lemma_count_px_nonneg(frags0, i2 as int);
                    assert(entries.deep_view()[count_px(dolls0, j)] == old_dv[count_px(
                        dolls0,
                        j,
                    )]);
                }
                assert forall|j: int| 0 <= j < i2 + 1 && #[trigger] frags0[j].pixels.len() > 0
                    implies entry_for(
                    entries.deep_view(),
                    nd_px + count_px(frags0, j),
                    LayerKind::Fragment,
                    frags0[j],
                ) by {
                    if j < i2 {
                        lemma_count_px_mono(frags0, j, i2 as int);
                        assert(entries.deep_view()[nd_px + count_px(frags0, j)] == old_dv[nd_px
                            + count_px(frags0, j)]);
                    } else {
                        assert(nd_px + count_px(frags0, j) == pos);
                    }
                }
                assert(pos_covered(frags0, pos - nd_px)) by {
                    assert(frags0[i2 as int].pixels.len() > 0 && count_px(frags0, i2 as int)
                        == pos - nd_px);
                }
                assert(count_px(frags0, i2 as int + 1) == count_px(frags0, i2 as int) + 1);
            }
        } else {
            proof {
                assert(packed_layer(frags0[i2 as int], LayerKind::Fragment)
                    == frags0[i2 as int]);
                assert(count_px(frags0, i2 as int + 1) == count_px(frags0, i2 as int));
                assert(frags0.take(i2 as int + 1).drop_last() =~= frags0.take(i2 as int));
                assert(frags0.take(i2 as int + 1).last() == frags0[i2 as int]);
                assert(entries.deep_view() =~= image_entries(dolls0, LayerKind::Doll)
                    + image_entries(frags0.take(i2 as int + 1), LayerKind::Fragment));
            }
        }
        i2 += 1;
    }
    proof {
        assert(frags0.take(nf as int) =~= frags0);
        assert(entries.deep_view() == image_entries(dolls0, LayerKind::Doll) + image_entries(
            frags0,
            LayerKind::Fragment,
        ));
        assert(packed_all(dolls0, dolls_model(*manifest), LayerKind::Doll));
        assert(packed_all(frags0, fragments_model(*manifest), LayerKind::Fragment));
    }
    let yaml = match yaml_serialize(manifest) {
        Ok(y) => y,
        Err(_) => {
            return Err(PpdError::ManifestSerialize);
        },
    };
    let ghost old_dv = entries.deep_view();
    let ghost last = entries@.len() as int;
    let mname = manifest_name_bytes();
    let ghost gyaml = yaml@;
    entries.push((mname, yaml));
    proof {
        assert(entries.deep_view() =~~= old_dv.push((manifest_name(), gyaml)));
        assert(entries.deep_view() =~= pack_result_entries(dolls0, frags0, gyaml));
        assert forall|j: int| 0 <= j < dolls0.len() && #[trigger] dolls0[j].pixels.len() > 0
            implies entry_for(
            entries.deep_view(),
            count_px(dolls0, j),
            LayerKind::Doll,
            dolls0[j],
        ) by {
            lemma_count_px_mono(dolls0, j, dolls0.len() as int);
            lemma_count_px_nonneg(frags0, frags0.len() as int);
            assert(entries.deep_view()[count_px(dolls0, j)] == old_dv[count_px(dolls0, j)]);
        }
        assert forall|j: int| 0 <= j < frags0.len() && #[trigger] frags0[j].pixels.len() > 0
            implies entry_for(
            entries.deep_view(),
            nd_px + count_px(frags0, j),
            LayerKind::Fragment,
            frags0[j],
        ) by {
            lemma_count_px_mono(frags0, j, frags0.len() as int);
            assert(entries.deep_view()[nd_px + count_px(frags0, j)] == old_dv[nd_px + count_px(
                frags0,
                j,
            )]);
        }
    }
    let bytes = match tar_pack(&entries) {
        Ok(b) => b,
        Err(_) => {
            return Err(PpdError::ArchiveWrite);
        },
    };
    proof {
        if all_ext_portable(dolls0) && all_ext_portable(frags0) {
            assert forall|p: int| 0 <= p < entries@.len() implies portable_name(
                #[trigger] entries@[p].0@,
            ) by {
                assert(entries.deep_view()[p] == entries@[p].deep_view());
                assert(entries@[p].0.deep_view() =~= entries@[p].0@);
                if p < nd_px {
                    assert(pos_covered(dolls0, p));
                    let w = choose|w: int|
                        0 <= w < dolls0.len() && #[trigger] dolls0[w].pixels.len() > 0
                            && count_px(dolls0, w) == p;
                    assert(entry_for(entries.deep_view(), p, LayerKind::Doll, dolls0[w]));
                    crate::policy::lemma_chosen_ext_no_slash(dolls0[w].path);
                    crate::policy::lemma_name_shape(
                        LayerKind::Doll,
                        dolls0[w].id,
                        chosen_ext(dolls0[w].path),
                    );
                } else if p < last {
                    assert(pos_covered(frags0, p - nd_px));
                    let w = choose|w: int|
                        0 <= w < frags0.len() && #[trigger] frags0[w].pixels.len() > 0
                            && count_px(frags0, w) == p - nd_px;
                    assert(entry_for(entries.deep_view(), p, LayerKind::Fragment, frags0[w]));
                    crate::policy::lemma_chosen_ext_no_slash(frags0[w].path);
                    crate::policy::lemma_name_shape(
                        LayerKind::Fragment,
                        frags0[w].id,
                        chosen_ext(frags0[w].path),
                    );
                } else {
                    assert(entries.deep_view()[p].0 == manifest_name());
                    lemma_manifest_name_portable();
                }
            }
            assert(tar_entries_of(bytes@) == Some(entries.deep_view()));
            assert(pack_entries_ok(
                entries.deep_view(),
                dolls0,
                frags0,
                dolls_model(*manifest),
                fragments_model(*manifest),
            ));
        }
    }
    Ok(bytes)
}

/// Every byte of `manifest.yml` is printable ASCII.
pub proof fn lemma_manifest_name_portable()
    ensures
        portable_name(manifest_name()),
{
    assert(manifest_name()[0] == 109 && manifest_name()[1] == 97 && manifest_name()[2] == 110
        && manifest_name()[3] == 105 && manifest_name()[4] == 102 && manifest_name()[5] == 101
        && manifest_name()[6] == 115 && manifest_name()[7] == 116 && manifest_name()[8] == 46
        && manifest_name()[9] == 121 && manifest_name()[10] == 109 && manifest_name()[11]
        == 108);
    assert forall|i: int| 0 <= i < manifest_name().len() implies 32 <= #[trigger] manifest_name()[i]
        < 127 && manifest_name()[i] != 92 && manifest_name()[i] != 47 by {
    }
}

} // verus!
