//! The global guarantees of the two pipelines, stated and proved over the
//! same spec functions that the pipelines' own contracts use.

use vstd::prelude::*;
use crate::model::{LayerKind, LayerM, distinct_ids, idp, idps, manifest_name, norm_name, png_ext};
use crate::pack::{
    count_px, entry_for, lemma_count_px_mono, lemma_count_px_nonneg, pack_entries_ok,
    packed_all, packed_layer, pos_covered,
};
use crate::policy::{
    chosen_ext, image_file_name, lemma_dec_digits_range, lemma_ext_of_generated,
    lemma_name_bytes, lemma_name_shape, lemma_names_cross_kind, lemma_names_injective,
};
use crate::trusted::{img_decode_of, yaml_model_of};
use crate::unpack::{find_entry, lemma_find_entry_at, unpack_layer, unpack_ok_shape};

verus! {

/// Collision-free naming: two layers that differ in kind or in id are
/// always written under different entry names, whatever their stored
/// paths chose as extensions.
pub proof fn lemma_names_collision_free(
    k1: LayerKind,
    id1: u32,
    e1: Seq<u8>,
    k2: LayerKind,
    id2: u32,
    e2: Seq<u8>,
)
    requires
        k1 != k2 || id1 != id2,
    ensures
        image_file_name(k1, id1, e1) != image_file_name(k2, id2, e2),
{
    if k1 == k2 {
        if image_file_name(k1, id1, e1) == image_file_name(k2, id2, e2) {
            lemma_names_injective(k1, id1, id2, e1, e2);
        }
    } else {
        match k1 {
            LayerKind::Doll => lemma_names_cross_kind(id1, id2, e1, e2),
            LayerKind::Fragment => lemma_names_cross_kind(id2, id1, e2, e1),
        }
    }
}

/// `manifest.yml` is its own normalized name.
proof fn lemma_manifest_name_norm()
    ensures
        norm_name(manifest_name()) == manifest_name(),
{
    assert(manifest_name()[0] == 109);
}

/// Round-trip identity: a container saved from collections whose layers
/// all hold pixel data, have unique ids within their collection, and fall
/// to the lossless default format, unpacks successfully and yields exactly
/// the rewritten layers — same ids, dimensions and pixel bytes as before
/// the save, with the synthesized names as paths.
#[verifier::rlimit(60)]
pub proof fn lemma_round_trip(
    dolls: Seq<LayerM>,
    frags: Seq<LayerM>,
    packed_d: Seq<LayerM>,
    packed_f: Seq<LayerM>,
    es: Seq<(Seq<u8>, Seq<u8>)>,
)
    requires
        distinct_ids(dolls),
        distinct_ids(frags),
        forall|i: int|
            0 <= i < dolls.len() ==> (#[trigger] dolls[i]).pixels.len() > 0 && chosen_ext(
                dolls[i].path,
            ) == png_ext(),
        forall|i: int|
            0 <= i < frags.len() ==> (#[trigger] frags[i]).pixels.len() > 0 && chosen_ext(
                frags[i].path,
            ) == png_ext(),
        packed_all(dolls, packed_d, LayerKind::Doll),
        packed_all(frags, packed_f, LayerKind::Fragment),
        pack_entries_ok(es, dolls, frags, packed_d, packed_f),
    ensures
        unpack_ok_shape(es, packed_d, packed_f),
        forall|i: int|
            0 <= i < dolls.len() ==> (#[trigger] packed_d[i]).id == dolls[i].id && packed_d[i].width
                == dolls[i].width && packed_d[i].height == dolls[i].height && packed_d[i].pixels
                == dolls[i].pixels,
        forall|i: int|
            0 <= i < frags.len() ==> (#[trigger] packed_f[i]).id == frags[i].id && packed_f[i].width
                == frags[i].width && packed_f[i].height == frags[i].height && packed_f[i].pixels
                == frags[i].pixels,
{
    let nd = count_px(dolls, dolls.len() as int);
    let nf = count_px(frags, frags.len() as int);
    lemma_count_px_nonneg(dolls, dolls.len() as int);
    lemma_count_px_nonneg(frags, frags.len() as int);
    let last = es.len() - 1;

    assert forall|j: int| 0 <= j < last implies norm_name(#[trigger] es[j].0) != manifest_name()
        && norm_name(es[j].0) == es[j].0 by {
        if j < nd {
            assert(pos_covered(dolls, j));
            let w = choose|w: int|
                0 <= w < dolls.len() && #[trigger] dolls[w].pixels.len() > 0 && count_px(
                    dolls,
                    w,
                ) == j;
            assert(entry_for(es, j, LayerKind::Doll, dolls[w]));
            lemma_name_shape(LayerKind::Doll, dolls[w].id, chosen_ext(dolls[w].path));
        } else {
            assert(pos_covered(frags, j - nd));
            let w = choose|w: int|
                0 <= w < frags.len() && #[trigger] frags[w].pixels.len() > 0 && count_px(
                    frags,
                    w,
                ) == j - nd;
            assert(entry_for(es, nd + count_px(frags, w), LayerKind::Fragment, frags[w]));
            lemma_name_shape(LayerKind::Fragment, frags[w].id, chosen_ext(frags[w].path));
        }
    }
    lemma_manifest_name_norm();
    lemma_find_entry_at(es, manifest_name(), last);
    assert(find_entry(es, manifest_name()) == Some(es[last].1));
    assert(yaml_model_of(es[last].1) == Some((idps(packed_d), idps(packed_f))));

    assert forall|i: int| 0 <= i < packed_d.len() implies Some(#[trigger] packed_d[i])
        == unpack_layer(es, idps(packed_d)[i]) by {
        let l = dolls[i];
        let name = image_file_name(LayerKind::Doll, l.id, chosen_ext(l.path));
        assert(packed_d[i] == packed_layer(dolls[i], LayerKind::Doll));
        assert(idps(packed_d)[i] == idp(packed_d[i]));
        lemma_name_bytes(LayerKind::Doll, l.id, chosen_ext(l.path));
        lemma_dec_digits_range(l.id as nat);
        assert(name.len() > 0);
        let pos = count_px(dolls, i);
        assert(entry_for(es, pos, LayerKind::Doll, l));
        lemma_count_px_mono(dolls, i, dolls.len() as int);
        assert forall|j: int| 0 <= j < pos implies norm_name(#[trigger] es[j].0) != name by {
            assert(pos_covered(dolls, j));
            let w = choose|w: int|
                0 <= w < dolls.len() && #[trigger] dolls[w].pixels.len() > 0 && count_px(
                    dolls,
                    w,
                ) == j;
            assert(entry_for(es, j, LayerKind::Doll, dolls[w]));
            lemma_name_shape(LayerKind::Doll, dolls[w].id, chosen_ext(dolls[w].path));
            if image_file_name(LayerKind::Doll, dolls[w].id, chosen_ext(dolls[w].path))
                == name {
                lemma_names_injective(
                    LayerKind::Doll,
                    dolls[w].id,
                    l.id,
                    chosen_ext(dolls[w].path),
                    chosen_ext(l.path),
                );
                if w < i {
                    assert(dolls[w].id != dolls[i].id);
                } else if i < w {
                    assert(dolls[i].id != dolls[w].id);
                }
                assert(false);
            }
        }
        lemma_find_entry_at(es, name, pos);
        assert(img_decode_of(es[pos].1) == Some((l.width, l.height, l.pixels)));
        assert(unpack_layer(es, (l.id, name)) == Some(
            LayerM { id: l.id, path: name, width: l.width, height: l.height, pixels: l.pixels },
        ));
    }

    assert forall|i: int| 0 <= i < packed_f.len() implies Some(#[trigger] packed_f[i])
        == unpack_layer(es, idps(packed_f)[i]) by {
        let l = frags[i];
        let name = image_file_name(LayerKind::Fragment, l.id, chosen_ext(l.path));
        assert(packed_f[i] == packed_layer(frags[i], LayerKind::Fragment));
        assert(idps(packed_f)[i] == idp(packed_f[i]));
        lemma_name_bytes(LayerKind::Fragment, l.id, chosen_ext(l.path));
        lemma_dec_digits_range(l.id as nat);
        assert(name.len() > 0);
        let pos = nd + count_px(frags, i);
        assert(entry_for(es, pos, LayerKind::Fragment, l));
        lemma_count_px_mono(frags, i, frags.len() as int);
        assert forall|j: int| 0 <= j < pos implies norm_name(#[trigger] es[j].0) != name by {
            if j < nd {
                assert(pos_covered(dolls, j));
                let w = choose|w: int|
                    0 <= w < dolls.len() && #[trigger] dolls[w].pixels.len() > 0 && count_px(
                        dolls,
                        w,
                    ) == j;
                assert(entry_for(es, j, LayerKind::Doll, dolls[w]));
                lemma_name_shape(LayerKind::Doll, dolls[w].id, chosen_ext(dolls[w].path));
                lemma_names_cross_kind(dolls[w].id, l.id, chosen_ext(dolls[w].path), chosen_ext(
                    l.path,
                ));
            } else {
                assert(pos_covered(frags, j - nd));
                let w = choose|w: int|
                    0 <= w < frags.len() && #[trigger] frags[w].pixels.len() > 0 && count_px(
                        frags,
                        w,
                    ) == j - nd;
                assert(entry_for(es, nd + count_px(frags, w), LayerKind::Fragment, frags[w]));
                lemma_name_shape(LayerKind::Fragment, frags[w].id, chosen_ext(frags[w].path));
                if image_file_name(LayerKind::Fragment, frags[w].id, chosen_ext(frags[w].path))
                    == name {
                    lemma_names_injective(
                        LayerKind::Fragment,
                        frags[w].id,
                        l.id,
                        chosen_ext(frags[w].path),
                        chosen_ext(l.path),
                    );
                    if w < i {
                        assert(frags[w].id != frags[i].id);
                    } else if i < w {
                        assert(frags[i].id != frags[w].id);
                    }
                    assert(false);
                }
            }
        }
        lemma_find_entry_at(es, name, pos);
        assert(img_decode_of(es[pos].1) == Some((l.width, l.height, l.pixels)));
        assert(unpack_layer(es, (l.id, name)) == Some(
            LayerM { id: l.id, path: name, width: l.width, height: l.height, pixels: l.pixels },
        ));
    }
}

/// Naming convergence: once every layer has been saved under the default
/// lossless format, saving again chooses the same extension and the same
/// name for every layer, so a second save rewrites nothing.
pub proof fn lemma_resave_converges(dolls: Seq<LayerM>, packed_d: Seq<LayerM>, k: LayerKind)
    requires
        forall|i: int|
            0 <= i < dolls.len() ==> (#[trigger] dolls[i]).pixels.len() > 0 && chosen_ext(
                dolls[i].path,
            ) == png_ext(),
        packed_all(dolls, packed_d, k),
    ensures
        packed_all(packed_d, packed_d, k),
        forall|i: int|
            0 <= i < packed_d.len() ==> chosen_ext((#[trigger] packed_d[i]).path) == png_ext(),
        distinct_ids(dolls) ==> distinct_ids(packed_d),
{
    assert forall|i: int| 0 <= i < packed_d.len() implies packed_layer(#[trigger] packed_d[i], k)
        == packed_d[i] && chosen_ext(packed_d[i].path) == png_ext() by {
        assert(packed_d[i] == packed_layer(dolls[i], k));
        lemma_ext_of_generated(k, dolls[i].id);
    }
    if distinct_ids(dolls) {
        assert forall|i: int, j: int| 0 <= i < j < packed_d.len() implies #[trigger] packed_d[i].id
            != #[trigger] packed_d[j].id by {
            assert(packed_d[i] == packed_layer(dolls[i], k));
            assert(packed_d[j] == packed_layer(dolls[j], k));
            assert(dolls[i].id != dolls[j].id);
        }
    }
}

} // verus!
