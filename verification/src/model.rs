use vstd::prelude::*;

verus! {

/// Which of the two image-bearing collections of a manifest an entry
/// belongs to.
#[derive(Clone, Copy, Debug, PartialEq, Eq, Structural)]
pub enum LayerKind {
    Doll,
    Fragment,
}

/// Mathematical model of one image-bearing entry (a doll or a fragment):
/// its stable identifier, the relative path of its backing file inside the
/// container (empty means "no backing file"), and its inline RGBA8 pixel
/// buffer with its dimensions.
pub ghost struct LayerM {
    pub id: u32,
    pub path: Seq<u8>,
    pub width: u32,
    pub height: u32,
    pub pixels: Seq<u8>,
}

/// Executable counterpart of `LayerM`: the fields of one image-bearing
/// entry that the pipelines read.
pub struct Layer {
    pub id: u32,
    pub path: Vec<u8>,
    pub width: u32,
    pub height: u32,
    pub pixels: Vec<u8>,
}

impl View for Layer {
    type V = LayerM;

    open spec fn view(&self) -> LayerM {
        LayerM {
            id: self.id,
            path: self.path@,
            width: self.width,
            height: self.height,
            pixels: self.pixels@,
        }
    }
}

/// The bytes of the extension `png`, the default output format.
pub open spec fn png_ext() -> Seq<u8> {
    seq![112u8, 110u8, 103u8]
}

/// The bytes of the extension `webp`, which the encoder cannot write.
pub open spec fn webp_ext() -> Seq<u8> {
    seq![119u8, 101u8, 98u8, 112u8]
}

/// The bytes of `manifest.yml`, the well-known manifest entry name.
pub open spec fn manifest_name() -> Seq<u8> {
    seq![109u8, 97u8, 110u8, 105u8, 102u8, 101u8, 115u8, 116u8, 46u8, 121u8, 109u8, 108u8]
}

/// A name made of printable ASCII bytes other than backslash and slash:
/// such a name is a single path component, which a tar header stores
/// verbatim and hands back unchanged (separators would be normalized).
pub open spec fn portable_name(s: Seq<u8>) -> bool {
    &&& s.len() > 0
    &&& forall|i: int| 0 <= i < s.len() ==> 32 <= #[trigger] s[i] < 127 && s[i] != 92 && s[i] != 47
}

/// The identifying pair of a layer: its id and its path.
pub open spec fn idp(l: LayerM) -> (u32, Seq<u8>) {
    (l.id, l.path)
}

/// The id/path pairs of a whole collection, in order.
pub open spec fn idps(ls: Seq<LayerM>) -> Seq<(u32, Seq<u8>)> {
    ls.map_values(|l: LayerM| idp(l))
}

/// The pixel buffer holds exactly width * height RGBA quadruples.
pub open spec fn valid_layer(l: LayerM) -> bool {
    l.pixels.len() == l.width * l.height * 4
}

/// Ids are unique within one collection.
pub open spec fn distinct_ids(ls: Seq<LayerM>) -> bool {
    forall|i: int, j: int| 0 <= i < j < ls.len() ==> #[trigger] ls[i].id != #[trigger] ls[j].id
}

/// Container entry names may carry a leading `./`; both spellings denote
/// the same relative path, so lookups strip that prefix.
pub open spec fn norm_name(s: Seq<u8>) -> Seq<u8> {
    if s.len() >= 2 && s[0] == 46 && s[1] == 47 {
        s.subrange(2, s.len() as int)
    } else {
        s
    }
}

/// The layer that a freshly parsed manifest record denotes: the id and path
/// from the text, and no inline pixel data (the manifest never carries any).
pub open spec fn layer_from_idp(p: (u32, Seq<u8>)) -> LayerM {
    LayerM { id: p.0, path: p.1, width: 0, height: 0, pixels: Seq::empty() }
}

} // verus!
