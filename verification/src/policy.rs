use vstd::prelude::*;
use crate::model::{LayerKind, manifest_name, norm_name, png_ext, portable_name, webp_ext};

verus! {

// ----- byte-sequence helpers -----

/// Compares two byte vectors for equality of their contents.
pub fn bytes_eq(a: &Vec<u8>, b: &Vec<u8>) -> (r: bool)
    ensures
        r == (a@ == b@),
{
    if a.len() != b.len() {
        return false;
    }
    let mut i: usize = 0;
    while i < a.len()
        invariant
            i <= a.len(),
            a.len() == b.len(),
            forall|j: int| 0 <= j < i ==> a@[j] == b@[j],
        decreases a.len() - i,
    {
        if a[i] != b[i] {
            return false;
        }
        i += 1;
    }
    proof {
        assert(a@ =~= b@);
    }
    true
}

/// The bytes of `png`.
pub fn png_bytes() -> (v: Vec<u8>)
    ensures
        v@ == png_ext(),
{
    let mut v: Vec<u8> = Vec::new();
    v.push(112);
    v.push(110);
    v.push(103);
    proof {
        assert(v@ =~= png_ext());
    }
    v
}

/// The bytes of `webp`.
pub fn webp_bytes() -> (v: Vec<u8>)
    ensures
        v@ == webp_ext(),
{
    let mut v: Vec<u8> = Vec::new();
    v.push(119);
    v.push(101);
    v.push(98);
    v.push(112);
    proof {
        assert(v@ =~= webp_ext());
    }
    v
}

/// The bytes of `manifest.yml`.
pub fn manifest_name_bytes() -> (v: Vec<u8>)
    ensures
        v@ == manifest_name(),
{
    let mut v: Vec<u8> = Vec::new();
    v.push(109);
    v.push(97);
    v.push(110);
    v.push(105);
    v.push(102);
    v.push(101);
    v.push(115);
    v.push(116);
    v.push(46);
    v.push(121);
    v.push(109);
    v.push(108);
    proof {
        assert(v@ =~= manifest_name());
    }
    v
}

// ----- decimal rendering of identifiers -----

/// The decimal digits of `n`, most significant first, as ASCII bytes.
pub open spec fn dec_digits(n: nat) -> Seq<u8>
    decreases n,
{
    if n < 10 {
        seq![(48 + n) as u8]
    } else {
        dec_digits(n / 10).push((48 + n % 10) as u8)
    }
}

pub proof fn lemma_dec_digits_range(n: nat)
    ensures
        dec_digits(n).len() >= 1,
        forall|i: int| 0 <= i < dec_digits(n).len() ==> 48 <= #[trigger] dec_digits(n)[i] <= 57,
    decreases n,
{
    if n >= 10 {
        lemma_dec_digits_range(n / 10);
    }
}

/// Distinct numbers have distinct decimal renderings.
pub proof fn lemma_dec_digits_injective(a: nat, b: nat)
    requires
        dec_digits(a) == dec_digits(b),
    ensures
        a == b,
    decreases a + b,
{
    lemma_dec_digits_range(a);
    lemma_dec_digits_range(b);
    if a < 10 && b < 10 {
        assert(dec_digits(a) == seq![(48 + a) as u8]);
        assert(dec_digits(b) == seq![(48 + b) as u8]);
        assert(seq![(48 + a) as u8][0] == (48 + a) as u8);
        assert(seq![(48 + b) as u8][0] == (48 + b) as u8);
        assert(dec_digits(a)[0] == dec_digits(b)[0]);
        assert((48 + a) as u8 == (48 + b) as u8);
        assert(a == b);
    } else if a < 10 {
        assert(dec_digits(a).len() == 1);
        assert(dec_digits(b).len() == dec_digits(b / 10).len() + 1);
        lemma_dec_digits_range(b / 10);
        assert(false);
    } else if b < 10 {
        assert(dec_digits(b).len() == 1);
        assert(dec_digits(a).len() == dec_digits(a / 10).len() + 1);
        lemma_dec_digits_range(a / 10);
        assert(false);
    } else {
        let sa = dec_digits(a / 10);
        let sb = dec_digits(b / 10);
        let la = (48 + a % 10) as u8;
        let lb = (48 + b % 10) as u8;
        assert(dec_digits(a) == sa.push(la));
        assert(dec_digits(b) == sb.push(lb));
        assert(sa.len() == sb.len());
        assert(la == lb) by {
            assert(sa.push(la)[sa.len() as int] == la);
            assert(sb.push(lb)[sb.len() as int] == lb);
        }
        assert(a % 10 == b % 10);
        assert(sa =~= sb) by {
            assert(forall|i: int| 0 <= i < sa.len()
                ==> #[trigger] sa[i] == sa.push(la)[i] && sb[i] == sb.push(lb)[i]);
        }
        lemma_dec_digits_injective(a / 10, b / 10);
    }
}

/// Renders `n` in decimal.
pub fn u32_to_dec(n: u32) -> (v: Vec<u8>)
    ensures
        v@ == dec_digits(n as nat),
    decreases n,
{
    if n < 10 {
        let mut v: Vec<u8> = Vec::new();
        v.push(48 + (n as u8));
        proof {
            assert(v@ =~= dec_digits(n as nat));
        }
        v
    } else {
        let mut v = u32_to_dec(n / 10);
        v.push(48 + ((n % 10) as u8));
        proof {
            assert(v@ =~= dec_digits(n as nat));
        }
        v
    }
}

// ----- output file naming -----

/// The prefix that disambiguates the two collections: `doll_` or `fragment_`.
pub open spec fn kind_prefix(k: LayerKind) -> Seq<u8> {
    match k {
        LayerKind::Doll => seq![100u8, 111u8, 108u8, 108u8, 95u8],
        LayerKind::Fragment => seq![102u8, 114u8, 97u8, 103u8, 109u8, 101u8, 110u8, 116u8, 95u8],
    }
}

/// The synthesized output name of a layer's image file:
/// `{kind}_{id}.{extension}`.
pub open spec fn image_file_name(k: LayerKind, id: u32, ext: Seq<u8>) -> Seq<u8> {
    kind_prefix(k) + dec_digits(id as nat) + seq![46u8] + ext
}

/// Builds the synthesized output name.
pub fn image_file_name_exec(k: LayerKind, id: u32, ext: &Vec<u8>) -> (v: Vec<u8>)
    ensures
        v@ == image_file_name(k, id, ext@),
{
    let mut v: Vec<u8> = Vec::new();
    match k {
        LayerKind::Doll => {
            v.push(100);
            v.push(111);
            v.push(108);
            v.push(108);
            v.push(95);
        }
        LayerKind::Fragment => {
            v.push(102);
            v.push(114);
            v.push(97);
            v.push(103);
            v.push(109);
            v.push(101);
            v.push(110);
            v.push(116);
            v.push(95);
        }
    }
    proof {
        assert(v@ =~= kind_prefix(k));
    }
    let mut d = u32_to_dec(id);
    v.append(&mut d);
    v.push(46);
    let mut i: usize = 0;
    let ghost mid = v@;
    while i < ext.len()
        invariant
            i <= ext.len(),
            v@ == mid + ext@.subrange(0, i as int),
        decreases ext.len() - i,
    {
        v.push(ext[i]);
        i += 1;
        proof {
            assert(mid + ext@.subrange(0, i - 1 as int) + seq![ext@[i - 1]]
                =~= mid + ext@.subrange(0, i as int));
        }
    }
    proof {
        assert(ext@.subrange(0, ext@.len() as int) =~= ext@);
        assert(v@ =~= image_file_name(k, id, ext@));
    }
    v
}

// ----- extension selection -----

/// `i` is the position of the last occurrence of `b` in `s`.
pub open spec fn is_last_index_of(s: Seq<u8>, b: u8, i: int) -> bool {
    &&& 0 <= i < s.len()
    &&& s[i] == b
    &&& forall|j: int| i < j < s.len() ==> s[j] != b
}

pub proof fn lemma_last_index_unique(s: Seq<u8>, b: u8, i: int, j: int)
    requires
        is_last_index_of(s, b, i),
        is_last_index_of(s, b, j),
    ensures
        i == j,
{
    if i < j {
        assert(s[j] != b);
    } else if j < i {
        assert(s[i] != b);
    }
}

/// Where the file name of a path begins: one past the last slash, or 0.
pub open spec fn file_name_start(p: Seq<u8>) -> int {
    if exists|i: int| is_last_index_of(p, 47, i) {
        (choose|i: int| is_last_index_of(p, 47, i)) + 1
    } else {
        0
    }
}

/// The extension of a path: the bytes after the last dot of its file name,
/// provided that dot is not the file name's first byte; none otherwise.
pub open spec fn path_ext(p: Seq<u8>) -> Option<Seq<u8>> {
    if exists|i: int| file_name_start(p) < i && is_last_index_of(p, 46, i) {
        Some(p.subrange(
            (choose|i: int| file_name_start(p) < i && is_last_index_of(p, 46, i)) + 1,
            p.len() as int,
        ))
    } else {
        None
    }
}

/// The output extension chosen for a layer whose stored path is `p`:
/// the path's own extension, except that a missing extension, an empty
/// path, and `webp` (which cannot be written) all fall back to `png`.
pub open spec fn chosen_ext(p: Seq<u8>) -> Seq<u8> {
    if p.len() == 0 {
        png_ext()
    } else {
        match path_ext(p) {
            Some(e) => if e == webp_ext() {
                png_ext()
            } else {
                e
            },
            None => png_ext(),
        }
    }
}

/// Picks the output extension for a stored path.
pub fn choose_extension(path: &Vec<u8>) -> (e: Vec<u8>)
    ensures
        e@ == chosen_ext(path@),
{
    if path.len() == 0 {
        return png_bytes();
    }
    let mut start: usize = 0;
    let mut i: usize = 0;
    while i < path.len()
        invariant
            i <= path.len(),
            start <= i,
            start == 0 ==> forall|j: int| 0 <= j < i ==> path@[j] != 47,
            start > 0 ==> path@[start - 1] == 47
                && (forall|j: int| start <= j < i ==> path@[j] != 47),
        decreases path.len() - i,
    {
        if path[i] == 47 {
            start = i + 1;
        }
        i += 1;
    }
    proof {
        if start == 0 {
            assert forall|kk: int| !is_last_index_of(path@, 47, kk) by {
                if 0 <= kk < path@.len() {
                    assert(path@[kk] != 47);
                }
            }
            assert(file_name_start(path@) == 0);
        } else {
            assert(is_last_index_of(path@, 47, start - 1));
            lemma_last_index_unique(
                path@,
                47,
                choose|kk: int| is_last_index_of(path@, 47, kk),
                start - 1,
            );
            assert(file_name_start(path@) == start as int);
        }
    }
    let mut dot: usize = 0;
    let mut has_dot: bool = false;
    let mut m: usize = start;
    while m < path.len()
        invariant
            start <= m <= path.len(),
            !has_dot ==> forall|j: int| start < j < m ==> path@[j] != 46,
            has_dot ==> start < dot < m && path@[dot as int] == 46
                && (forall|j: int| dot < j < m ==> path@[j] != 46),
        decreases path.len() - m,
    {
        if path[m] == 46 && m > start {
            dot = m;
            has_dot = true;
        }
        m += 1;
    }
    if !has_dot {
        proof {
            assert forall|kk: int|
                !(file_name_start(path@) < kk && is_last_index_of(path@, 46, kk)) by {
                if file_name_start(path@) < kk && 0 <= kk < path@.len() {
                    assert(path@[kk] != 46);
                }
            }
            assert(path_ext(path@) is None);
        }
        return png_bytes();
    }
    proof {
        assert(is_last_index_of(path@, 46, dot as int));
        assert(exists|kk: int| file_name_start(path@) < kk && is_last_index_of(path@, 46, kk))
            by {
            assert(file_name_start(path@) < dot as int
                && is_last_index_of(path@, 46, dot as int));
        }
        lemma_last_index_unique(
            path@,
            46,
            choose|kk: int| file_name_start(path@) < kk && is_last_index_of(path@, 46, kk),
            dot as int,
        );
        assert(path_ext(path@) == Some(path@.subrange(dot + 1, path@.len() as int)));
    }
    let mut e: Vec<u8> = Vec::new();
    let mut q: usize = dot + 1;
    while q < path.len()
        invariant
            dot < q <= path.len(),
            e@ == path@.subrange(dot + 1, q as int),
        decreases path.len() - q,
    {
        e.push(path[q]);
        q += 1;
        proof {
            assert(path@.subrange(dot + 1, q - 1) + seq![path@[q - 1]]
                =~= path@.subrange(dot + 1, q as int));
        }
    }
    let wb = webp_bytes();
    if bytes_eq(&e, &wb) {
        return png_bytes();
    }
    e
}

/// Every occurrence of a byte has a last occurrence.
pub proof fn lemma_exists_last_index(s: Seq<u8>, b: u8, i: int)
    requires
        0 <= i < s.len(),
        s[i] == b,
    ensures
        exists|w: int| is_last_index_of(s, b, w),
    decreases s.len() - i,
{
    if forall|m: int| i < m < s.len() ==> s[m] != b {
        assert(is_last_index_of(s, b, i));
    } else {
        let m = choose|m: int| i < m < s.len() && s[m] == b;
        lemma_exists_last_index(s, b, m);
    }
}

/// A chosen extension never contains a slash: it is either the default
/// `png` or a suffix of the file name, which starts after the last slash.
pub proof fn lemma_chosen_ext_no_slash(p: Seq<u8>)
    ensures
        forall|j: int| 0 <= j < chosen_ext(p).len() ==> #[trigger] chosen_ext(p)[j] != 47,
{
    assert(png_ext()[0] == 112 && png_ext()[1] == 110 && png_ext()[2] == 103);
    if p.len() > 0 && path_ext(p) is Some && path_ext(p)->Some_0 != webp_ext() {
        let k = choose|i: int| file_name_start(p) < i && is_last_index_of(p, 46, i);
        assert(path_ext(p) == Some(p.subrange(k + 1, p.len() as int)));
        let start = file_name_start(p);
        assert forall|j: int| 0 <= j < chosen_ext(p).len() implies #[trigger] chosen_ext(
            p,
        )[j] != 47 by {
            assert(chosen_ext(p)[j] == p[k + 1 + j]);
            if p[k + 1 + j] == 47 {
                lemma_exists_last_index(p, 47, k + 1 + j);
                let w = choose|w: int| is_last_index_of(p, 47, w);
                assert(start == w + 1);
                assert(p[k + 1 + j] != 47);
            }
        }
    }
}

// ----- facts about the synthesized names -----

/// The byte layout of a synthesized name.
pub proof fn lemma_name_bytes(k: LayerKind, id: u32, ext: Seq<u8>)
    ensures
        ({
            let n = image_file_name(k, id, ext);
            let p = kind_prefix(k);
            let d = dec_digits(id as nat);
            &&& n.len() == p.len() + d.len() + 1 + ext.len()
            &&& forall|i: int| 0 <= i < p.len() ==> n[i] == p[i]
            &&& forall|i: int| 0 <= i < d.len() ==> n[p.len() as int + i] == d[i]
            &&& n[p.len() as int + d.len() as int] == 46
            &&& forall|i: int| 0 <= i < ext.len() ==> n[p.len() as int + d.len() as int + 1 + i] == ext[i]
        }),
{
    let n = image_file_name(k, id, ext);
    let p = kind_prefix(k);
    let d = dec_digits(id as nat);
    assert(n == p + d + seq![46u8] + ext);
    assert(seq![46u8].len() == 1);
    assert forall|i: int| 0 <= i < ext.len() implies n[p.len() as int + d.len() as int + 1 + i] == ext[i] by {
        assert(n[p.len() as int + d.len() as int + 1 + i] == ext[p.len() as int + d.len() as int + 1 + i - (p + d + seq![46u8]).len()]);
    }
}

/// Every byte of a kind prefix is a lower-case letter or an underscore.
pub proof fn lemma_prefix_bytes(k: LayerKind)
    ensures
        kind_prefix(k).len() >= 5,
        forall|i: int| 0 <= i < kind_prefix(k).len()
            ==> (95 <= #[trigger] kind_prefix(k)[i] <= 95
                || 97 <= kind_prefix(k)[i] <= 122),
{
    let p = kind_prefix(k);
    match k {
        LayerKind::Doll => {
            assert forall|i: int| 0 <= i < p.len() implies (95 <= #[trigger] p[i] <= 95 || 97
                <= p[i] <= 122) by {
                assert(p[0] == 100 && p[1] == 111 && p[2] == 108 && p[3] == 108 && p[4] == 95);
            }
        }
        LayerKind::Fragment => {
            assert forall|i: int| 0 <= i < p.len() implies (95 <= #[trigger] p[i] <= 95 || 97
                <= p[i] <= 122) by {
                assert(p[0] == 102 && p[1] == 114 && p[2] == 97 && p[3] == 103 && p[4] == 109
                    && p[5] == 101 && p[6] == 110 && p[7] == 116 && p[8] == 95);
            }
        }
    }
}

/// A synthesized name never collides with the manifest entry name, starts
/// with a letter (so lookups need not strip anything from it), and is made
/// of portable bytes whenever its extension is.
pub proof fn lemma_name_shape(k: LayerKind, id: u32, ext: Seq<u8>)
    ensures
        ({
            let n = image_file_name(k, id, ext);
            &&& n != manifest_name()
            &&& norm_name(n) == n
            &&& (forall|i: int| 0 <= i < ext.len()
                ==> 32 <= #[trigger] ext[i] < 127 && ext[i] != 92 && ext[i] != 47)
                ==> portable_name(n)
        }),
{
    let n = image_file_name(k, id, ext);
    let p = kind_prefix(k);
    let d = dec_digits(id as nat);
    lemma_name_bytes(k, id, ext);
    lemma_prefix_bytes(k);
    lemma_dec_digits_range(id as nat);
    assert(n[0] == p[0]);
    assert(p[0] == 100 || p[0] == 102);
    assert(manifest_name()[0] == 109);
    assert(n[0] != 46);
    if forall|i: int| 0 <= i < ext.len() ==> 32 <= #[trigger] ext[i] < 127 && ext[i] != 92
        && ext[i] != 47 {
        assert forall|i: int| 0 <= i < n.len() implies 32 <= #[trigger] n[i] < 127 && n[i]
            != 92 && n[i] != 47 by {
            if i < p.len() as int {
                assert(n[i] == p[i]);
            } else if i < p.len() as int + d.len() as int {
                assert(n[i] == d[i - p.len() as int]);
            } else if i == p.len() as int + d.len() as int {
            } else {
                assert(n[i] == ext[i - (p.len() as int + d.len() as int + 1)]);
            }
        }
    }
}

/// A synthesized name is ASCII whenever its extension is.
pub proof fn lemma_name_ascii(k: LayerKind, id: u32, ext: Seq<u8>)
    requires
        forall|j: int| 0 <= j < ext.len() ==> #[trigger] ext[j] < 128,
    ensures
        forall|j: int|
            0 <= j < image_file_name(k, id, ext).len() ==> #[trigger] image_file_name(
                k,
                id,
                ext,
            )[j] < 128,
{
    let n = image_file_name(k, id, ext);
    let p = kind_prefix(k);
    let d = dec_digits(id as nat);
    lemma_name_bytes(k, id, ext);
    lemma_prefix_bytes(k);
    lemma_dec_digits_range(id as nat);
    assert forall|j: int| 0 <= j < n.len() implies #[trigger] n[j] < 128 by {
        if j < p.len() as int {
            assert(n[j] == p[j]);
        } else if j < p.len() as int + d.len() as int {
            assert(n[j] == d[j - p.len() as int]);
        } else if j == p.len() as int + d.len() as int {
        } else {
            assert(n[j] == ext[j - (p.len() as int + d.len() as int + 1)]);
        }
    }
}

/// Within one kind, distinct ids give distinct names, whatever the
/// extensions are.
pub proof fn lemma_names_injective(k: LayerKind, id1: u32, id2: u32, e1: Seq<u8>, e2: Seq<u8>)
    requires
        image_file_name(k, id1, e1) == image_file_name(k, id2, e2),
    ensures
        id1 == id2,
{
    let p = kind_prefix(k);
    let d1 = dec_digits(id1 as nat);
    let d2 = dec_digits(id2 as nat);
    lemma_name_bytes(k, id1, e1);
    lemma_name_bytes(k, id2, e2);
    lemma_dec_digits_range(id1 as nat);
    lemma_dec_digits_range(id2 as nat);
    let n = image_file_name(k, id1, e1);
    if d1.len() < d2.len() {
        assert(n[p.len() as int + d1.len() as int] == 46);
        assert(n[p.len() as int + d1.len() as int] == d2[d1.len() as int]);
        assert(false);
    } else if d2.len() < d1.len() {
        assert(n[p.len() as int + d2.len() as int] == 46);
        assert(n[p.len() as int + d2.len() as int] == d1[d2.len() as int]);
        assert(false);
    } else {
        assert(d1 =~= d2) by {
            assert forall|i: int| 0 <= i < d1.len() implies d1[i] == d2[i] by {
                assert(n[p.len() as int + i] == d1[i]);
                assert(n[p.len() as int + i] == d2[i]);
            }
        }
        lemma_dec_digits_injective(id1 as nat, id2 as nat);
    }
}

/// A doll name and a fragment name never collide.
pub proof fn lemma_names_cross_kind(id1: u32, id2: u32, e1: Seq<u8>, e2: Seq<u8>)
    ensures
        image_file_name(LayerKind::Doll, id1, e1) != image_file_name(
            LayerKind::Fragment,
            id2,
            e2,
        ),
{
    lemma_name_bytes(LayerKind::Doll, id1, e1);
    lemma_name_bytes(LayerKind::Fragment, id2, e2);
    assert(image_file_name(LayerKind::Doll, id1, e1)[0] == 100);
    assert(image_file_name(LayerKind::Fragment, id2, e2)[0] == 102);
}

/// Re-choosing an extension for a name this policy produced with the
/// default extension yields the default extension again: saving converges
/// after one round.
pub proof fn lemma_ext_of_generated(k: LayerKind, id: u32)
    ensures
        chosen_ext(image_file_name(k, id, png_ext())) == png_ext(),
{
    let n = image_file_name(k, id, png_ext());
    let p = kind_prefix(k);
    let d = dec_digits(id as nat);
    lemma_name_bytes(k, id, png_ext());
    lemma_prefix_bytes(k);
    lemma_dec_digits_range(id as nat);
    let sep = p.len() as int + d.len() as int;
    assert(png_ext()[0] == 112 && png_ext()[1] == 110 && png_ext()[2] == 103);
    assert forall|j: int| 0 <= j < n.len() implies n[j] != 47 by {
        if j < p.len() as int {
            assert(n[j] == p[j]);
        } else if j < sep {
            assert(n[j] == d[j - p.len() as int]);
        } else if j == sep {
        } else {
            assert(n[j] == png_ext()[j - (sep + 1)]);
        }
    }
    assert forall|kk: int| !is_last_index_of(n, 47, kk) by {
        if 0 <= kk < n.len() {
            assert(n[kk] != 47);
        }
    }
    assert(file_name_start(n) == 0);
    assert forall|j: int| sep < j < n.len() implies n[j] != 46 by {
        assert(n[j] == png_ext()[j - (sep + 1)]);
    }
    assert(is_last_index_of(n, 46, sep as int));
    assert(exists|kk: int| file_name_start(n) < kk && is_last_index_of(n, 46, kk)) by {
        assert(file_name_start(n) < sep as int && is_last_index_of(n, 46, sep as int));
    }
    lemma_last_index_unique(
        n,
        46,
        choose|kk: int| file_name_start(n) < kk && is_last_index_of(n, 46, kk),
        sep as int,
    );
    assert(path_ext(n) == Some(n.subrange(sep + 1 as int, n.len() as int)));
    assert(n.subrange(sep + 1 as int, n.len() as int) =~= png_ext());
    assert(png_ext() != webp_ext()) by {
        assert(png_ext().len() == 3 && webp_ext().len() == 4);
    }
}

} // verus!
