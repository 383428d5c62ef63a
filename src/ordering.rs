//! The order of the atlas key table: every compiled table is strictly sorted by
//! key rank, so no key occurs twice and the keys of one track (one layer, slice
//! or nine-patch quadrant) stand in frame order.

use vstd::prelude::*;
use crate::grid::lemma_split_index;
use crate::atlas::{
    all_slice_entries, cel_entries, doc_rows, expected_keys, frame_entries,
    ninepatch_entries, packed_entries, slice_block, slice_entries, frame_key, AtlasKey,
};
use crate::assets::{key_position, Aseprite, RangeOutcome};
use crate::document::SourceDocument;

verus! {

/// The rank of a key: its track (kind, layer or slice id, quadrant + 1) and then
/// its frame.
pub open spec fn key_rank(k: AtlasKey) -> (int, int, int, int) {
    match k.slice {
        Some(s) => (
            2,
            s as int,
            match k.ninepatch {
                Some(q) => q + 1,
                None => 0,
            },
            k.frame as int,
        ),
        None => match k.layer {
            Some(l) => (1, l as int, 0, k.frame as int),
            None => (0, 0, 0, k.frame as int),
        },
    }
}

/// Whether two keys address the same track, that is differ at most in frame.
pub open spec fn same_track(a: AtlasKey, b: AtlasKey) -> bool {
    key_rank(a).0 == key_rank(b).0 && key_rank(a).1 == key_rank(b).1 && key_rank(a).2 == key_rank(b).2
}

/// The lexicographic order of key ranks.
pub open spec fn key_lt(a: AtlasKey, b: AtlasKey) -> bool {
    let x = key_rank(a);
    let y = key_rank(b);
    x.0 < y.0 || (x.0 == y.0 && (x.1 < y.1 || (x.1 == y.1 && (x.2 < y.2 || (x.2 == y.2 && x.3 < y.3)))))
}

pub open spec fn keys_sorted(keys: Seq<AtlasKey>) -> bool {
    forall|i: int, j: int| 0 <= i < j < keys.len() ==> key_lt(#[trigger] keys[i], #[trigger] keys[j])
}

pub open spec fn entries_sorted<A>(e: Seq<(AtlasKey, A)>) -> bool {
    forall|i: int, j: int| 0 <= i < j < e.len() ==> key_lt((#[trigger] e[i]).0, (#[trigger] e[j]).0)
}

pub proof fn lemma_sorted_push<A>(e: Seq<(AtlasKey, A)>, x: (AtlasKey, A))
    requires
        entries_sorted(e),
        forall|m: int| 0 <= m < e.len() ==> key_lt((#[trigger] e[m]).0, x.0),
    ensures
        entries_sorted(e.push(x)),
{
    let e2 = e.push(x);
    assert forall|i: int, j: int| 0 <= i < j < e2.len() implies key_lt((#[trigger] e2[i]).0, (#[trigger] e2[j]).0) by {
        assert(e2[i] == e[i]);
        if j < e.len() {
            assert(e2[j] == e[j]);
        }
    }
}

pub proof fn lemma_sorted_concat<A>(a: Seq<(AtlasKey, A)>, b: Seq<(AtlasKey, A)>)
    requires
        entries_sorted(a),
        entries_sorted(b),
        forall|i: int, j: int| 0 <= i < a.len() && 0 <= j < b.len() ==> key_lt((#[trigger] a[i]).0, (#[trigger] b[j]).0),
    ensures
        entries_sorted(a + b),
{
    let c = a + b;
    assert forall|i: int, j: int| 0 <= i < j < c.len() implies key_lt((#[trigger] c[i]).0, (#[trigger] c[j]).0) by {
        if j < a.len() {
            assert(c[i] == a[i] && c[j] == a[j]);
        } else if i < a.len() {
            assert(c[i] == a[i] && c[j] == b[j - a.len()]);
        } else {
            assert(c[i] == b[i - a.len()] && c[j] == b[j - a.len()]);
        }
    }
}

proof fn lemma_lex_of_index(l1: int, f1: int, l2: int, f2: int, n: int)
    requires
        0 <= f1 < n,
        0 <= f2 < n,
        l1 * n + f1 < l2 * n + f2,
    ensures
        l1 < l2 || (l1 == l2 && f1 < f2),
{
    if l1 > l2 {
        assert(l1 * n >= l2 * n + n) by (nonlinear_arith)
            requires l1 >= l2 + 1, n > 0;
    } else if l1 == l2 {
    }
}

/// The cel entries are sorted, and each is a cel key below the source index `i`.
pub proof fn lemma_cel_entries_sorted(doc: SourceDocument, i: int)
    requires
        doc.shape_ok(),
        0 <= i <= doc.cels.len(),
    ensures
        entries_sorted(cel_entries(doc, i)),
        forall|m: int| 0 <= m < cel_entries(doc, i).len() ==> {
            let k = (#[trigger] cel_entries(doc, i)[m]).0;
            &&& k.slice is None
            &&& k.layer is Some
            &&& (k.frame as int) < doc.num_frames
            &&& (k.layer->Some_0 as int) * doc.num_frames + k.frame < i
        },
    decreases i,
{
    if i > 0 {
        let n = doc.num_frames as int;
        lemma_cel_entries_sorted(doc, i - 1);
        let prev = cel_entries(doc, i - 1);
        let k = i - 1;
        lemma_split_index(k, n, doc.layers.len() as int);
        let l = k / n;
        let f = k % n;
        let cur = cel_entries(doc, i);
        if cur.len() > prev.len() {
            let x = cur[prev.len() as int];
            assert(cur == prev.push(x));
            assert(x.0.layer == Some(l as u32) && x.0.frame == f as u32);
            assert forall|m: int| 0 <= m < prev.len() implies key_lt((#[trigger] prev[m]).0, x.0) by {
                let pk = prev[m].0;
                lemma_lex_of_index(pk.layer->Some_0 as int, pk.frame as int, l, f, n);
            }
            lemma_sorted_push(prev, x);
            assert forall|m: int| 0 <= m < cur.len() implies {
                let kk = (#[trigger] cur[m]).0;
                &&& kk.slice is None
                &&& kk.layer is Some
                &&& (kk.frame as int) < doc.num_frames
                &&& (kk.layer->Some_0 as int) * doc.num_frames + kk.frame < i
            } by {
                if m < prev.len() {
                    assert(cur[m] == prev[m]);
                }
            }
        }
    }
}


/// The nine-patch entries of slice `s` are sorted, and each is a quadrant key of
/// slice `s` below the (quadrant, frame) index `j`.
pub proof fn lemma_ninepatch_entries_sorted(doc: SourceDocument, rows: int, s: int, j: int)
    requires
        doc.shape_ok(),
        0 <= s < doc.slices.len(),
        0 <= j <= 9 * doc.num_frames,
    ensures
        entries_sorted(ninepatch_entries(doc, rows, s, j)),
        forall|m: int| 0 <= m < ninepatch_entries(doc, rows, s, j).len() ==> {
            let k = (#[trigger] ninepatch_entries(doc, rows, s, j)[m]).0;
            &&& k.slice == Some(s as u32)
            &&& k.ninepatch is Some
            &&& (k.frame as int) < doc.num_frames
            &&& (k.ninepatch->Some_0 as int) * doc.num_frames + k.frame < j
        },
    decreases j,
{
    if j > 0 {
        let n = doc.num_frames as int;
        lemma_ninepatch_entries_sorted(doc, rows, s, j - 1);
        let prev = ninepatch_entries(doc, rows, s, j - 1);
        let k = j - 1;
        lemma_split_index(k, n, 9);
        let q = k / n;
        let f = k % n;
        let cur = ninepatch_entries(doc, rows, s, j);
        if cur.len() > prev.len() {
            let x = cur[prev.len() as int];
            assert(cur == prev.push(x));
            assert(x.0.ninepatch == Some(q as u8) && x.0.frame == f as u32);
            assert forall|m: int| 0 <= m < prev.len() implies key_lt((#[trigger] prev[m]).0, x.0) by {
                let pk = prev[m].0;
                lemma_lex_of_index(pk.ninepatch->Some_0 as int, pk.frame as int, q, f, n);
            }
            lemma_sorted_push(prev, x);
            assert forall|m: int| 0 <= m < cur.len() implies {
                let kk = (#[trigger] cur[m]).0;
                &&& kk.slice == Some(s as u32)
                &&& kk.ninepatch is Some
                &&& (kk.frame as int) < doc.num_frames
                &&& (kk.ninepatch->Some_0 as int) * doc.num_frames + kk.frame < j
            } by {
                if m < prev.len() {
                    assert(cur[m] == prev[m]);
                }
            }
        }
    }
}

/// The entries of the first `s` slices are sorted and belong to those slices.
pub proof fn lemma_slice_entries_sorted(doc: SourceDocument, rows: int, s: int)
    requires
        doc.shape_ok(),
        0 <= s <= doc.slices.len(),
    ensures
        entries_sorted(slice_entries(doc, rows, s)),
        forall|m: int| 0 <= m < slice_entries(doc, rows, s).len() ==> {
            let k = (#[trigger] slice_entries(doc, rows, s)[m]).0;
            &&& k.slice is Some
            &&& (k.slice->Some_0 as int) < s
        },
    decreases s,
{
    if s > 0 {
        lemma_slice_entries_sorted(doc, rows, s - 1);
        let prev = slice_entries(doc, rows, s - 1);
        let n = doc.num_frames as int;
        let plain = Seq::new(doc.num_frames as nat, |f: int| (crate::atlas::slice_key(s - 1, f), crate::atlas::slice_rect(doc, rows, s - 1, f)));
        let nine = ninepatch_entries(doc, rows, s - 1, 9 * n);
        lemma_ninepatch_entries_sorted(doc, rows, s - 1, 9 * n);
        assert(slice_block(doc, rows, s - 1) == plain + nine);
        assert forall|i: int, j: int| 0 <= i < plain.len() && 0 <= j < nine.len() implies key_lt((#[trigger] plain[i]).0, (#[trigger] nine[j]).0) by {
        }
        lemma_sorted_concat(plain, nine);
        let block = plain + nine;
        assert forall|m: int| 0 <= m < block.len() implies (#[trigger] block[m]).0.slice == Some((s - 1) as u32) by {
            if m >= plain.len() {
                assert(block[m] == nine[m - plain.len()]);
            }
        }
        assert forall|i: int, j: int| 0 <= i < prev.len() && 0 <= j < block.len() implies key_lt((#[trigger] prev[i]).0, (#[trigger] block[j]).0) by {
        }
        lemma_sorted_concat(prev, block);
        let cur = slice_entries(doc, rows, s);
        assert(cur == prev + block);
        assert forall|m: int| 0 <= m < cur.len() implies {
            let k = (#[trigger] cur[m]).0;
            &&& k.slice is Some
            &&& (k.slice->Some_0 as int) < s
        } by {
            if m < prev.len() {
                assert(cur[m] == prev[m]);
            } else {
                assert(cur[m] == block[m - prev.len()]);
            }
        }
    }
}

/// The key table of every valid document is strictly sorted by key rank.
pub proof fn lemma_expected_keys_sorted(doc: SourceDocument)
    requires
        doc.valid(),
    ensures
        keys_sorted(expected_keys(doc)),
{
    let frames = frame_entries(doc);
    let cels = cel_entries(doc, doc.cels.len() as int);
    lemma_cel_entries_sorted(doc, doc.cels.len() as int);
    assert forall|i: int, j: int| 0 <= i < frames.len() && 0 <= j < cels.len() implies key_lt((#[trigger] frames[i]).0, (#[trigger] cels[j]).0) by {
    }
    assert(entries_sorted(frames));
    lemma_sorted_concat(frames, cels);
    let p = packed_entries(doc);
    let se = all_slice_entries(doc);
    lemma_slice_entries_sorted(doc, doc_rows(doc), doc.slices.len() as int);
    assert forall|m: int| 0 <= m < p.len() implies (#[trigger] p[m]).0.slice is None by {
        if m < frames.len() {
            assert(p[m] == frames[m]);
        } else {
            assert(p[m] == cels[m - frames.len()]);
        }
    }
    let keys = expected_keys(doc);
    assert forall|i: int, j: int| 0 <= i < j < keys.len() implies key_lt(#[trigger] keys[i], #[trigger] keys[j]) by {
        if j < p.len() {
            assert(keys[i] == p[i].0 && keys[j] == p[j].0);
        } else if i < p.len() {
            assert(keys[i] == p[i].0 && keys[j] == se[j - p.len()].0);
        } else {
            assert(keys[i] == se[i - p.len()].0 && keys[j] == se[j - p.len()].0);
        }
    }
}


/// A compiled sprite satisfies the sprite invariant.
pub proof fn lemma_compiled_wf(doc: SourceDocument, sprite: Aseprite)
    requires
        doc.valid(),
        sprite.compiled_from(doc),
    ensures
        sprite.wf(),
{
    lemma_expected_keys_sorted(doc);
}

/// In a sorted table, the first slot of the key at slot `i` is `i`.
pub proof fn lemma_sorted_position(keys: Seq<AtlasKey>, i: int, m: int)
    requires
        keys_sorted(keys),
        0 <= m <= i < keys.len(),
    ensures
        key_position(keys, keys[i], m) == i,
    decreases i - m,
{
    if m < i {
        assert(key_lt(keys[m], keys[i]));
        lemma_sorted_position(keys, i, m + 1);
    }
}

/// How many nine-patch quadrants the first `s` slices have.
pub open spec fn ninepatch_total(doc: SourceDocument, rows: int, s: int) -> int
    decreases s,
{
    if s <= 0 {
        0
    } else {
        ninepatch_total(doc, rows, s - 1) + ninepatch_entries(doc, rows, s - 1, 9 * doc.num_frames).len()
    }
}

proof fn lemma_slice_entries_len(doc: SourceDocument, rows: int, s: int)
    requires
        0 <= s,
    ensures
        slice_entries(doc, rows, s).len() == s * doc.num_frames + ninepatch_total(doc, rows, s),
    decreases s,
{
    if s > 0 {
        lemma_slice_entries_len(doc, rows, s - 1);
        assert(slice_block(doc, rows, s - 1).len() == doc.num_frames + ninepatch_entries(
            doc,
            rows,
            s - 1,
            9 * doc.num_frames,
        ).len());
        assert((s - 1) * doc.num_frames + doc.num_frames == s * doc.num_frames) by (nonlinear_arith);
        assert(slice_entries(doc, rows, s) == slice_entries(doc, rows, s - 1) + slice_block(doc, rows, s - 1));
        assert(ninepatch_total(doc, rows, s) == ninepatch_total(doc, rows, s - 1) + ninepatch_entries(
            doc,
            rows,
            s - 1,
            9 * doc.num_frames,
        ).len());
    } else {
        assert(0 * doc.num_frames == 0);
    }
}

/// The atlas index of a compiled sprite is a bijection between its keys and the
/// slots `0..N`: no key occurs twice, looking up the key of any slot gives back
/// that slot, and `N` is the number of whole frames, plus the non-empty cels,
/// plus one slice rectangle per slice and frame, plus the nine-patch quadrants.
pub proof fn lemma_atlas_bijection(doc: SourceDocument, sprite: Aseprite)
    requires
        doc.valid(),
        sprite.compiled_from(doc),
    ensures
        forall|i: int, j: int|
            0 <= i < j < sprite.atlas_indexes.len() ==> #[trigger] sprite.atlas_indexes[i] != #[trigger] sprite.atlas_indexes[j],
        forall|i: int|
            0 <= i < sprite.atlas_indexes.len() ==> key_position(sprite.atlas_indexes@, #[trigger] sprite.atlas_indexes[i], 0) == i,
        sprite.atlas_indexes.len() == doc.num_frames + cel_entries(doc, doc.cels.len() as int).len()
            + doc.slices.len() * doc.num_frames + ninepatch_total(doc, doc_rows(doc), doc.slices.len() as int),
{
    lemma_expected_keys_sorted(doc);
    let keys = sprite.atlas_indexes@;
    assert forall|i: int, j: int| 0 <= i < j < keys.len() implies #[trigger] keys[i] != #[trigger] keys[j] by {
        assert(key_lt(keys[i], keys[j]));
    }
    assert forall|i: int| 0 <= i < keys.len() implies key_position(keys, #[trigger] keys[i], 0) == i by {
        lemma_sorted_position(keys, i, 0);
    }
    lemma_slice_entries_len(doc, doc_rows(doc), doc.slices.len() as int);
}

/// In a compiled sprite, whole frame `f` has slot `f`.
pub proof fn lemma_frame_slot(doc: SourceDocument, sprite: Aseprite, f: int)
    requires
        doc.valid(),
        sprite.compiled_from(doc),
        0 <= f < doc.num_frames,
    ensures
        key_position(sprite.atlas_indexes@, frame_key(f), 0) == f,
{
    lemma_expected_keys_sorted(doc);
    let p = packed_entries(doc);
    assert(p[f] == frame_entries(doc)[f]);
    assert(sprite.atlas_indexes@[f] == frame_key(f));
    lemma_sorted_position(sprite.atlas_indexes@, f, 0);
}

/// With no filter at all, a compiled sprite plays every whole frame: the range
/// is `[0, num_frames)`.
pub proof fn lemma_default_range(doc: SourceDocument, sprite: Aseprite)
    requires
        doc.valid(),
        sprite.compiled_from(doc),
    ensures
        sprite.range_outcome(None, None, None, None) == RangeOutcome::Range(0, sprite.num_frames),
{
    lemma_frame_slot(doc, sprite, 0);
    lemma_frame_slot(doc, sprite, doc.num_frames - 1);
}

/// Filtering by the first tag of a given name plays the whole frames of that
/// tag: from the slot of its first frame to one past the slot of its last frame,
/// which are the frame numbers themselves.
pub proof fn lemma_tag_range(doc: SourceDocument, sprite: Aseprite, t: int)
    requires
        doc.valid(),
        sprite.compiled_from(doc),
        0 <= t < sprite.tags.len(),
        crate::assets::position_of(sprite.tag_names(), sprite.tags[t].name@, 0) == t,
    ensures
        key_position(sprite.atlas_indexes@, frame_key(sprite.tags[t].from_frame as int), 0)
            == sprite.tags[t].from_frame,
        key_position(sprite.atlas_indexes@, frame_key(sprite.tags[t].to_frame as int), 0)
            == sprite.tags[t].to_frame,
        sprite.range_outcome(None, Some(sprite.tags[t].name@), None, None) == RangeOutcome::Range(
            sprite.tags[t].from_frame,
            (sprite.tags[t].to_frame + 1) as u32,
        ),
{
    lemma_frame_slot(doc, sprite, sprite.tags[t].from_frame as int);
    lemma_frame_slot(doc, sprite, sprite.tags[t].to_frame as int);
}

} // verus!
