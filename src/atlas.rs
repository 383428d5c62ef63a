//! Atlas keys, slice and nine-patch rectangles, and the compile step that
//! builds a sprite from a source document.

use vstd::prelude::*;
use crate::assets::{Aseprite, PackedAtlas};
use crate::document::{
    ancestors, layers_acyclic, layers_error, segments_ordered, CompileError, LayerKind, Malformed, SliceSegment, SourceDocument,
};
use crate::geometry::{ninepatch_quadrant, quadrant_spec, Rect};
use crate::ordering::lemma_compiled_wf;
use crate::layers::{layer_chains, qualified_name, qualified_names, lemma_ancestors_in_range};
use crate::grid::{
    cell_rect, ceil_sqrt, grid_cell_rect, grid_rows, grid_side, lemma_cell_gap, lemma_cell_in_grid,
    lemma_ceil_sqrt_from, lemma_split_index, pack_raster, packed_raster, views,
};
use crate::raster::{cel_pixels, composite, composite_cel};

verus! {

/// The identity of one atlas slot. A whole frame has neither layer nor slice;
/// a cel has a layer; a slice rectangle has a slice; a nine-patch quadrant has
/// a slice and a quadrant number in `0..9`.
#[derive(Clone, Copy, Debug, PartialEq, Eq, Structural, Hash)]
pub struct AtlasKey {
    pub layer: Option<u32>,
    pub slice: Option<u32>,
    pub frame: u32,
    pub ninepatch: Option<u8>,
}

pub open spec fn frame_key(f: int) -> AtlasKey {
    AtlasKey { layer: None, slice: None, frame: f as u32, ninepatch: None }
}

pub open spec fn cel_key(l: int, f: int) -> AtlasKey {
    AtlasKey { layer: Some(l as u32), slice: None, frame: f as u32, ninepatch: None }
}

pub open spec fn slice_key(s: int, f: int) -> AtlasKey {
    AtlasKey { layer: None, slice: Some(s as u32), frame: f as u32, ninepatch: None }
}

pub open spec fn ninepatch_key(s: int, f: int, q: int) -> AtlasKey {
    AtlasKey { layer: None, slice: Some(s as u32), frame: f as u32, ninepatch: Some(q as u8) }
}

/// The whole frames, in frame order, each with its pixels.
pub open spec fn frame_entries(doc: SourceDocument) -> Seq<(AtlasKey, Seq<u8>)> {
    Seq::new(doc.num_frames as nat, |f: int| (frame_key(f), doc.frames[f]@))
}

/// The non-empty cels among the first `i` of `doc.cels` (layer by layer, each
/// layer's cels in frame order), each with its composited pixels.
pub open spec fn cel_entries(doc: SourceDocument, i: int) -> Seq<(AtlasKey, Seq<u8>)>
    decreases i,
{
    if i <= 0 {
        Seq::empty()
    } else {
        let prev = cel_entries(doc, i - 1);
        let k = i - 1;
        let n = doc.num_frames as int;
        match cel_pixels(doc, k) {
            Some(p) => prev.push((cel_key(k / n, k % n), composite(doc, k % n, k / n, p))),
            None => prev,
        }
    }
}

/// Everything that gets a grid cell: whole frames first, then non-empty cels.
pub open spec fn packed_entries(doc: SourceDocument) -> Seq<(AtlasKey, Seq<u8>)> {
    frame_entries(doc) + cel_entries(doc, doc.cels.len() as int)
}

pub open spec fn first_after(segs: Seq<SliceSegment>, f: int, i: int) -> int
    decreases segs.len() - i,
{
    if i >= segs.len() {
        segs.len() as int
    } else if segs[i].from_frame > f {
        i
    } else {
        first_after(segs, f, i + 1)
    }
}

/// The segment in force at frame `f`: the last one that starts at or before it.
pub open spec fn active_segment(segs: Seq<SliceSegment>, f: int) -> int {
    first_after(segs, f, 0) - 1
}

/// The rectangle of slice `s` in frame `f`: the frame's cell offset by the
/// active segment's origin and sized by its size.
pub open spec fn slice_rect(doc: SourceDocument, rows: int, s: int, f: int) -> Rect {
    let segs = doc.slices[s].segments@;
    let seg = segs[active_segment(segs, f)];
    let cell = cell_rect(f, rows, doc.width as int, doc.height as int);
    Rect {
        min_x: (cell.min_x + seg.origin_x) as i64,
        min_y: (cell.min_y + seg.origin_y) as i64,
        max_x: (cell.min_x + seg.origin_x + seg.width) as i64,
        max_y: (cell.min_y + seg.origin_y + seg.height) as i64,
    }
}

/// The nine-patch quadrants of slice `s` among the first `j` (quadrant, frame)
/// pairs, quadrant by quadrant, each quadrant's frames in order; a frame whose
/// active segment has no center box has no quadrants.
pub open spec fn ninepatch_entries(doc: SourceDocument, rows: int, s: int, j: int) -> Seq<(AtlasKey, Rect)>
    decreases j,
{
    if j <= 0 {
        Seq::empty()
    } else {
        let prev = ninepatch_entries(doc, rows, s, j - 1);
        let k = j - 1;
        let n = doc.num_frames as int;
        let segs = doc.slices[s].segments@;
        match segs[active_segment(segs, k % n)].ninepatch_center {
            Some(c) => prev.push(
                (ninepatch_key(s, k % n, k / n), quadrant_spec(slice_rect(doc, rows, s, k % n), c, k / n)),
            ),
            None => prev,
        }
    }
}

/// Slice `s` in every frame, then its nine-patch quadrants.
pub open spec fn slice_block(doc: SourceDocument, rows: int, s: int) -> Seq<(AtlasKey, Rect)> {
    Seq::new(doc.num_frames as nat, |f: int| (slice_key(s, f), slice_rect(doc, rows, s, f)))
        + ninepatch_entries(doc, rows, s, 9 * doc.num_frames)
}

/// The blocks of the first `s` slices.
pub open spec fn slice_entries(doc: SourceDocument, rows: int, s: int) -> Seq<(AtlasKey, Rect)>
    decreases s,
{
    if s <= 0 {
        Seq::empty()
    } else {
        slice_entries(doc, rows, s - 1) + slice_block(doc, rows, s - 1)
    }
}

pub open spec fn doc_rows(doc: SourceDocument) -> int {
    grid_rows(packed_entries(doc).len() as int)
}

pub open spec fn all_slice_entries(doc: SourceDocument) -> Seq<(AtlasKey, Rect)> {
    slice_entries(doc, doc_rows(doc), doc.slices.len() as int)
}

/// The key of every slot, in slot order.
pub open spec fn expected_keys(doc: SourceDocument) -> Seq<AtlasKey> {
    let p = packed_entries(doc);
    let s = all_slice_entries(doc);
    Seq::new(p.len() + s.len(), |i: int| if i < p.len() { p[i].0 } else { s[i - p.len()].0 })
}

/// The rectangle of every slot, in slot order.
pub open spec fn expected_rects(doc: SourceDocument) -> Seq<Rect> {
    let p = packed_entries(doc);
    let s = all_slice_entries(doc);
    let rows = doc_rows(doc);
    Seq::new(
        p.len() + s.len(),
        |i: int|
            if i < p.len() {
                cell_rect(i, rows, doc.width as int, doc.height as int)
            } else {
                s[i - p.len()].1
            },
    )
}

/// The pixels of the packed entries, in slot order.
pub open spec fn packed_blocks(doc: SourceDocument) -> Seq<Seq<u8>> {
    packed_entries(doc).map_values(|e: (AtlasKey, Seq<u8>)| e.1)
}

pub open spec fn atlas_width(doc: SourceDocument) -> int {
    doc_rows(doc) * (doc.width + 1)
}

pub open spec fn atlas_height(doc: SourceDocument) -> int {
    doc_rows(doc) * (doc.height + 1)
}

/// The packed raster: a transparent buffer with every packed block in its cell.
pub open spec fn expected_pixels(doc: SourceDocument) -> Seq<u8> {
    packed_raster(packed_blocks(doc), doc_rows(doc), doc.width as int, doc.height as int)
}

/// Whether the atlas of `doc` can be addressed: slots by `u32`, the raster's
/// sides by `u32`, its bytes by `usize`.
pub open spec fn atlas_fits(doc: SourceDocument) -> bool {
    &&& packed_entries(doc).len() <= u32::MAX
    &&& atlas_width(doc) <= u32::MAX
    &&& atlas_height(doc) <= u32::MAX
    &&& atlas_width(doc) * atlas_height(doc) * 4 <= usize::MAX
    &&& expected_keys(doc).len() <= u32::MAX
}

impl SourceDocument {
    /// Whether the document compiles.
    pub open spec fn valid(&self) -> bool {
        &&& self.shape_ok()
        &&& layers_acyclic(self.layers@)
        &&& atlas_fits(*self)
    }

    /// Why the document does not compile: the first shape condition it breaks,
    /// else the first broken layer chain, else an atlas too large to address.
    pub open spec fn rejection(&self) -> Option<Malformed> {
        if self.shape_error() is Some {
            self.shape_error()
        } else if layers_error(self.layers@, 0) is Some {
            layers_error(self.layers@, 0)
        } else if !atlas_fits(*self) {
            Some(Malformed::AtlasTooLarge)
        } else {
            None
        }
    }
}

impl Aseprite {
    /// Whether `self` is what compiling `doc` gives.
    pub open spec fn compiled_from(&self, doc: SourceDocument) -> bool {
        &&& self.num_frames == doc.num_frames
        &&& self.layers.len() == doc.layers.len()
        &&& forall|l: int| 0 <= l < doc.layers.len() ==> (#[trigger] self.layers[l])@ == qualified_name(doc.layers@, l)
        &&& self.tags == doc.tags
        &&& self.slices == doc.slices
        &&& self.frame_durations == doc.frame_durations
        &&& self.atlas_indexes@ == expected_keys(doc)
        &&& self.atlas.rects@ == expected_rects(doc)
        &&& self.atlas.width == atlas_width(doc)
        &&& self.atlas.height == atlas_height(doc)
        &&& self.atlas.pixels@ == expected_pixels(doc)
    }
}


/// Checks the shape conditions of a document: frame, duration and cel counts,
/// pixel block sizes, positive durations, tag bounds and slice segments.
#[verifier::loop_isolation(false)]
pub fn check_shape(doc: &SourceDocument) -> (r: Result<(), Malformed>)
    ensures
        r is Ok <==> doc.shape_ok(),
        r is Ok <==> doc.shape_error() is None,
        r is Err ==> doc.shape_error() == Some(r->Err_0),
{
    let n = doc.num_frames;
    if n == 0 {
        return Err(Malformed::NoFrames);
    }
    if doc.frames.len() != n as usize {
        return Err(Malformed::FrameCount);
    }
    if doc.layers.len() as u64 > u32::MAX as u64 {
        return Err(Malformed::TooManyLayers);
    }
    if doc.slices.len() as u64 > u32::MAX as u64 {
        return Err(Malformed::TooManySlices);
    }
    let w = doc.width as u64;
    let h = doc.height as u64;
    assert(w * h <= u64::MAX) by (nonlinear_arith)
        requires w <= u32::MAX, h <= u32::MAX;
    let block = match (w * h).checked_mul(4) {
        Some(b) => b,
        None => {
            let first_len = doc.frames[0].len();
            assert(doc.frames[0]@.len() != doc.block_len());
            assert(exists|f: int| 0 <= f < doc.frames.len() && #[trigger] doc.frames[f]@.len() != doc.block_len());
            return Err(Malformed::PixelBlockSize);
        },
    };
    let mut f: usize = 0;
    while f < doc.frames.len()
        invariant
            block == doc.block_len(),
            f <= doc.frames.len(),
            forall|k: int| 0 <= k < f ==> #[trigger] doc.frames[k]@.len() == doc.block_len(),
        decreases doc.frames.len() - f,
    {
        if doc.frames[f].len() as u64 != block {
            assert(doc.frames[f as int]@.len() != doc.block_len());
            return Err(Malformed::PixelBlockSize);
        }
        f = f + 1;
    }
    if doc.frame_durations.len() != n as usize {
        return Err(Malformed::FrameCount);
    }
    let mut f: usize = 0;
    while f < doc.frame_durations.len()
        invariant
            f <= doc.frame_durations.len(),
            forall|k: int| 0 <= k < f ==> #[trigger] doc.frame_durations[k] > 0,
        decreases doc.frame_durations.len() - f,
    {
        if doc.frame_durations[f] == 0 {
            assert(doc.frame_durations[f as int] == 0);
            return Err(Malformed::ZeroDuration);
        }
        f = f + 1;
    }
    match (doc.layers.len() as u64).checked_mul(n as u64) {
        Some(c) => {
            if doc.cels.len() as u64 != c {
                return Err(Malformed::CelCount);
            }
        },
        None => {
            return Err(Malformed::CelCount);
        },
    }
    let mut i: usize = 0;
    while i < doc.cels.len()
        invariant
            block == doc.block_len(),
            i <= doc.cels.len(),
            forall|k: int| 0 <= k < i && #[trigger] doc.cels[k] is Some ==> doc.cels[k]->Some_0@.len() == doc.block_len(),
        decreases doc.cels.len() - i,
    {
        if let Some(p) = &doc.cels[i] {
            if p.len() as u64 != block {
                assert(doc.cels[i as int] is Some && doc.cels[i as int]->Some_0@.len() != doc.block_len());
                return Err(Malformed::PixelBlockSize);
            }
        }
        i = i + 1;
    }
    let mut t: usize = 0;
    while t < doc.tags.len()
        invariant
            t <= doc.tags.len(),
            forall|k: int| 0 <= k < t ==> #[trigger] doc.tags[k].from_frame <= doc.tags[k].to_frame
                && doc.tags[k].to_frame < doc.num_frames,
        decreases doc.tags.len() - t,
    {
        if doc.tags[t].from_frame > doc.tags[t].to_frame || doc.tags[t].to_frame >= n {
            assert(!(doc.tags[t as int].from_frame <= doc.tags[t as int].to_frame
                && doc.tags[t as int].to_frame < doc.num_frames));
            return Err(Malformed::TagBounds);
        }
        t = t + 1;
    }
    let mut s: usize = 0;
    while s < doc.slices.len()
        invariant
            s <= doc.slices.len(),
            forall|k: int| 0 <= k < s ==> segments_ordered(#[trigger] doc.slices[k].segments@),
        decreases doc.slices.len() - s,
    {
        let segs = &doc.slices[s].segments;
        if segs.len() == 0 || segs[0].from_frame != 0 {
            assert(!segments_ordered(doc.slices[s as int].segments@));
            return Err(Malformed::SliceKeys);
        }
        let mut k: usize = 0;
        while k + 1 < segs.len()
            invariant
                s < doc.slices.len(),
                segs@ == doc.slices[s as int].segments@,
                segs.len() > 0,
                k < segs.len(),
                forall|m: int| 0 <= m < k ==> #[trigger] segs[m].from_frame <= segs[m + 1].from_frame,
            decreases segs.len() - k,
        {
            if segs[k].from_frame > segs[k + 1].from_frame {
                assert(!segments_ordered(doc.slices[s as int].segments@));
                return Err(Malformed::SliceKeys);
            }
            k = k + 1;
        }
        s = s + 1;
    }
    Ok(())
}


/// The index of the segment in force at frame `f`.
pub(crate) fn find_segment(segs: &Vec<SliceSegment>, f: u64) -> (r: usize)
    requires
        segments_ordered(segs@),
    ensures
        r as int == active_segment(segs@, f as int),
        r < segs.len(),
{
    let mut i: usize = 0;
    while i < segs.len() && segs[i].from_frame as u64 <= f
        invariant
            i <= segs.len(),
            segs.len() > 0,
            segs[0].from_frame == 0,
            first_after(segs@, f as int, i as int) == first_after(segs@, f as int, 0),
        decreases segs.len() - i,
    {
        i = i + 1;
    }
    i - 1
}

/// `cell` offset by the segment's origin and sized by its size.
fn segment_rect(cell: Rect, seg: &SliceSegment) -> (r: Rect)
    requires
        0 <= cell.min_x <= u32::MAX,
        0 <= cell.min_y <= u32::MAX,
    ensures
        r == (Rect {
            min_x: (cell.min_x + seg.origin_x) as i64,
            min_y: (cell.min_y + seg.origin_y) as i64,
            max_x: (cell.min_x + seg.origin_x + seg.width) as i64,
            max_y: (cell.min_y + seg.origin_y + seg.height) as i64,
        }),
{
    let x = cell.min_x + seg.origin_x as i64;
    let y = cell.min_y + seg.origin_y as i64;
    Rect { min_x: x, min_y: y, max_x: x + seg.width as i64, max_y: y + seg.height as i64 }
}


/// The keys of all packed entries (whole frames, then non-empty cels), and the
/// composited pixels of the cels.
#[verifier::loop_isolation(false)]
fn pack_entries(doc: &SourceDocument, chains: &Vec<Vec<u32>>) -> (r: (Vec<AtlasKey>, Vec<Vec<u8>>))
    requires
        doc.shape_ok(),
        chains.len() == doc.layers.len(),
        forall|l: int| 0 <= l < doc.layers.len()
            ==> (#[trigger] chains[l])@ == ancestors(doc.layers@, l, doc.layers.len() as nat),
    ensures
        r.0.len() == packed_entries(*doc).len(),
        forall|j: int| 0 <= j < r.0.len() ==> #[trigger] r.0[j] == packed_entries(*doc)[j].0,
        r.1.len() == cel_entries(*doc, doc.cels.len() as int).len(),
        forall|j: int| 0 <= j < r.1.len() ==> (#[trigger] r.1[j])@ == cel_entries(*doc, doc.cels.len() as int)[j].1,
        forall|j: int| 0 <= j < r.1.len() ==> (#[trigger] r.1[j])@.len() == doc.block_len(),
{
    let n = doc.num_frames as usize;
    let mut keys: Vec<AtlasKey> = Vec::new();
    let mut f: usize = 0;
    while f < n
        invariant
            f <= n,
            keys.len() == f,
            forall|j: int| 0 <= j < f ==> #[trigger] keys[j] == frame_key(j),
        decreases n - f,
    {
        keys.push(AtlasKey { layer: None, slice: None, frame: f as u32, ninepatch: None });
        f = f + 1;
    }
    let mut blocks: Vec<Vec<u8>> = Vec::new();
    let mut i: usize = 0;
    while i < doc.cels.len()
        invariant
            i <= doc.cels.len(),
            keys.len() == n + blocks.len(),
            blocks.len() == cel_entries(*doc, i as int).len(),
            forall|j: int| 0 <= j < n ==> #[trigger] keys[j] == frame_key(j),
            forall|j: int| 0 <= j < blocks.len() ==> #[trigger] keys[n + j] == cel_entries(*doc, i as int)[j].0,
            forall|j: int| 0 <= j < blocks.len() ==> (#[trigger] blocks[j])@ == cel_entries(*doc, i as int)[j].1,
            forall|j: int| 0 <= j < blocks.len() ==> (#[trigger] blocks[j])@.len() == doc.block_len(),
        decreases doc.cels.len() - i,
    {
        proof {
            lemma_split_index(i as int, n as int, doc.layers.len() as int);
        }
        let l = i / n;
        let f = i % n;
        if doc.layers[l].kind != LayerKind::Group && doc.cels[i].is_some() {
            proof {
                lemma_ancestors_in_range(doc.layers@, l as int, doc.layers.len() as nat);
            }
            let pixels = composite_cel(doc, f, l, &chains[l]);
            keys.push(AtlasKey { layer: Some(l as u32), slice: None, frame: f as u32, ninepatch: None });
            blocks.push(pixels);
        }
        i = i + 1;
    }
    proof {
        let p = packed_entries(*doc);
        assert forall|j: int| 0 <= j < keys.len() implies #[trigger] keys[j] == p[j].0 by {
            if j >= n {
                assert(keys[n + (j - n)] == cel_entries(*doc, doc.cels.len() as int)[j - n].0);
            }
        }
    }
    (keys, blocks)
}


/// `k` and `r` are `old_k` and `old_r` with the keys and rectangles of `e` appended.
pub open spec fn appended(
    old_k: Seq<AtlasKey>,
    old_r: Seq<Rect>,
    k: Seq<AtlasKey>,
    r: Seq<Rect>,
    e: Seq<(AtlasKey, Rect)>,
) -> bool {
    &&& old_k.len() == old_r.len()
    &&& k.len() == old_k.len() + e.len()
    &&& r.len() == old_r.len() + e.len()
    &&& forall|j: int| 0 <= j < old_k.len() ==> #[trigger] k[j] == old_k[j] && r[j] == old_r[j]
    &&& forall|j: int| 0 <= j < e.len() ==> k[old_k.len() + j] == (#[trigger] e[j]).0 && r[old_k.len() + j] == e[j].1
}

pub proof fn lemma_appended_push(
    old_k: Seq<AtlasKey>,
    old_r: Seq<Rect>,
    k: Seq<AtlasKey>,
    r: Seq<Rect>,
    e: Seq<(AtlasKey, Rect)>,
    key: AtlasKey,
    rect: Rect,
)
    requires
        appended(old_k, old_r, k, r, e),
    ensures
        appended(old_k, old_r, k.push(key), r.push(rect), e.push((key, rect))),
{
    let e2 = e.push((key, rect));
    let k2 = k.push(key);
    let r2 = r.push(rect);
    assert forall|j: int| 0 <= j < old_k.len() implies #[trigger] k2[j] == old_k[j] && r2[j] == old_r[j] by {
        assert(k2[j] == k[j] && r2[j] == r[j]);
    }
    assert forall|j: int| 0 <= j < e2.len() implies k2[old_k.len() + j] == (#[trigger] e2[j]).0
        && r2[old_k.len() + j] == e2[j].1 by {
        if j < e.len() {
            assert(e2[j] == e[j]);
            assert(k2[old_k.len() + j] == k[old_k.len() + j]);
            assert(r2[old_k.len() + j] == r[old_k.len() + j]);
        } else {
            assert(old_k.len() + j == k.len());
        }
    }
}

/// Appends the rectangle of every slice in every frame, and their nine-patch
/// quadrants, slice by slice.
#[verifier::loop_isolation(false)]
fn slice_table(doc: &SourceDocument, rows: u64, keys: &mut Vec<AtlasKey>, rects: &mut Vec<Rect>)
    requires
        doc.shape_ok(),
        rows as int == doc_rows(*doc),
        (doc.num_frames as int) < rows * rows,
        rows * (doc.width + 1) <= u32::MAX,
        rows * (doc.height + 1) <= u32::MAX,
        old(keys).len() == old(rects).len(),
    ensures
        appended(old(keys)@, old(rects)@, final(keys)@, final(rects)@, all_slice_entries(*doc)),
{
    let n = doc.num_frames as u64;
    let ghost k0 = keys@;
    let ghost r0 = rects@;
    let ghost rws = rows as int;
    let mut s: usize = 0;
    while s < doc.slices.len()
        invariant
            s <= doc.slices.len(),
            appended(k0, r0, keys@, rects@, slice_entries(*doc, rws, s as int)),
        decreases doc.slices.len() - s,
    {
        let segs = &doc.slices[s].segments;
        let ghost e = slice_entries(*doc, rws, s as int);
        let mut f: u64 = 0;
        while f < n
            invariant
                f <= n,
                segs@ == doc.slices[s as int].segments@,
                appended(k0, r0, keys@, rects@, e),
                e == slice_entries(*doc, rws, s as int) + Seq::new(
                    f as nat,
                    |g: int| (slice_key(s as int, g), slice_rect(*doc, rws, s as int, g)),
                ),
            decreases n - f,
        {
            let cell = grid_cell_rect(f, rows, doc.width, doc.height);
            let seg = find_segment(segs, f);
            let rect = segment_rect(cell, &segs[seg]);
            let ghost kb = keys@;
            let ghost rb = rects@;
            keys.push(AtlasKey { layer: None, slice: Some(s as u32), frame: f as u32, ninepatch: None });
            rects.push(rect);
            proof {
                lemma_appended_push(k0, r0, kb, rb, e, keys@.last(), rect);
                e = e.push((slice_key(s as int, f as int), rect));
                assert(e =~= slice_entries(*doc, rws, s as int) + Seq::new(
                    (f + 1) as nat,
                    |g: int| (slice_key(s as int, g), slice_rect(*doc, rws, s as int, g)),
                ));
            }
            f = f + 1;
        }
        let ghost plain = Seq::new(
            n as nat,
            |g: int| (slice_key(s as int, g), slice_rect(*doc, rws, s as int, g)),
        );
        let mut j: u64 = 0;
        while j < 9 * n
            invariant
                j <= 9 * n,
                segs@ == doc.slices[s as int].segments@,
                appended(k0, r0, keys@, rects@, e),
                e == slice_entries(*doc, rws, s as int) + plain + ninepatch_entries(*doc, rws, s as int, j as int),
            decreases 9 * n - j,
        {
            proof {
                lemma_split_index(j as int, n as int, 9);
            }
            let q = j / n;
            let f = j % n;
            let seg = find_segment(segs, f);
            if let Some(c) = segs[seg].ninepatch_center {
                let cell = grid_cell_rect(f, rows, doc.width, doc.height);
                let rect = ninepatch_quadrant(segment_rect(cell, &segs[seg]), c, q as u8);
                let ghost kb = keys@;
                let ghost rb = rects@;
                keys.push(AtlasKey { layer: None, slice: Some(s as u32), frame: f as u32, ninepatch: Some(q as u8) });
                rects.push(rect);
                proof {
                    lemma_appended_push(k0, r0, kb, rb, e, keys@.last(), rect);
                    e = e.push((ninepatch_key(s as int, f as int, q as int), rect));
                    assert(e =~= slice_entries(*doc, rws, s as int) + plain + ninepatch_entries(
                        *doc,
                        rws,
                        s as int,
                        j + 1,
                    ));
                }
            } else {
                assert(e =~= slice_entries(*doc, rws, s as int) + plain + ninepatch_entries(
                    *doc,
                    rws,
                    s as int,
                    j + 1,
                ));
            }
            j = j + 1;
        }
        assert(e =~= slice_entries(*doc, rws, s + 1));
        s = s + 1;
    }
}


/// Compiles a source document into a sprite: qualified layer names, the packed
/// atlas with one grid cell per whole frame and per non-empty cel, a slice
/// rectangle per slice and frame, the nine-patch quadrants, and the key of every
/// slot. Fails, publishing nothing, exactly when the document is malformed.
///
/// Slots come in this order: whole frames; then the non-empty cels layer by
/// layer, each layer's cels in frame order; then, slice by slice, the slice
/// rectangles in frame order followed by its quadrants, quadrant by quadrant in
/// frame order. Keeping each layer's cels consecutive is what lets a layer
/// filter resolve to one contiguous range of slots, and lets playback look up a
/// slot's duration by its offset from the range's start.
#[verifier::loop_isolation(false)]
pub fn compile_sprite(doc: SourceDocument) -> (r: Result<Aseprite, CompileError>)
    ensures
        r is Ok <==> doc.valid(),
        doc.valid() <==> doc.rejection() is None,
        r is Err ==> r->Err_0 == (CompileError::MalformedSource { detail: doc.rejection()->Some_0 }),
        r is Ok ==> r->Ok_0.compiled_from(doc),
        r is Ok ==> r->Ok_0.wf(),
{
    if let Err(e) = check_shape(&doc) {
        return Err(CompileError::MalformedSource { detail: e });
    }
    let chains = match layer_chains(&doc.layers) {
        Ok(c) => c,
        Err(e) => {
            return Err(CompileError::MalformedSource { detail: e });
        },
    };
    let (mut keys, blocks) = pack_entries(&doc, &chains);
    let count = keys.len();
    if count as u64 > u32::MAX as u64 {
        return Err(CompileError::MalformedSource { detail: Malformed::AtlasTooLarge });
    }
    let side = grid_side(count as u64);
    let rows = side + 1;
    proof {
        lemma_ceil_sqrt_from(count as int, 0);
        assert(count < rows * rows) by (nonlinear_arith)
            requires side * side >= count, rows == side + 1, side >= 0;
    }
    assert(rows * (doc.width as u64 + 1) <= 65537 * 4294967296u64) by (nonlinear_arith)
        requires rows <= 65537, doc.width <= u32::MAX;
    assert(rows * (doc.height as u64 + 1) <= 65537 * 4294967296u64) by (nonlinear_arith)
        requires rows <= 65537, doc.height <= u32::MAX;
    let bw64 = rows * (doc.width as u64 + 1);
    let bh64 = rows * (doc.height as u64 + 1);
    if bw64 > u32::MAX as u64 || bh64 > u32::MAX as u64 {
        return Err(CompileError::MalformedSource { detail: Malformed::AtlasTooLarge });
    }
    assert(bw64 * bh64 <= u64::MAX) by (nonlinear_arith)
        requires bw64 <= u32::MAX, bh64 <= u32::MAX;
    let total = match (bw64 * bh64).checked_mul(4) {
        Some(t) => t,
        None => {
            return Err(CompileError::MalformedSource { detail: Malformed::AtlasTooLarge });
        },
    };
    if total > usize::MAX as u64 {
        return Err(CompileError::MalformedSource { detail: Malformed::AtlasTooLarge });
    }
    let bw = bw64 as u32;
    let bh = bh64 as u32;
    let mut rects: Vec<Rect> = Vec::new();
    let mut s: usize = 0;
    while s < count
        invariant
            s <= count,
            rects.len() == s,
            forall|j: int| 0 <= j < s ==> #[trigger] rects[j] == cell_rect(j, rows as int, doc.width as int, doc.height as int),
        decreases count - s,
    {
        rects.push(grid_cell_rect(s as u64, rows, doc.width, doc.height));
        s = s + 1;
    }
    let ghost packed_keys = keys@;
    let ghost packed_rects = rects@;
    slice_table(&doc, rows, &mut keys, &mut rects);
    if keys.len() as u64 > u32::MAX as u64 {
        proof {
            assert(expected_keys(doc).len() == keys.len());
        }
        return Err(CompileError::MalformedSource { detail: Malformed::AtlasTooLarge });
    }
    proof {
        assert(views(doc.frames@) + views(blocks@) =~= packed_blocks(doc));
        assert(bw64 * bh64 * 4 == rows * (doc.width + 1) * rows * (doc.height + 1) * 4) by (nonlinear_arith)
            requires bw64 == rows * (doc.width + 1), bh64 == rows * (doc.height + 1);
    }
    let pixels = pack_raster(&doc.frames, &blocks, rows, doc.width, doc.height);
    let names = qualified_names(&doc.layers, &chains);
    proof {
        let p = packed_entries(doc);
        let se = all_slice_entries(doc);
        assert forall|j: int| 0 <= j < keys.len() implies #[trigger] keys@[j] == expected_keys(doc)[j] by {
            if j >= p.len() {
                assert(se[j - p.len()] == se[j - p.len()]);
                assert(keys@[packed_keys.len() + (j - p.len())] == se[j - p.len()].0);
            }
        }
        assert forall|j: int| 0 <= j < rects.len() implies #[trigger] rects@[j] == expected_rects(doc)[j] by {
            if j >= p.len() {
                assert(se[j - p.len()] == se[j - p.len()]);
                assert(rects@[packed_keys.len() + (j - p.len())] == se[j - p.len()].1);
            } else {
                assert(keys@[j] == packed_keys[j]);
                assert(rects@[j] == packed_rects[j]);
                assert(rows as int == doc_rows(doc));
            }
        }
        assert(keys@ =~= expected_keys(doc));
        assert(rects@ =~= expected_rects(doc));
    }
    let SourceDocument { tags, slices, frame_durations, num_frames, .. } = doc;
    let sprite = Aseprite {
        layers: names,
        tags,
        slices,
        frame_durations,
        num_frames,
        atlas_indexes: keys,
        atlas: PackedAtlas { width: bw, height: bh, pixels, rects },
    };
    proof {
        lemma_compiled_wf(doc, sprite);
    }
    Ok(sprite)
}


/// The grid cells of a compiled sprite lie inside its raster, and the cells of
/// two different packed slots share no pixel.
pub proof fn lemma_cells_disjoint(doc: SourceDocument, sprite: Aseprite)
    requires
        doc.valid(),
        sprite.compiled_from(doc),
    ensures
        forall|i: int, x: int, y: int|
            0 <= i < packed_entries(doc).len() && #[trigger] sprite.atlas.rects[i].contains(x, y)
                ==> 0 <= x < sprite.atlas.width && 0 <= y < sprite.atlas.height,
        forall|i: int, j: int, x: int, y: int|
            0 <= i < packed_entries(doc).len() && 0 <= j < packed_entries(doc).len() && i != j
                && #[trigger] sprite.atlas.rects[i].contains(x, y) ==> !#[trigger] sprite.atlas.rects[j].contains(x, y),
{
    let count = packed_entries(doc).len() as int;
    let rows = doc_rows(doc);
    let w = doc.width as int;
    let h = doc.height as int;
    lemma_ceil_sqrt_from(count, 0);
    let side = ceil_sqrt(count);
    assert(count < rows * rows) by (nonlinear_arith)
        requires side * side >= count, rows == side + 1, side >= 0;
    assert forall|i: int, x: int, y: int|
        0 <= i < count && #[trigger] sprite.atlas.rects[i].contains(x, y)
            implies 0 <= x < sprite.atlas.width && 0 <= y < sprite.atlas.height by {
        lemma_cell_in_grid(i, rows, w, h);
        assert(sprite.atlas.rects[i] == cell_rect(i, rows, w, h));
    }
    assert forall|i: int, j: int, x: int, y: int|
        0 <= i < count && 0 <= j < count && i != j && #[trigger] sprite.atlas.rects[i].contains(x, y)
            implies !#[trigger] sprite.atlas.rects[j].contains(x, y) by {
        lemma_cell_in_grid(i, rows, w, h);
        lemma_cell_in_grid(j, rows, w, h);
        lemma_split_index(i, rows, rows);
        lemma_split_index(j, rows, rows);
        assert(sprite.atlas.rects[i] == cell_rect(i, rows, w, h));
        assert(sprite.atlas.rects[j] == cell_rect(j, rows, w, h));
        let (ci, ri, cj, rj) = (i % rows, i / rows, j % rows, j / rows);
        if ci < cj {
            lemma_cell_gap(ci, cj, w);
        } else if cj < ci {
            lemma_cell_gap(cj, ci, w);
        } else if ri < rj {
            lemma_cell_gap(ri, rj, h);
        } else if rj < ri {
            lemma_cell_gap(rj, ri, h);
        }
    }
}

/// Compiling is a function of the document: two compiles of the same document
/// give byte-identical rasters, identical key tables and identical rectangles.
pub proof fn lemma_compile_deterministic(doc: SourceDocument, a: Aseprite, b: Aseprite)
    requires
        a.compiled_from(doc),
        b.compiled_from(doc),
    ensures
        a.atlas.pixels@ == b.atlas.pixels@,
        a.atlas_indexes@ == b.atlas_indexes@,
        a.atlas.rects@ == b.atlas.rects@,
{
}

} // verus!
