//! The compiled sprite: layer names, tags, slices, frame durations, the atlas
//! key table and the packed atlas, with lookups by name and range resolution.

use vstd::prelude::*;
use crate::atlas::{active_segment, find_segment, AtlasKey};
use crate::document::{segments_ordered, Slice, SliceSegment, Tag};
use crate::geometry::Rect;
use crate::ordering::{key_lt, keys_sorted, same_track};

verus! {

/// The packed raster (RGBA, row-major, `width` by `height` pixels) and the
/// rectangle of every atlas slot, indexed by slot.
#[derive(Debug)]
pub struct PackedAtlas {
    pub width: u32,
    pub height: u32,
    pub pixels: Vec<u8>,
    pub rects: Vec<Rect>,
}

/// A compiled sprite. `atlas_indexes[i]` is the key of slot `i`: the table is
/// the key-to-slot map, read backwards.
#[derive(Debug)]
pub struct Aseprite {
    pub layers: Vec<String>,
    pub tags: Vec<Tag>,
    pub slices: Vec<Slice>,
    pub frame_durations: Vec<u64>,
    pub num_frames: u32,
    pub atlas_indexes: Vec<AtlasKey>,
    pub atlas: PackedAtlas,
}


/// The kinds of named resources that a lookup can miss.
#[derive(Clone, Copy, Debug, PartialEq, Eq, Structural)]
pub enum ResourceKind {
    Layer,
    Tag,
    Slice,
    /// The nine-patch split of the named slice: the slice has no center box in
    /// force at a frame that the filter asks for.
    Ninepatch,
}

/// Filter combinations that have no range.
#[derive(Clone, Copy, Debug, PartialEq, Eq, Structural)]
pub enum FilterConflict {
    /// A nine-patch quadrant was asked for without a slice.
    NinepatchWithoutSlice,
    /// A layer and a slice were asked for together.
    LayerWithSlice,
}

/// Why a lookup or a range resolution failed.
#[derive(Clone, Debug)]
pub enum RangeError {
    UnsupportedFilterCombination { reason: FilterConflict },
    NotFound { kind: ResourceKind, name: String },
    /// The names resolved, but the atlas has no slot for this key: the layer's
    /// cel is empty at the first or last frame of the range.
    NoAtlasEntry { key: AtlasKey },
}

/// The spec-level outcome of a range resolution.
pub enum RangeOutcome {
    Range(u32, u32),
    Conflict(FilterConflict),
    Missing(ResourceKind, Seq<char>),
    NoEntry(AtlasKey),
}

/// The first position at or after `i` that holds `name`, or -1.
pub open spec fn position_of(names: Seq<Seq<char>>, name: Seq<char>, i: int) -> int
    decreases names.len() - i,
{
    if i < 0 || i >= names.len() {
        -1
    } else if names[i] == name {
        i
    } else {
        position_of(names, name, i + 1)
    }
}

/// The first slot holding `key`, or -1.
pub open spec fn key_position(keys: Seq<AtlasKey>, key: AtlasKey, i: int) -> int
    decreases keys.len() - i,
{
    if i < 0 || i >= keys.len() {
        -1
    } else if keys[i] == key {
        i
    } else {
        key_position(keys, key, i + 1)
    }
}

pub proof fn lemma_position_of(names: Seq<Seq<char>>, name: Seq<char>, i: int)
    requires
        0 <= i,
    ensures
        position_of(names, name, i) == -1 || (i <= position_of(names, name, i) < names.len()
            && names[position_of(names, name, i)] == name),
        position_of(names, name, i) == -1 ==> forall|j: int| i <= j < names.len() ==> names[j] != name,
        forall|j: int| i <= j < position_of(names, name, i) ==> names[j] != name,
    decreases names.len() - i,
{
    if i < names.len() && names[i] != name {
        lemma_position_of(names, name, i + 1);
    }
}

pub proof fn lemma_key_position(keys: Seq<AtlasKey>, key: AtlasKey, i: int)
    requires
        0 <= i,
    ensures
        key_position(keys, key, i) == -1 || (i <= key_position(keys, key, i) < keys.len()
            && keys[key_position(keys, key, i)] == key),
        key_position(keys, key, i) == -1 ==> forall|j: int| i <= j < keys.len() ==> keys[j] != key,
        forall|j: int| i <= j < key_position(keys, key, i) ==> keys[j] != key,
    decreases keys.len() - i,
{
    if i < keys.len() && keys[i] != key {
        lemma_key_position(keys, key, i + 1);
    }
}

pub open spec fn opt_view(o: Option<&str>) -> Option<Seq<char>> {
    match o {
        Some(s) => Some(s@),
        None => None,
    }
}

pub open spec fn is_not_found(e: RangeError, kind: ResourceKind, name: Seq<char>) -> bool {
    match e {
        RangeError::NotFound { kind: k, name: n } => k == kind && n@ == name,
        _ => false,
    }
}

/// Whether `e` is the error that the spec-level outcome `o` names.
pub open spec fn error_matches(e: RangeError, o: RangeOutcome) -> bool {
    match o {
        RangeOutcome::Range(_, _) => false,
        RangeOutcome::Conflict(c) => e == (RangeError::UnsupportedFilterCombination { reason: c }),
        RangeOutcome::Missing(k, n) => is_not_found(e, k, n),
        RangeOutcome::NoEntry(key) => e == (RangeError::NoAtlasEntry { key }),
    }
}

/// Whether an executable result is the spec-level outcome `o`.
pub open spec fn outcome_matches(r: Result<core::ops::Range<u32>, RangeError>, o: RangeOutcome) -> bool {
    match o {
        RangeOutcome::Range(s, e) => r is Ok && r->Ok_0.start == s && r->Ok_0.end == e,
        _ => r is Err && error_matches(r->Err_0, o),
    }
}

/// In a sorted table, the keys from slot `i1` to slot `i2` of one track climb by
/// at least one frame per slot.
pub proof fn lemma_frames_climb(keys: Seq<AtlasKey>, i1: int, i2: int, d: int)
    requires
        keys_sorted(keys),
        0 <= i1 <= i2 < keys.len(),
        same_track(keys[i1], keys[i2]),
        0 <= d <= i2 - i1,
    ensures
        same_track(keys[i1 + d], keys[i1]),
        keys[i1 + d].frame >= keys[i1].frame + d,
    decreases d,
{
    if d > 0 {
        lemma_frames_climb(keys, i1, i2, d - 1);
        assert(key_lt(keys[i1 + d - 1], keys[i1 + d]));
        if i1 + d < i2 {
            assert(key_lt(keys[i1 + d], keys[i2]));
        }
    }
}

/// Two keys of one track, the first at an earlier or equal frame, stand in that
/// order in a sorted table, no more slots apart than frames apart.
pub proof fn lemma_track_span(keys: Seq<AtlasKey>, i1: int, i2: int)
    requires
        keys_sorted(keys),
        0 <= i1 < keys.len(),
        0 <= i2 < keys.len(),
        same_track(keys[i1], keys[i2]),
        keys[i1].frame <= keys[i2].frame,
    ensures
        i1 <= i2,
        i2 - i1 <= keys[i2].frame - keys[i1].frame,
{
    if i2 < i1 {
        assert(key_lt(keys[i2], keys[i1]));
    } else {
        lemma_frames_climb(keys, i1, i2, i2 - i1);
    }
}

impl Aseprite {
    /// The invariant of a compiled sprite.
    pub open spec fn wf(&self) -> bool {
        &&& self.num_frames > 0
        &&& self.frame_durations.len() == self.num_frames
        &&& forall|f: int| 0 <= f < self.frame_durations.len() ==> #[trigger] self.frame_durations[f] > 0
        &&& forall|t: int| 0 <= t < self.tags.len()
            ==> #[trigger] self.tags[t].from_frame <= self.tags[t].to_frame
                && self.tags[t].to_frame < self.num_frames
        &&& forall|s: int| 0 <= s < self.slices.len() ==> segments_ordered(#[trigger] self.slices[s].segments@)
        &&& self.layers.len() <= u32::MAX
        &&& self.slices.len() <= u32::MAX
        &&& self.atlas_indexes.len() <= u32::MAX
        &&& keys_sorted(self.atlas_indexes@)
    }

    pub open spec fn layer_names(&self) -> Seq<Seq<char>> {
        self.layers@.map_values(|s: String| s@)
    }

    pub open spec fn tag_names(&self) -> Seq<Seq<char>> {
        self.tags@.map_values(|t: Tag| t.name@)
    }

    pub open spec fn slice_names(&self) -> Seq<Seq<char>> {
        self.slices@.map_values(|s: Slice| s.name@)
    }

    /// The index of the first layer whose qualified name is `name`.
    pub fn layer_id(&self, name: &str) -> (r: Result<u32, RangeError>)
        requires
            self.wf(),
        ensures
            position_of(self.layer_names(), name@, 0) == -1 ==> r is Err && is_not_found(r->Err_0, ResourceKind::Layer, name@),
            position_of(self.layer_names(), name@, 0) != -1 ==> r == Ok::<u32, RangeError>(position_of(self.layer_names(), name@, 0) as u32),
    {
        let target = name.to_owned();
        let mut i: usize = 0;
        while i < self.layers.len()
            invariant
                i <= self.layers.len(),
                target@ == name@,
                position_of(self.layer_names(), name@, i as int) == position_of(self.layer_names(), name@, 0),
            decreases self.layers.len() - i,
        {
            if self.layers[i] == target {
                return Ok(i as u32);
            }
            i = i + 1;
        }
        Err(RangeError::NotFound { kind: ResourceKind::Layer, name: target })
    }

    fn tag_position(&self, name: &str) -> (r: Option<usize>)
        ensures
            position_of(self.tag_names(), name@, 0) == -1 ==> r is None,
            position_of(self.tag_names(), name@, 0) != -1 ==> r == Some(position_of(self.tag_names(), name@, 0) as usize),
    {
        let target = name.to_owned();
        let mut i: usize = 0;
        while i < self.tags.len()
            invariant
                i <= self.tags.len(),
                target@ == name@,
                position_of(self.tag_names(), name@, i as int) == position_of(self.tag_names(), name@, 0),
            decreases self.tags.len() - i,
        {
            if self.tags[i].name == target {
                return Some(i);
            }
            i = i + 1;
        }
        None
    }

    /// The first tag named `name`.
    pub fn tag(&self, name: &str) -> (r: Result<&Tag, RangeError>)
        requires
            self.wf(),
        ensures
            position_of(self.tag_names(), name@, 0) == -1 ==> r is Err && is_not_found(r->Err_0, ResourceKind::Tag, name@),
            position_of(self.tag_names(), name@, 0) != -1 ==> r is Ok && *r->Ok_0 == self.tags[position_of(self.tag_names(), name@, 0)],
    {
        proof {
            lemma_position_of(self.tag_names(), name@, 0);
        }
        match self.tag_position(name) {
            Some(i) => {
                assert(self.tag_names().len() == self.tags.len());
                assert(i as int == position_of(self.tag_names(), name@, 0));
                Ok(&self.tags[i])
            },
            None => Err(RangeError::NotFound { kind: ResourceKind::Tag, name: name.to_owned() }),
        }
    }

    /// The index of the first slice named `name`.
    pub fn slice_id(&self, name: &str) -> (r: Result<u32, RangeError>)
        requires
            self.wf(),
        ensures
            position_of(self.slice_names(), name@, 0) == -1 ==> r is Err && is_not_found(r->Err_0, ResourceKind::Slice, name@),
            position_of(self.slice_names(), name@, 0) != -1 ==> r == Ok::<u32, RangeError>(position_of(self.slice_names(), name@, 0) as u32),
    {
        let target = name.to_owned();
        let mut i: usize = 0;
        while i < self.slices.len()
            invariant
                i <= self.slices.len(),
                target@ == name@,
                position_of(self.slice_names(), name@, i as int) == position_of(self.slice_names(), name@, 0),
            decreases self.slices.len() - i,
        {
            if self.slices[i].name == target {
                return Ok(i as u32);
            }
            i = i + 1;
        }
        Err(RangeError::NotFound { kind: ResourceKind::Slice, name: target })
    }

    /// The segment of the first slice named `name` that is in force at `frame`.
    pub fn slice(&self, name: &str, frame: usize) -> (r: Result<&SliceSegment, RangeError>)
        requires
            self.wf(),
        ensures
            position_of(self.slice_names(), name@, 0) == -1 ==> r is Err && is_not_found(r->Err_0, ResourceKind::Slice, name@),
            position_of(self.slice_names(), name@, 0) != -1 ==> r is Ok && {
                let segs = self.slices[position_of(self.slice_names(), name@, 0)].segments@;
                *r->Ok_0 == segs[active_segment(segs, frame as int)]
            },
    {
        proof {
            lemma_position_of(self.slice_names(), name@, 0);
        }
        match self.slice_id(name) {
            Ok(s) => {
                let segs = &self.slices[s as usize].segments;
                let k = find_segment(segs, frame as u64);
                Ok(&segs[k])
            },
            Err(e) => Err(e),
        }
    }

    /// How long frame `frame` is shown.
    pub fn frame_duration(&self, frame: usize) -> (r: u64)
        requires
            frame < self.frame_durations.len(),
        ensures
            r == self.frame_durations[frame as int],
    {
        self.frame_durations[frame]
    }

    /// The frame bounds that a tag filter (or its absence) selects.
    pub open spec fn frame_bounds(&self, tag: Option<Seq<char>>) -> (u32, u32) {
        match tag {
            Some(t) => {
                let i = position_of(self.tag_names(), t, 0);
                (self.tags[i].from_frame, self.tags[i].to_frame)
            },
            None => (0u32, (self.num_frames - 1) as u32),
        }
    }

    /// What resolving a filter gives: conflicts first, then unknown names (tag,
    /// layer, slice), then the slots of the first and last frame's keys. A
    /// nine-patch quadrant without a slot at either end is a missing nine-patch
    /// of the named slice.
    pub open spec fn range_outcome(
        &self,
        layer: Option<Seq<char>>,
        tag: Option<Seq<char>>,
        slice: Option<Seq<char>>,
        ninepatch: Option<u8>,
    ) -> RangeOutcome {
        if ninepatch is Some && slice is None {
            RangeOutcome::Conflict(FilterConflict::NinepatchWithoutSlice)
        } else if slice is Some && layer is Some {
            RangeOutcome::Conflict(FilterConflict::LayerWithSlice)
        } else if tag is Some && position_of(self.tag_names(), tag->Some_0, 0) == -1 {
            RangeOutcome::Missing(ResourceKind::Tag, tag->Some_0)
        } else if layer is Some && position_of(self.layer_names(), layer->Some_0, 0) == -1 {
            RangeOutcome::Missing(ResourceKind::Layer, layer->Some_0)
        } else if slice is Some && position_of(self.slice_names(), slice->Some_0, 0) == -1 {
            RangeOutcome::Missing(ResourceKind::Slice, slice->Some_0)
        } else {
            let (from, to) = self.frame_bounds(tag);
            let lk = match layer {
                Some(n) => Some(position_of(self.layer_names(), n, 0) as u32),
                None => None,
            };
            let sk = match slice {
                Some(n) => Some(position_of(self.slice_names(), n, 0) as u32),
                None => None,
            };
            let first = AtlasKey { layer: lk, slice: sk, frame: from, ninepatch };
            let last = AtlasKey { layer: lk, slice: sk, frame: to, ninepatch };
            let i1 = key_position(self.atlas_indexes@, first, 0);
            let i2 = key_position(self.atlas_indexes@, last, 0);
            if (i1 == -1 || i2 == -1) && ninepatch is Some {
                RangeOutcome::Missing(ResourceKind::Ninepatch, slice->Some_0)
            } else if i1 == -1 {
                RangeOutcome::NoEntry(first)
            } else if i2 == -1 {
                RangeOutcome::NoEntry(last)
            } else {
                RangeOutcome::Range(i1 as u32, (i2 + 1) as u32)
            }
        }
    }

    /// Resolves a filter to the half-open range of slots it plays: from the
    /// slot of its first frame to one past the slot of its last frame, the frames
    /// being the tag's, or all frames without a tag. The filter is checked for
    /// conflicts before any name is looked up. A nine-patch quadrant of a slice
    /// with no center box at the first or last frame is not found. A range that
    /// resolves is never empty and spans no more slots than the sprite has frames.
    pub fn atlas_range(
        &self,
        layer_name: Option<&str>,
        tag_name: Option<&str>,
        slice_name: Option<&str>,
        ninepatch: Option<u8>,
    ) -> (r: Result<core::ops::Range<u32>, RangeError>)
        requires
            self.wf(),
        ensures
            outcome_matches(r, self.range_outcome(opt_view(layer_name), opt_view(tag_name), opt_view(slice_name), ninepatch)),
            ninepatch is Some && slice_name is None ==> r is Err && r->Err_0 == (RangeError::UnsupportedFilterCombination {
                reason: FilterConflict::NinepatchWithoutSlice,
            }),
            layer_name is Some && slice_name is Some ==> r is Err && r->Err_0 == (RangeError::UnsupportedFilterCombination {
                reason: FilterConflict::LayerWithSlice,
            }),
            ninepatch is Some && r is Err ==> !(r->Err_0 is NoAtlasEntry),
            r is Ok ==> r->Ok_0.start < r->Ok_0.end && r->Ok_0.end - r->Ok_0.start <= self.num_frames,
    {
        if ninepatch.is_some() && slice_name.is_none() {
            return Err(RangeError::UnsupportedFilterCombination { reason: FilterConflict::NinepatchWithoutSlice });
        }
        if slice_name.is_some() && layer_name.is_some() {
            return Err(RangeError::UnsupportedFilterCombination { reason: FilterConflict::LayerWithSlice });
        }
        proof {
            lemma_position_of(self.tag_names(), opt_view(tag_name)->Some_0, 0);
        }
        let (from, to) = match tag_name {
            Some(name) => match self.tag(name) {
                Ok(t) => (t.from_frame, t.to_frame),
                Err(e) => {
                    return Err(e);
                },
            },
            None => (0u32, self.num_frames - 1),
        };
        let layer = match layer_name {
            Some(name) => match self.layer_id(name) {
                Ok(l) => Some(l),
                Err(e) => {
                    return Err(e);
                },
            },
            None => None,
        };
        let slice = match slice_name {
            Some(name) => match self.slice_id(name) {
                Ok(s) => Some(s),
                Err(e) => {
                    return Err(e);
                },
            },
            None => None,
        };
        let first = AtlasKey { layer, slice, frame: from, ninepatch };
        let last = AtlasKey { layer, slice, frame: to, ninepatch };
        proof {
            lemma_key_position(self.atlas_indexes@, first, 0);
            lemma_key_position(self.atlas_indexes@, last, 0);
        }
        let start = self.atlas_index(&first);
        let end = self.atlas_index(&last);
        if start.is_none() || end.is_none() {
            if ninepatch.is_some() {
                if let Some(name) = slice_name {
                    return Err(RangeError::NotFound { kind: ResourceKind::Ninepatch, name: name.to_owned() });
                }
            }
        }
        let start = match start {
            Some(i) => i,
            None => {
                return Err(RangeError::NoAtlasEntry { key: first });
            },
        };
        let end = match end {
            Some(i) => i,
            None => {
                return Err(RangeError::NoAtlasEntry { key: last });
            },
        };
        proof {
            lemma_track_span(self.atlas_indexes@, start as int, end as int);
        }
        Ok(start..end + 1)
    }

    /// The slot of `key`, if the atlas has one.
    pub fn atlas_index(&self, key: &AtlasKey) -> (r: Option<u32>)
        requires
            self.wf(),
        ensures
            key_position(self.atlas_indexes@, *key, 0) == -1 ==> r is None,
            key_position(self.atlas_indexes@, *key, 0) != -1 ==> r == Some(key_position(self.atlas_indexes@, *key, 0) as u32),
    {
        let mut i: usize = 0;
        while i < self.atlas_indexes.len()
            invariant
                i <= self.atlas_indexes.len(),
                key_position(self.atlas_indexes@, *key, i as int) == key_position(self.atlas_indexes@, *key, 0),
            decreases self.atlas_indexes.len() - i,
        {
            if self.atlas_indexes[i] == *key {
                return Some(i as u32);
            }
            i = i + 1;
        }
        None
    }
}

} // verus!
