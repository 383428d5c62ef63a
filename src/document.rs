//! The decoded source document that a sprite atlas is compiled from.

use vstd::prelude::*;
use crate::geometry::NinepatchCenter;

verus! {

/// Whether a layer draws pixels or only groups other layers.
#[derive(Clone, Copy, Debug, PartialEq, Eq, Structural)]
pub enum LayerKind {
    Normal,
    Group,
}

/// One layer of the document: its own (unqualified) name, its kind, and the id
/// of the group that holds it, if any.
#[derive(Debug)]
pub struct LayerRecord {
    pub name: String,
    pub kind: LayerKind,
    pub parent: Option<u32>,
}

/// How the frames of a tag are meant to be played.
#[derive(Clone, Copy, Debug, PartialEq, Eq, Structural)]
pub enum TagDirection {
    Forward,
    Reverse,
    PingPong,
}

/// A named, inclusive range of frames.
#[derive(Debug)]
pub struct Tag {
    pub name: String,
    pub from_frame: u32,
    pub to_frame: u32,
    pub direction: TagDirection,
}

/// The shape of a slice from `from_frame` on, until the next segment starts.
/// The origin is relative to the frame's top-left corner.
#[derive(Clone, Copy, Debug, PartialEq, Eq, Structural)]
pub struct SliceSegment {
    pub from_frame: u32,
    pub origin_x: i32,
    pub origin_y: i32,
    pub width: u32,
    pub height: u32,
    pub ninepatch_center: Option<NinepatchCenter>,
}

/// A named region of interest that may change shape over the animation.
#[derive(Debug)]
pub struct Slice {
    pub name: String,
    pub segments: Vec<SliceSegment>,
}

/// A decoded sprite document.
///
/// Every pixel block is RGBA, four bytes per pixel, row-major, `width` by
/// `height` pixels. `frames[f]` is the whole composited frame `f`. The cel of
/// layer `l` in frame `f` is `cels[l * num_frames + f]`; `None` is an empty cel.
#[derive(Debug)]
pub struct SourceDocument {
    pub width: u32,
    pub height: u32,
    pub num_frames: u32,
    pub frames: Vec<Vec<u8>>,
    pub frame_durations: Vec<u64>,
    pub layers: Vec<LayerRecord>,
    pub cels: Vec<Option<Vec<u8>>>,
    pub tags: Vec<Tag>,
    pub slices: Vec<Slice>,
}

/// The ways in which a source document can be unusable.
#[derive(Clone, Copy, Debug, PartialEq, Eq, Structural)]
pub enum Malformed {
    NoFrames,
    FrameCount,
    PixelBlockSize,
    ZeroDuration,
    CelCount,
    TooManyLayers,
    TooManySlices,
    ParentOutOfRange,
    CyclicLayers,
    TagBounds,
    SliceKeys,
    AtlasTooLarge,
}

/// Why a compile failed. No partial result is ever produced.
#[derive(Clone, Copy, Debug, PartialEq, Eq, Structural)]
pub enum CompileError {
    MalformedSource { detail: Malformed },
}

/// Whether the parent chain from layer `l` ends at a root within `fuel` steps,
/// passing only through layers that exist.
pub open spec fn chain_ok(layers: Seq<LayerRecord>, l: int, fuel: nat) -> bool
    decreases fuel,
{
    match layers[l].parent {
        None => true,
        Some(p) => fuel > 0 && (p as int) < layers.len() && chain_ok(layers, p as int, (fuel - 1) as nat),
    }
}

/// The ancestors of layer `l`, nearest first, following at most `fuel` links.
pub open spec fn ancestors(layers: Seq<LayerRecord>, l: int, fuel: nat) -> Seq<u32>
    decreases fuel,
{
    match layers[l].parent {
        None => Seq::empty(),
        Some(p) => if fuel == 0 || p as int >= layers.len() {
            Seq::empty()
        } else {
            seq![p].add(ancestors(layers, p as int, (fuel - 1) as nat))
        },
    }
}

/// What is wrong with the parent chain from layer `l` within `fuel` links: a
/// chain still going when the fuel runs out is a cycle.
pub open spec fn chain_error(layers: Seq<LayerRecord>, l: int, fuel: nat) -> Option<Malformed>
    decreases fuel,
{
    match layers[l].parent {
        None => None,
        Some(p) => if fuel == 0 {
            Some(Malformed::CyclicLayers)
        } else if p as int >= layers.len() {
            Some(Malformed::ParentOutOfRange)
        } else {
            chain_error(layers, p as int, (fuel - 1) as nat)
        },
    }
}

/// The error of the first layer, from `l` on, whose parent chain is broken.
pub open spec fn layers_error(layers: Seq<LayerRecord>, l: int) -> Option<Malformed>
    decreases layers.len() - l,
{
    if l < 0 || l >= layers.len() {
        None
    } else if chain_error(layers, l, layers.len() as nat) is Some {
        chain_error(layers, l, layers.len() as nat)
    } else {
        layers_error(layers, l + 1)
    }
}

/// Whether every layer's parent chain is finite and stays inside the document.
pub open spec fn layers_acyclic(layers: Seq<LayerRecord>) -> bool {
    forall|l: int| 0 <= l < layers.len() ==> #[trigger] chain_ok(layers, l, layers.len())
}

pub open spec fn segments_ordered(segs: Seq<SliceSegment>) -> bool {
    &&& segs.len() > 0
    &&& segs[0].from_frame == 0
    &&& forall|i: int| 0 <= i && i + 1 < segs.len() ==> #[trigger] segs[i].from_frame <= segs[i + 1].from_frame
}

impl SourceDocument {
    /// The first shape condition that the document breaks, in the order they
    /// are checked.
    pub open spec fn shape_error(&self) -> Option<Malformed> {
        if self.num_frames == 0 {
            Some(Malformed::NoFrames)
        } else if self.frames.len() != self.num_frames {
            Some(Malformed::FrameCount)
        } else if self.layers.len() > u32::MAX {
            Some(Malformed::TooManyLayers)
        } else if self.slices.len() > u32::MAX {
            Some(Malformed::TooManySlices)
        } else if exists|f: int| 0 <= f < self.frames.len() && #[trigger] self.frames[f]@.len() != self.block_len() {
            Some(Malformed::PixelBlockSize)
        } else if self.frame_durations.len() != self.num_frames {
            Some(Malformed::FrameCount)
        } else if exists|f: int| 0 <= f < self.frame_durations.len() && #[trigger] self.frame_durations[f] == 0 {
            Some(Malformed::ZeroDuration)
        } else if self.cels.len() != self.layers.len() * self.num_frames {
            Some(Malformed::CelCount)
        } else if exists|i: int|
            0 <= i < self.cels.len() && #[trigger] self.cels[i] is Some && self.cels[i]->Some_0@.len() != self.block_len() {
            Some(Malformed::PixelBlockSize)
        } else if exists|t: int|
            0 <= t < self.tags.len() && !(#[trigger] self.tags[t].from_frame <= self.tags[t].to_frame
                && self.tags[t].to_frame < self.num_frames) {
            Some(Malformed::TagBounds)
        } else if exists|s: int| 0 <= s < self.slices.len() && !segments_ordered(#[trigger] self.slices[s].segments@) {
            Some(Malformed::SliceKeys)
        } else {
            None
        }
    }

    pub open spec fn block_len(&self) -> int {
        self.width * self.height * 4
    }

    /// The shape conditions on frames, durations, cels, tags and slices.
    pub open spec fn shape_ok(&self) -> bool {
        &&& self.num_frames > 0
        &&& self.layers.len() <= u32::MAX
        &&& self.slices.len() <= u32::MAX
        &&& self.frames.len() == self.num_frames
        &&& forall|f: int| 0 <= f < self.frames.len() ==> #[trigger] self.frames[f]@.len() == self.block_len()
        &&& self.frame_durations.len() == self.num_frames
        &&& forall|f: int| 0 <= f < self.frame_durations.len() ==> #[trigger] self.frame_durations[f] > 0
        &&& self.cels.len() == self.layers.len() * self.num_frames
        &&& forall|i: int| 0 <= i < self.cels.len() && #[trigger] self.cels[i] is Some
            ==> self.cels[i]->Some_0@.len() == self.block_len()
        &&& forall|t: int| 0 <= t < self.tags.len()
            ==> #[trigger] self.tags[t].from_frame <= self.tags[t].to_frame
                && self.tags[t].to_frame < self.num_frames
        &&& forall|s: int| 0 <= s < self.slices.len() ==> segments_ordered(#[trigger] self.slices[s].segments@)
    }
}

} // verus!
