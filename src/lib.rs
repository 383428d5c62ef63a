//! Compiles a decoded multi-layer sprite document into one packed raster atlas
//! with an exact key-to-slot addressing table, and steps sprite animations over
//! ranges of that table.

pub mod geometry;
pub mod document;
pub mod layers;
pub mod raster;
pub mod grid;
pub mod atlas;
pub mod assets;
pub mod ordering;
pub mod components;

pub use assets::{Aseprite, FilterConflict, PackedAtlas, RangeError, ResourceKind};
pub use atlas::{compile_sprite, AtlasKey};
pub use grid::pack_raster;
pub use components::{AnimationDirection, AsepriteAnimation, AsepriteAtlas};
pub use document::{
    CompileError, LayerKind, LayerRecord, Malformed, Slice, SliceSegment, SourceDocument, Tag, TagDirection,
};
pub use geometry::{ninepatch_quadrant, NinepatchCenter, Rect};
