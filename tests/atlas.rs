use bevy_asefile::{
    compile_sprite, pack_raster, Aseprite, AtlasKey, CompileError, FilterConflict, LayerKind, LayerRecord, Malformed,
    NinepatchCenter, RangeError, Rect, ResourceKind, Slice, SliceSegment, SourceDocument, Tag, TagDirection,
};

const W: u32 = 4;
const H: u32 = 4;

fn block(rgba: [u8; 4]) -> Vec<u8> {
    rgba.iter().copied().cycle().take((W * H * 4) as usize).collect()
}

fn layer(name: &str, kind: LayerKind, parent: Option<u32>) -> LayerRecord {
    LayerRecord { name: name.to_string(), kind, parent }
}

fn segment(from_frame: u32, ninepatch_center: Option<NinepatchCenter>) -> SliceSegment {
    SliceSegment { from_frame, origin_x: 0, origin_y: 0, width: 4, height: 4, ninepatch_center }
}

/// Three frames; a group "Body" holding "Arm" (empty in frame 1); a top-level
/// "Hat"; one tag; one slice split as a nine-patch.
fn sample_doc() -> SourceDocument {
    let frames = (0..3u8).map(|f| block([10 + f, 0, 0, 255])).collect();
    let red = Some(block([255, 0, 0, 255]));
    let blue = Some(block([0, 0, 255, 255]));
    let cels = vec![None, None, None, red.clone(), None, red, blue.clone(), blue.clone(), blue];
    SourceDocument {
        width: W,
        height: H,
        num_frames: 3,
        frames,
        frame_durations: vec![100, 100, 100],
        layers: vec![
            layer("Body", LayerKind::Group, None),
            layer("Arm", LayerKind::Normal, Some(0)),
            layer("Hat", LayerKind::Normal, None),
        ],
        cels,
        tags: vec![Tag { name: "idle".to_string(), from_frame: 0, to_frame: 2, direction: TagDirection::Forward }],
        slices: vec![Slice {
            name: "button".to_string(),
            segments: vec![segment(0, Some(NinepatchCenter { center_x: 1, center_y: 1, center_width: 2, center_height: 2 }))],
        }],
    }
}

fn frames_doc(num_frames: u32, tags: Vec<Tag>) -> SourceDocument {
    SourceDocument {
        width: W,
        height: H,
        num_frames,
        frames: (0..num_frames).map(|f| block([f as u8, 0, 0, 255])).collect(),
        frame_durations: vec![1; num_frames as usize],
        layers: Vec::new(),
        cels: Vec::new(),
        tags,
        slices: Vec::new(),
    }
}

fn key(layer: Option<u32>, slice: Option<u32>, frame: u32, ninepatch: Option<u8>) -> AtlasKey {
    AtlasKey { layer, slice, frame, ninepatch }
}

fn pixel(sprite: &Aseprite, x: u32, y: u32) -> [u8; 4] {
    let i = ((y * sprite.atlas.width + x) * 4) as usize;
    [sprite.atlas.pixels[i], sprite.atlas.pixels[i + 1], sprite.atlas.pixels[i + 2], sprite.atlas.pixels[i + 3]]
}

fn err(doc: SourceDocument) -> Malformed {
    match compile_sprite(doc) {
        Err(CompileError::MalformedSource { detail }) => detail,
        Ok(_) => panic!("compiled a malformed document"),
    }
}

#[test]
fn key_table_is_a_bijection() {
    let sprite = compile_sprite(sample_doc()).unwrap();
    // 3 frames + 5 non-empty cels + 3 slice rectangles + 27 quadrants.
    assert_eq!(sprite.atlas_indexes.len(), 3 + 5 + 3 + 27);
    assert_eq!(sprite.atlas.rects.len(), sprite.atlas_indexes.len());
    for (i, k) in sprite.atlas_indexes.iter().enumerate() {
        assert_eq!(sprite.atlas_index(k), Some(i as u32));
        for other in &sprite.atlas_indexes[i + 1..] {
            assert_ne!(k, other);
        }
    }
}

#[test]
fn slot_order_is_frames_then_cels_then_slices() {
    let sprite = compile_sprite(sample_doc()).unwrap();
    let k = &sprite.atlas_indexes;
    assert_eq!(k[0], key(None, None, 0, None));
    assert_eq!(k[2], key(None, None, 2, None));
    assert_eq!(k[3], key(Some(1), None, 0, None));
    assert_eq!(k[4], key(Some(1), None, 2, None));
    assert_eq!(k[5], key(Some(2), None, 0, None));
    assert_eq!(k[7], key(Some(2), None, 2, None));
    assert_eq!(k[8], key(None, Some(0), 0, None));
    assert_eq!(k[10], key(None, Some(0), 2, None));
    assert_eq!(k[11], key(None, Some(0), 0, Some(0)));
    assert_eq!(k[14], key(None, Some(0), 0, Some(1)));
    assert_eq!(k[37], key(None, Some(0), 2, Some(8)));
    assert_eq!(sprite.atlas_index(&key(Some(0), None, 0, None)), None);
    assert_eq!(sprite.atlas_index(&key(Some(1), None, 1, None)), None);
}

#[test]
fn grid_is_square_with_padding() {
    let sprite = compile_sprite(sample_doc()).unwrap();
    // 8 cells: ceil(sqrt(8)) + 1 = 4 rows of 5 x 5 pixel cells.
    assert_eq!(sprite.atlas.width, 20);
    assert_eq!(sprite.atlas.height, 20);
    assert_eq!(sprite.atlas.pixels.len(), 20 * 20 * 4);
    assert_eq!(sprite.atlas.rects[0], Rect { min_x: 0, min_y: 0, max_x: 4, max_y: 4 });
    assert_eq!(sprite.atlas.rects[3], Rect { min_x: 15, min_y: 0, max_x: 19, max_y: 4 });
    assert_eq!(sprite.atlas.rects[6], Rect { min_x: 10, min_y: 5, max_x: 14, max_y: 9 });
}

#[test]
fn grid_rows_round_square_root_up() {
    assert_eq!(compile_sprite(frames_doc(4, Vec::new())).unwrap().atlas.width, 3 * 5);
    assert_eq!(compile_sprite(frames_doc(5, Vec::new())).unwrap().atlas.width, 4 * 5);
    assert_eq!(compile_sprite(frames_doc(1, Vec::new())).unwrap().atlas.width, 2 * 5);
}

#[test]
fn raster_holds_blocks_in_their_cells() {
    let sprite = compile_sprite(sample_doc()).unwrap();
    assert_eq!(pixel(&sprite, 0, 0), [10, 0, 0, 255]);
    assert_eq!(pixel(&sprite, 3, 3), [10, 0, 0, 255]);
    assert_eq!(pixel(&sprite, 5, 0), [11, 0, 0, 255]);
    assert_eq!(pixel(&sprite, 10, 2), [12, 0, 0, 255]);
    assert_eq!(pixel(&sprite, 15, 0), [255, 0, 0, 255]);
    assert_eq!(pixel(&sprite, 5, 5), [0, 0, 255, 255]);
    // Padding column and row, and unused cells, stay transparent.
    assert_eq!(pixel(&sprite, 4, 0), [0, 0, 0, 0]);
    assert_eq!(pixel(&sprite, 0, 4), [0, 0, 0, 0]);
    assert_eq!(pixel(&sprite, 19, 19), [0, 0, 0, 0]);
}

#[test]
fn ancestor_cels_are_blended_over_the_cel() {
    let mut doc = frames_doc(1, Vec::new());
    doc.layers = vec![layer("Base", LayerKind::Normal, None), layer("Top", LayerKind::Normal, Some(0))];
    doc.cels = vec![Some(block([0, 0, 255, 255])), Some(block([255, 0, 0, 255]))];
    let sprite = compile_sprite(doc).unwrap();
    assert_eq!(sprite.layers, vec!["Base".to_string(), "Base.Top".to_string()]);
    // Slot 1 is Base (own pixels), slot 2 is Top with Base blended over it.
    let r1 = sprite.atlas.rects[1];
    let r2 = sprite.atlas.rects[2];
    assert_eq!(pixel(&sprite, r1.min_x as u32, r1.min_y as u32), [0, 0, 255, 255]);
    assert_eq!(pixel(&sprite, r2.min_x as u32, r2.min_y as u32), [0, 0, 255, 255]);
}

#[test]
fn transparent_ancestor_leaves_cel_visible() {
    let mut doc = frames_doc(1, Vec::new());
    doc.layers = vec![layer("Base", LayerKind::Normal, None), layer("Top", LayerKind::Normal, Some(0))];
    doc.cels = vec![Some(block([0, 0, 255, 0])), Some(block([255, 0, 0, 255]))];
    let sprite = compile_sprite(doc).unwrap();
    let r2 = sprite.atlas.rects[2];
    assert_eq!(pixel(&sprite, r2.min_x as u32, r2.min_y as u32), [255, 0, 0, 255]);
}

#[test]
fn layer_names_are_dot_qualified() {
    let mut doc = frames_doc(1, Vec::new());
    doc.layers = vec![
        layer("Woman", LayerKind::Group, None),
        layer("Head", LayerKind::Group, Some(0)),
        layer("Hair", LayerKind::Normal, Some(1)),
        layer("Man", LayerKind::Group, None),
    ];
    doc.cels = vec![None, None, None, None];
    let sprite = compile_sprite(doc).unwrap();
    assert_eq!(sprite.layers, vec!["Woman", "Woman.Head", "Woman.Head.Hair", "Man"]);
    assert_eq!(sprite.layer_id("Woman.Head.Hair").unwrap(), 2);
    match sprite.layer_id("Hair") {
        Err(RangeError::NotFound { kind: ResourceKind::Layer, name }) => assert_eq!(name, "Hair"),
        _ => panic!("expected a missing layer"),
    }
}

#[test]
fn slice_and_ninepatch_rects() {
    let sprite = compile_sprite(sample_doc()).unwrap();
    // Frame 1's cell starts at (5, 0).
    assert_eq!(sprite.atlas.rects[9], Rect { min_x: 5, min_y: 0, max_x: 9, max_y: 4 });
    // Quadrant 0, 4 and 8 of frame 0.
    assert_eq!(sprite.atlas.rects[11], Rect { min_x: 0, min_y: 0, max_x: 1, max_y: 1 });
    assert_eq!(sprite.atlas.rects[11 + 4 * 3], Rect { min_x: 1, min_y: 1, max_x: 3, max_y: 3 });
    assert_eq!(sprite.atlas.rects[11 + 8 * 3], Rect { min_x: 3, min_y: 3, max_x: 4, max_y: 4 });
    // Quadrant 2 of frame 2, whose cell starts at (10, 0).
    assert_eq!(sprite.atlas.rects[11 + 2 * 3 + 2], Rect { min_x: 13, min_y: 0, max_x: 14, max_y: 1 });
}

#[test]
fn slice_segment_in_force_follows_frames() {
    let mut doc = frames_doc(4, Vec::new());
    let mut later = segment(2, None);
    later.origin_x = 1;
    later.width = 2;
    doc.slices = vec![Slice { name: "s".to_string(), segments: vec![segment(0, None), later] }];
    let sprite = compile_sprite(doc).unwrap();
    assert_eq!(sprite.slice("s", 1).unwrap().from_frame, 0);
    assert_eq!(sprite.slice("s", 2).unwrap().from_frame, 2);
    assert_eq!(sprite.slice("s", 9).unwrap().width, 2);
    assert_eq!(sprite.slice_id("s").unwrap(), 0);
    assert!(matches!(sprite.slice_id("t"), Err(RangeError::NotFound { kind: ResourceKind::Slice, .. })));
    // Frame 3 (cell at (0, 5)) uses the later segment: offset by one, two wide.
    let slot = sprite.atlas_index(&key(None, Some(0), 3, None)).unwrap() as usize;
    assert_eq!(sprite.atlas.rects[slot], Rect { min_x: 1, min_y: 5, max_x: 3, max_y: 9 });
}

#[test]
fn default_range_covers_all_frames() {
    let sprite = compile_sprite(sample_doc()).unwrap();
    assert_eq!(sprite.atlas_range(None, None, None, None).unwrap(), 0..3);
}

#[test]
fn tag_range_uses_tag_frames() {
    let tags = vec![Tag { name: "walk".to_string(), from_frame: 2, to_frame: 5, direction: TagDirection::Forward }];
    let sprite = compile_sprite(frames_doc(8, tags)).unwrap();
    let start = sprite.atlas_index(&key(None, None, 2, None)).unwrap();
    let end = sprite.atlas_index(&key(None, None, 5, None)).unwrap() + 1;
    assert_eq!(sprite.atlas_range(None, Some("walk"), None, None).unwrap(), start..end);
    assert_eq!(start..end, 2..6);
    assert_eq!(sprite.tag("walk").unwrap().to_frame, 5);
}

#[test]
fn layer_and_slice_ranges() {
    let sprite = compile_sprite(sample_doc()).unwrap();
    assert_eq!(sprite.atlas_range(Some("Hat"), None, None, None).unwrap(), 5..8);
    assert_eq!(sprite.atlas_range(Some("Hat"), Some("idle"), None, None).unwrap(), 5..8);
    assert_eq!(sprite.atlas_range(None, None, Some("button"), None).unwrap(), 8..11);
    assert_eq!(sprite.atlas_range(None, None, Some("button"), Some(4)).unwrap(), 23..26);
}

#[test]
fn conflicting_filters_are_rejected() {
    let sprite = compile_sprite(sample_doc()).unwrap();
    assert!(matches!(
        sprite.atlas_range(Some("Hat"), None, Some("button"), None),
        Err(RangeError::UnsupportedFilterCombination { reason: FilterConflict::LayerWithSlice })
    ));
    assert!(matches!(
        sprite.atlas_range(None, None, None, Some(1)),
        Err(RangeError::UnsupportedFilterCombination { reason: FilterConflict::NinepatchWithoutSlice })
    ));
    // Conflicts are reported before unknown names.
    assert!(matches!(
        sprite.atlas_range(Some("nope"), None, Some("nope"), None),
        Err(RangeError::UnsupportedFilterCombination { reason: FilterConflict::LayerWithSlice })
    ));
}

#[test]
fn unknown_names_and_missing_entries() {
    let sprite = compile_sprite(sample_doc()).unwrap();
    assert!(matches!(
        sprite.atlas_range(None, Some("run"), None, None),
        Err(RangeError::NotFound { kind: ResourceKind::Tag, .. })
    ));
    assert!(matches!(
        sprite.atlas_range(Some("Legs"), None, None, None),
        Err(RangeError::NotFound { kind: ResourceKind::Layer, .. })
    ));
    assert!(matches!(
        sprite.atlas_range(None, None, Some("panel"), None),
        Err(RangeError::NotFound { kind: ResourceKind::Slice, .. })
    ));
    // The group layer has no cels, so it has no slots.
    match sprite.atlas_range(Some("Body"), None, None, None) {
        Err(RangeError::NoAtlasEntry { key: k }) => assert_eq!(k, key(Some(0), None, 0, None)),
        _ => panic!("expected a missing entry"),
    }
    // "Body.Arm" is empty in frame 1 but not at the ends of the range.
    assert_eq!(sprite.atlas_range(Some("Body.Arm"), None, None, None).unwrap(), 3..5);
}

#[test]
fn compiling_twice_gives_identical_results() {
    let a = compile_sprite(sample_doc()).unwrap();
    let b = compile_sprite(sample_doc()).unwrap();
    assert_eq!(a.atlas.pixels, b.atlas.pixels);
    assert_eq!(a.atlas_indexes, b.atlas_indexes);
    assert_eq!(a.atlas.rects, b.atlas.rects);
}

#[test]
fn lookups_by_name_and_frame() {
    let sprite = compile_sprite(sample_doc()).unwrap();
    assert_eq!(sprite.frame_duration(2), 100);
    assert_eq!(sprite.num_frames, 3);
    assert_eq!(sprite.tag("idle").unwrap().from_frame, 0);
    assert!(matches!(sprite.tag("nope"), Err(RangeError::NotFound { kind: ResourceKind::Tag, .. })));
    assert_eq!(sprite.slice("button", 0).unwrap().ninepatch_center.unwrap().center_width, 2);
}

#[test]
fn malformed_documents_are_rejected() {
    assert_eq!(err(frames_doc(0, Vec::new())), Malformed::NoFrames);
    let mut d = frames_doc(2, Vec::new());
    d.frames.pop();
    assert_eq!(err(d), Malformed::FrameCount);
    let mut d = frames_doc(2, Vec::new());
    d.frame_durations.pop();
    assert_eq!(err(d), Malformed::FrameCount);
    let mut d = frames_doc(2, Vec::new());
    d.frames[1].pop();
    assert_eq!(err(d), Malformed::PixelBlockSize);
    let mut d = frames_doc(2, Vec::new());
    d.frame_durations[1] = 0;
    assert_eq!(err(d), Malformed::ZeroDuration);
    let mut d = frames_doc(2, Vec::new());
    d.layers = vec![layer("a", LayerKind::Normal, None)];
    assert_eq!(err(d), Malformed::CelCount);
    let mut d = frames_doc(1, Vec::new());
    d.layers = vec![layer("a", LayerKind::Normal, None)];
    d.cels = vec![Some(vec![0; 3])];
    assert_eq!(err(d), Malformed::PixelBlockSize);
    let mut d = frames_doc(1, Vec::new());
    d.layers = vec![layer("a", LayerKind::Normal, Some(5))];
    d.cels = vec![None];
    assert_eq!(err(d), Malformed::ParentOutOfRange);
    let mut d = frames_doc(1, Vec::new());
    d.layers = vec![layer("a", LayerKind::Group, Some(1)), layer("b", LayerKind::Group, Some(0))];
    d.cels = vec![None, None];
    assert_eq!(err(d), Malformed::CyclicLayers);
    let tags = vec![Tag { name: "t".to_string(), from_frame: 1, to_frame: 2, direction: TagDirection::Forward }];
    assert_eq!(err(frames_doc(2, tags)), Malformed::TagBounds);
    let tags = vec![Tag { name: "t".to_string(), from_frame: 1, to_frame: 0, direction: TagDirection::Forward }];
    assert_eq!(err(frames_doc(2, tags)), Malformed::TagBounds);
    let mut d = frames_doc(2, Vec::new());
    d.slices = vec![Slice { name: "s".to_string(), segments: Vec::new() }];
    assert_eq!(err(d), Malformed::SliceKeys);
    let mut d = frames_doc(2, Vec::new());
    d.slices = vec![Slice { name: "s".to_string(), segments: vec![segment(1, None)] }];
    assert_eq!(err(d), Malformed::SliceKeys);
    let mut d = frames_doc(3, Vec::new());
    d.slices = vec![Slice { name: "s".to_string(), segments: vec![segment(0, None), segment(2, None), segment(1, None)] }];
    assert_eq!(err(d), Malformed::SliceKeys);
}

#[test]
fn oversized_atlas_is_rejected() {
    let d = SourceDocument {
        width: 3_000_000_000,
        height: 0,
        num_frames: 1,
        frames: vec![Vec::new()],
        frame_durations: vec![1],
        layers: Vec::new(),
        cels: Vec::new(),
        tags: Vec::new(),
        slices: Vec::new(),
    };
    assert_eq!(err(d), Malformed::AtlasTooLarge);
}

#[test]
fn pack_raster_places_blocks_row_by_row() {
    // Three 1 x 2 blocks in a 2 x 2 grid of 2 x 3 cells: a 4 x 6 raster.
    let frames = vec![vec![1u8; 8], vec![2u8; 8]];
    let cels = vec![vec![3u8; 8]];
    let raster = pack_raster(&frames, &cels, 2, 1, 2);
    assert_eq!(raster.len(), 4 * 6 * 4);
    let at = |x: usize, y: usize| raster[(y * 4 + x) * 4];
    assert_eq!((at(0, 0), at(0, 1), at(1, 0), at(0, 2)), (1, 1, 0, 0));
    assert_eq!((at(2, 0), at(2, 1), at(3, 1)), (2, 2, 0));
    assert_eq!((at(0, 3), at(0, 4), at(0, 5), at(2, 3)), (3, 3, 0, 0));
}

#[test]
fn ninepatch_filter_on_slice_without_center_is_not_found() {
    let mut doc = frames_doc(2, Vec::new());
    doc.slices = vec![Slice { name: "plain".to_string(), segments: vec![segment(0, None)] }];
    let sprite = compile_sprite(doc).unwrap();
    match sprite.atlas_range(None, None, Some("plain"), Some(4)) {
        Err(RangeError::NotFound { kind: ResourceKind::Ninepatch, name }) => assert_eq!(name, "plain"),
        other => panic!("expected a missing nine-patch, got {:?}", other),
    }
    assert_eq!(sprite.atlas_range(None, None, Some("plain"), None).unwrap(), 2..4);
}

#[test]
fn ninepatch_filter_missing_at_last_frame_is_not_found() {
    let mut doc = frames_doc(3, Vec::new());
    let center = NinepatchCenter { center_x: 1, center_y: 1, center_width: 2, center_height: 2 };
    doc.slices = vec![Slice { name: "grow".to_string(), segments: vec![segment(0, Some(center)), segment(2, None)] }];
    let sprite = compile_sprite(doc).unwrap();
    assert!(matches!(
        sprite.atlas_range(None, None, Some("grow"), Some(0)),
        Err(RangeError::NotFound { kind: ResourceKind::Ninepatch, .. })
    ));
}
