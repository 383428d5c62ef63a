use bevy_asefile::{
    compile_sprite, Aseprite, AnimationDirection, AsepriteAnimation, AsepriteAtlas, SourceDocument, Tag,
    TagDirection,
};

fn frames_doc(num_frames: u32, durations: Vec<u64>, tags: Vec<Tag>) -> SourceDocument {
    let width = 2u32;
    let height = 2u32;
    let frames = (0..num_frames).map(|f| vec![f as u8; (width * height * 4) as usize]).collect();
    SourceDocument {
        width,
        height,
        num_frames,
        frames,
        frame_durations: durations,
        layers: Vec::new(),
        cels: Vec::new(),
        tags,
        slices: Vec::new(),
    }
}

fn sprite(num_frames: u32) -> Aseprite {
    compile_sprite(frames_doc(num_frames, vec![1; num_frames as usize], Vec::new())).unwrap()
}

fn idle() -> AsepriteAnimation {
    AsepriteAnimation {
        direction: AnimationDirection::Forward,
        time_elapsed: 0,
        current_index: 0,
        index_range: 0..1,
        pong: false,
    }
}

fn ticks(anim: &mut AsepriteAnimation, sprite: &Aseprite, count: usize) -> Vec<usize> {
    (0..count).map(|_| anim.step(1, sprite)).collect()
}

#[test]
fn forward_wraps_to_start() {
    let sprite = sprite(6);
    let mut anim = idle();
    anim.start(2..6, AnimationDirection::Forward);
    assert_eq!(anim.current_index, 2);
    assert_eq!(ticks(&mut anim, &sprite, 8), vec![3, 4, 5, 2, 3, 4, 5, 2]);
}

#[test]
fn backward_wraps_to_end() {
    let sprite = sprite(6);
    let mut anim = idle();
    anim.start(2..6, AnimationDirection::Backward);
    assert_eq!(anim.current_index, 5);
    assert_eq!(ticks(&mut anim, &sprite, 8), vec![4, 3, 2, 5, 4, 3, 2, 5]);
}

#[test]
fn ping_pong_turns_without_repeating_ends() {
    let sprite = sprite(4);
    let mut anim = idle();
    anim.start(0..4, AnimationDirection::PingPong);
    assert_eq!(anim.current_index, 0);
    let seq = ticks(&mut anim, &sprite, 11);
    assert_eq!(seq, vec![1, 2, 3, 2, 1, 0, 1, 2, 3, 2, 1]);
    let mut full = vec![0usize];
    full.extend(seq);
    for w in full.windows(2) {
        assert_ne!(w[0], w[1]);
    }
}

#[test]
fn ping_pong_single_slot_stays() {
    let sprite = sprite(1);
    let mut anim = idle();
    anim.start(0..1, AnimationDirection::PingPong);
    assert_eq!(ticks(&mut anim, &sprite, 3), vec![0, 0, 0]);
}

#[test]
fn step_accumulates_time_below_duration() {
    let sprite = compile_sprite(frames_doc(3, vec![10, 20, 30], Vec::new())).unwrap();
    let mut anim = idle();
    anim.start(0..3, AnimationDirection::Forward);
    assert_eq!(anim.step(9, &sprite), 0);
    assert_eq!(anim.time_elapsed, 9);
    assert_eq!(anim.step(1, &sprite), 1);
    assert_eq!(anim.time_elapsed, 0);
    // 20 for slot 1 and 30 for slot 2 are spent, 5 is left over on slot 0.
    assert_eq!(anim.step(55, &sprite), 0);
    assert_eq!(anim.time_elapsed, 5);
}

#[test]
fn fixup_uses_tag_direction() {
    let tags = vec![Tag { name: "walk".to_string(), from_frame: 1, to_frame: 3, direction: TagDirection::Reverse }];
    let sprite = compile_sprite(frames_doc(5, vec![1; 5], tags)).unwrap();
    let mut anim = idle();
    let filter = AsepriteAtlas { tag: Some("walk"), ..Default::default() };
    assert_eq!(anim.fixup(&filter, &sprite).unwrap(), 3);
    assert_eq!(anim.direction, AnimationDirection::Backward);
    assert_eq!(anim.index_range, 1..4);
    assert_eq!(anim.time_elapsed, 0);
    assert!(!anim.pong);
}

#[test]
fn fixup_without_tag_plays_forward_over_all_frames() {
    let sprite = sprite(4);
    let mut anim = idle();
    anim.current_index = 0;
    assert_eq!(anim.fixup(&AsepriteAtlas::default(), &sprite).unwrap(), 0);
    assert_eq!(anim.direction, AnimationDirection::Forward);
    assert_eq!(anim.index_range, 0..4);
}

#[test]
fn fixup_failure_keeps_state() {
    let sprite = sprite(4);
    let mut anim = idle();
    anim.start(1..3, AnimationDirection::Backward);
    let filter = AsepriteAtlas { tag: Some("missing"), ..Default::default() };
    assert!(anim.fixup(&filter, &sprite).is_err());
    assert_eq!(anim.index_range, 1..3);
    assert_eq!(anim.current_index, 2);
}

#[test]
fn tag_direction_converts() {
    assert_eq!(AnimationDirection::from(TagDirection::Forward), AnimationDirection::Forward);
    assert_eq!(AnimationDirection::from(TagDirection::Reverse), AnimationDirection::Backward);
    assert_eq!(AnimationDirection::from(TagDirection::PingPong), AnimationDirection::PingPong);
    assert_eq!(AnimationDirection::default(), AnimationDirection::Forward);
}
