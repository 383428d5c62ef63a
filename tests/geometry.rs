use bevy_asefile::{ninepatch_quadrant, NinepatchCenter, Rect};

fn contains(r: &Rect, x: i64, y: i64) -> bool {
    r.min_x <= x && x < r.max_x && r.min_y <= y && y < r.max_y
}

#[test]
fn ninepatch_quadrants_tile_the_slice() {
    let slice = Rect { min_x: 0, min_y: 0, max_x: 40, max_y: 40 };
    let center = NinepatchCenter { center_x: 10, center_y: 10, center_width: 20, center_height: 20 };
    let quads: Vec<Rect> = (0u8..9).map(|q| ninepatch_quadrant(slice, center, q)).collect();
    assert_eq!(quads[0], Rect { min_x: 0, min_y: 0, max_x: 10, max_y: 10 });
    assert_eq!(quads[4], Rect { min_x: 10, min_y: 10, max_x: 30, max_y: 30 });
    assert_eq!(quads[8], Rect { min_x: 30, min_y: 30, max_x: 40, max_y: 40 });
    let area: i64 = quads.iter().map(|r| (r.max_x - r.min_x) * (r.max_y - r.min_y)).sum();
    assert_eq!(area, 1600);
    for x in -1..41 {
        for y in -1..41 {
            let hits = quads.iter().filter(|r| contains(r, x, y)).count();
            assert_eq!(hits, if contains(&slice, x, y) { 1 } else { 0 });
        }
    }
}

#[test]
fn ninepatch_quadrants_follow_an_offset_slice() {
    let slice = Rect { min_x: 100, min_y: 50, max_x: 112, max_y: 58 };
    let center = NinepatchCenter { center_x: 3, center_y: 2, center_width: 5, center_height: 1 };
    assert_eq!(ninepatch_quadrant(slice, center, 1), Rect { min_x: 103, min_y: 50, max_x: 108, max_y: 52 });
    assert_eq!(ninepatch_quadrant(slice, center, 5), Rect { min_x: 108, min_y: 52, max_x: 112, max_y: 53 });
    assert_eq!(ninepatch_quadrant(slice, center, 6), Rect { min_x: 100, min_y: 53, max_x: 103, max_y: 58 });
}
