//! Integer rectangles, the uniform grid of atlas cells, and nine-patch splitting.

use vstd::prelude::*;

verus! {

/// A half-open axis-aligned rectangle `[min_x, max_x) x [min_y, max_y)` in atlas pixels.
#[derive(Clone, Copy, Debug, PartialEq, Eq, Structural)]
pub struct Rect {
    pub min_x: i64,
    pub min_y: i64,
    pub max_x: i64,
    pub max_y: i64,
}

/// The center box of a nine-patch, relative to the slice rectangle it splits.
#[derive(Clone, Copy, Debug, PartialEq, Eq, Structural)]
pub struct NinepatchCenter {
    pub center_x: i32,
    pub center_y: i32,
    pub center_width: u32,
    pub center_height: u32,
}

impl Rect {
    pub open spec fn contains(self, x: int, y: int) -> bool {
        self.min_x <= x < self.max_x && self.min_y <= y < self.max_y
    }
}

/// The four x (or y) boundaries of a nine-patch split, as spec values.
pub open spec fn split_bound(lo: int, hi: int, offset: int, extent: int, i: int) -> int {
    if i <= 0 {
        lo
    } else if i == 1 {
        lo + offset
    } else if i == 2 {
        lo + offset + extent
    } else {
        hi
    }
}

/// Quadrant `q` (row-major, 0 = top-left, 4 = center, 8 = bottom-right) of `r`
/// split around the center box `c`.
pub open spec fn quadrant_spec(r: Rect, c: NinepatchCenter, q: int) -> Rect {
    let col = q % 3;
    let row = q / 3;
    Rect {
        min_x: split_bound(r.min_x as int, r.max_x as int, c.center_x as int, c.center_width as int, col) as i64,
        min_y: split_bound(r.min_y as int, r.max_y as int, c.center_y as int, c.center_height as int, row) as i64,
        max_x: split_bound(r.min_x as int, r.max_x as int, c.center_x as int, c.center_width as int, col + 1) as i64,
        max_y: split_bound(r.min_y as int, r.max_y as int, c.center_y as int, c.center_height as int, row + 1) as i64,
    }
}

/// Whether every boundary of the split of `r` around `c` fits in an `i64`.
pub open spec fn split_fits(r: Rect, c: NinepatchCenter) -> bool {
    i64::MIN <= r.min_x + c.center_x && r.min_x + c.center_x + c.center_width <= i64::MAX
        && i64::MIN <= r.min_y + c.center_y && r.min_y + c.center_y + c.center_height <= i64::MAX
}

/// Whether the center box lies inside `r`, so that the nine quadrants are well formed.
pub open spec fn center_inside(r: Rect, c: NinepatchCenter) -> bool {
    &&& r.min_x <= r.max_x
    &&& r.min_y <= r.max_y
    &&& 0 <= c.center_x
    &&& c.center_x + c.center_width <= r.max_x - r.min_x
    &&& 0 <= c.center_y
    &&& c.center_y + c.center_height <= r.max_y - r.min_y
}

/// Splits `r` at the center box's left/right and top/bottom boundaries and
/// returns quadrant `q`.
pub fn ninepatch_quadrant(r: Rect, c: NinepatchCenter, q: u8) -> (out: Rect)
    requires
        q < 9,
        split_fits(r, c),
    ensures
        out == quadrant_spec(r, c, q as int),
{
    let col = q % 3;
    let row = q / 3;
    let x1 = r.min_x + c.center_x as i64;
    let x2 = x1 + c.center_width as i64;
    let y1 = r.min_y + c.center_y as i64;
    let y2 = y1 + c.center_height as i64;
    let (min_x, max_x) = if col == 0 {
        (r.min_x, x1)
    } else if col == 1 {
        (x1, x2)
    } else {
        (x2, r.max_x)
    };
    let (min_y, max_y) = if row == 0 {
        (r.min_y, y1)
    } else if row == 1 {
        (y1, y2)
    } else {
        (y2, r.max_y)
    };
    Rect { min_x, min_y, max_x, max_y }
}

/// The nine quadrants of a rectangle split around a center box that lies inside
/// it cover the rectangle exactly: every point of the rectangle lies in one
/// quadrant, no point lies in two, and no quadrant reaches outside.
pub proof fn lemma_ninepatch_tiling(r: Rect, c: NinepatchCenter)
    requires
        center_inside(r, c),
    ensures
        forall|x: int, y: int|
            r.contains(x, y) ==> exists|q: int| 0 <= q < 9 && #[trigger] quadrant_spec(r, c, q).contains(x, y),
        forall|q: int, x: int, y: int|
            0 <= q < 9 && #[trigger] quadrant_spec(r, c, q).contains(x, y) ==> r.contains(x, y),
        forall|q1: int, q2: int, x: int, y: int|
            0 <= q1 < 9 && 0 <= q2 < 9 && q1 != q2 && #[trigger] quadrant_spec(r, c, q1).contains(x, y)
                ==> !#[trigger] quadrant_spec(r, c, q2).contains(x, y),
{
    assert forall|x: int, y: int| r.contains(x, y) implies exists|q: int|
        0 <= q < 9 && #[trigger] quadrant_spec(r, c, q).contains(x, y) by {
        let col: int = if x < r.min_x + c.center_x {
            0
        } else if x < r.min_x + c.center_x + c.center_width {
            1
        } else {
            2
        };
        let row: int = if y < r.min_y + c.center_y {
            0
        } else if y < r.min_y + c.center_y + c.center_height {
            1
        } else {
            2
        };
        let q = row * 3 + col;
        assert(q % 3 == col && q / 3 == row);
        assert(quadrant_spec(r, c, q).contains(x, y));
    }
    assert forall|q: int, x: int, y: int|
        0 <= q < 9 && #[trigger] quadrant_spec(r, c, q).contains(x, y) implies r.contains(x, y) by {
        assert(0 <= q % 3 < 3 && 0 <= q / 3 < 3);
    }
    assert forall|q1: int, q2: int, x: int, y: int|
        0 <= q1 < 9 && 0 <= q2 < 9 && q1 != q2 && #[trigger] quadrant_spec(r, c, q1).contains(x, y)
            implies !#[trigger] quadrant_spec(r, c, q2).contains(x, y) by {
        assert(q1 == (q1 / 3) * 3 + q1 % 3 && q2 == (q2 / 3) * 3 + q2 % 3);
        assert(0 <= q1 % 3 < 3 && 0 <= q1 / 3 < 3 && 0 <= q2 % 3 < 3 && 0 <= q2 / 3 < 3);
    }
}

} // verus!
