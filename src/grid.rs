//! The uniform grid of the atlas: its size, the rectangle of each cell, and
//! packing pixel blocks into cells.

use vstd::prelude::*;
use crate::geometry::Rect;
use crate::raster::{blit, copy_block};
use vstd::arithmetic::div_mod::{lemma_fundamental_div_mod, lemma_mod_pos_bound};

verus! {

pub open spec fn ceil_sqrt_from(n: int, r: int) -> int
    decreases n - r,
{
    if r >= n || r * r >= n {
        r
    } else {
        ceil_sqrt_from(n, r + 1)
    }
}

/// The smallest `r` with `r * r >= n`.
pub open spec fn ceil_sqrt(n: int) -> int {
    ceil_sqrt_from(n, 0)
}

/// Rows (and columns) of the square grid for `count` cells.
pub open spec fn grid_rows(count: int) -> int {
    ceil_sqrt(count) + 1
}

/// The rectangle of grid cell `slot`: cells are `w + 1` by `h + 1` pixels, the
/// extra row and column being padding; the rectangle covers the unpadded part.
pub open spec fn cell_rect(slot: int, rows: int, w: int, h: int) -> Rect {
    let x = (slot % rows) * (w + 1);
    let y = (slot / rows) * (h + 1);
    Rect { min_x: x as i64, min_y: y as i64, max_x: (x + w) as i64, max_y: (y + h) as i64 }
}

/// `base` with the first `k` blocks written into their grid cells.
pub open spec fn fill(base: Seq<u8>, blocks: Seq<Seq<u8>>, k: int, rows: int, w: int, h: int) -> Seq<u8>
    decreases k,
{
    if k <= 0 {
        base
    } else {
        let s = k - 1;
        blit(fill(base, blocks, k - 1, rows, w, h), rows * (w + 1), blocks[s], w, h, (s % rows) * (w + 1), (s / rows) * (h + 1))
    }
}

pub open spec fn views(v: Seq<Vec<u8>>) -> Seq<Seq<u8>> {
    v.map_values(|b: Vec<u8>| b@)
}

/// A transparent raster of a `rows` by `rows` grid of `w + 1` by `h + 1` cells
/// with `blocks` written into its first cells.
pub open spec fn packed_raster(blocks: Seq<Seq<u8>>, rows: int, w: int, h: int) -> Seq<u8> {
    fill(Seq::new((rows * (w + 1) * rows * (h + 1) * 4) as nat, |i: int| 0u8), blocks, blocks.len() as int, rows, w, h)
}

/// `i` split into a major index below `m` and a minor index below `n`.
pub proof fn lemma_split_index(i: int, n: int, m: int)
    requires
        0 <= i < m * n,
        0 < n,
    ensures
        0 <= i / n < m,
        0 <= i % n < n,
        (i / n) * n + i % n == i,
{
    lemma_fundamental_div_mod(i, n);
    lemma_mod_pos_bound(i, n);
    assert((i / n) * n == n * (i / n)) by (nonlinear_arith);
    assert(0 <= i / n < m) by (nonlinear_arith)
        requires
            i == n * (i / n) + i % n,
            0 <= i % n < n,
            0 <= i < m * n,
    ;
}

pub proof fn lemma_ceil_sqrt_from(n: int, r: int)
    requires
        0 <= r,
    ensures
        ceil_sqrt_from(n, r) * ceil_sqrt_from(n, r) >= n,
        ceil_sqrt_from(n, r) >= r,
    decreases n - r,
{
    if r >= n {
        assert(r * r >= n) by (nonlinear_arith)
            requires r >= n, r >= 0;
    } else if r * r >= n {
    } else {
        lemma_ceil_sqrt_from(n, r + 1);
    }
}

/// A cell of a `rows` by `rows` grid lies inside the grid's raster.
pub proof fn lemma_cell_in_grid(s: int, rows: int, w: int, h: int)
    requires
        0 <= s < rows * rows,
        0 < rows,
        0 <= w,
        0 <= h,
    ensures
        0 <= (s % rows) * (w + 1),
        (s % rows) * (w + 1) + w < rows * (w + 1),
        0 <= (s / rows) * (h + 1),
        (s / rows) * (h + 1) + h < rows * (h + 1),
{
    lemma_split_index(s, rows, rows);
    let c = s % rows;
    let r = s / rows;
    assert(0 <= c * (w + 1) && c * (w + 1) + w < rows * (w + 1)) by (nonlinear_arith)
        requires 0 <= c < rows, 0 <= w;
    assert(0 <= r * (h + 1) && r * (h + 1) + h < rows * (h + 1)) by (nonlinear_arith)
        requires 0 <= r < rows, 0 <= h;
}

/// The side of the smallest square grid with at least `count` cells.
pub(crate) fn grid_side(count: u64) -> (r: u64)
    requires
        count <= u32::MAX,
    ensures
        r == ceil_sqrt(count as int),
        r <= 65536,
{
    let mut r: u64 = 0;
    loop
        invariant
            r <= 65536,
            count <= u32::MAX,
            ceil_sqrt_from(count as int, r as int) == ceil_sqrt(count as int),
        decreases count - r,
    {
        assert(r * r <= 65536 * 65536) by (nonlinear_arith)
            requires r <= 65536;
        if r >= count || r * r >= count {
            return r;
        }
        assert(r < 65536) by (nonlinear_arith)
            requires r * r < count, count <= u32::MAX, r <= 65536;
        r = r + 1;
    }
}

/// The rectangle of grid cell `slot`.
pub(crate) fn grid_cell_rect(slot: u64, rows: u64, w: u32, h: u32) -> (r: Rect)
    requires
        slot < rows * rows,
        0 < rows,
        rows * (w + 1) <= u32::MAX,
        rows * (h + 1) <= u32::MAX,
    ensures
        r == cell_rect(slot as int, rows as int, w as int, h as int),
        0 <= r.min_x <= u32::MAX,
        0 <= r.min_y <= u32::MAX,
{
    proof {
        lemma_cell_in_grid(slot as int, rows as int, w as int, h as int);
    }
    let x = (slot % rows) * (w as u64 + 1);
    let y = (slot / rows) * (h as u64 + 1);
    Rect { min_x: x as i64, min_y: y as i64, max_x: (x + w as u64) as i64, max_y: (y + h as u64) as i64 }
}

/// Packs `frames`, then `cels`, into the first cells of a transparent
/// `rows` by `rows` grid of `width + 1` by `height + 1` pixel cells, one block
/// per cell, row by row.
#[verifier::loop_isolation(false)]
pub fn pack_raster(frames: &Vec<Vec<u8>>, cels: &Vec<Vec<u8>>, rows: u64, width: u32, height: u32) -> (r: Vec<u8>)
    requires
        0 < rows,
        frames.len() + cels.len() <= rows * rows,
        forall|j: int| 0 <= j < frames.len() ==> (#[trigger] frames[j])@.len() == width * height * 4,
        forall|j: int| 0 <= j < cels.len() ==> (#[trigger] cels[j])@.len() == width * height * 4,
        rows * (width + 1) <= u32::MAX,
        rows * (height + 1) <= u32::MAX,
        rows * (width + 1) * rows * (height + 1) * 4 <= usize::MAX,
    ensures
        r@ == packed_raster(views(frames@) + views(cels@), rows as int, width as int, height as int),
{
    let n = frames.len();
    let bw = (rows * (width as u64 + 1)) as u32;
    let bh = (rows * (height as u64 + 1)) as u32;
    assert(rows * rows <= bw * bh * 4 && bw * bh * 4 == rows * (width + 1) * rows * (height + 1) * 4)
        by (nonlinear_arith)
        requires bw == rows * (width + 1), bh == rows * (height + 1), rows >= 0;
    let count = n + cels.len();
    let total = (bw as usize) * (bh as usize) * 4;
    let mut buf: Vec<u8> = vec![0u8; total];
    let ghost base = Seq::new((bw * bh * 4) as nat, |i: int| 0u8);
    assert(buf@ =~= base);
    let ghost blocks = views(frames@) + views(cels@);
    assert(base =~= Seq::new((rows * (width + 1) * rows * (height + 1) * 4) as nat, |i: int| 0u8));
    let mut s: usize = 0;
    while s < count
        invariant
            s <= count,
            buf@.len() == bw * bh * 4,
            buf@ == fill(base, blocks, s as int, rows as int, width as int, height as int),
        decreases count - s,
    {
        proof {
            lemma_cell_in_grid(s as int, rows as int, width as int, height as int);
        }
        let x = ((s as u64 % rows) * (width as u64 + 1)) as u32;
        let y = ((s as u64 / rows) * (height as u64 + 1)) as u32;
        if s < n {
            buf = copy_block(buf, bw, bh, &frames[s], width, height, x, y);
        } else {
            buf = copy_block(buf, bw, bh, &cels[s - n], width, height, x, y);
        }
        s = s + 1;
    }
    buf
}

pub(crate) proof fn lemma_cell_gap(a: int, b: int, w: int)
    requires
        0 <= a < b,
        0 <= w,
    ensures
        a * (w + 1) + w < b * (w + 1),
{
    assert(a * (w + 1) + w < b * (w + 1)) by (nonlinear_arith)
        requires a + 1 <= b, 0 <= w;
}

} // verus!
