//! RGBA pixel blocks: copying a block into the atlas buffer and stacking cels.

use vstd::prelude::*;
use image::GenericImage;
use crate::document::{ancestors, LayerKind, SourceDocument};

verus! {

/// What `image::imageops::overlay` leaves in `bottom` after alpha-blending
/// `top` over it at the origin, both being `width` by `height` RGBA blocks.
pub uninterp spec fn overlay_of(bottom: Seq<u8>, top: Seq<u8>, width: u32, height: u32) -> Seq<u8>;

/// `buffer` (a `buf_w` pixels wide RGBA raster) with the `w` by `h` block
/// written over it at pixel `(x, y)`.
pub open spec fn blit(buffer: Seq<u8>, buf_w: int, block: Seq<u8>, w: int, h: int, x: int, y: int) -> Seq<u8> {
    Seq::new(
        buffer.len(),
        |i: int|
            {
                let px = (i / 4) % buf_w;
                let py = (i / 4) / buf_w;
                if x <= px < x + w && y <= py < y + h {
                    block[((py - y) * w + (px - x)) * 4 + i % 4]
                } else {
                    buffer[i]
                }
            },
    )
}

/// Relies on `image::GenericImage::copy_from`: when the block fits inside the
/// buffer at `(x, y)`, every pixel of the block is put at its offset position and
/// every other pixel is left as it was.
#[verifier::external_body]
pub(crate) fn copy_block(buffer: Vec<u8>, buf_w: u32, buf_h: u32, block: &Vec<u8>, w: u32, h: u32, x: u32, y: u32) -> (r: Vec<u8>)
    requires
        buffer@.len() == buf_w * buf_h * 4,
        block@.len() == w * h * 4,
        x + w <= buf_w,
        y + h <= buf_h,
    ensures
        r@ == blit(buffer@, buf_w as int, block@, w as int, h as int, x as int, y as int),
{
    let mut target = image::RgbaImage::from_raw(buf_w, buf_h, buffer).unwrap();
    let source = image::RgbaImage::from_raw(w, h, block.clone()).unwrap();
    let _ = target.copy_from(&source, x, y);
    target.into_raw()
}

/// Relies on `image::imageops::overlay`: blends `top` over `bottom` in place,
/// keeping the size of `bottom`.
#[verifier::external_body]
fn overlay_block(bottom: Vec<u8>, top: &Vec<u8>, width: u32, height: u32) -> (r: Vec<u8>)
    requires
        bottom@.len() == width * height * 4,
        top@.len() == width * height * 4,
    ensures
        r@ == overlay_of(bottom@, top@, width, height),
        r@.len() == bottom@.len(),
{
    let mut target = image::RgbaImage::from_raw(width, height, bottom).unwrap();
    let source = image::RgbaImage::from_raw(width, height, top.clone()).unwrap();
    image::imageops::overlay(&mut target, &source, 0, 0);
    target.into_raw()
}

/// The pixels that the cel at `index` (of `cels`) contributes: none for an
/// empty cel or a group layer.
pub open spec fn cel_pixels(doc: SourceDocument, index: int) -> Option<Seq<u8>> {
    let l = index / doc.num_frames as int;
    if doc.layers[l].kind == LayerKind::Group {
        None
    } else {
        match doc.cels[index] {
            Some(p) => Some(p@),
            None => None,
        }
    }
}

/// `acc` with the pixels of layer `a` in frame `f`, if any, blended over it.
pub open spec fn overlay_layer(doc: SourceDocument, f: int, a: int, acc: Seq<u8>) -> Seq<u8> {
    match cel_pixels(doc, a * doc.num_frames + f) {
        Some(p) => overlay_of(acc, p, doc.width, doc.height),
        None => acc,
    }
}

/// `base` with the cels of the layers in `anc`, in that order, blended over it.
pub open spec fn stack(doc: SourceDocument, f: int, base: Seq<u8>, anc: Seq<u32>) -> Seq<u8>
    decreases anc.len(),
{
    if anc.len() == 0 {
        base
    } else {
        stack(doc, f, overlay_layer(doc, f, anc[0] as int, base), anc.drop_first())
    }
}

/// The visible pixels of the cel of layer `l` in frame `f`: its own pixels at
/// the bottom, then the cel of each ancestor that has pixels in that frame,
/// walking the parent links upward.
pub open spec fn composite(doc: SourceDocument, f: int, l: int, own: Seq<u8>) -> Seq<u8> {
    stack(doc, f, own, ancestors(doc.layers@, l, doc.layers.len() as nat))
}

/// Composites the non-empty cel of layer `l` in frame `f`.
pub fn composite_cel(doc: &SourceDocument, f: usize, l: usize, chain: &Vec<u32>) -> (r: Vec<u8>)
    requires
        doc.shape_ok(),
        f < doc.num_frames,
        l < doc.layers.len(),
        cel_pixels(*doc, l * doc.num_frames + f) is Some,
        chain@ == ancestors(doc.layers@, l as int, doc.layers.len() as nat),
        forall|i: int| 0 <= i < chain.len() ==> (#[trigger] chain[i] as int) < doc.layers.len(),
    ensures
        r@ == composite(*doc, f as int, l as int, cel_pixels(*doc, l * doc.num_frames + f)->Some_0),
        r@.len() == doc.block_len(),
{
    let n = doc.num_frames as usize;
    proof {
        assert(l * n + f < doc.layers.len() * n) by (nonlinear_arith)
            requires l < doc.layers.len(), f < n;
        assert((l * n + f) / (n as int) == l) by (nonlinear_arith)
            requires f < n;
    }
    let mut acc = match &doc.cels[l * n + f] {
        Some(p) => p.clone(),
        None => Vec::new(),
    };
    proof {
        assert(acc@ =~= cel_pixels(*doc, l * n + f)->Some_0);
    }
    let ghost own = acc@;
    assert(chain@.subrange(0, chain.len() as int) =~= chain@);
    let mut i: usize = 0;
    while i < chain.len()
        invariant
            doc.shape_ok(),
            f < n,
            n == doc.num_frames,
            i <= chain.len(),
            forall|k: int| 0 <= k < chain.len() ==> (#[trigger] chain[k] as int) < doc.layers.len(),
            acc@.len() == doc.block_len(),
            stack(*doc, f as int, acc@, chain@.subrange(i as int, chain.len() as int))
                == stack(*doc, f as int, own, chain@),
        decreases chain.len() - i,
    {
        let a = chain[i] as usize;
        proof {
            assert(chain@.subrange(i as int, chain.len() as int).drop_first() =~= chain@.subrange(
                i + 1,
                chain.len() as int,
            ));
            assert(a * n + f < doc.layers.len() * n) by (nonlinear_arith)
                requires a < doc.layers.len(), f < n;
            assert((a * n + f) / (n as int) == a) by (nonlinear_arith)
                requires f < n;
        }
        if doc.layers[a].kind != LayerKind::Group {
            if let Some(p) = &doc.cels[a * n + f] {
                acc = overlay_block(acc, p, doc.width, doc.height);
            }
        }
        i = i + 1;
    }
    assert(chain@.subrange(chain.len() as int, chain.len() as int) =~= Seq::<u32>::empty());
    acc
}

} // verus!
