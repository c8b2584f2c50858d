//! The bridge from our framebuffer to a window.
//!
//! The pixel conversion lives here, testable on its own, so the windowing code
//! stays a thin loop. `to_argb` turns a 160x144 shade buffer into a scaled
//! 0xAARRGGBB buffer a window can blit.
use crate::render::{gray_of, Framebuffer};
use vstd::prelude::*;

verus! {

/// A scale of at least one.
pub open spec fn effective_scale(scale: usize) -> int {
    if scale == 0 { 1 } else { scale as int }
}

/// An opaque gray pixel in 0xAARRGGBB form.
pub open spec fn argb_of(g: u8) -> u32 {
    0xFF00_0000u32 | ((g as u32) << 16u32) | ((g as u32) << 8u32) | (g as u32)
}

/// The pixel size of the scaled buffer: (width, height).
pub fn scaled_size(scale: usize) -> (r: (usize, usize))
    requires
        160 * effective_scale(scale) <= usize::MAX,
    ensures
        r.0 == 160 * effective_scale(scale),
        r.1 == 144 * effective_scale(scale),
{
    let scale = if scale == 0 { 1 } else { scale };
    (160 * scale, 144 * scale)
}

/// Convert the framebuffer to 0xAARRGGBB pixels, each source pixel expanded into
/// a `scale` by `scale` block. Fully opaque. Scale is at least 1.
#[verifier::rlimit(40)]
pub fn to_argb(fb: &Framebuffer, scale: usize) -> (buf: Vec<u32>)
    requires
        fb.wf(),
        23040 * effective_scale(scale) * effective_scale(scale) <= usize::MAX,
    ensures
        buf@.len() == 23040 * effective_scale(scale) * effective_scale(scale),
        forall|ox: int, oy: int|
            0 <= ox < 160 * effective_scale(scale) && 0 <= oy < 144 * effective_scale(scale) ==> #[trigger] buf@[oy * (160
                * effective_scale(scale)) + ox] == argb_of(gray_of(fb.at(ox / effective_scale(scale), oy / effective_scale(scale)))),
{
    let s = if scale == 0 { 1 } else { scale };
    assert(160 * s <= 23040 * s * s) by (nonlinear_arith)
        requires s >= 1;
    assert(144 * s <= 23040 * s * s) by (nonlinear_arith)
        requires s >= 1;
    let w = 160 * s;
    let h = 144 * s;
    assert(w * h == 23040 * s * s) by (nonlinear_arith)
        requires w == 160 * s, h == 144 * s;
    let mut buf: Vec<u32> = Vec::new();
    let mut oy: usize = 0;
    while oy < h
        invariant
            oy <= h,
            s >= 1,
            s == effective_scale(scale),
            w == 160 * s,
            h == 144 * s,
            w * h <= usize::MAX,
            fb.wf(),
            buf@.len() == oy * w,
            forall|x: int, y: int| 0 <= x < w && 0 <= y < oy ==> #[trigger] buf@[y * w + x] == argb_of(gray_of(fb.at(x / s as int, y / s as int))),
        decreases h - oy,
    {
        let y = oy / s;
        assert(y < 144) by (nonlinear_arith)
            requires y == oy / s, oy < h, h == 144 * s, s >= 1;
        let mut ox: usize = 0;
        while ox < w
            invariant
                ox <= w,
                oy < h,
                s >= 1,
                y == oy / s,
                y < 144,
                w == 160 * s,
                h == 144 * s,
                w * h <= usize::MAX,
                fb.wf(),
                buf@.len() == oy * w + ox,
                forall|x: int, yy: int| 0 <= x < w && 0 <= yy < oy ==> #[trigger] buf@[yy * w + x] == argb_of(gray_of(fb.at(x / s as int, yy / s as int))),
                forall|x: int| 0 <= x < ox ==> #[trigger] buf@[oy * w + x] == argb_of(gray_of(fb.at(x / s as int, oy as int / s as int))),
            decreases w - ox,
        {
            let x = ox / s;
            assert(x < 160) by (nonlinear_arith)
                requires x == ox / s, ox < w, w == 160 * s, s >= 1;
            let g = fb.get(x as u32, y as u32).to_gray() as u32;
            let argb = 0xFF00_0000 | (g << 16) | (g << 8) | g;
            let ghost before = buf@;
            assert(oy * w + ox < w * h) by (nonlinear_arith)
                requires ox < w, oy < h;
            buf.push(argb);
            proof {
                assert forall|xx: int, yy: int| 0 <= xx < w && 0 <= yy < oy implies #[trigger] buf@[yy * w + xx] == argb_of(gray_of(fb.at(xx / s as int, yy / s as int))) by {
                    assert(yy * w + xx < oy * w) by (nonlinear_arith)
                        requires 0 <= xx < w, 0 <= yy < oy;
                    assert(buf@[yy * w + xx] == before[yy * w + xx]);
                }
                assert forall|xx: int| 0 <= xx < ox + 1 implies #[trigger] buf@[oy * w + xx] == argb_of(gray_of(fb.at(xx / s as int, oy as int / s as int))) by {
                    if xx < ox {
                        assert(buf@[oy * w + xx] == before[oy * w + xx]);
                    }
                }
            }
            ox = ox + 1;
        }
        proof {
            assert((oy + 1) * w == oy * w + w) by (nonlinear_arith);
            assert forall|x: int, yy: int| 0 <= x < w && 0 <= yy < oy + 1 implies #[trigger] buf@[yy * w + x] == argb_of(gray_of(fb.at(x / s as int, yy / s as int))) by {
                if yy == oy {
                    assert(buf@[oy * w + x] == argb_of(gray_of(fb.at(x / s as int, oy as int / s as int))));
                }
            }
        }
        oy = oy + 1;
    }
    assert(oy * w == w * h) by (nonlinear_arith)
        requires oy == h;
    buf
}

} // verus!
