//! Painting glyphs onto a picture with premultiplied opacity.

use crate::canvas::{Canvas, Rgba};
use vstd::prelude::*;

verus! {

/// The mask of a glyph: how much of each pixel it covers, row by row.
#[derive(Debug)]
pub struct Mask {
    pub w: u32,
    pub h: u32,
    pub px: Vec<u8>,
}

impl Mask {
    /// Whether there is one byte for each pixel.
    pub open spec fn wf(self) -> bool {
        &&& self.w * self.h <= u32::MAX
        &&& self.px@.len() == self.w * self.h
        &&& self.w <= i32::MAX
        &&& self.h <= i32::MAX
    }

    /// How much of the pixel `(x, y)` the glyph covers; nothing outside it.
    pub open spec fn cover(self, x: int, y: int) -> u8 {
        if 0 <= x < self.w && 0 <= y < self.h {
            self.px@[y * self.w + x]
        } else {
            0
        }
    }
}

/// One channel after a source of the value `v` and the opacity `sa` is laid
/// over the value `d`.
pub open spec fn over(v: int, sa: int, d: u8) -> u8 {
    let sum = v * sa / 255 + d * (255 - sa) / 255;
    if sum > 255 {
        255
    } else {
        sum as u8
    }
}

/// A pixel after the colour is laid over it where a glyph covers it by
/// `cover`.
pub open spec fn laid_over(px: Rgba, color: Rgba, cover: u8) -> Rgba {
    let sa = cover * color.a / 255;
    if cover == 0 {
        px
    } else {
        Rgba {
            r: over(color.r as int, sa, px.r),
            g: over(color.g as int, sa, px.g),
            b: over(color.b as int, sa, px.b),
            a: over(255, sa, px.a),
        }
    }
}

fn lay_channel(v: u8, sa: u16, d: u8) -> (r: u8)
    requires
        sa <= 255,
    ensures
        r == over(v as int, sa as int, d),
{
    assert(0 <= v * sa <= 65_025) by (nonlinear_arith)
        requires
            0 <= v <= 255,
            0 <= sa <= 255,
    ;
    assert(0 <= d * (255 - sa) <= 65_025) by (nonlinear_arith)
        requires
            0 <= d <= 255,
            0 <= sa <= 255,
    ;
    let sum: u16 = (v as u16 * sa) / 255 + (d as u16 * (255 - sa)) / 255;
    if sum > 255 {
        255
    } else {
        sum as u8
    }
}

fn lay_over(px: Rgba, color: Rgba, cover: u8) -> (r: Rgba)
    ensures
        r == laid_over(px, color, cover),
{
    if cover == 0 {
        return px;
    }
    assert(0 <= cover * color.a <= 65_025) by (nonlinear_arith)
        requires
            0 <= cover <= 255,
            0 <= color.a <= 255,
    ;
    let sa: u16 = (cover as u16 * color.a as u16) / 255;
    Rgba {
        r: lay_channel(color.r, sa, px.r),
        g: lay_channel(color.g, sa, px.g),
        b: lay_channel(color.b, sa, px.b),
        a: lay_channel(255, sa, px.a),
    }
}

/// Paints a glyph in a colour, its upper left pixel at `(gx, gy)`. What lies
/// outside the picture is left out.
pub fn paint_glyph(img: &mut Canvas, glyph: &Mask, gx: i32, gy: i32, color: Rgba)
    requires
        old(img).wf(),
        glyph.wf(),
    ensures
        final(img).wf(),
        final(img).w == old(img).w,
        final(img).h == old(img).h,
        forall|x: int, y: int|
            final(img).inside(x, y) ==> #[trigger] final(img).spec_get(x, y) == laid_over(
                old(img).spec_get(x, y),
                color,
                glyph.cover(x - gx, y - gy),
            ),
{
    let ghost start = *img;
    let mut row: u32 = 0;
    while row < glyph.h
        invariant
            row <= glyph.h,
            glyph.wf(),
            img.wf(),
            img.w == start.w,
            img.h == start.h,
            forall|x: int, y: int|
                img.inside(x, y) ==> #[trigger] img.spec_get(x, y) == if y - gy < row {
                    laid_over(start.spec_get(x, y), color, glyph.cover(x - gx, y - gy))
                } else {
                    start.spec_get(x, y)
                },
        decreases glyph.h - row,
    {
        let y: i64 = gy as i64 + row as i64;
        if 0 <= y && y < img.h as i64 {
            let mut col: u32 = 0;
            while col < glyph.w
                invariant
                    row < glyph.h,
                    col <= glyph.w,
                    glyph.wf(),
                    img.wf(),
                    img.w == start.w,
                    img.h == start.h,
                    y == gy + row,
                    0 <= y < img.h,
                    forall|u: int, v: int|
                        img.inside(u, v) ==> #[trigger] img.spec_get(u, v) == if v - gy < row || (v
                            - gy == row && u - gx < col) {
                            laid_over(start.spec_get(u, v), color, glyph.cover(u - gx, v - gy))
                        } else {
                            start.spec_get(u, v)
                        },
                decreases glyph.w - col,
            {
                let x: i64 = gx as i64 + col as i64;
                if 0 <= x && x < img.w as i64 {
                    assert(0 <= row * glyph.w && row * glyph.w + col < glyph.w * glyph.h)
                        by (nonlinear_arith)
                        requires
                            0 <= row < glyph.h,
                            0 <= col < glyph.w,
                    ;
                    let cover: u8 = glyph.px[(row * glyph.w + col) as usize];
                    assert(cover == glyph.cover(x - gx, y - gy));
                    let px: Rgba = img.get(x as u32, y as u32);
                    img.put(x as u32, y as u32, lay_over(px, color, cover));
                }
                col += 1;
            }
        }
        row += 1;
    }
}

/// What a glyph does not cover keeps its colour, and a fully transparent
/// colour paints nothing.
pub proof fn law_uncovered_pixels_stay(px: Rgba, color: Rgba)
    ensures
        laid_over(px, color, 0) == px,
        forall|cover: u8| color.a == 0 ==> #[trigger] laid_over(px, color, cover) == px,
{
    assert forall|cover: u8| color.a == 0 implies #[trigger] laid_over(px, color, cover) == px by {
        assert(cover * 0 == 0);
        lemma_nothing_over(color.r as int, px.r);
        lemma_nothing_over(color.g as int, px.g);
        lemma_nothing_over(color.b as int, px.b);
        lemma_nothing_over(255, px.a);
    }
}

proof fn lemma_nothing_over(v: int, d: u8)
    ensures
        over(v, 0, d) == d,
{
    assert(v * 0 == 0);
    assert(d * 255 / 255 == d);
}

} // verus!
