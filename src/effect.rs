//! The transform engine: rotozoom resampling and the two screen transitions.
use vstd::prelude::*;
use crate::buffer::{
    grid_index, lemma_grid_index_bound, lemma_grid_index_injective, lemma_grid_index_order, PixelBuffer, Rgba,
};
use crate::sampling::{sample_x, sample_y, source_point, trunc_fixed};
use crate::wrap::wrap;

verus! {

/// Columns the curtain wipe advances per call.
pub const CURTAIN_STEP: u32 = 5;

/// Alpha removed from each pixel per fade call.
pub const FADE_STEP: u8 = 5;

/// The source pixel that destination pixel `(x, y)` of a `w` by `h`
/// destination shows after a rotozoom with step `(dx, dy)`: the integer
/// part of the sampled point, wrapped onto the source.
pub open spec fn rotozoom_pixel(src: PixelBuffer, dx: int, dy: int, w: int, h: int, x: int, y: int) -> Rgba {
    src.pixel_at(
        trunc_fixed(sample_x(dx, dy, w, h, x, y)) % (src.width as int),
        trunc_fixed(sample_y(dx, dy, w, h, x, y)) % (src.height as int),
    )
}

/// Curtain width after one wipe call on a destination `w` columns wide.
pub open spec fn curtain_advance(c: int, w: int) -> int {
    if c < w {
        if c + 5 <= w {
            c + 5
        } else {
            w
        }
    } else {
        c
    }
}

/// `after` is what one wipe call with `color` makes of `before`: the
/// curtain advances by `curtain_advance`, the newly covered columns take
/// `color`, and nothing else changes.
pub open spec fn curtain_step(before: Effect, after: Effect, color: Rgba) -> bool {
    &&& after.src == before.src
    &&& after.dst.width == before.dst.width
    &&& after.dst.height == before.dst.height
    &&& after.curtain_width == curtain_advance(before.curtain_width as int, before.dst.width as int)
    &&& forall|x: int, y: int|
        before.dst.in_bounds(x, y) ==> #[trigger] after.dst.pixel_at(x, y) == if before.curtain_width
            <= x < after.curtain_width {
            color
        } else {
            before.dst.pixel_at(x, y)
        }
}

/// A pixel with its alpha lowered by `FADE_STEP`, floored at zero.
pub open spec fn faded(p: Rgba) -> Rgba {
    Rgba { r: p.r, g: p.g, b: p.b, a: if p.a > 5 { (p.a - 5) as u8 } else { 0 } }
}

/// Owns a source image and a destination framebuffer, and tracks how far
/// the curtain wipe has progressed. Well formed when both buffers are and
/// the curtain is no wider than the destination.
pub struct Effect {
    pub curtain_width: u32,
    pub src: PixelBuffer,
    pub dst: PixelBuffer,
}

impl Effect {
    pub open spec fn wf(&self) -> bool {
        &&& self.src.wf()
        &&& self.dst.wf()
        &&& self.curtain_width <= self.dst.width
    }

    /// An engine over `src` and `dst` with no curtain drawn yet.
    pub fn new(src: PixelBuffer, dst: PixelBuffer) -> (r: Effect)
        requires
            src.wf(),
            dst.wf(),
        ensures
            r.wf(),
            r.curtain_width == 0,
            r.src == src,
            r.dst == dst,
    {
        Effect { curtain_width: 0, src, dst }
    }

    /// Copies the four bytes of source pixel `(src_x, src_y)` over
    /// destination pixel `(dst_x, dst_y)`; nothing else changes.
    pub fn copy_pixel(&mut self, src_x: usize, src_y: usize, dst_x: usize, dst_y: usize)
        requires
            old(self).wf(),
            old(self).src.in_bounds(src_x as int, src_y as int),
            old(self).dst.in_bounds(dst_x as int, dst_y as int),
        ensures
            final(self).wf(),
            final(self).src == old(self).src,
            final(self).curtain_width == old(self).curtain_width,
            final(self).dst.width == old(self).dst.width,
            final(self).dst.height == old(self).dst.height,
            final(self).dst.pixels() == old(self).dst.pixels().update(
                grid_index(old(self).dst.width as int, dst_x as int, dst_y as int),
                old(self).src.pixel_at(src_x as int, src_y as int),
            ),
    {
        let so = self.src.offset(src_x, src_y);
        let d = self.dst.offset(dst_x, dst_y);
        let r = self.src.bytes[so];
        let g = self.src.bytes[so + 1];
        let b = self.src.bytes[so + 2];
        let a = self.src.bytes[so + 3];
        self.dst.bytes[d] = r;
        self.dst.bytes[d + 1] = g;
        self.dst.bytes[d + 2] = b;
        self.dst.bytes[d + 3] = a;
        proof {
            assert(self.dst.pixels() =~= old(self).dst.pixels().update(
                grid_index(old(self).dst.width as int, dst_x as int, dst_y as int),
                old(self).src.pixel_at(src_x as int, src_y as int),
            ));
        }
    }

    /// Redraws every destination pixel from the source under the 16.16
    /// fixed-point step `(dx, dy)`: pixel `(x, y)` takes the source pixel at
    /// the integer part of its sampled point, wrapped onto the source.
    pub fn rotozoom(&mut self, dx: i32, dy: i32)
        requires
            old(self).wf(),
            old(self).src.width > 0,
            old(self).src.height > 0,
        ensures
            final(self).wf(),
            final(self).src == old(self).src,
            final(self).curtain_width == old(self).curtain_width,
            final(self).dst.width == old(self).dst.width,
            final(self).dst.height == old(self).dst.height,
            forall|x: int, y: int|
                old(self).dst.in_bounds(x, y) ==> #[trigger] final(self).dst.pixel_at(x, y)
                    == rotozoom_pixel(
                    old(self).src,
                    dx as int,
                    dy as int,
                    old(self).dst.width as int,
                    old(self).dst.height as int,
                    x,
                    y,
                ),
    {
        let w = self.dst.width;
        let h = self.dst.height;
        let sw = self.src.width as i64;
        let sh = self.src.height as i64;
        let mut y: u16 = 0;
        while y < h
            invariant
                self.wf(),
                self.src == old(self).src,
                self.curtain_width == old(self).curtain_width,
                self.dst.width == w,
                self.dst.height == h,
                w == old(self).dst.width,
                h == old(self).dst.height,
                sw == self.src.width,
                sh == self.src.height,
                sw > 0,
                sh > 0,
                y <= h,
                forall|px: int, py: int|
                    0 <= px < w && 0 <= py < y ==> #[trigger] self.dst.pixel_at(px, py)
                        == rotozoom_pixel(self.src, dx as int, dy as int, w as int, h as int, px, py),
            decreases h - y,
        {
            let mut x: u16 = 0;
            while x < w
                invariant
                    self.wf(),
                    self.src == old(self).src,
                    self.curtain_width == old(self).curtain_width,
                    self.dst.width == w,
                    self.dst.height == h,
                    sw == self.src.width,
                    sh == self.src.height,
                    sw > 0,
                    sh > 0,
                    y < h,
                    x <= w,
                    forall|px: int, py: int|
                        0 <= px < w && 0 <= py <= y && (py < y || px < x)
                            ==> #[trigger] self.dst.pixel_at(px, py)
                            == rotozoom_pixel(self.src, dx as int, dy as int, w as int, h as int, px, py),
                decreases w - x,
            {
                let (fx, fy) = source_point(dx, dy, w, h, x, y);
                let (sx, sy) = wrap(fx, fy, sw, sh);
                let ghost before = self.dst;
                self.copy_pixel(sx as usize, sy as usize, x as usize, y as usize);
                proof {
                    lemma_grid_index_bound(w as int, h as int, x as int, y as int);
                    assert forall|px: int, py: int|
                        0 <= px < w && 0 <= py <= y && (py < y || px < x + 1) implies
                        #[trigger] self.dst.pixel_at(px, py)
                            == rotozoom_pixel(self.src, dx as int, dy as int, w as int, h as int, px, py) by {
                        lemma_grid_index_bound(w as int, h as int, px, py);
                        if py < y || px < x {
                            lemma_grid_index_order(w as int, px, py, x as int, y as int);
                            assert(self.dst.pixel_at(px, py) == before.pixel_at(px, py));
                        }
                    }
                }
                x = x + 1;
            }
            y = y + 1;
        }
    }

    /// Paints column `x` of the destination with `color`.
    fn fill_column(&mut self, x: usize, color: Rgba)
        requires
            old(self).wf(),
            x < old(self).dst.width,
        ensures
            final(self).wf(),
            final(self).src == old(self).src,
            final(self).curtain_width == old(self).curtain_width,
            final(self).dst.width == old(self).dst.width,
            final(self).dst.height == old(self).dst.height,
            forall|px: int, py: int|
                old(self).dst.in_bounds(px, py) ==> #[trigger] final(self).dst.pixel_at(px, py)
                    == if px == x {
                    color
                } else {
                    old(self).dst.pixel_at(px, py)
                },
    {
        let h = self.dst.height as usize;
        let w = self.dst.width;
        let mut y: usize = 0;
        while y < h
            invariant
                self.wf(),
                self.src == old(self).src,
                self.curtain_width == old(self).curtain_width,
                self.dst.width == w,
                w == old(self).dst.width,
                self.dst.height == h,
                h == old(self).dst.height,
                x < w,
                y <= h,
                forall|px: int, py: int|
                    0 <= px < w && 0 <= py < h ==> #[trigger] self.dst.pixel_at(px, py)
                        == if px == x && py < y {
                        color
                    } else {
                        old(self).dst.pixel_at(px, py)
                    },
            decreases h - y,
        {
            let ghost before = self.dst;
            self.dst.set_pixel(x, y, color);
            proof {
                lemma_grid_index_bound(w as int, h as int, x as int, y as int);
                assert forall|px: int, py: int| 0 <= px < w && 0 <= py < h implies
                    #[trigger] self.dst.pixel_at(px, py) == if px == x && py < y + 1 {
                        color
                    } else {
                        old(self).dst.pixel_at(px, py)
                    } by {
                    lemma_grid_index_bound(w as int, h as int, px, py);
                    if px != x || py != y {
                        lemma_grid_index_injective(w as int, px, py, x as int, y as int);
                        assert(self.dst.pixel_at(px, py) == before.pixel_at(px, py));
                    }
                }
            }
            y = y + 1;
        }
    }

    /// Advances the curtain wipe: paints up to `CURTAIN_STEP` more columns,
    /// starting at the current curtain width, with `color`, stopping at the
    /// right edge. Once the curtain spans the destination this does nothing.
    pub fn left_curtain(&mut self, color: Rgba)
        requires
            old(self).wf(),
        ensures
            final(self).wf(),
            curtain_step(*old(self), *final(self), color),
    {
        let w = self.dst.width as u32;
        if self.curtain_width < w {
            let mut i: u32 = 0;
            while i < CURTAIN_STEP && self.curtain_width < w
                invariant
                    self.wf(),
                    self.src == old(self).src,
                    self.dst.width == old(self).dst.width,
                    self.dst.height == old(self).dst.height,
                    w == self.dst.width,
                    i <= CURTAIN_STEP,
                    self.curtain_width == old(self).curtain_width + i,
                    forall|x: int, y: int|
                        old(self).dst.in_bounds(x, y) ==> #[trigger] self.dst.pixel_at(x, y)
                            == if old(self).curtain_width <= x < self.curtain_width {
                            color
                        } else {
                            old(self).dst.pixel_at(x, y)
                        },
                decreases CURTAIN_STEP - i,
            {
                let ghost before = self.dst;
                self.fill_column(self.curtain_width as usize, color);
                proof {
                    assert forall|x: int, y: int| old(self).dst.in_bounds(x, y) implies
                        #[trigger] self.dst.pixel_at(x, y) == if old(self).curtain_width <= x
                            < self.curtain_width + 1 {
                            color
                        } else {
                            old(self).dst.pixel_at(x, y)
                        } by {
                        assert(before.pixel_at(x, y) == if old(self).curtain_width <= x
                            < self.curtain_width {
                            color
                        } else {
                            old(self).dst.pixel_at(x, y)
                        });
                    }
                }
                self.curtain_width = self.curtain_width + 1;
                i = i + 1;
            }
        }
    }

    /// Fills the whole destination with `color`. The curtain is left as it
    /// was: filling is not a wipe.
    pub fn set_color(&mut self, color: Rgba)
        requires
            old(self).wf(),
        ensures
            final(self).wf(),
            final(self).src == old(self).src,
            final(self).curtain_width == old(self).curtain_width,
            final(self).dst.width == old(self).dst.width,
            final(self).dst.height == old(self).dst.height,
            final(self).dst.pixels() == Seq::new(old(self).dst.num_pixels(), |i: int| color),
    {
        let len = self.dst.bytes.len();
        let n = len / 4;
        let mut i: usize = 0;
        while i < n
            invariant
                self.wf(),
                self.src == old(self).src,
                self.curtain_width == old(self).curtain_width,
                self.dst.width == old(self).dst.width,
                self.dst.height == old(self).dst.height,
                n == self.dst.num_pixels(),
                4 * n <= usize::MAX,
                i <= n,
                forall|j: int| 0 <= j < i ==> #[trigger] self.dst.pixels()[j] == color,
            decreases n - i,
        {
            let ghost before = self.dst;
            let o = 4 * i;
            self.dst.bytes[o] = color.r;
            self.dst.bytes[o + 1] = color.g;
            self.dst.bytes[o + 2] = color.b;
            self.dst.bytes[o + 3] = color.a;
            proof {
                assert(self.dst.pixels() =~= before.pixels().update(i as int, color));
            }
            i = i + 1;
        }
        proof {
            assert(self.dst.pixels() =~= Seq::new(old(self).dst.num_pixels(), |i: int| color));
        }
    }

    /// Lowers the alpha of every destination pixel by `FADE_STEP`, stopping
    /// at zero. Colour bytes are left as they are.
    pub fn make_transparent(&mut self)
        requires
            old(self).wf(),
        ensures
            final(self).wf(),
            final(self).src == old(self).src,
            final(self).curtain_width == old(self).curtain_width,
            final(self).dst.width == old(self).dst.width,
            final(self).dst.height == old(self).dst.height,
            final(self).dst.pixels() == old(self).dst.pixels().map_values(|p: Rgba| faded(p)),
    {
        let len = self.dst.bytes.len();
        let n = len / 4;
        let mut i: usize = 0;
        while i < n
            invariant
                self.wf(),
                self.src == old(self).src,
                self.curtain_width == old(self).curtain_width,
                self.dst.width == old(self).dst.width,
                self.dst.height == old(self).dst.height,
                n == self.dst.num_pixels(),
                4 * n <= usize::MAX,
                i <= n,
                forall|j: int| 0 <= j < i ==> #[trigger] self.dst.pixels()[j] == faded(old(self).dst.pixels()[j]),
                forall|j: int| i <= j < n ==> #[trigger] self.dst.pixels()[j] == old(self).dst.pixels()[j],
            decreases n - i,
        {
            let ghost before = self.dst;
            let o = 4 * i + 3;
            let alpha = self.dst.bytes[o];
            if alpha > FADE_STEP {
                self.dst.bytes[o] = alpha - FADE_STEP;
            } else {
                self.dst.bytes[o] = 0;
            }
            proof {
                assert(self.dst.pixels() =~= before.pixels().update(i as int, faded(before.pixels()[i as int])));
            }
            i = i + 1;
        }
        proof {
            assert(self.dst.pixels() =~= old(self).dst.pixels().map_values(|p: Rgba| faded(p)));
        }
    }
}

} // verus!
