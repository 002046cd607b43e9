//! RGBA8 pixel buffers: a flat, row-major byte sequence with its dimensions.
use vstd::prelude::*;

verus! {

/// One RGBA8 pixel.
#[derive(Clone, Copy, Debug, PartialEq, Eq, Structural)]
pub struct Rgba {
    pub r: u8,
    pub g: u8,
    pub b: u8,
    pub a: u8,
}

/// A `width` by `height` image stored row-major, four bytes (R, G, B, A)
/// per pixel. It is well formed when `bytes` holds exactly
/// `width * height * 4` bytes.
pub struct PixelBuffer {
    pub width: u16,
    pub height: u16,
    pub bytes: Vec<u8>,
}

/// Row-major index of `(x, y)` in a grid `w` cells wide.
pub open spec fn grid_index(w: int, x: int, y: int) -> int {
    y * w + x
}

/// Cells before `(x1, y1)` in row-major order have smaller indices.
pub proof fn lemma_grid_index_order(w: int, x1: int, y1: int, x2: int, y2: int)
    requires
        0 <= x1 < w,
        0 <= x2 < w,
        y1 < y2 || (y1 == y2 && x1 < x2),
    ensures
        grid_index(w, x1, y1) < grid_index(w, x2, y2),
{
    if y1 < y2 {
        assert(y1 * w + w <= y2 * w) by (nonlinear_arith)
            requires
                y1 < y2,
                0 < w,
        ;
    }
}

/// An in-range cell has an index below `w * h`.
pub proof fn lemma_grid_index_bound(w: int, h: int, x: int, y: int)
    requires
        0 <= x < w,
        0 <= y < h,
    ensures
        0 <= grid_index(w, x, y) < w * h,
{
    assert(0 <= y * w + x < w * h) by (nonlinear_arith)
        requires
            0 <= x < w,
            0 <= y < h,
    ;
}

/// Distinct in-range cells have distinct indices.
pub proof fn lemma_grid_index_injective(w: int, x1: int, y1: int, x2: int, y2: int)
    requires
        0 <= x1 < w,
        0 <= x2 < w,
        x1 != x2 || y1 != y2,
    ensures
        grid_index(w, x1, y1) != grid_index(w, x2, y2),
{
    if y1 < y2 || (y1 == y2 && x1 < x2) {
        lemma_grid_index_order(w, x1, y1, x2, y2);
    } else {
        lemma_grid_index_order(w, x2, y2, x1, y1);
    }
}

impl PixelBuffer {
    /// Number of pixels.
    pub open spec fn num_pixels(&self) -> nat {
        (self.width * self.height) as nat
    }

    /// The byte length matches the dimensions.
    pub open spec fn wf(&self) -> bool {
        self.bytes@.len() == self.num_pixels() * 4
    }

    pub open spec fn in_bounds(&self, x: int, y: int) -> bool {
        0 <= x < self.width && 0 <= y < self.height
    }

    /// The pixel held by the four bytes starting at `4 * i`.
    pub open spec fn pixel(&self, i: int) -> Rgba {
        Rgba {
            r: self.bytes@[4 * i],
            g: self.bytes@[4 * i + 1],
            b: self.bytes@[4 * i + 2],
            a: self.bytes@[4 * i + 3],
        }
    }

    /// All pixels, row by row.
    pub open spec fn pixels(&self) -> Seq<Rgba> {
        Seq::new(self.num_pixels(), |i: int| self.pixel(i))
    }

    /// The pixel in column `x` of row `y`.
    pub open spec fn pixel_at(&self, x: int, y: int) -> Rgba {
        self.pixels()[grid_index(self.width as int, x, y)]
    }

    /// A buffer over `bytes`, or `None` when their number is not
    /// `width * height * 4`.
    pub fn from_bytes(width: u16, height: u16, bytes: Vec<u8>) -> (r: Option<PixelBuffer>)
        ensures
            r.is_some() <==> bytes@.len() == width * height * 4,
            r matches Some(b) ==> b.wf() && b.width == width && b.height == height && b.bytes@ == bytes@,
    {
        proof {
            assert(width * height <= 0xffff * 0xffff) by (nonlinear_arith)
                requires
                    width <= 0xffff,
                    height <= 0xffff,
            ;
        }
        let n = (width as u64) * (height as u64);
        if bytes.len() as u64 == n * 4 {
            Some(PixelBuffer { width, height, bytes })
        } else {
            None
        }
    }

    /// A `width` by `height` buffer with every pixel `color`.
    pub fn filled(width: u16, height: u16, color: Rgba) -> (r: PixelBuffer)
        requires
            width * height * 4 <= usize::MAX,
        ensures
            r.wf(),
            r.width == width,
            r.height == height,
            r.pixels() == Seq::new(r.num_pixels(), |i: int| color),
    {
        let n = (width as usize) * (height as usize);
        let mut bytes: Vec<u8> = Vec::new();
        let mut i: usize = 0;
        while i < n
            invariant
                n == width * height,
                n * 4 <= usize::MAX,
                i <= n,
                bytes@.len() == 4 * i,
                forall|j: int| 0 <= j < i ==> {
                    &&& #[trigger] bytes@[4 * j] == color.r
                    &&& bytes@[4 * j + 1] == color.g
                    &&& bytes@[4 * j + 2] == color.b
                    &&& bytes@[4 * j + 3] == color.a
                },
            decreases n - i,
        {
            let ghost prev = bytes@;
            bytes.push(color.r);
            bytes.push(color.g);
            bytes.push(color.b);
            bytes.push(color.a);
            proof {
                assert forall|j: int| 0 <= j < i + 1 implies {
                    &&& #[trigger] bytes@[4 * j] == color.r
                    &&& bytes@[4 * j + 1] == color.g
                    &&& bytes@[4 * j + 2] == color.b
                    &&& bytes@[4 * j + 3] == color.a
                } by {
                    if j < i {
                        assert(bytes@[4 * j] == prev[4 * j]);
                        assert(bytes@[4 * j + 1] == prev[4 * j + 1]);
                        assert(bytes@[4 * j + 2] == prev[4 * j + 2]);
                        assert(bytes@[4 * j + 3] == prev[4 * j + 3]);
                    }
                }
            }
            i = i + 1;
        }
        let r = PixelBuffer { width, height, bytes };
        proof {
            assert(r.pixels() =~= Seq::new(r.num_pixels(), |i: int| color));
        }
        r
    }

    /// The byte offset of pixel `(x, y)`.
    pub fn offset(&self, x: usize, y: usize) -> (r: usize)
        requires
            self.wf(),
            self.in_bounds(x as int, y as int),
        ensures
            r == 4 * grid_index(self.width as int, x as int, y as int),
            r + 4 <= self.bytes@.len(),
    {
        let len = self.bytes.len();
        proof {
            lemma_grid_index_bound(self.width as int, self.height as int, x as int, y as int);
        }
        (y * (self.width as usize) + x) * 4
    }

    /// Sets pixel `(x, y)` to `color`, leaving every other pixel as it was.
    pub fn set_pixel(&mut self, x: usize, y: usize, color: Rgba)
        requires
            old(self).wf(),
            old(self).in_bounds(x as int, y as int),
        ensures
            final(self).wf(),
            final(self).width == old(self).width,
            final(self).height == old(self).height,
            final(self).pixels() == old(self).pixels().update(
                grid_index(old(self).width as int, x as int, y as int),
                color,
            ),
    {
        let o = self.offset(x, y);
        self.bytes[o] = color.r;
        self.bytes[o + 1] = color.g;
        self.bytes[o + 2] = color.b;
        self.bytes[o + 3] = color.a;
        proof {
            assert(self.pixels() =~= old(self).pixels().update(
                grid_index(old(self).width as int, x as int, y as int),
                color,
            ));
        }
    }

    /// The pixel in column `x` of row `y`.
    pub fn get_pixel(&self, x: usize, y: usize) -> (r: Rgba)
        requires
            self.wf(),
            self.in_bounds(x as int, y as int),
        ensures
            r == self.pixel_at(x as int, y as int),
    {
        let o = self.offset(x, y);
        Rgba { r: self.bytes[o], g: self.bytes[o + 1], b: self.bytes[o + 2], a: self.bytes[o + 3] }
    }
}

} // verus!
