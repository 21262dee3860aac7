//! The raster buffer: a single-channel, row-major pixel buffer with its
//! dimensions.  It is the common currency between every pipeline stage;
//! resizing keeps the shared prefix and zero-fills growth, and all pixel
//! addressing clamps to the border.

use crate::program_cpu::edge_value;
use crate::program_cpu::offset_of;
use crate::program_cpu::sdf_value;
use vstd::arithmetic::div_mod::lemma_fundamental_div_mod;
use vstd::prelude::*;

verus! {

/// A single-channel raster image: one byte per pixel, row-major.
pub struct MonoImage {
    /// The pixel bytes, `width * height` of them.
    pub pixels: Vec<u8>,
    /// Width in pixels.
    pub width: usize,
    /// Height in pixels.
    pub height: usize,
}

/// How resizing rewrites a pixel buffer: the prefix shared with the old
/// buffer is kept, anything beyond it is zero.
pub open spec fn resized(old_pixels: Seq<u8>, n: int) -> Seq<u8> {
    Seq::new(
        n as nat,
        |i: int|
            if i < old_pixels.len() {
                old_pixels[i]
            } else {
                0u8
            },
    )
}

impl MonoImage {
    /// The buffer invariant: exactly one byte per pixel.
    pub open spec fn wf(&self) -> bool {
        self.pixels@.len() == self.width * self.height
    }

    /// A zero-filled image of the given dimensions.
    pub fn new(width: usize, height: usize) -> (r: Self)
        requires
            width * height <= usize::MAX,
        ensures
            r.wf(),
            r.width == width,
            r.height == height,
            forall|i: int| 0 <= i < r.pixels@.len() ==> r.pixels@[i] == 0,
    {
        let n = width * height;
        let mut pixels: Vec<u8> = Vec::new();
        while pixels.len() < n
            invariant
                pixels@.len() <= n,
                forall|i: int| 0 <= i < pixels@.len() ==> pixels@[i] == 0,
            decreases n - pixels@.len(),
        {
            pixels.push(0);
        }
        Self { pixels, width, height }
    }

    /// The row-major offset of `(x, y)`, clamped to the image border.
    pub fn offset(&self, x: usize, y: usize) -> (r: usize)
        requires
            self.wf(),
            1 <= self.width,
            1 <= self.height,
        ensures
            r == offset_of(x as int, y as int, self.width as int, self.height as int),
            r < self.pixels@.len(),
    {
        let n = self.pixels.len();
        let x = if x > self.width - 1 {
            self.width - 1
        } else {
            x
        };
        let y = if y > self.height - 1 {
            self.height - 1
        } else {
            y
        };
        proof {
            assert(0 <= y * self.width && y * self.width + x < self.width * self.height)
                by (nonlinear_arith)
                requires
                    0 <= x <= self.width - 1,
                    0 <= y <= self.height - 1,
                    1 <= self.width,
            ;
            assert(self.width * self.height == n);
        }
        y * self.width + x
    }

    /// Writes one pixel at `(x, y)`, clamped to the border.
    pub fn set_pixel(&mut self, x: usize, y: usize, p: u8)
        requires
            old(self).wf(),
            1 <= old(self).width,
            1 <= old(self).height,
        ensures
            final(self).wf(),
            final(self).width == old(self).width,
            final(self).height == old(self).height,
            final(self).pixels@ == old(self).pixels@.update(
                offset_of(
                    x as int,
                    y as int,
                    old(self).width as int,
                    old(self).height as int,
                ),
                p,
            ),
    {
        let offset = self.offset(x, y);
        self.pixels[offset] = p;
    }

    /// Reallocates to `width * height` pixels: the prefix shared with the
    /// old buffer is kept, any growth is zero-filled.
    #[verifier::loop_isolation(false)]
    pub fn resize(&mut self, width: usize, height: usize)
        requires
            width * height <= usize::MAX,
        ensures
            final(self).wf(),
            final(self).width == width,
            final(self).height == height,
            final(self).pixels@ == resized(old(self).pixels@, width * height),
    {
        let ghost p0 = self.pixels@;
        let n = width * height;
        if n <= self.pixels.len() {
            self.pixels.truncate(n);
            proof {
                assert(self.pixels@ =~= resized(p0, n as int));
            }
        } else {
            while self.pixels.len() < n
                invariant
                    p0.len() <= self.pixels@.len() <= n,
                    self.pixels@ =~= resized(p0, self.pixels@.len() as int),
                decreases n - self.pixels@.len(),
            {
                self.pixels.push(0);
                proof {
                    assert(self.pixels@ =~= resized(p0, self.pixels@.len() as int));
                }
            }
        }
        self.width = width;
        self.height = height;
    }

    /// Zero-fills the whole buffer in place.
    #[verifier::loop_isolation(false)]
    pub fn clear_color(&mut self)
        ensures
            final(self).width == old(self).width,
            final(self).height == old(self).height,
            final(self).pixels@.len() == old(self).pixels@.len(),
            forall|i: int| 0 <= i < final(self).pixels@.len() ==> final(self).pixels@[i] == 0,
    {
        let n = self.pixels.len();
        let mut i: usize = 0;
        while i < n
            invariant
                i <= n,
                self.width == old(self).width,
                self.height == old(self).height,
                self.pixels@.len() == old(self).pixels@.len(),
                n == self.pixels@.len(),
                forall|j: int| 0 <= j < i ==> self.pixels@[j] == 0,
            decreases n - i,
        {
            self.pixels[i] = 0;
            i = i + 1;
        }
    }

    /// Classifies every pixel of this image into the edge image `to`,
    /// which must share its dimensions.
    pub fn edge_detect(&self, to: &mut MonoImage)
        requires
            self.wf(),
            old(to).wf(),
            old(to).width == self.width,
            old(to).height == self.height,
            self.width * self.height <= i32::MAX,
        ensures
            final(to).wf(),
            final(to).width == old(to).width,
            final(to).height == old(to).height,
            forall|x: int, y: int|
                0 <= x < self.width && 0 <= y < self.height ==> final(to).pixels@[y * self.width
                    + x] == #[trigger] edge_value(
                    self.pixels@,
                    self.width as int,
                    self.height as int,
                    x,
                    y,
                ),
    {
        crate::program_cpu::edge_detect(&self.pixels, &mut to.pixels, self.width, self.height);
    }

    /// Generates the distance field of this edge image into `to`, one
    /// output pixel per `stride`-wide cell (rounding the output size up),
    /// searching boundary pixels outward up to `search_radius` rings.
    pub fn edge_generate_sdf(&self, to: &mut MonoImage, stride: usize, search_radius: usize)
        requires
            self.wf(),
            old(to).wf(),
            1 <= self.width,
            1 <= self.height,
            self.width * self.height <= i32::MAX,
            1 <= stride,
            1 <= search_radius <= 0x7fff,
            old(to).width == (self.width + stride - 1) / (stride as int),
            old(to).height == (self.height + stride - 1) / (stride as int),
            self.width + stride + search_radius <= i32::MAX,
            self.height + stride + search_radius <= i32::MAX,
        ensures
            final(to).wf(),
            final(to).width == old(to).width,
            final(to).height == old(to).height,
            forall|sx: int, sy: int|
                0 <= sx < old(to).width && 0 <= sy < old(to).height ==> final(to).pixels@[sy * old(
                    to,
                ).width + sx] == #[trigger] sdf_value(
                    self.pixels@,
                    self.width as int,
                    self.height as int,
                    stride as int,
                    search_radius as int,
                    sx,
                    sy,
                ),
    {
        proof {
            let w = self.width as int;
            let h = self.height as int;
            let s = stride as int;
            let tw = old(to).width as int;
            let th = old(to).height as int;
            lemma_fundamental_div_mod(w + s - 1, s);
            lemma_fundamental_div_mod(h + s - 1, s);
            assert(tw * s <= w + s - 1 && th * s <= h + s - 1) by (nonlinear_arith)
                requires
                    1 <= s,
                    tw == (w + s - 1) / s,
                    th == (h + s - 1) / s,
                    w + s - 1 == s * ((w + s - 1) / s) + (w + s - 1) % s,
                    h + s - 1 == s * ((h + s - 1) / s) + (h + s - 1) % s,
                    0 <= (w + s - 1) % s,
                    0 <= (h + s - 1) % s,
            ;
            assert(tw <= w && th <= h) by (nonlinear_arith)
                requires
                    1 <= s,
                    1 <= w,
                    1 <= h,
                    tw * s <= w + s - 1,
                    th * s <= h + s - 1,
                    0 <= tw,
                    0 <= th,
            ;
            assert(tw * th <= w * h) by (nonlinear_arith)
                requires
                    0 <= tw <= w,
                    0 <= th <= h,
            ;
        }
        crate::program_cpu::sdf_generate(
            &self.pixels,
            &mut to.pixels,
            self.width,
            self.height,
            to.width,
            to.height,
            stride,
            search_radius,
        );
    }
}

/// Resizing a buffer to `w * h` pixels and then clearing it yields a
/// buffer of exactly `w * h` zero bytes, whatever it held before.  The
/// hypotheses are the postconditions of `resize` and `clear_color`.
pub proof fn lemma_resize_then_clear(p0: Seq<u8>, w: int, h: int, p1: Seq<u8>, p2: Seq<u8>)
    requires
        0 <= w * h,
        p1 == resized(p0, w * h),
        p2.len() == p1.len(),
        forall|i: int| 0 <= i < p2.len() ==> p2[i] == 0,
    ensures
        p2.len() == w * h,
        forall|i: int| 0 <= i < w * h ==> p2[i] == 0,
{
}

} // verus!
