//! The pixel grid the renderer fills: a width x height raster of RGB
//! bytes, row-major with the origin at the top left. Serializing the
//! grid to a file is input/output and lives outside the library.

use vstd::prelude::*;

verus! {

/// The model of the grid.
pub struct ImgS {
    pub width: int,
    pub height: int,
    pub pixels: Seq<u8>,
}

/// The grid invariant: three bytes for every pixel.
pub open spec fn img_wf(s: ImgS) -> bool {
    &&& 1 <= s.width <= 16384
    &&& 1 <= s.height <= 16384
    &&& s.pixels.len() == 3 * (s.width * s.height)
}

/// The byte offset of the red channel of pixel `(x, y)`.
pub open spec fn pix_idx(w: int, x: int, y: int) -> int {
    3 * (y * w + x)
}

/// A width x height grid of RGB bytes.
pub struct ImageHandler {
    pub width: u32,
    pub height: u32,
    pub pixels: Vec<u8>,
}

impl View for ImageHandler {
    type V = ImgS;

    open spec fn view(&self) -> ImgS {
        ImgS { width: self.width as int, height: self.height as int, pixels: self.pixels@ }
    }
}

impl ImageHandler {
    /// A black grid of the given dimensions.
    pub fn new(width: u32, height: u32) -> (r: Self)
        requires
            1 <= width <= 16384,
            1 <= height <= 16384,
        ensures
            r@.width == width as int,
            r@.height == height as int,
            img_wf(r@),
            forall|i: int| 0 <= i < r@.pixels.len() ==> r@.pixels[i] == 0,
    {
        proof {
            assert((width as int) * (height as int) <= 0x1000_0000) by (nonlinear_arith)
                requires
                    1 <= width <= 16384,
                    1 <= height <= 16384,
            ;
        }
        let n: usize = 3 * ((width as usize) * (height as usize));
        let mut pixels: Vec<u8> = Vec::new();
        let mut i: usize = 0;
        while i < n
            invariant
                i <= n,
                pixels@.len() == i as int,
                forall|j: int| 0 <= j < i ==> pixels@[j] == 0,
            decreases n - i,
        {
            pixels.push(0);
            i = i + 1;
        }
        ImageHandler { width, height, pixels }
    }

    /// Overwrite one pixel's three channel bytes.
    pub fn set_pixel(&mut self, x: u32, y: u32, r: u8, g: u8, b: u8)
        requires
            img_wf(old(self)@),
            x < old(self)@.width,
            y < old(self)@.height,
        ensures
            img_wf(final(self)@),
            final(self)@.width == old(self)@.width,
            final(self)@.height == old(self)@.height,
            final(self)@.pixels == old(self)@.pixels.update(
                pix_idx(old(self)@.width, x as int, y as int),
                r,
            ).update(pix_idx(old(self)@.width, x as int, y as int) + 1, g).update(
                pix_idx(old(self)@.width, x as int, y as int) + 2,
                b,
            ),
    {
        let ghost w = old(self)@.width;
        let ghost h = old(self)@.height;
        proof {
            assert(w * h <= 0x1000_0000) by (nonlinear_arith)
                requires
                    1 <= w <= 16384,
                    1 <= h <= 16384,
            ;
            assert((y as int) * w + x < w * h) by (nonlinear_arith)
                requires
                    0 <= x < w,
                    0 <= y < h,
            ;
            assert((y as int) * w + x >= 0) by (nonlinear_arith)
                requires
                    0 <= x,
                    0 <= y,
                    w >= 1,
            ;
        }
        let idx: usize = 3 * ((y as usize) * (self.width as usize) + (x as usize));
        self.pixels[idx] = r;
        self.pixels[idx + 1] = g;
        self.pixels[idx + 2] = b;
    }

    /// Read one pixel back as `(red, green, blue)`.
    pub fn get_pixel(&self, x: u32, y: u32) -> (rgb: (u8, u8, u8))
        requires
            img_wf(self@),
            x < self@.width,
            y < self@.height,
        ensures
            rgb.0 == self@.pixels[pix_idx(self@.width, x as int, y as int)],
            rgb.1 == self@.pixels[pix_idx(self@.width, x as int, y as int) + 1],
            rgb.2 == self@.pixels[pix_idx(self@.width, x as int, y as int) + 2],
    {
        let ghost w = self@.width;
        let ghost h = self@.height;
        proof {
            assert(w * h <= 0x1000_0000) by (nonlinear_arith)
                requires
                    1 <= w <= 16384,
                    1 <= h <= 16384,
            ;
            assert((y as int) * w + x < w * h) by (nonlinear_arith)
                requires
                    0 <= x < w,
                    0 <= y < h,
            ;
            assert((y as int) * w + x >= 0) by (nonlinear_arith)
                requires
                    0 <= x,
                    0 <= y,
                    w >= 1,
            ;
        }
        let idx: usize = 3 * ((y as usize) * (self.width as usize) + (x as usize));
        (self.pixels[idx], self.pixels[idx + 1], self.pixels[idx + 2])
    }
}

} // verus!
