//! RGBA rasters: the images the pipeline consumes and produces.

use vstd::prelude::*;

use crate::MAX_DIM;
use crate::error::MosaicError;

verus! {

/// One pixel: four 8-bit channels.
#[derive(Clone, Copy, Debug, PartialEq, Eq, Structural)]
pub struct Rgba {
    pub r: u8,
    pub g: u8,
    pub b: u8,
    pub a: u8,
}

/// The fully transparent pixel; the warper's fill and the blender's mark for
/// "no contribution from either photograph".
pub open spec fn transparent() -> Rgba {
    Rgba { r: 0, g: 0, b: 0, a: 0 }
}

/// Reads one of the four channels of a pixel by index, in r, g, b, a order.
pub open spec fn chan(p: Rgba, c: int) -> int {
    if c == 0 {
        p.r as int
    } else if c == 1 {
        p.g as int
    } else if c == 2 {
        p.b as int
    } else {
        p.a as int
    }
}

/// A grid position is inside the row-major flat buffer.
pub proof fn lemma_grid_index(x: int, y: int, w: int, h: int)
    requires
        0 <= x < w,
        0 <= y < h,
    ensures
        0 <= y * w + x < w * h,
{
    assert(0 <= y * w + x < w * h) by (nonlinear_arith)
        requires
            0 <= x < w,
            0 <= y < h,
    ;
}

/// Row-major order agrees with lexicographic order on (row, column), so two
/// distinct grid positions never share a flat index.
pub proof fn lemma_grid_order(x: int, y: int, xx: int, yy: int, w: int)
    requires
        0 <= x < w,
        0 <= xx < w,
        0 <= y,
        0 <= yy,
    ensures
        (yy * w + xx < y * w + x) == (yy < y || (yy == y && xx < x)),
{
    assert((yy * w + xx < y * w + x) == (yy < y || (yy == y && xx < x))) by (nonlinear_arith)
        requires
            0 <= x < w,
            0 <= xx < w,
            0 <= y,
            0 <= yy,
    ;
}

/// Inside a grid capped at [`MAX_DIM`] per side, flat indices stay well
/// under `usize::MAX`.
pub proof fn lemma_grid_index_capped(x: int, y: int, w: int, h: int)
    requires
        0 <= x < w,
        0 <= y < h,
        w <= MAX_DIM,
        h <= MAX_DIM,
    ensures
        0 <= y * w + x < w * h,
        w * h <= 0x4000_0000,
{
    assert(0 <= y * w + x < w * h && w * h <= 0x4000_0000) by (nonlinear_arith)
        requires
            0 <= x < w,
            0 <= y < h,
            w <= MAX_DIM,
            h <= MAX_DIM,
            MAX_DIM == 32768,
    ;
}

/// A width-by-height grid of RGBA pixels, row-major, with row 0 stored
/// first. Both sides are capped at [`MAX_DIM`] so that a canvas can never
/// claim unbounded memory and all coordinate arithmetic stays exact.
pub struct RasterImage {
    width: usize,
    height: usize,
    pixels: Vec<Rgba>,
}

impl RasterImage {
    /// Every raster holds exactly `width * height` pixels and respects the
    /// dimension ceiling.
    #[verifier::type_invariant]
    pub closed spec fn wf(self) -> bool {
        &&& self.width <= MAX_DIM
        &&& self.height <= MAX_DIM
        &&& self.pixels@.len() == self.width * self.height
    }

    /// Width in pixels.
    pub closed spec fn wd(self) -> int {
        self.width as int
    }

    /// Height in pixels.
    pub closed spec fn ht(self) -> int {
        self.height as int
    }

    /// The pixel at column `x` of row `y`.
    pub closed spec fn px(self, x: int, y: int) -> Rgba {
        self.pixels@[y * self.wd() + x]
    }

    /// Builds a raster with every pixel set to `fill`; rejects dimensions
    /// over the ceiling.
    pub fn new(width: usize, height: usize, fill: Rgba) -> (r: Result<RasterImage, MosaicError>)
        ensures
            match r {
                Ok(img) => {
                    &&& width <= MAX_DIM && height <= MAX_DIM
                    &&& img.wd() == width
                    &&& img.ht() == height
                    &&& forall|x: int, y: int|
                        0 <= x < width && 0 <= y < height ==> img.px(x, y) == fill
                },
                Err(e) => e == MosaicError::CanvasOverflow && (width > MAX_DIM || height > MAX_DIM),
            },
    {
        if width > MAX_DIM || height > MAX_DIM {
            return Err(MosaicError::CanvasOverflow);
        }
        proof {
            lemma_grid_index(0, 0, MAX_DIM + 1, MAX_DIM + 1);
            assert(width * height <= MAX_DIM * MAX_DIM) by (nonlinear_arith)
                requires
                    width <= MAX_DIM,
                    height <= MAX_DIM,
            ;
        }
        let n: usize = width * height;
        let mut pixels: Vec<Rgba> = Vec::with_capacity(n);
        let mut i: usize = 0;
        while i < n
            invariant
                i <= n,
                pixels@.len() == i,
                forall|j: int| 0 <= j < i ==> pixels@[j] == fill,
            decreases n - i,
        {
            pixels.push(fill);
            i = i + 1;
        }
        let img = RasterImage { width, height, pixels };
        proof {
            assert forall|x: int, y: int|
                0 <= x < width && 0 <= y < height implies img.px(x, y) == fill by {
                lemma_grid_index(x, y, width as int, height as int);
            }
        }
        Ok(img)
    }

    /// Builds a raster from a row-major pixel buffer of exactly the right
    /// length.
    pub fn from_flat(width: usize, height: usize, pixels: Vec<Rgba>) -> (img: RasterImage)
        requires
            width <= MAX_DIM,
            height <= MAX_DIM,
            pixels@.len() == width * height,
        ensures
            img.wd() == width,
            img.ht() == height,
            forall|x: int, y: int|
                0 <= x < width && 0 <= y < height ==> img.px(x, y) == pixels@[y * width + x],
    {
        RasterImage { width, height, pixels }
    }

    /// Width in pixels, never over the ceiling.
    pub fn width(&self) -> (w: usize)
        ensures
            w == self.wd(),
            w <= MAX_DIM,
    {
        proof {
            use_type_invariant(self);
        }
        self.width
    }

    /// Height in pixels, never over the ceiling.
    pub fn height(&self) -> (h: usize)
        ensures
            h == self.ht(),
            h <= MAX_DIM,
    {
        proof {
            use_type_invariant(self);
        }
        self.height
    }

    /// Builds a raster by evaluating `f` once per grid position, row by row.
    /// The ghost function `g` names the intended value of each pixel; the
    /// caller shows that `f` agrees with `g` wherever it is called, and the
    /// result is a raster equal to `g` on the whole grid.
    pub fn build<F: Fn(usize, usize) -> Rgba>(
        width: usize,
        height: usize,
        g: Ghost<spec_fn(int, int) -> Rgba>,
        f: F,
    ) -> (img: RasterImage)
        requires
            width <= MAX_DIM,
            height <= MAX_DIM,
            forall|x: usize, y: usize| x < width && y < height ==> #[trigger] f.requires((x, y)),
            forall|x: usize, y: usize, r: Rgba|
                x < width && y < height && #[trigger] f.ensures((x, y), r) ==> r == g@(
                    x as int,
                    y as int,
                ),
        ensures
            img.wd() == width,
            img.ht() == height,
            forall|x: int, y: int| 0 <= x < width && 0 <= y < height ==> img.px(x, y) == g@(x, y),
    {
        proof {
            if height > 0 {
                lemma_grid_index_capped(0, 0, 1, height as int);
            }
        }
        let mut pixels: Vec<Rgba> = Vec::new();
        let mut y: usize = 0;
        while y < height
            invariant
                y <= height,
                width <= MAX_DIM,
                height <= MAX_DIM,
                pixels@.len() == y * width,
                forall|xx: int, yy: int|
                    0 <= xx < width && 0 <= yy < y ==> #[trigger] pixels@[yy * width + xx] == g@(
                        xx,
                        yy,
                    ),
                forall|x: usize, yv: usize|
                    x < width && yv < height ==> #[trigger] f.requires((x, yv)),
                forall|x: usize, yv: usize, r: Rgba|
                    x < width && yv < height && #[trigger] f.ensures((x, yv), r) ==> r == g@(
                        x as int,
                        yv as int,
                    ),
            decreases height - y,
        {
            let mut x: usize = 0;
            while x < width
                invariant
                    x <= width,
                    y < height,
                    width <= MAX_DIM,
                    height <= MAX_DIM,
                    pixels@.len() == y * width + x,
                    forall|xx: int, yy: int|
                        0 <= xx < width && (0 <= yy < y || (yy == y && 0 <= xx < x)) ==> #[trigger] pixels@[yy
                            * width + xx] == g@(xx, yy),
                    forall|xv: usize, yv: usize|
                        xv < width && yv < height ==> #[trigger] f.requires((xv, yv)),
                    forall|xv: usize, yv: usize, r: Rgba|
                        xv < width && yv < height && #[trigger] f.ensures((xv, yv), r) ==> r == g@(
                            xv as int,
                            yv as int,
                        ),
                decreases width - x,
            {
                proof {
                    lemma_grid_index_capped(x as int, y as int, width as int, height as int);
                    lemma_grid_order(x as int, y as int, 0, 0, width as int);
                }
                let p = f(x, y);
                pixels.push(p);
                proof {
                    assert forall|xx: int, yy: int|
                        0 <= xx < width && (0 <= yy < y || (yy == y && 0 <= xx < x + 1))
                            implies #[trigger] pixels@[yy * width + xx] == g@(xx, yy) by {
                        lemma_grid_index(xx, yy, width as int, y as int + 1);
                        lemma_grid_order(x as int, y as int, xx, yy, width as int);
                        if yy == y && xx == x {
                            assert(yy * width + xx == pixels@.len() - 1);
                        }
                    }
                }
                x = x + 1;
            }
            y = y + 1;
            proof {
                assert(pixels@.len() == (y - 1) * width + width == y * width) by (nonlinear_arith)
                    requires
                        pixels@.len() == (y - 1) * width + width,
                        y >= 1,
                ;
            }
        }
        proof {
            assert(pixels@.len() == height * width == width * height) by (nonlinear_arith)
            requires
                pixels@.len() == height * width,
            ;
        }
        let img = RasterImage::from_flat(width, height, pixels);
        proof {
            assert forall|x: int, y: int|
                0 <= x < width && 0 <= y < height implies img.px(x, y) == g@(x, y) by {
                lemma_grid_index(x, y, width as int, height as int);
            }
        }
        img
    }

    /// Reads the pixel at column `x` of row `y`.
    pub fn pixel(&self, x: usize, y: usize) -> (p: Rgba)
        requires
            x < self.wd(),
            y < self.ht(),
        ensures
            p == self.px(x as int, y as int),
    {
        proof {
            use_type_invariant(self);
            lemma_grid_index_capped(x as int, y as int, self.wd(), self.ht());
        }
        let idx: usize = y * self.width + x;
        self.pixels[idx]
    }

    /// Overwrites the pixel at column `x` of row `y`, leaving every other
    /// pixel and the dimensions unchanged.
    pub fn set_pixel(&mut self, x: usize, y: usize, p: Rgba)
        requires
            x < old(self).wd(),
            y < old(self).ht(),
        ensures
            final(self).wd() == old(self).wd(),
            final(self).ht() == old(self).ht(),
            final(self).px(x as int, y as int) == p,
            forall|xx: int, yy: int|
                0 <= xx < old(self).wd() && 0 <= yy < old(self).ht() && !(xx == x && yy == y)
                    ==> final(self).px(xx, yy) == old(self).px(xx, yy),
    {
        proof {
            use_type_invariant(&*self);
            lemma_grid_index_capped(x as int, y as int, self.wd(), self.ht());
        }
        let idx: usize = y * self.width + x;
        let slot = vstd::std_specs::vec::vec_index_mut(&mut self.pixels, idx);
        *slot = p;
        proof {
            assert forall|xx: int, yy: int|
                0 <= xx < old(self).wd() && 0 <= yy < old(self).ht() && !(xx == x && yy == y)
                    implies final(self).px(xx, yy) == old(self).px(xx, yy) by {
                lemma_grid_index(xx, yy, old(self).wd(), old(self).ht());
                lemma_grid_order(x as int, y as int, xx, yy, old(self).wd());
                lemma_grid_order(xx, yy, x as int, y as int, old(self).wd());
            }
        }
    }
}

} // verus!
