//! Seam blending: composing the warped and reference rasters into one
//! opaque composite with a smoothed transition.
//!
//! Where only one of the two rasters has content, its pixel is taken
//! verbatim (made opaque). Where both have content, a coarse-to-fine
//! strategy softens the seam: the sharp composite is downsampled, blurred,
//! upsampled back, and mixed with the sharp composite under a radial weight
//! centred on the anchor — near the anchor the sharp composite dominates,
//! far from it the blurred layer shows through. Every weight is a fixed
//! integer formula, so the composite is bit-reproducible.

use vstd::prelude::*;

use crate::MAX_DIM;
use crate::geometry::Point2D;
use crate::geometry::lemma_mul_bound2;
use crate::raster::RasterImage;
use crate::raster::Rgba;
use crate::raster::chan;
use crate::raster::transparent;
use vstd::arithmetic::div_mod::lemma_div_is_ordered;
use vstd::arithmetic::div_mod::lemma_fundamental_div_mod;

verus! {

/// Downsampling factor of the coarse-to-fine pyramid.
pub const PYRAMID_FACTOR: usize = 8;

/// Adds two channel values, clamping the sum at `max`.
pub fn clamp_add(a: u8, b: u8, max: u8) -> (r: u8)
    ensures
        r as int == if a + b > max {
            max as int
        } else {
            a + b
        },
{
    if (a as u16 + b as u16) > max.into() {
        max
    } else {
        a + b
    }
}

/// The integer square root, defined by counting up; executable code finds
/// it faster and proves agreement through [`lemma_isqrt_unique`].
pub open spec fn isqrt_spec(n: nat) -> nat
    decreases n,
{
    if n == 0 {
        0
    } else {
        let r = isqrt_spec((n - 1) as nat);
        if (r + 1) * (r + 1) <= n {
            r + 1
        } else {
            r
        }
    }
}

/// The defining property of the integer square root.
pub proof fn lemma_isqrt_bounds(n: nat)
    ensures
        isqrt_spec(n) * isqrt_spec(n) <= n < (isqrt_spec(n) + 1) * (isqrt_spec(n) + 1),
    decreases n,
{
    let q = isqrt_spec(n);
    if n == 0 {
        assert(q == 0);
        assert(q * q <= n < (q + 1) * (q + 1)) by (nonlinear_arith)
            requires
                q == 0,
                n == 0,
        ;
    } else {
        lemma_isqrt_bounds((n - 1) as nat);
        let r = isqrt_spec((n - 1) as nat);
        assert(q == if (r + 1) * (r + 1) <= n {
            r + 1
        } else {
            r
        });
        if (r + 1) * (r + 1) <= n {
            assert(q * q <= n < (q + 1) * (q + 1)) by (nonlinear_arith)
                requires
                    q == r + 1,
                    (r + 1) * (r + 1) <= n,
                    n <= (n - 1) + 1,
                    (n - 1) < (r + 1) * (r + 1),
                    r >= 0,
            ;
        } else {
            assert(q * q <= n < (q + 1) * (q + 1)) by (nonlinear_arith)
                requires
                    q == r,
                    r * r <= n - 1,
                    n >= 1,
                    !((r + 1) * (r + 1) <= n),
                    r >= 0,
            ;
        }
    }
    assert(isqrt_spec(n) * isqrt_spec(n) <= n < (isqrt_spec(n) + 1) * (isqrt_spec(n) + 1))
        by (nonlinear_arith)
        requires
            q == isqrt_spec(n),
            q * q <= n < (q + 1) * (q + 1),
    ;
}

/// Any value with the defining property is the integer square root.
pub proof fn lemma_isqrt_unique(n: nat, r: nat)
    requires
        r * r <= n < (r + 1) * (r + 1),
    ensures
        r == isqrt_spec(n),
{
    let q = isqrt_spec(n);
    lemma_isqrt_bounds(n);
    assert(r == q) by (nonlinear_arith)
        requires
            r * r <= n < (r + 1) * (r + 1),
            q * q <= n < (q + 1) * (q + 1),
            r >= 0,
            q >= 0,
    ;
}

/// Finds the integer square root by bisection.
fn isqrt(n: u128) -> (r: u128)
    ensures
        r == isqrt_spec(n as nat),
{
    let mut lo: u128 = 0;
    let mut hi: u128 = 0x1_0000_0000_0000_0000;
    proof {
        assert((hi as int) * (hi as int) > n as int) by (nonlinear_arith)
            requires
                hi == 0x1_0000_0000_0000_0000,
                n <= 0xffff_ffff_ffff_ffff_ffff_ffff_ffff_ffff,
        ;
    }
    while hi - lo > 1
        invariant
            lo < hi,
            (lo as int) * (lo as int) <= n as int,
            (hi as int) * (hi as int) > n as int,
        decreases hi - lo,
    {
        let mid = lo + (hi - lo) / 2;
        match mid.checked_mul(mid) {
            Some(sq) => {
                if sq <= n {
                    lo = mid;
                } else {
                    hi = mid;
                }
            },
            None => {
                proof {
                    assert((mid as int) * (mid as int) > n as int);
                }
                hi = mid;
            },
        }
    }
    proof {
        lemma_isqrt_unique(n as nat, lo as nat);
    }
    lo
}

/// Caps a value at 255.
pub open spec fn min255(v: int) -> int {
    if v > 255 {
        255
    } else {
        v
    }
}

/// The squared distance between the anchor and a canvas position.
pub open spec fn dist2(a: Point2D, x: int, y: int) -> int {
    (a.x - x) * (a.x - x) + (a.y - y) * (a.y - y)
}

/// The radial weight of the sharp layer at a canvas position: 255 at the
/// anchor, falling off by one per `m` pixels of distance, never below 0.
pub open spec fn radial_weight(a: Point2D, x: int, y: int, m: int) -> int {
    255 - min255(isqrt_spec(dist2(a, x, y) as nat) as int / m)
}

/// The distance-based alpha for blending: how strongly the sharp layer
/// shows at `b`, measured from the anchor `a`, with falloff scale `max`.
pub fn distance_alpha(a: Point2D, b: Point2D, max: u32) -> (r: u8)
    requires
        max >= 1,
    ensures
        r as int == radial_weight(a, b.x as int, b.y as int, max as int),
{
    let dx: i128 = a.x as i128 - b.x as i128;
    let dy: i128 = a.y as i128 - b.y as i128;
    let mx: u128 = if dx >= 0 {
        dx as u128
    } else {
        (-dx) as u128
    };
    let my: u128 = if dy >= 0 {
        dy as u128
    } else {
        (-dy) as u128
    };
    proof {
        assert(mx * mx == (dx as int) * (dx as int) && mx * mx
            <= 0xffff_ffff_ffff_fffe_0000_0000_0000_0001) by (nonlinear_arith)
            requires
                mx <= 0xffff_ffff_ffff_ffff,
                dx >= 0 ==> mx == dx as int,
                dx < 0 ==> mx == -(dx as int),
        ;
        assert(my * my == (dy as int) * (dy as int) && my * my
            <= 0xffff_ffff_ffff_fffe_0000_0000_0000_0001) by (nonlinear_arith)
            requires
                my <= 0xffff_ffff_ffff_ffff,
                dy >= 0 ==> my == dy as int,
                dy < 0 ==> my == -(dy as int),
        ;
    }
    let sx = mx * mx;
    let sy = my * my;
    let d2 = match sx.checked_add(sy) {
        Some(v) => v,
        None => {
            proof {
                let dd = dist2(a, b.x as int, b.y as int) as nat;
                lemma_isqrt_bounds(dd);
                let q = isqrt_spec(dd);
                assert(q >= 0x1_0000_0000_0000_0000) by (nonlinear_arith)
                    requires
                        (q + 1) * (q + 1) > dd,
                        dd > 0xffff_ffff_ffff_ffff_ffff_ffff_ffff_ffff,
                        q >= 0,
                ;
                lemma_div_is_ordered(
                    256 * (max as int),
                    q as int,
                    max as int,
                );
                vstd::arithmetic::div_mod::lemma_div_multiples_vanish(256, max as int);
            }
            return 0;
        },
    };
    let s = isqrt(d2);
    let t = s / (max as u128);
    let tt: u128 = if t > 255 {
        255
    } else {
        t
    };
    (255 - tt as u8)
}

/// A pixel read that treats everything outside the raster as transparent;
/// the reference photograph occupies the top-left corner of the canvas.
pub open spec fn ref_px(r: RasterImage, x: int, y: int) -> Rgba {
    if 0 <= x < r.wd() && 0 <= y < r.ht() {
        r.px(x, y)
    } else {
        transparent()
    }
}

/// The rounded average of two channel values.
pub open spec fn avg2_chan(a: int, b: int) -> int {
    (a + b + 1) / 2
}

/// The sharp composite before any smoothing: content from whichever raster
/// has it, the rounded average where both do, opaque wherever there is
/// content and transparent where there is none.
pub open spec fn sharp_px(w: RasterImage, r: RasterImage, x: int, y: int) -> Rgba {
    let p = w.px(x, y);
    let q = ref_px(r, x, y);
    if p.a == 0 && q.a == 0 {
        transparent()
    } else if q.a == 0 {
        Rgba { r: p.r, g: p.g, b: p.b, a: 255 }
    } else if p.a == 0 {
        Rgba { r: q.r, g: q.g, b: q.b, a: 255 }
    } else {
        Rgba {
            r: avg2_chan(p.r as int, q.r as int) as u8,
            g: avg2_chan(p.g as int, q.g as int) as u8,
            b: avg2_chan(p.b as int, q.b as int) as u8,
            a: 255,
        }
    }
}

/// The side of a raster after downsampling by `k`, never zero.
pub open spec fn down_len(n: int, k: int) -> int {
    if n / k < 1 {
        1
    } else {
        n / k
    }
}

/// The source index sampled for downsampled index `v`: nearest-neighbour,
/// clamped into the raster.
pub open spec fn down_coord(v: int, k: int, n: int) -> int {
    if v * k <= n - 1 {
        v * k
    } else {
        n - 1
    }
}

/// Clamps an index into `[0, hi]`.
pub open spec fn clampi(v: int, hi: int) -> int {
    if v < 0 {
        0
    } else if v > hi {
        hi
    } else {
        v
    }
}

/// One pixel of the pyramid's coarse layer: the sharp composite
/// downsampled by [`PYRAMID_FACTOR`].
pub open spec fn down_px(w: RasterImage, r: RasterImage, x: int, y: int) -> Rgba {
    sharp_px(
        w,
        r,
        down_coord(x, PYRAMID_FACTOR as int, w.wd()),
        down_coord(y, PYRAMID_FACTOR as int, w.ht()),
    )
}

/// One channel of a 3-by-3 box blur over an abstract grid of pixels given
/// by spec function `g` with bounds `gw` by `gh`: the rounded-down average
/// of the nine neighbours, edges clamped.
pub open spec fn blur9(g: spec_fn(int, int) -> Rgba, gw: int, gh: int, x: int, y: int, c: int) -> int {
    (chan(g(clampi(x - 1, gw - 1), clampi(y - 1, gh - 1)), c) + chan(
        g(clampi(x, gw - 1), clampi(y - 1, gh - 1)),
        c,
    ) + chan(g(clampi(x + 1, gw - 1), clampi(y - 1, gh - 1)), c) + chan(
        g(clampi(x - 1, gw - 1), clampi(y, gh - 1)),
        c,
    ) + chan(g(clampi(x, gw - 1), clampi(y, gh - 1)), c) + chan(
        g(clampi(x + 1, gw - 1), clampi(y, gh - 1)),
        c,
    ) + chan(g(clampi(x - 1, gw - 1), clampi(y + 1, gh - 1)), c) + chan(
        g(clampi(x, gw - 1), clampi(y + 1, gh - 1)),
        c,
    ) + chan(g(clampi(x + 1, gw - 1), clampi(y + 1, gh - 1)), c)) / 9
}

/// One pixel of the blurred coarse layer.
pub open spec fn pyr_px(w: RasterImage, r: RasterImage, x: int, y: int) -> Rgba {
    let g = |xx: int, yy: int| down_px(w, r, xx, yy);
    let gw = down_len(w.wd(), PYRAMID_FACTOR as int);
    let gh = down_len(w.ht(), PYRAMID_FACTOR as int);
    Rgba {
        r: blur9(g, gw, gh, x, y, 0) as u8,
        g: blur9(g, gw, gh, x, y, 1) as u8,
        b: blur9(g, gw, gh, x, y, 2) as u8,
        a: blur9(g, gw, gh, x, y, 3) as u8,
    }
}

/// One pixel of the smoothed layer at full resolution: the blurred coarse
/// layer upsampled back to the canvas, nearest-neighbour.
pub open spec fn up_px(w: RasterImage, r: RasterImage, x: int, y: int) -> Rgba {
    let gw = down_len(w.wd(), PYRAMID_FACTOR as int);
    let gh = down_len(w.ht(), PYRAMID_FACTOR as int);
    pyr_px(w, r, (x * gw) / w.wd(), (y * gh) / w.ht())
}

/// Mixes a sharp and a smoothed channel under weight `t` (255 = all sharp).
pub open spec fn mix_chan(s: int, u: int, t: int) -> int {
    (s * t + u * (255 - t) + 127) / 255
}

/// The blender's per-pixel rule. Positions where neither raster has content
/// stay transparent; where exactly one has content its pixel is taken
/// verbatim and made opaque; where both have content the sharp composite
/// and the smoothed layer are mixed under the radial weight centred on the
/// anchor.
pub open spec fn blend_px(
    w: RasterImage,
    r: RasterImage,
    anchor: Point2D,
    x: int,
    y: int,
) -> Rgba {
    let p = w.px(x, y);
    let q = ref_px(r, x, y);
    if p.a == 0 && q.a == 0 {
        transparent()
    } else if q.a == 0 {
        Rgba { r: p.r, g: p.g, b: p.b, a: 255 }
    } else if p.a == 0 {
        Rgba { r: q.r, g: q.g, b: q.b, a: 255 }
    } else {
        let s = sharp_px(w, r, x, y);
        let u = up_px(w, r, x, y);
        let t = radial_weight(anchor, x, y, w.wd());
        Rgba {
            r: mix_chan(chan(s, 0), chan(u, 0), t) as u8,
            g: mix_chan(chan(s, 1), chan(u, 1), t) as u8,
            b: mix_chan(chan(s, 2), chan(u, 2), t) as u8,
            a: 255,
        }
    }
}

/// The rounded average of two channel values.
fn avg2(a: u8, b: u8) -> (r: u8)
    ensures
        r as int == avg2_chan(a as int, b as int),
{
    proof {
        lemma_div_is_ordered(a as int + b as int + 1, 511, 2);
    }
    ((a as u16 + b as u16 + 1) / 2) as u8
}

/// Mixes two channel values under weight `t`.
fn mix(s: u8, u: u8, t: u8) -> (r: u8)
    ensures
        r as int == mix_chan(s as int, u as int, t as int),
{
    proof {
        assert((s as int) * (t as int) + (u as int) * (255 - t as int) + 127 <= 65152)
            by (nonlinear_arith)
            requires
                s <= 255,
                u <= 255,
                t <= 255,
        ;
        lemma_div_is_ordered((s as int) * (t as int) + (u as int) * (255 - t as int) + 127, 65152, 255);
    }
    ((s as u32 * t as u32 + u as u32 * (255 - t as u32) + 127) / 255) as u8
}

/// Scaling an index into a shorter grid keeps it in range.
proof fn lemma_scale_div_lt(x: int, n: int, w: int)
    requires
        0 <= x < w,
        1 <= n,
    ensures
        0 <= (x * n) / w < n,
{
    lemma_fundamental_div_mod(x * n, w);
    vstd::arithmetic::div_mod::lemma_mod_bound(x * n, w);
    let q = (x * n) / w;
    let r = (x * n) % w;
    assert(x * n == w * q + r);
    assert(0 <= x * n) by (nonlinear_arith)
        requires
            0 <= x,
            1 <= n,
    ;
    if q < 0 {
        assert(w * q + r < 0) by (nonlinear_arith)
            requires
                q <= -1,
                w >= 1,
                0 <= r < w,
        ;
    }
    if q >= n {
        assert(x * n <= (w - 1) * n) by (nonlinear_arith)
            requires
                x <= w - 1,
                n >= 1,
        ;
        assert(w * q + r > x * n) by (nonlinear_arith)
            requires
                q >= n,
                w >= 1,
                x < w,
                n >= 1,
                r >= 0,
                x * n <= (w - 1) * n,
        ;
    }
}

/// Shrinks a raster by the integer factor `k`, nearest-neighbour: the
/// coarse layer of the pyramid.
pub fn downsample(img: &RasterImage, k: usize) -> (out: RasterImage)
    requires
        k >= 1,
        img.wd() >= 1,
        img.ht() >= 1,
    ensures
        out.wd() == down_len(img.wd(), k as int),
        out.ht() == down_len(img.ht(), k as int),
        forall|x: int, y: int|
            0 <= x < out.wd() && 0 <= y < out.ht() ==> out.px(x, y) == img.px(
                down_coord(x, k as int, img.wd()),
                down_coord(y, k as int, img.ht()),
            ),
{
    let w = img.width();
    let h = img.height();
    let ow: usize = if w / k < 1 {
        1
    } else {
        w / k
    };
    let oh: usize = if h / k < 1 {
        1
    } else {
        h / k
    };
    proof {
        lemma_div_is_ordered(w as int / k as int, w as int, 1);
        vstd::arithmetic::div_mod::lemma_div_is_ordered_by_denominator(w as int, 1, k as int);
        vstd::arithmetic::div_mod::lemma_div_is_ordered_by_denominator(h as int, 1, k as int);
    }
    let gi: Ghost<RasterImage> = Ghost(*img);
    let gk: Ghost<int> = Ghost(k as int);
    let cell = |x: usize, y: usize| -> (p: Rgba)
        requires
            x < ow,
            y < oh,
        ensures
            p == gi@.px(down_coord(x as int, gk@, gi@.wd()), down_coord(y as int, gk@, gi@.ht())),
        {
            let sx: usize = match x.checked_mul(k) {
                Some(v) => if v <= w - 1 {
                    v
                } else {
                    w - 1
                },
                None => w - 1,
            };
            let sy: usize = match y.checked_mul(k) {
                Some(v) => if v <= h - 1 {
                    v
                } else {
                    h - 1
                },
                None => h - 1,
            };
            img.pixel(sx, sy)
        };
    RasterImage::build(
        ow,
        oh,
        Ghost(|x: int, y: int| gi@.px(down_coord(x, gk@, gi@.wd()), down_coord(y, gk@, gi@.ht()))),
        cell,
    )
}

/// Grows a raster to `w` by `h`, nearest-neighbour: the return from the
/// coarse layer to full resolution.
pub fn upsample(img: &RasterImage, w: usize, h: usize) -> (out: RasterImage)
    requires
        img.wd() >= 1,
        img.ht() >= 1,
        w <= MAX_DIM,
        h <= MAX_DIM,
    ensures
        out.wd() == w,
        out.ht() == h,
        forall|x: int, y: int|
            0 <= x < w && 0 <= y < h ==> out.px(x, y) == img.px(
                (x * img.wd()) / (w as int),
                (y * img.ht()) / (h as int),
            ),
{
    let iw = img.width();
    let ih = img.height();
    let gi: Ghost<RasterImage> = Ghost(*img);
    let cell = |x: usize, y: usize| -> (p: Rgba)
        requires
            x < w,
            y < h,
        ensures
            p == gi@.px((x as int * gi@.wd()) / w as int, (y as int * gi@.ht()) / h as int),
        {
            proof {
                lemma_mul_bound2(x as int, iw as int, MAX_DIM as int, MAX_DIM as int);
                lemma_mul_bound2(y as int, ih as int, MAX_DIM as int, MAX_DIM as int);
                lemma_scale_div_lt(x as int, iw as int, w as int);
                lemma_scale_div_lt(y as int, ih as int, h as int);
            }
            let sx: usize = (x * iw) / w;
            let sy: usize = (y * ih) / h;
            img.pixel(sx, sy)
        };
    RasterImage::build(
        w,
        h,
        Ghost(|x: int, y: int| gi@.px((x * gi@.wd()) / w as int, (y * gi@.ht()) / h as int)),
        cell,
    )
}

/// One pixel of a raster under the 3-by-3 box blur with clamped edges.
pub open spec fn blur_img_px(img: RasterImage, x: int, y: int) -> Rgba {
    let g = |xx: int, yy: int| img.px(xx, yy);
    Rgba {
        r: blur9(g, img.wd(), img.ht(), x, y, 0) as u8,
        g: blur9(g, img.wd(), img.ht(), x, y, 1) as u8,
        b: blur9(g, img.wd(), img.ht(), x, y, 2) as u8,
        a: blur9(g, img.wd(), img.ht(), x, y, 3) as u8,
    }
}

/// Applies a 3-by-3 box blur with clamped edges.
pub fn box_blur(img: &RasterImage) -> (out: RasterImage)
    requires
        img.wd() >= 1,
        img.ht() >= 1,
    ensures
        out.wd() == img.wd(),
        out.ht() == img.ht(),
        forall|x: int, y: int|
            0 <= x < img.wd() && 0 <= y < img.ht() ==> out.px(x, y) == blur_img_px(*img, x, y),
{
    let w = img.width();
    let h = img.height();
    let gi: Ghost<RasterImage> = Ghost(*img);
    let gspec: Ghost<spec_fn(int, int) -> Rgba> = Ghost(|x: int, y: int| blur_img_px(gi@, x, y));
    let cell = |x: usize, y: usize| -> (p: Rgba)
        requires
            x < w,
            y < h,
        ensures
            p == gspec@(x as int, y as int),
        {
            let xm: usize = if x == 0 {
                0
            } else {
                x - 1
            };
            let xp: usize = if x + 1 <= w - 1 {
                x + 1
            } else {
                w - 1
            };
            let ym: usize = if y == 0 {
                0
            } else {
                y - 1
            };
            let yp: usize = if y + 1 <= h - 1 {
                y + 1
            } else {
                h - 1
            };
            let p00 = img.pixel(xm, ym);
            let p10 = img.pixel(x, ym);
            let p20 = img.pixel(xp, ym);
            let p01 = img.pixel(xm, y);
            let p11 = img.pixel(x, y);
            let p21 = img.pixel(xp, y);
            let p02 = img.pixel(xm, yp);
            let p12 = img.pixel(x, yp);
            let p22 = img.pixel(xp, yp);
            Rgba {
                r: avg9(p00.r, p10.r, p20.r, p01.r, p11.r, p21.r, p02.r, p12.r, p22.r),
                g: avg9(p00.g, p10.g, p20.g, p01.g, p11.g, p21.g, p02.g, p12.g, p22.g),
                b: avg9(p00.b, p10.b, p20.b, p01.b, p11.b, p21.b, p02.b, p12.b, p22.b),
                a: avg9(p00.a, p10.a, p20.a, p01.a, p11.a, p21.a, p02.a, p12.a, p22.a),
            }
        };
    RasterImage::build(w, h, gspec, cell)
}

/// The rounded-down average of nine channel values.
fn avg9(v0: u8, v1: u8, v2: u8, v3: u8, v4: u8, v5: u8, v6: u8, v7: u8, v8: u8) -> (r: u8)
    ensures
        r as int == (v0 + v1 + v2 + v3 + v4 + v5 + v6 + v7 + v8) / 9,
{
    let s: u32 = v0 as u32 + v1 as u32 + v2 as u32 + v3 as u32 + v4 as u32 + v5 as u32 + v6 as u32
        + v7 as u32 + v8 as u32;
    proof {
        lemma_div_is_ordered(s as int, 2295, 9);
    }
    (s / 9) as u8
}

/// Blends the warped canvas with the reference photograph into the final
/// composite. The reference sits in the top-left corner of the canvas and
/// everything outside it counts as transparent; `anchor` is the centre of
/// the radial falloff, normally the centroid of the reference landmarks.
pub fn blend(warped: &RasterImage, reference: &RasterImage, anchor: Point2D) -> (out: RasterImage)
    requires
        reference.wd() <= warped.wd(),
        reference.ht() <= warped.ht(),
    ensures
        out.wd() == warped.wd(),
        out.ht() == warped.ht(),
        forall|x: int, y: int|
            0 <= x < warped.wd() && 0 <= y < warped.ht() ==> out.px(x, y) == blend_px(
                *warped,
                *reference,
                anchor,
                x,
                y,
            ),
        forall|x: int, y: int|
            0 <= x < warped.wd() && 0 <= y < warped.ht() && warped.px(x, y).a != 0 && ref_px(
                *reference,
                x,
                y,
            ).a == 0 ==> out.px(x, y) == (Rgba {
                r: warped.px(x, y).r,
                g: warped.px(x, y).g,
                b: warped.px(x, y).b,
                a: 255,
            }),
        forall|x: int, y: int|
            0 <= x < warped.wd() && 0 <= y < warped.ht() && warped.px(x, y).a == 0 && ref_px(
                *reference,
                x,
                y,
            ).a != 0 ==> out.px(x, y) == (Rgba {
                r: ref_px(*reference, x, y).r,
                g: ref_px(*reference, x, y).g,
                b: ref_px(*reference, x, y).b,
                a: 255,
            }),
        forall|x: int, y: int|
            0 <= x < warped.wd() && 0 <= y < warped.ht() && warped.px(x, y).a == 0 && ref_px(
                *reference,
                x,
                y,
            ).a == 0 ==> out.px(x, y) == transparent(),
        forall|x: int, y: int|
            0 <= x < warped.wd() && 0 <= y < warped.ht() && (warped.px(x, y).a != 0 || ref_px(
                *reference,
                x,
                y,
            ).a != 0) ==> out.px(x, y).a == 255,
{
    let gw: Ghost<RasterImage> = Ghost(*warped);
    let gr: Ghost<RasterImage> = Ghost(*reference);
    let cw = warped.width();
    let ch = warped.height();
    let rw = reference.width();
    let rh = reference.height();
    if cw == 0 || ch == 0 {
        let cell = |x: usize, y: usize| -> (p: Rgba)
            requires
                x < cw,
                y < ch,
                cw == 0 || ch == 0,
            ensures
                p == blend_px(gw@, gr@, anchor, x as int, y as int),
            {
                proof {
                    assert(false);
                }
                Rgba { r: 0, g: 0, b: 0, a: 0 }
            };
        return RasterImage::build(
            cw,
            ch,
            Ghost(|x: int, y: int| blend_px(gw@, gr@, anchor, x, y)),
            cell,
        );
    }
    let sharp_cell = |x: usize, y: usize| -> (p: Rgba)
        requires
            x < cw,
            y < ch,
        ensures
            p == sharp_px(gw@, gr@, x as int, y as int),
        {
            let p = warped.pixel(x, y);
            let q = if x < rw && y < rh {
                reference.pixel(x, y)
            } else {
                Rgba { r: 0, g: 0, b: 0, a: 0 }
            };
            if p.a == 0 && q.a == 0 {
                Rgba { r: 0, g: 0, b: 0, a: 0 }
            } else if q.a == 0 {
                Rgba { r: p.r, g: p.g, b: p.b, a: 255 }
            } else if p.a == 0 {
                Rgba { r: q.r, g: q.g, b: q.b, a: 255 }
            } else {
                Rgba { r: avg2(p.r, q.r), g: avg2(p.g, q.g), b: avg2(p.b, q.b), a: 255 }
            }
        };
    let sharp = RasterImage::build(
        cw,
        ch,
        Ghost(|x: int, y: int| sharp_px(gw@, gr@, x, y)),
        sharp_cell,
    );
    let down = downsample(&sharp, PYRAMID_FACTOR);
    proof {
        assert forall|x: int, y: int|
            0 <= x < down.wd() && 0 <= y < down.ht() implies down.px(x, y) == down_px(
            gw@,
            gr@,
            x,
            y,
        ) by {
            assert(0 <= down_coord(x, PYRAMID_FACTOR as int, gw@.wd()) < gw@.wd());
            assert(0 <= down_coord(y, PYRAMID_FACTOR as int, gw@.ht()) < gw@.ht());
        }
    }
    let blurred = box_blur(&down);
    proof {
        assert forall|x: int, y: int|
            0 <= x < down.wd() && 0 <= y < down.ht() implies blurred.px(x, y) == pyr_px(
            gw@,
            gr@,
            x,
            y,
        ) by {
            assert(blurred.px(x, y) == blur_img_px(down, x, y));
            let g1 = |xx: int, yy: int| down.px(xx, yy);
            let g2 = |xx: int, yy: int| down_px(gw@, gr@, xx, yy);
            let dw = down.wd();
            let dh = down.ht();
            let xm = clampi(x - 1, dw - 1);
            let x0 = clampi(x, dw - 1);
            let xp = clampi(x + 1, dw - 1);
            let ym = clampi(y - 1, dh - 1);
            let y0 = clampi(y, dh - 1);
            let yp = clampi(y + 1, dh - 1);
            assert(g1(xm, ym) == g2(xm, ym));
            assert(g1(x0, ym) == g2(x0, ym));
            assert(g1(xp, ym) == g2(xp, ym));
            assert(g1(xm, y0) == g2(xm, y0));
            assert(g1(x0, y0) == g2(x0, y0));
            assert(g1(xp, y0) == g2(xp, y0));
            assert(g1(xm, yp) == g2(xm, yp));
            assert(g1(x0, yp) == g2(x0, yp));
            assert(g1(xp, yp) == g2(xp, yp));
            assert(blur9(g1, down.wd(), down.ht(), x, y, 0) == blur9(
                g2,
                down.wd(),
                down.ht(),
                x,
                y,
                0,
            ));
            assert(blur9(g1, down.wd(), down.ht(), x, y, 1) == blur9(
                g2,
                down.wd(),
                down.ht(),
                x,
                y,
                1,
            ));
            assert(blur9(g1, down.wd(), down.ht(), x, y, 2) == blur9(
                g2,
                down.wd(),
                down.ht(),
                x,
                y,
                2,
            ));
            assert(blur9(g1, down.wd(), down.ht(), x, y, 3) == blur9(
                g2,
                down.wd(),
                down.ht(),
                x,
                y,
                3,
            ));
        }
    }
    let up = upsample(&blurred, cw, ch);
    proof {
        assert forall|x: int, y: int| 0 <= x < cw && 0 <= y < ch implies up.px(x, y) == up_px(
            gw@,
            gr@,
            x,
            y,
        ) by {
            lemma_scale_div_lt(x, down.wd(), cw as int);
            lemma_scale_div_lt(y, down.ht(), ch as int);
        }
    }
    let final_cell = |x: usize, y: usize| -> (p: Rgba)
        requires
            x < cw,
            y < ch,
        ensures
            p == blend_px(gw@, gr@, anchor, x as int, y as int),
        {
            let p = warped.pixel(x, y);
            let q = if x < rw && y < rh {
                reference.pixel(x, y)
            } else {
                Rgba { r: 0, g: 0, b: 0, a: 0 }
            };
            if p.a == 0 && q.a == 0 {
                Rgba { r: 0, g: 0, b: 0, a: 0 }
            } else if q.a == 0 {
                Rgba { r: p.r, g: p.g, b: p.b, a: 255 }
            } else if p.a == 0 {
                Rgba { r: q.r, g: q.g, b: q.b, a: 255 }
            } else {
                let s = sharp.pixel(x, y);
                let u = up.pixel(x, y);
                let t = distance_alpha(
                    anchor,
                    Point2D { x: x as i64, y: y as i64 },
                    cw as u32,
                );
                Rgba { r: mix(s.r, u.r, t), g: mix(s.g, u.g, t), b: mix(s.b, u.b, t), a: 255 }
            }
        };
    RasterImage::build(
        cw,
        ch,
        Ghost(|x: int, y: int| blend_px(gw@, gr@, anchor, x, y)),
        final_cell,
    )
}

} // verus!
