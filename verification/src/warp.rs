//! Projective resampling of a raster into a canvas.
//!
//! Every canvas pixel is mapped *backwards* through the transform: the
//! adjugate of the matrix (an exact integer inverse up to scale, and scale
//! is irrelevant to a projective map) carries the canvas position to a
//! homogeneous source position, the projective division is rounded to the
//! nearest source pixel, and that pixel is sampled. A canvas position whose
//! source falls outside the source raster receives the fill value, so the
//! canvas has no unwritten pixel anywhere.

use vstd::prelude::*;

use crate::MAX_DIM;
use crate::error::MosaicError;
use crate::geometry::lemma_mul_bound;
use crate::geometry::lemma_mul_bound2;
use crate::homography::Homography;
use crate::homography::det2;
use crate::homography::dot3;
use crate::homography::identity;
use crate::raster::RasterImage;
use crate::raster::Rgba;

verus! {

/// Ceiling on the magnitude of each adjugate coefficient: with coefficients
/// under it and canvas coordinates under [`MAX_DIM`], every homogeneous
/// source position fits comfortably in `i128`.
pub const ADJ_CEIL: i128 = 0x200_0000_0000_0000_0000_0000_0000;

/// Entry ceiling under which the warper's exact inversion is guaranteed to
/// succeed whenever the determinant is nonzero.
pub const TAME_ENTRY: i128 = 0x200_0000_0000;

/// The determinant of the transform.
pub open spec fn det(h: Homography) -> int {
    h.h0 * (h.h4 * h.h8 - h.h5 * h.h7) + h.h1 * (h.h5 * h.h6 - h.h3 * h.h8) + h.h2 * (h.h3 * h.h7
        - h.h4 * h.h6)
}

/// Entries small enough that inversion can never overflow.
pub open spec fn tame_matrix(h: Homography) -> bool {
    &&& -TAME_ENTRY <= h.h0 <= TAME_ENTRY
    &&& -TAME_ENTRY <= h.h1 <= TAME_ENTRY
    &&& -TAME_ENTRY <= h.h2 <= TAME_ENTRY
    &&& -TAME_ENTRY <= h.h3 <= TAME_ENTRY
    &&& -TAME_ENTRY <= h.h4 <= TAME_ENTRY
    &&& -TAME_ENTRY <= h.h5 <= TAME_ENTRY
    &&& -TAME_ENTRY <= h.h6 <= TAME_ENTRY
    &&& -TAME_ENTRY <= h.h7 <= TAME_ENTRY
    &&& -TAME_ENTRY <= h.h8 <= TAME_ENTRY
}

/// First homogeneous coordinate of the inverse image of canvas position
/// `(x, y)`: the first row of the adjugate applied to `(x, y, 1)`.
pub open spec fn inv_u(h: Homography, x: int, y: int) -> int {
    (h.h4 * h.h8 - h.h5 * h.h7) * x + (h.h2 * h.h7 - h.h1 * h.h8) * y + (h.h1 * h.h5 - h.h2 * h.h4)
}

/// Second homogeneous coordinate of the inverse image.
pub open spec fn inv_v(h: Homography, x: int, y: int) -> int {
    (h.h5 * h.h6 - h.h3 * h.h8) * x + (h.h0 * h.h8 - h.h2 * h.h6) * y + (h.h2 * h.h3 - h.h0 * h.h5)
}

/// Homogeneous scale of the inverse image.
pub open spec fn inv_w(h: Homography, x: int, y: int) -> int {
    (h.h3 * h.h7 - h.h4 * h.h6) * x + (h.h1 * h.h6 - h.h0 * h.h7) * y + (h.h0 * h.h4 - h.h1 * h.h3)
}

/// Rounds the exact rational `n / d` (with `d > 0`) to the nearest integer,
/// halves downward.
pub open spec fn rdiv(n: int, d: int) -> int {
    (2 * n + d - 1) / (2 * d)
}

/// The source position sampled for canvas position `(x, y)`: the inverse
/// image under the projective division, rounded to the nearest pixel, or
/// `None` when the inverse image is at infinity.
pub open spec fn source_coord(h: Homography, x: int, y: int) -> Option<(int, int)> {
    let u = inv_u(h, x, y);
    let v = inv_v(h, x, y);
    let w = inv_w(h, x, y);
    if w == 0 {
        None
    } else if w > 0 {
        Some((rdiv(u, w), rdiv(v, w)))
    } else {
        Some((rdiv(-u, -w), rdiv(-v, -w)))
    }
}

/// The value the warper writes at canvas position `(x, y)`: the nearest
/// source pixel when the inverse image lands inside the source raster, the
/// fill value otherwise.
pub open spec fn warp_px(src: RasterImage, h: Homography, x: int, y: int, fill: Rgba) -> Rgba {
    match source_coord(h, x, y) {
        None => fill,
        Some((u, v)) => if 0 <= u < src.wd() && 0 <= v < src.ht() {
            src.px(u, v)
        } else {
            fill
        },
    }
}

/// Under the identity transform every canvas position samples itself, so
/// the warper reproduces the source image at every in-range position and
/// fills the rest of the canvas.
pub proof fn lemma_warp_identity(src: RasterImage, x: int, y: int, fill: Rgba)
    requires
        0 <= x,
        0 <= y,
    ensures
        warp_px(src, identity(), x, y, fill) == if x < src.wd() && y < src.ht() {
            src.px(x, y)
        } else {
            fill
        },
{
    let id = identity();
    assert((id.h4 * id.h8 - id.h5 * id.h7) * x + (id.h2 * id.h7 - id.h1 * id.h8) * y + (id.h1
        * id.h5 - id.h2 * id.h4) == x && (id.h5 * id.h6 - id.h3 * id.h8) * x + (id.h0 * id.h8
        - id.h2 * id.h6) * y + (id.h2 * id.h3 - id.h0 * id.h5) == y && (id.h3 * id.h7 - id.h4
        * id.h6) * x + (id.h1 * id.h6 - id.h0 * id.h7) * y + (id.h0 * id.h4 - id.h1 * id.h3) == 1)
        by (nonlinear_arith)
        requires
            id.h0 == 1,
            id.h1 == 0,
            id.h2 == 0,
            id.h3 == 0,
            id.h4 == 1,
            id.h5 == 0,
            id.h6 == 0,
            id.h7 == 0,
            id.h8 == 1,
    ;
    assert(inv_u(id, x, y) == x);
    assert(inv_v(id, x, y) == y);
    assert(inv_w(id, x, y) == 1);
    assert(rdiv(x, 1) == x) by {
        assert((2 * x) / 2 == x) by (nonlinear_arith)
            requires
                0 <= x,
        ;
    }
    assert(rdiv(y, 1) == y) by {
        assert((2 * y) / 2 == y) by (nonlinear_arith)
            requires
                0 <= y,
        ;
    }
}

/// A scale-and-translate matrix with a nonzero, moderately sized scale and
/// moderate offsets is tame and invertible, so the warper accepts it.
pub proof fn lemma_scale_map_tame(k: int, tx: int, ty: int)
    requires
        k != 0,
        -0x10_0000 <= k <= 0x10_0000,
        -0x100_0000_0000 <= tx <= 0x100_0000_0000,
        -0x100_0000_0000 <= ty <= 0x100_0000_0000,
    ensures
        tame_matrix(crate::homography::scale_map(k, tx, ty)),
        det(crate::homography::scale_map(k, tx, ty)) != 0,
{
    let h = crate::homography::scale_map(k, tx, ty);
    assert(h.h0 * (h.h4 * h.h8 - h.h5 * h.h7) + h.h1 * (h.h5 * h.h6 - h.h3 * h.h8) + h.h2 * (h.h3
        * h.h7 - h.h4 * h.h6) == k * k && k * k != 0) by (nonlinear_arith)
        requires
            h.h0 == k,
            h.h1 == 0,
            h.h2 == tx,
            h.h3 == 0,
            h.h4 == k,
            h.h5 == ty,
            h.h6 == 0,
            h.h7 == 0,
            h.h8 == 1,
            k != 0,
    ;
}

/// A nonnegative dividend and positive divisor give a nonnegative quotient;
/// a negative dividend gives a negative one.
proof fn lemma_div_sign(n: int, d: int)
    requires
        d > 0,
    ensures
        n >= 0 ==> n / d >= 0,
        n < 0 ==> n / d < 0,
{
    vstd::arithmetic::div_mod::lemma_fundamental_div_mod(n, d);
    let q = n / d;
    let r = n % d;
    vstd::arithmetic::div_mod::lemma_mod_bound(n, d);
    assert(n == d * q + r);
    if n >= 0 && q < 0 {
        assert(d * q <= -d) by (nonlinear_arith)
            requires
                d > 0,
                q <= -1,
        ;
    }
    if n < 0 && q >= 0 {
        assert(d * q >= 0) by (nonlinear_arith)
            requires
                d > 0,
                q >= 0,
        ;
    }
}

/// Resamples `source` through `h` into a fresh `canvas_w` by `canvas_h`
/// canvas. Out-of-range positions receive `fill`; no canvas pixel is left
/// unwritten. Fails with `CanvasOverflow` exactly on over-ceiling canvas
/// requests, and with `InvalidMatrix` when the transform cannot be inverted
/// exactly — in particular whenever its determinant is zero. For a tame
/// matrix with nonzero determinant, success is guaranteed.
pub fn warp(
    source: &RasterImage,
    h: &Homography,
    canvas_w: usize,
    canvas_h: usize,
    fill: Rgba,
) -> (r: Result<RasterImage, MosaicError>)
    ensures
        r == Err::<RasterImage, MosaicError>(MosaicError::CanvasOverflow) <==> (canvas_w > MAX_DIM
            || canvas_h > MAX_DIM),
        canvas_w <= MAX_DIM && canvas_h <= MAX_DIM && det(*h) == 0 ==> r == Err::<
            RasterImage,
            MosaicError,
        >(MosaicError::InvalidMatrix),
        canvas_w <= MAX_DIM && canvas_h <= MAX_DIM && tame_matrix(*h) && det(*h) != 0 ==> r is Ok,
        r is Err ==> r->Err_0 == MosaicError::CanvasOverflow || r->Err_0
            == MosaicError::InvalidMatrix,
        r is Ok ==> {
            let img = r->Ok_0;
            &&& det(*h) != 0
            &&& img.wd() == canvas_w
            &&& img.ht() == canvas_h
            &&& forall|x: int, y: int|
                0 <= x < canvas_w && 0 <= y < canvas_h ==> img.px(x, y) == warp_px(
                    *source,
                    *h,
                    x,
                    y,
                    fill,
                )
        },
{
    if canvas_w > MAX_DIM || canvas_h > MAX_DIM {
        return Err(MosaicError::CanvasOverflow);
    }
    proof {
        if tame_matrix(*h) {
            lemma_mul_bound(h.h0 as int, h.h4 as int, TAME_ENTRY as int);
            lemma_mul_bound(h.h0 as int, h.h5 as int, TAME_ENTRY as int);
            lemma_mul_bound(h.h0 as int, h.h7 as int, TAME_ENTRY as int);
            lemma_mul_bound(h.h0 as int, h.h8 as int, TAME_ENTRY as int);
            lemma_mul_bound(h.h1 as int, h.h3 as int, TAME_ENTRY as int);
            lemma_mul_bound(h.h1 as int, h.h5 as int, TAME_ENTRY as int);
            lemma_mul_bound(h.h1 as int, h.h6 as int, TAME_ENTRY as int);
            lemma_mul_bound(h.h1 as int, h.h8 as int, TAME_ENTRY as int);
            lemma_mul_bound(h.h2 as int, h.h3 as int, TAME_ENTRY as int);
            lemma_mul_bound(h.h2 as int, h.h4 as int, TAME_ENTRY as int);
            lemma_mul_bound(h.h2 as int, h.h6 as int, TAME_ENTRY as int);
            lemma_mul_bound(h.h2 as int, h.h7 as int, TAME_ENTRY as int);
            lemma_mul_bound(h.h3 as int, h.h7 as int, TAME_ENTRY as int);
            lemma_mul_bound(h.h3 as int, h.h8 as int, TAME_ENTRY as int);
            lemma_mul_bound(h.h4 as int, h.h6 as int, TAME_ENTRY as int);
            lemma_mul_bound(h.h4 as int, h.h8 as int, TAME_ENTRY as int);
            lemma_mul_bound(h.h5 as int, h.h6 as int, TAME_ENTRY as int);
            lemma_mul_bound(h.h5 as int, h.h7 as int, TAME_ENTRY as int);
        }
    }
    let c0 = match det2(h.h4, h.h5, h.h7, h.h8) {
        Some(v) => v,
        None => { return Err(MosaicError::InvalidMatrix); },
    };
    let c1 = match det2(h.h2, h.h1, h.h8, h.h7) {
        Some(v) => v,
        None => { return Err(MosaicError::InvalidMatrix); },
    };
    let c2 = match det2(h.h1, h.h2, h.h4, h.h5) {
        Some(v) => v,
        None => { return Err(MosaicError::InvalidMatrix); },
    };
    let c3 = match det2(h.h5, h.h3, h.h8, h.h6) {
        Some(v) => v,
        None => { return Err(MosaicError::InvalidMatrix); },
    };
    let c4 = match det2(h.h0, h.h2, h.h6, h.h8) {
        Some(v) => v,
        None => { return Err(MosaicError::InvalidMatrix); },
    };
    let c5 = match det2(h.h2, h.h0, h.h5, h.h3) {
        Some(v) => v,
        None => { return Err(MosaicError::InvalidMatrix); },
    };
    let c6 = match det2(h.h3, h.h4, h.h6, h.h7) {
        Some(v) => v,
        None => { return Err(MosaicError::InvalidMatrix); },
    };
    let c7 = match det2(h.h1, h.h0, h.h7, h.h6) {
        Some(v) => v,
        None => { return Err(MosaicError::InvalidMatrix); },
    };
    let c8 = match det2(h.h0, h.h1, h.h3, h.h4) {
        Some(v) => v,
        None => { return Err(MosaicError::InvalidMatrix); },
    };
    proof {
        if tame_matrix(*h) {
            let cb = 2 * (TAME_ENTRY as int) * (TAME_ENTRY as int);
            lemma_mul_bound2(h.h0 as int, c0 as int, TAME_ENTRY as int, cb);
            lemma_mul_bound2(h.h1 as int, c3 as int, TAME_ENTRY as int, cb);
            lemma_mul_bound2(h.h2 as int, c6 as int, TAME_ENTRY as int, cb);
        }
    }
    let d = match dot3(h.h0, h.h1, h.h2, c0, c3, c6) {
        Some(v) => v,
        None => { return Err(MosaicError::InvalidMatrix); },
    };
    if d == 0 {
        return Err(MosaicError::InvalidMatrix);
    }
    if c0 < -ADJ_CEIL || c0 > ADJ_CEIL || c1 < -ADJ_CEIL || c1 > ADJ_CEIL || c2 < -ADJ_CEIL || c2
        > ADJ_CEIL || c3 < -ADJ_CEIL || c3 > ADJ_CEIL || c4 < -ADJ_CEIL || c4 > ADJ_CEIL || c5
        < -ADJ_CEIL || c5 > ADJ_CEIL || c6 < -ADJ_CEIL || c6 > ADJ_CEIL || c7 < -ADJ_CEIL || c7
        > ADJ_CEIL || c8 < -ADJ_CEIL || c8 > ADJ_CEIL {
        return Err(MosaicError::InvalidMatrix);
    }
    let sw = source.width();
    let sh = source.height();
    let hh: Ghost<Homography> = Ghost(*h);
    let srcg: Ghost<RasterImage> = Ghost(*source);
    let cell = |x: usize, y: usize| -> (p: Rgba)
        requires
            x < canvas_w,
            y < canvas_h,
        ensures
            p == warp_px(srcg@, hh@, x as int, y as int, fill),
        {
                let xi = x as i128;
                let yi = y as i128;
                proof {
                    lemma_mul_bound2(c0 as int, xi as int, ADJ_CEIL as int, MAX_DIM as int);
                    lemma_mul_bound2(c1 as int, yi as int, ADJ_CEIL as int, MAX_DIM as int);
                    lemma_mul_bound2(c3 as int, xi as int, ADJ_CEIL as int, MAX_DIM as int);
                    lemma_mul_bound2(c4 as int, yi as int, ADJ_CEIL as int, MAX_DIM as int);
                    lemma_mul_bound2(c6 as int, xi as int, ADJ_CEIL as int, MAX_DIM as int);
                    lemma_mul_bound2(c7 as int, yi as int, ADJ_CEIL as int, MAX_DIM as int);
                }
                let u = c0 * xi + c1 * yi + c2;
                let v = c3 * xi + c4 * yi + c5;
                let w = c6 * xi + c7 * yi + c8;
                if w == 0 {
                    return fill;
                }
                let (u1, v1, w1) = if w > 0 {
                    (u, v, w)
                } else {
                    (-u, -v, -w)
                };
                let nu = 2 * u1 + w1 - 1;
                let nv = 2 * v1 + w1 - 1;
                let dd = 2 * w1;
                proof {
                    lemma_div_sign(nu as int, dd as int);
                    lemma_div_sign(nv as int, dd as int);
                }
                if nu < 0 || nv < 0 {
                    return fill;
                }
                let us = (nu as u128) / (dd as u128);
                let vs = (nv as u128) / (dd as u128);
                if us < sw as u128 && vs < sh as u128 {
                    source.pixel(us as usize, vs as usize)
                } else {
                    fill
                }
        };
    let img = RasterImage::build(
        canvas_w,
        canvas_h,
        Ghost(|x: int, y: int| warp_px(srcg@, hh@, x, y, fill)),
        cell,
    );
    Ok(img)
}

} // verus!
