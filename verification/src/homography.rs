//! Fitting a projective transform to four point correspondences.
//!
//! A homography is determined only up to scale, so this library stores an
//! integer representative: nine `i128` entries, reduced by their common
//! divisor and with the bottom-right entry positive. Fitting is exact and
//! proceeds in two stages. A verified fast path recognises every integer
//! scale-and-translate correspondence and writes its transform down
//! directly, so success and the exact matrix are *guaranteed* on that
//! class. The general projective case assembles the transform carrying the
//! canonical frame onto each quadrilateral from 3-by-3 determinants
//! (Cramer's rule), composes the two through an adjugate, and *checks* the
//! candidate against every correspondence with exact integer arithmetic;
//! there the contract rests entirely on that final check, never on the
//! algebra of the construction.

use vstd::prelude::*;

use crate::error::MosaicError;
use crate::geometry::Point2D;
use crate::geometry::check_degenerate;
use crate::geometry::collinear;
use crate::geometry::degenerate_quad;
use crate::geometry::tame_point;

verus! {

/// A 3-by-3 projective transform with integer entries, row-major:
/// mapping `(x, y)` sends the homogeneous column `(x, y, 1)` to
/// `(h0 x + h1 y + h2, h3 x + h4 y + h5, h6 x + h7 y + h8)`.
#[derive(Clone, Copy, Debug, PartialEq, Eq, Structural)]
pub struct Homography {
    pub h0: i128,
    pub h1: i128,
    pub h2: i128,
    pub h3: i128,
    pub h4: i128,
    pub h5: i128,
    pub h6: i128,
    pub h7: i128,
    pub h8: i128,
}

/// The identity transform.
pub open spec fn identity() -> Homography {
    Homography { h0: 1, h1: 0, h2: 0, h3: 0, h4: 1, h5: 0, h6: 0, h7: 0, h8: 1 }
}

/// `h` carries the source landmark `s` exactly onto the destination
/// landmark `d`: the homogeneous image of `s` is a (nonzero) scalar multiple
/// of `(d.x, d.y, 1)`, stated by cross-multiplying the projective division.
pub open spec fn maps_pair(h: Homography, s: Point2D, d: Point2D) -> bool {
    let w = h.h6 * (s.x as int) + h.h7 * (s.y as int) + h.h8;
    &&& w != 0
    &&& h.h0 * (s.x as int) + h.h1 * (s.y as int) + h.h2 == (d.x as int) * w
    &&& h.h3 * (s.x as int) + h.h4 * (s.y as int) + h.h5 == (d.y as int) * w
}

/// The identity transform carries every landmark onto itself.
pub proof fn lemma_identity_maps(s: Point2D)
    ensures
        maps_pair(identity(), s, s),
{
    let id = identity();
    let sx = s.x as int;
    let sy = s.y as int;
    assert(id.h6 * sx + id.h7 * sy + id.h8 == 1 && id.h0 * sx + id.h1 * sy + id.h2 == sx * 1
        && id.h3 * sx + id.h4 * sy + id.h5 == sy * 1) by (nonlinear_arith)
        requires
            id.h0 == 1,
            id.h1 == 0,
            id.h2 == 0,
            id.h3 == 0,
            id.h4 == 1,
            id.h5 == 0,
            id.h6 == 0,
            id.h7 == 0,
            id.h8 == 1,
    ;
}

impl Homography {
    /// Builds the identity transform.
    pub fn identity_matrix() -> (h: Homography)
        ensures
            h == identity(),
    {
        Homography { h0: 1, h1: 0, h2: 0, h3: 0, h4: 1, h5: 0, h6: 0, h7: 0, h8: 1 }
    }
}

/// Magnitude under which three product terms can be summed in `i128`
/// without any risk of overflow.
pub const SAFE_TERM: i128 = 0x2000_0000_0000_0000_0000_0000_0000_0000;

/// `a * d - b * c`, or `None` on overflow; guaranteed to succeed while both
/// products stay under [`SAFE_TERM`].
pub(crate) fn det2(a: i128, b: i128, c: i128, d: i128) -> (r: Option<i128>)
    ensures
        r is Some ==> r->0 == a * d - b * c,
        vstd::math::abs(a * d) <= SAFE_TERM && vstd::math::abs(b * c) <= SAFE_TERM ==> r is Some,
{
    let ad = match a.checked_mul(d) {
        Some(v) => v,
        None => { return None; },
    };
    let bc = match b.checked_mul(c) {
        Some(v) => v,
        None => { return None; },
    };
    ad.checked_sub(bc)
}

/// `a * x + b * y + c * z`, or `None` on overflow; guaranteed to succeed
/// while all three products stay under [`SAFE_TERM`].
pub(crate) fn dot3(a: i128, b: i128, c: i128, x: i128, y: i128, z: i128) -> (r: Option<i128>)
    ensures
        r is Some ==> r->0 == a * x + b * y + c * z,
        vstd::math::abs(a * x) <= SAFE_TERM && vstd::math::abs(b * y) <= SAFE_TERM
            && vstd::math::abs(c * z) <= SAFE_TERM ==> r is Some,
{
    let ax = match a.checked_mul(x) {
        Some(v) => v,
        None => { return None; },
    };
    let by = match b.checked_mul(y) {
        Some(v) => v,
        None => { return None; },
    };
    let cz = match c.checked_mul(z) {
        Some(v) => v,
        None => { return None; },
    };
    let s = match ax.checked_add(by) {
        Some(v) => v,
        None => { return None; },
    };
    s.checked_add(cz)
}

/// The determinant of the 3-by-3 matrix whose columns are the homogeneous
/// points `p`, `q`, `r`; twice the signed area of the triangle they span.
fn det3(p: Point2D, q: Point2D, r: Point2D) -> Option<i128> {
    let px = p.x as i128;
    let py = p.y as i128;
    let qx = q.x as i128;
    let qy = q.y as i128;
    let rx = r.x as i128;
    let ry = r.y as i128;
    let t0 = px.checked_mul(qy - ry)?;
    let t1 = qx.checked_mul(py - ry)?;
    let t2 = rx.checked_mul(py - qy)?;
    let s = t0.checked_sub(t1)?;
    s.checked_add(t2)
}

/// Greatest common divisor by Euclid's algorithm; zero only when both
/// arguments are zero.
fn gcd_u128(a0: u128, b0: u128) -> (g: u128)
    ensures
        a0 != 0 || b0 != 0 ==> g != 0,
{
    let mut a = a0;
    let mut b = b0;
    while b != 0
        invariant
            a0 != 0 || b0 != 0 ==> a != 0 || b != 0,
        decreases b,
    {
        let t = a % b;
        a = b;
        b = t;
    }
    a
}

/// The magnitude of `v`, which is representable even for `i128::MIN`.
fn magnitude(v: i128) -> (r: u128)
    ensures
        r == vstd::math::abs(v as int),
{
    if v >= 0 {
        v as u128
    } else {
        ((-(v + 1)) as u128) + 1
    }
}

/// The nine entries of a candidate transform, before reduction.
struct Candidate {
    e0: i128,
    e1: i128,
    e2: i128,
    e3: i128,
    e4: i128,
    e5: i128,
    e6: i128,
    e7: i128,
    e8: i128,
}

/// Assembles the transform carrying the canonical projective frame onto the
/// quadrilateral `p0 p1 p2 p3`, scaled to integer entries: the columns are
/// the homogeneous points of `p0`, `p1`, `p2`, each weighted by the Cramer
/// determinant that makes the column sum hit `p3`.
fn frame_to_quad(p0: Point2D, p1: Point2D, p2: Point2D, p3: Point2D) -> Option<Candidate> {
    let l = det3(p3, p1, p2)?;
    let m = det3(p0, p3, p2)?;
    let n = det3(p0, p1, p3)?;
    Some(
        Candidate {
            e0: l.checked_mul(p0.x as i128)?,
            e1: m.checked_mul(p1.x as i128)?,
            e2: n.checked_mul(p2.x as i128)?,
            e3: l.checked_mul(p0.y as i128)?,
            e4: m.checked_mul(p1.y as i128)?,
            e5: n.checked_mul(p2.y as i128)?,
            e6: l,
            e7: m,
            e8: n,
        },
    )
}

/// The adjugate: the transpose of the cofactor matrix, an integer inverse
/// up to the scalar factor of the determinant.
fn adjugate(c: &Candidate) -> Option<Candidate> {
    Some(
        Candidate {
            e0: det2(c.e4, c.e5, c.e7, c.e8)?,
            e1: det2(c.e2, c.e1, c.e8, c.e7)?,
            e2: det2(c.e1, c.e2, c.e4, c.e5)?,
            e3: det2(c.e5, c.e3, c.e8, c.e6)?,
            e4: det2(c.e0, c.e2, c.e6, c.e8)?,
            e5: det2(c.e2, c.e0, c.e5, c.e3)?,
            e6: det2(c.e3, c.e4, c.e6, c.e7)?,
            e7: det2(c.e1, c.e0, c.e7, c.e6)?,
            e8: det2(c.e0, c.e1, c.e3, c.e4)?,
        },
    )
}

/// The matrix product `a * b`.
fn mat_mul(a: &Candidate, b: &Candidate) -> Option<Candidate> {
    Some(
        Candidate {
            e0: dot3(a.e0, a.e1, a.e2, b.e0, b.e3, b.e6)?,
            e1: dot3(a.e0, a.e1, a.e2, b.e1, b.e4, b.e7)?,
            e2: dot3(a.e0, a.e1, a.e2, b.e2, b.e5, b.e8)?,
            e3: dot3(a.e3, a.e4, a.e5, b.e0, b.e3, b.e6)?,
            e4: dot3(a.e3, a.e4, a.e5, b.e1, b.e4, b.e7)?,
            e5: dot3(a.e3, a.e4, a.e5, b.e2, b.e5, b.e8)?,
            e6: dot3(a.e6, a.e7, a.e8, b.e0, b.e3, b.e6)?,
            e7: dot3(a.e6, a.e7, a.e8, b.e1, b.e4, b.e7)?,
            e8: dot3(a.e6, a.e7, a.e8, b.e2, b.e5, b.e8)?,
        },
    )
}

/// Divides the entries by their greatest common divisor and flips signs so
/// that the bottom-right entry, if nonzero, is positive. `None` when an
/// entry is `i128::MIN` (whose magnitude has no representative) or all nine
/// entries vanish.
fn reduce(c: &Candidate) -> Option<Candidate> {
    let min = i128::MIN;
    if c.e0 == min || c.e1 == min || c.e2 == min || c.e3 == min || c.e4 == min || c.e5 == min
        || c.e6 == min || c.e7 == min || c.e8 == min {
        return None;
    }
    let mut g: u128 = gcd_u128(magnitude(c.e0), magnitude(c.e1));
    g = gcd_u128(g, magnitude(c.e2));
    g = gcd_u128(g, magnitude(c.e3));
    g = gcd_u128(g, magnitude(c.e4));
    g = gcd_u128(g, magnitude(c.e5));
    g = gcd_u128(g, magnitude(c.e6));
    g = gcd_u128(g, magnitude(c.e7));
    g = gcd_u128(g, magnitude(c.e8));
    if g == 0 {
        return None;
    }
    let flip = c.e8 < 0;
    Some(
        Candidate {
            e0: reduce_entry(c.e0, g, flip),
            e1: reduce_entry(c.e1, g, flip),
            e2: reduce_entry(c.e2, g, flip),
            e3: reduce_entry(c.e3, g, flip),
            e4: reduce_entry(c.e4, g, flip),
            e5: reduce_entry(c.e5, g, flip),
            e6: reduce_entry(c.e6, g, flip),
            e7: reduce_entry(c.e7, g, flip),
            e8: reduce_entry(c.e8, g, flip),
        },
    )
}

/// One entry of [`reduce`]: magnitude divided by `g`, sign reapplied and
/// flipped when asked.
fn reduce_entry(e: i128, g: u128, flip: bool) -> i128
    requires
        g != 0,
        e != i128::MIN,
{
    let m = magnitude(e);
    let q = m / g;
    proof {
        vstd::arithmetic::div_mod::lemma_div_is_ordered(q as int, m as int, 1);
        vstd::arithmetic::div_mod::lemma_div_is_ordered_by_denominator(m as int, 1, g as int);
    }
    let q = q as i128;
    if (e < 0) != flip {
        -q
    } else {
        q
    }
}

/// The product `k * b`, named so that divisibility can be quantified.
pub open spec fn times(k: int, b: int) -> int {
    k * b
}

/// `d` is the image of `s` under scaling by `k` and translating by
/// `(tx, ty)`.
pub open spec fn affine_rel(k: int, tx: int, ty: int, s: Point2D, d: Point2D) -> bool {
    d.x == k * s.x + tx && d.y == k * s.y + ty
}

/// The transform that scales by `k` and translates by `(tx, ty)`.
pub open spec fn scale_map(k: int, tx: int, ty: int) -> Homography {
    Homography {
        h0: k as i128,
        h1: 0,
        h2: tx as i128,
        h3: 0,
        h4: k as i128,
        h5: ty as i128,
        h6: 0,
        h7: 0,
        h8: 1,
    }
}

/// A scale-and-translate matrix carries a landmark onto its image.
proof fn lemma_affine_maps(h: Homography, s: Point2D, d: Point2D)
    requires
        h.h1 == 0,
        h.h3 == 0,
        h.h6 == 0,
        h.h7 == 0,
        h.h8 == 1,
        d.x == h.h0 * s.x + h.h2,
        d.y == h.h4 * s.y + h.h5,
    ensures
        maps_pair(h, s, d),
{
    let sx = s.x as int;
    let sy = s.y as int;
    assert(h.h6 * sx + h.h7 * sy + h.h8 == 1 && h.h0 * sx + h.h1 * sy + h.h2 == (d.x as int) * 1
        && h.h3 * sx + h.h4 * sy + h.h5 == (d.y as int) * 1) by (nonlinear_arith)
        requires
            sx == s.x,
            sy == s.y,
            h.h1 == 0,
            h.h3 == 0,
            h.h6 == 0,
            h.h7 == 0,
            h.h8 == 1,
            d.x == h.h0 * s.x + h.h2,
            d.y == h.h4 * s.y + h.h5,
    ;
}

/// Divides `a` by `b` exactly, or reports that `b` does not divide `a`;
/// whenever a quotient exists it is found. The result is certified by
/// multiplying back, so nothing rests on the division itself.
fn exact_div(a: i128, b: i128) -> (r: Option<i128>)
    requires
        -0x8000_0000_0000_0000 <= a <= 0x8000_0000_0000_0000,
        -0x8000_0000_0000_0000 <= b <= 0x8000_0000_0000_0000,
        b != 0,
    ensures
        r is Some ==> (r->0 as int) * b == a && -0x8000_0000_0000_0000 <= r->0
            <= 0x8000_0000_0000_0000,
        forall|k: int| a == #[trigger] times(k, b as int) ==> r is Some,
{
    let am = magnitude(a);
    let bm = magnitude(b);
    let qm = am / bm;
    let rem = am % bm;
    proof {
        vstd::arithmetic::div_mod::lemma_div_is_ordered_by_denominator(am as int, 1, bm as int);
        assert forall|k: int| a == #[trigger] times(k, b as int) implies rem == 0 && qm
            == vstd::math::abs(k) by {
            let ka = vstd::math::abs(k);
            assert(am == ka * bm) by (nonlinear_arith)
                requires
                    a == k * b,
                    am == vstd::math::abs(a as int),
                    bm == vstd::math::abs(b as int),
                    ka == vstd::math::abs(k),
            ;
            vstd::arithmetic::div_mod::lemma_mod_multiples_basic(ka as int, bm as int);
            vstd::arithmetic::div_mod::lemma_div_multiples_vanish(ka as int, bm as int);
        }
    }
    if rem != 0 {
        return None;
    }
    let q: i128 = if (a < 0) != (b < 0) {
        -(qm as i128)
    } else {
        qm as i128
    };
    proof {
        assert forall|k: int| a == #[trigger] times(k, b as int) implies q == k && (q == 0 ==> a
            == 0) by {
            assert(q == k && (k == 0 ==> a == 0)) by (nonlinear_arith)
                requires
                    a == k * b,
                    b != 0,
                    qm == vstd::math::abs(k),
                    (a < 0) != (b < 0) ==> q == -(qm as int),
                    !((a < 0) != (b < 0)) ==> q == qm,
            ;
        }
    }
    if q == 0 && a != 0 {
        return None;
    }
    proof {
        crate::geometry::lemma_mul_bound(q as int, b as int, 0x8000_0000_0000_0000);
    }
    if q * b == a {
        Some(q)
    } else {
        None
    }
}

/// The scale-and-translate fast path: when every destination landmark is
/// the same integer scaling and translation of its source landmark, that
/// transform is written down directly and certified; the quotient search
/// is complete, so this finds the fit whenever one exists (given tame
/// landmarks and `s1 != s0`).
fn try_affine(
    s0: Point2D,
    s1: Point2D,
    s2: Point2D,
    s3: Point2D,
    d0: Point2D,
    d1: Point2D,
    d2: Point2D,
    d3: Point2D,
) -> (r: Option<Homography>)
    ensures
        r is Some ==> {
            &&& r->0.h8 > 0
            &&& maps_pair(r->0, s0, d0)
            &&& maps_pair(r->0, s1, d1)
            &&& maps_pair(r->0, s2, d2)
            &&& maps_pair(r->0, s3, d3)
        },
        forall|k: int, tx: int, ty: int|
            tame_point(s0) && tame_point(s1) && tame_point(s2) && tame_point(s3) && tame_point(d0)
                && tame_point(d1) && tame_point(d2) && tame_point(d3) && s1 != s0 && affine_rel(
                k,
                tx,
                ty,
                s0,
                d0,
            ) && affine_rel(k, tx, ty, s1, d1) && affine_rel(k, tx, ty, s2, d2) && affine_rel(
                k,
                tx,
                ty,
                s3,
                d3,
            ) ==> r == Some(#[trigger] scale_map(k, tx, ty)),
{
    if !(point_is_tame(s0) && point_is_tame(s1) && point_is_tame(s2) && point_is_tame(s3)
        && point_is_tame(d0) && point_is_tame(d1) && point_is_tame(d2) && point_is_tame(d3)) {
        return None;
    }
    let kx = s1.x as i128 - s0.x as i128;
    let ky = s1.y as i128 - s0.y as i128;
    let gx = d1.x as i128 - d0.x as i128;
    let gy = d1.y as i128 - d0.y as i128;
    proof {
        assert forall|k: int, tx: int, ty: int|
            affine_rel(k, tx, ty, s0, d0) && affine_rel(k, tx, ty, s1, d1) implies gx == times(
            k,
            kx as int,
        ) && gy == times(k, ky as int) by {
            assert(gx == k * kx && gy == k * ky) by (nonlinear_arith)
                requires
                    d0.x == k * s0.x + tx,
                    d1.x == k * s1.x + tx,
                    d0.y == k * s0.y + ty,
                    d1.y == k * s1.y + ty,
                    gx == d1.x - d0.x,
                    gy == d1.y - d0.y,
                    kx == s1.x - s0.x,
                    ky == s1.y - s0.y,
            ;
        }
    }
    let q_opt: Option<i128> = if kx != 0 {
        exact_div(gx, kx)
    } else if ky != 0 {
        exact_div(gy, ky)
    } else {
        return None;
    };
    let q = match q_opt {
        Some(q) => q,
        None => {
            return None;
        },
    };
    proof {
        assert forall|k: int, tx: int, ty: int|
            affine_rel(k, tx, ty, s0, d0) && affine_rel(k, tx, ty, s1, d1) && (kx != 0 || ky != 0)
                implies q == k by {
            if kx != 0 {
                assert(q == k) by (nonlinear_arith)
                    requires
                        (q as int) * (kx as int) == gx,
                        gx == k * kx,
                        kx != 0,
                ;
            } else {
                assert(q == k) by (nonlinear_arith)
                    requires
                        (q as int) * (ky as int) == gy,
                        gy == k * ky,
                        ky != 0,
                ;
            }
        }
    }
    proof {
        crate::geometry::lemma_mul_bound2(
            q as int,
            s0.x as int,
            0x8000_0000_0000_0000,
            0x4000_0000_0000_0000,
        );
        crate::geometry::lemma_mul_bound2(
            q as int,
            s0.y as int,
            0x8000_0000_0000_0000,
            0x4000_0000_0000_0000,
        );
    }
    let tx: i128 = d0.x as i128 - q * s0.x as i128;
    let ty: i128 = d0.y as i128 - q * s0.y as i128;
    proof {
        crate::geometry::lemma_mul_bound2(
            q as int,
            s1.x as int,
            0x8000_0000_0000_0000,
            0x4000_0000_0000_0000,
        );
        crate::geometry::lemma_mul_bound2(
            q as int,
            s1.y as int,
            0x8000_0000_0000_0000,
            0x4000_0000_0000_0000,
        );
        crate::geometry::lemma_mul_bound2(
            q as int,
            s2.x as int,
            0x8000_0000_0000_0000,
            0x4000_0000_0000_0000,
        );
        crate::geometry::lemma_mul_bound2(
            q as int,
            s2.y as int,
            0x8000_0000_0000_0000,
            0x4000_0000_0000_0000,
        );
        crate::geometry::lemma_mul_bound2(
            q as int,
            s3.x as int,
            0x8000_0000_0000_0000,
            0x4000_0000_0000_0000,
        );
        crate::geometry::lemma_mul_bound2(
            q as int,
            s3.y as int,
            0x8000_0000_0000_0000,
            0x4000_0000_0000_0000,
        );
    }
    let ok = d0.x as i128 == q * s0.x as i128 + tx && d0.y as i128 == q * s0.y as i128 + ty
        && d1.x as i128 == q * s1.x as i128 + tx && d1.y as i128 == q * s1.y as i128 + ty
        && d2.x as i128 == q * s2.x as i128 + tx && d2.y as i128 == q * s2.y as i128 + ty
        && d3.x as i128 == q * s3.x as i128 + tx && d3.y as i128 == q * s3.y as i128 + ty;
    if !ok {
        return None;
    }
    let h = Homography { h0: q, h1: 0, h2: tx, h3: 0, h4: q, h5: ty, h6: 0, h7: 0, h8: 1 };
    proof {
        lemma_affine_maps(h, s0, d0);
        lemma_affine_maps(h, s1, d1);
        lemma_affine_maps(h, s2, d2);
        lemma_affine_maps(h, s3, d3);
    }
    Some(h)
}

/// Executable test for [`tame_point`].
fn point_is_tame(p: Point2D) -> (r: bool)
    ensures
        r == tame_point(p),
{
    -0x4000_0000_0000_0000 < p.x && p.x < 0x4000_0000_0000_0000 && -0x4000_0000_0000_0000 < p.y
        && p.y < 0x4000_0000_0000_0000
}

/// Exactly re-checks one correspondence against a candidate transform.
fn check_pair(h: &Homography, s: Point2D, d: Point2D) -> (ok: bool)
    ensures
        ok ==> maps_pair(*h, s, d),
{
    let w = match dot3(h.h6, h.h7, h.h8, s.x as i128, s.y as i128, 1) {
        Some(v) => v,
        None => { return false; },
    };
    if w == 0 {
        return false;
    }
    let lx = match dot3(h.h0, h.h1, h.h2, s.x as i128, s.y as i128, 1) {
        Some(v) => v,
        None => { return false; },
    };
    let ly = match dot3(h.h3, h.h4, h.h5, s.x as i128, s.y as i128, 1) {
        Some(v) => v,
        None => { return false; },
    };
    let rx = match (d.x as i128).checked_mul(w) {
        Some(v) => v,
        None => { return false; },
    };
    let ry = match (d.y as i128).checked_mul(w) {
        Some(v) => v,
        None => { return false; },
    };
    lx == rx && ly == ry
}

/// Runs the whole exact construction, or reports that it cannot be carried
/// out in 128-bit arithmetic.
fn try_solve(
    s0: Point2D,
    s1: Point2D,
    s2: Point2D,
    s3: Point2D,
    d0: Point2D,
    d1: Point2D,
    d2: Point2D,
    d3: Point2D,
) -> Option<Candidate> {
    let a = frame_to_quad(s0, s1, s2, s3)?;
    let b = frame_to_quad(d0, d1, d2, d3)?;
    let adj_a = adjugate(&a)?;
    let h = mat_mul(&b, &adj_a)?;
    reduce(&h)
}

/// Fits the projective transform that carries `src[i]` onto `dst[i]` for
/// all four correspondences.
///
/// Success hands back an exact witness: an integer matrix, bottom-right
/// entry positive, proven to reproduce every correspondence. Fewer or more
/// than four points on either side is refused as `InsufficientPoints`;
/// a source quadrilateral with three collinear landmarks is refused as
/// `SingularTransform`, as is any configuration whose exact solve fails or
/// whose integers outgrow this library's arithmetic. Success is owed, with
/// the exact matrix pinned, on the whole affine fast-path class: whenever
/// one integer scaling and translation carries every tame source landmark
/// onto its destination (non-degenerately), that transform comes back —
/// in particular the identity transform for coinciding point sets.
pub fn estimate(src: &Vec<Point2D>, dst: &Vec<Point2D>) -> (r: Result<Homography, MosaicError>)
    ensures
        r == Err::<Homography, MosaicError>(MosaicError::InsufficientPoints) <==> !(src@.len()
            == 4 && dst@.len() == 4),
        src@.len() == 4 && dst@.len() == 4 && degenerate_quad(src@[0], src@[1], src@[2], src@[3])
            ==> r == Err::<Homography, MosaicError>(MosaicError::SingularTransform),
        r is Ok ==> {
            &&& src@.len() == 4 && dst@.len() == 4
            &&& !degenerate_quad(src@[0], src@[1], src@[2], src@[3])
            &&& r->Ok_0.h8 > 0
            &&& forall|i: int| 0 <= i < 4 ==> maps_pair(r->Ok_0, src@[i], dst@[i])
        },
        r is Err ==> r->Err_0 == MosaicError::InsufficientPoints || r->Err_0
            == MosaicError::SingularTransform,
        src@.len() == 4 && dst@.len() == 4 && !degenerate_quad(src@[0], src@[1], src@[2], src@[3])
            && (forall|i: int| 0 <= i < 4 ==> tame_point(#[trigger] src@[i]) && tame_point(dst@[i]))
            && (forall|i: int| 0 <= i < 4 ==> src@[i] == dst@[i]) ==> r == Ok::<
            Homography,
            MosaicError,
        >(identity()),
        forall|k: int, tx: int, ty: int|
            src@.len() == 4 && dst@.len() == 4 && !degenerate_quad(
                src@[0],
                src@[1],
                src@[2],
                src@[3],
            ) && (forall|i: int| 0 <= i < 4 ==> tame_point(#[trigger] src@[i]) && tame_point(
                dst@[i],
            )) && (forall|i: int| 0 <= i < 4 ==> affine_rel(k, tx, ty, #[trigger] src@[i], dst@[i]))
                ==> r == Ok::<Homography, MosaicError>(#[trigger] scale_map(k, tx, ty)),
{
    if src.len() != 4 || dst.len() != 4 {
        return Err(MosaicError::InsufficientPoints);
    }
    let s0 = src[0];
    let s1 = src[1];
    let s2 = src[2];
    let s3 = src[3];
    let d0 = dst[0];
    let d1 = dst[1];
    let d2 = dst[2];
    let d3 = dst[3];
    match check_degenerate(s0, s1, s2, s3) {
        Some(true) => { return Err(MosaicError::SingularTransform); },
        Some(false) => {},
        None => { return Err(MosaicError::SingularTransform); },
    }
    proof {
        if s1 == s0 {
            assert(collinear(s0, s1, s2)) by (nonlinear_arith)
                requires
                    s1 == s0,
            ;
        }
        if forall|i: int| 0 <= i < 4 ==> src@[i] == dst@[i] {
            assert forall|i: int| 0 <= i < 4 implies affine_rel(
                1,
                0,
                0,
                #[trigger] src@[i],
                dst@[i],
            ) by {
                assert(dst@[i].x == 1 * src@[i].x + 0 && dst@[i].y == 1 * src@[i].y + 0)
                    by (nonlinear_arith)
                    requires
                        src@[i] == dst@[i],
                ;
            }
        }
        assert(scale_map(1, 0, 0) == identity());
    }
    let fast = try_affine(s0, s1, s2, s3, d0, d1, d2, d3);
    match fast {
        Some(h) => {
            proof {
                assert forall|i: int| 0 <= i < 4 implies maps_pair(h, src@[i], dst@[i]) by {
                    if i == 0 {
                        assert(src@[0] == s0 && dst@[0] == d0);
                    } else if i == 1 {
                        assert(src@[1] == s1 && dst@[1] == d1);
                    } else if i == 2 {
                        assert(src@[2] == s2 && dst@[2] == d2);
                    } else {
                        assert(src@[3] == s3 && dst@[3] == d3);
                    }
                }
            }
            return Ok(h);
        },
        None => {},
    }
    let cand = match try_solve(s0, s1, s2, s3, d0, d1, d2, d3) {
        Some(c) => c,
        None => { return Err(MosaicError::SingularTransform); },
    };
    if cand.e8 <= 0 {
        return Err(MosaicError::SingularTransform);
    }
    let h = Homography {
        h0: cand.e0,
        h1: cand.e1,
        h2: cand.e2,
        h3: cand.e3,
        h4: cand.e4,
        h5: cand.e5,
        h6: cand.e6,
        h7: cand.e7,
        h8: cand.e8,
    };
    let ok = check_pair(&h, s0, d0) && check_pair(&h, s1, d1) && check_pair(&h, s2, d2)
        && check_pair(&h, s3, d3);
    if ok {
        Ok(h)
    } else {
        Err(MosaicError::SingularTransform)
    }
}

} // verus!
