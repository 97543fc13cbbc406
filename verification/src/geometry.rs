//! Landmark points and the exact geometry predicates the estimator needs.

use vstd::prelude::*;

verus! {

/// A landmark in image pixel space: `x` is the column and `y` the raster
/// row of the pixel it marks. Displays that measure the vertical axis from
/// the bottom of the image upward must flip it (`row = height - y`) before
/// recording a point, so one consistent frame reaches the pipeline.
/// Immutable once recorded.
#[derive(Clone, Copy, Debug, PartialEq, Eq, Structural)]
pub struct Point2D {
    pub x: i64,
    pub y: i64,
}

/// Coordinate magnitude under which every exact product this module forms
/// stays inside `i128`.
pub const TAME_COORD: i64 = 0x4000_0000_0000_0000;

/// A point whose coordinates are small enough that all cross products of
/// coordinate differences fit in `i128`.
pub open spec fn tame_point(p: Point2D) -> bool {
    -(TAME_COORD as int) < p.x < TAME_COORD && -(TAME_COORD as int) < p.y < TAME_COORD
}

/// Three points lie on one line exactly when the cross product of the two
/// difference vectors vanishes. Duplicated points count as collinear.
pub open spec fn collinear(a: Point2D, b: Point2D, c: Point2D) -> bool {
    (b.x - a.x) * (c.y - a.y) == (b.y - a.y) * (c.x - a.x)
}

/// The determinant of the 3-by-3 matrix whose columns are the homogeneous
/// points `p`, `q`, `r`: twice the signed area of the triangle they span,
/// zero exactly on collinear triples.
pub open spec fn tri(p: Point2D, q: Point2D, r: Point2D) -> int {
    p.x * (q.y - r.y) - q.x * (p.y - r.y) + r.x * (p.y - q.y)
}

/// The planar cross product of two points taken as vectors.
pub open spec fn cross2(u: Point2D, v: Point2D) -> int {
    u.x * v.y - v.x * u.y
}

/// Signed area is alternating, so its vanishing does not depend on the
/// order of the triple; this ties each Cramer determinant of a
/// non-degenerate quadrilateral to one of the four collinearity tests.
pub proof fn lemma_tri_vs_collinear(a: Point2D, b: Point2D, c: Point2D)
    ensures
        (tri(a, b, c) == 0) == collinear(a, b, c),
        tri(a, b, c) == tri(c, a, b),
        tri(a, b, c) == -tri(a, c, b),
{
    assert(tri(a, b, c) == (b.x - a.x) * (c.y - a.y) - (b.y - a.y) * (c.x - a.x) && tri(a, b, c)
        == tri(c, a, b) && tri(a, b, c) == -tri(a, c, b)) by (nonlinear_arith);
}

/// A four-point configuration is degenerate when any three of its points are
/// collinear: no projective transform is then pinned down by it.
pub open spec fn degenerate_quad(p0: Point2D, p1: Point2D, p2: Point2D, p3: Point2D) -> bool {
    ||| collinear(p0, p1, p2)
    ||| collinear(p0, p1, p3)
    ||| collinear(p0, p2, p3)
    ||| collinear(p1, p2, p3)
}

/// A product of two factors is bounded by the product of their bounds.
pub proof fn lemma_mul_bound(a: int, b: int, m: int)
    requires
        -m <= a <= m,
        -m <= b <= m,
        0 <= m,
    ensures
        -(m * m) <= a * b <= m * m,
{
    assert(-(m * m) <= a * b <= m * m) by (nonlinear_arith)
        requires
            -m <= a <= m,
            -m <= b <= m,
            0 <= m,
    ;
}

/// A product is bounded by the product of separate bounds on its factors.
pub proof fn lemma_mul_bound2(a: int, b: int, ma: int, mb: int)
    requires
        -ma <= a <= ma,
        -mb <= b <= mb,
        0 <= ma,
        0 <= mb,
    ensures
        -(ma * mb) <= a * b <= ma * mb,
{
    assert(-(ma * mb) <= a * b <= ma * mb) by (nonlinear_arith)
        requires
            -ma <= a <= ma,
            -mb <= b <= mb,
            0 <= ma,
            0 <= mb,
    ;
}

/// Decides collinearity exactly. `None` means the cross products overflow
/// `i128`, which only tame points can never cause.
pub fn check_collinear(a: Point2D, b: Point2D, c: Point2D) -> (r: Option<bool>)
    ensures
        r is Some ==> r->0 == collinear(a, b, c),
        tame_point(a) && tame_point(b) && tame_point(c) ==> r is Some,
{
    let bx: i128 = b.x as i128 - a.x as i128;
    let cy: i128 = c.y as i128 - a.y as i128;
    let by: i128 = b.y as i128 - a.y as i128;
    let cx: i128 = c.x as i128 - a.x as i128;
    proof {
        if tame_point(a) && tame_point(b) && tame_point(c) {
            lemma_mul_bound(bx as int, cy as int, 0x8000_0000_0000_0000);
            lemma_mul_bound(by as int, cx as int, 0x8000_0000_0000_0000);
        }
    }
    let lhs = bx.checked_mul(cy);
    let rhs = by.checked_mul(cx);
    match (lhs, rhs) {
        (Some(l), Some(r)) => Some(l == r),
        _ => None,
    }
}

/// Decides degeneracy of a quadrilateral exactly; `None` again only on
/// overflow, which tame points never cause.
pub fn check_degenerate(p0: Point2D, p1: Point2D, p2: Point2D, p3: Point2D) -> (r: Option<bool>)
    ensures
        r is Some ==> r->0 == degenerate_quad(p0, p1, p2, p3),
        tame_point(p0) && tame_point(p1) && tame_point(p2) && tame_point(p3) ==> r is Some,
{
    let c0 = check_collinear(p0, p1, p2);
    let c1 = check_collinear(p0, p1, p3);
    let c2 = check_collinear(p0, p2, p3);
    let c3 = check_collinear(p1, p2, p3);
    match (c0, c1, c2, c3) {
        (Some(a), Some(b), Some(c), Some(d)) => Some(a || b || c || d),
        _ => None,
    }
}

/// Floor division of a coordinate sum by four, written out by sign so that
/// only unsigned machine division is needed.
pub open spec fn quarter(s: int) -> int {
    if s >= 0 {
        s / 4
    } else {
        -((-s + 3) / 4)
    }
}

/// The anchor point of a four-landmark set: the centroid, with each
/// coordinate rounded down. The blender centers its radial falloff here.
pub fn centroid4(p0: Point2D, p1: Point2D, p2: Point2D, p3: Point2D) -> (c: Point2D)
    ensures
        c.x == quarter(p0.x + p1.x + p2.x + p3.x),
        c.y == quarter(p0.y + p1.y + p2.y + p3.y),
{
    let sx: i128 = p0.x as i128 + p1.x as i128 + p2.x as i128 + p3.x as i128;
    let sy: i128 = p0.y as i128 + p1.y as i128 + p2.y as i128 + p3.y as i128;
    Point2D { x: quarter_exec(sx), y: quarter_exec(sy) }
}

/// Executable form of [`quarter`] for sums of at most four coordinates.
fn quarter_exec(s: i128) -> (q: i64)
    requires
        -4 * 0x8000_0000_0000_0000 <= s <= 4 * 0x7fff_ffff_ffff_ffff,
    ensures
        q == quarter(s as int),
{
    let q: i128 = if s >= 0 {
        ((s as u128) / 4) as i128
    } else {
        -((((-s) as u128 + 3) / 4) as i128)
    };
    q as i64
}

} // verus!
