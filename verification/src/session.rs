//! The correspondence store and the merge orchestrator.
//!
//! A session owns the two photographs and the landmark points picked on
//! each. The Merge operation is gated: while either side has fewer than
//! four points it is a no-op; with four points on both sides it runs
//! estimator, warper and blender in sequence, all-or-nothing. On any stage
//! error the whole session state — points, photographs and any previously
//! published composite — is left exactly as it was, so the user can retry
//! or re-pick points. On success both point sets are cleared and the
//! composite is published.

use vstd::prelude::*;

use crate::blend::blend;
use crate::blend::blend_px;
use crate::error::MosaicError;
use crate::geometry::Point2D;
use crate::geometry::centroid4;
use crate::geometry::degenerate_quad;
use crate::geometry::quarter;
use crate::geometry::tame_point;
use crate::MAX_DIM;
use crate::homography::Homography;
use crate::homography::affine_rel;
use crate::homography::estimate;
use crate::homography::identity;
use crate::homography::maps_pair;
use crate::homography::scale_map;
use crate::raster::RasterImage;
use crate::raster::Rgba;
use crate::raster::transparent;
use crate::warp::det;
use crate::warp::lemma_scale_map_tame;
use crate::warp::tame_matrix;
use crate::warp::warp;
use crate::warp::warp_px;

verus! {

/// Up to four landmark points on one photograph. A new point is prepended;
/// once four are held, the oldest drops off the end.
pub struct CorrespondenceSet {
    points: Vec<Point2D>,
}

impl CorrespondenceSet {
    /// Never more than four points.
    #[verifier::type_invariant]
    pub closed spec fn wf(self) -> bool {
        self.points@.len() <= 4
    }

    /// The points held, newest first.
    pub closed spec fn pts(self) -> Seq<Point2D> {
        self.points@
    }

    /// An empty set.
    pub fn new() -> (s: CorrespondenceSet)
        ensures
            s.pts() == Seq::<Point2D>::empty(),
    {
        CorrespondenceSet { points: Vec::new() }
    }

    /// Records a point: prepends it and, beyond four, evicts the oldest.
    pub fn add(&mut self, p: Point2D)
        ensures
            final(self).pts().len() == if old(self).pts().len() < 4 {
                old(self).pts().len() + 1
            } else {
                4
            },
            final(self).pts()[0] == p,
            forall|i: int|
                1 <= i < final(self).pts().len() ==> final(self).pts()[i] == old(self).pts()[i - 1],
    {
        proof {
            use_type_invariant(&*self);
        }
        let n = self.points.len();
        let keep: usize = if n < 4 {
            n
        } else {
            3
        };
        let mut np: Vec<Point2D> = Vec::new();
        np.push(p);
        let mut i: usize = 0;
        while i < keep
            invariant
                i <= keep,
                keep <= self.points@.len(),
                keep <= 3,
                np@.len() == i + 1,
                np@[0] == p,
                forall|j: int| 1 <= j <= i ==> np@[j] == self.points@[j - 1],
            decreases keep - i,
        {
            np.push(self.points[i]);
            i = i + 1;
        }
        self.points = np;
    }

    /// How many points are held.
    pub fn len(&self) -> (n: usize)
        ensures
            n == self.pts().len(),
    {
        self.points.len()
    }

    /// Whether the set is full: exactly four points.
    pub fn is_ready(&self) -> (r: bool)
        ensures
            r == (self.pts().len() == 4),
    {
        self.points.len() == 4
    }

    /// Reads the `i`-th point, newest first.
    pub fn point(&self, i: usize) -> (p: Point2D)
        requires
            i < self.pts().len(),
        ensures
            p == self.pts()[i as int],
    {
        self.points[i]
    }

    /// Drops every point.
    pub fn clear(&mut self)
        ensures
            final(self).pts() == Seq::<Point2D>::empty(),
    {
        self.points = Vec::new();
    }
}

/// What a Merge invocation did.
#[derive(Clone, Copy, Debug, PartialEq, Eq, Structural)]
pub enum MergeStatus {
    /// Fewer than four points on one of the sides: nothing happened.
    Idle,
    /// The composite was produced and the point sets were cleared.
    Merged,
}

/// The anchor of a four-landmark set: the centroid, coordinates rounded
/// down.
pub open spec fn anchor_of(pts: Seq<Point2D>) -> Point2D {
    Point2D {
        x: quarter(pts[0].x + pts[1].x + pts[2].x + pts[3].x) as i64,
        y: quarter(pts[0].y + pts[1].y + pts[2].y + pts[3].y) as i64,
    }
}

/// The whole pipeline, pinned pixel by pixel: some transform `h` carries
/// every source landmark onto its reference landmark, `wimg` is the source
/// photograph resampled through `h` into the double-width canvas, and
/// `comp` is the blend of that canvas with the reference photograph around
/// the landmark centroid.
pub open spec fn merged_witness(
    src_img: RasterImage,
    ref_img: RasterImage,
    src_pts: Seq<Point2D>,
    ref_pts: Seq<Point2D>,
    comp: RasterImage,
    h: Homography,
    wimg: RasterImage,
) -> bool {
    &&& forall|i: int| 0 <= i < 4 ==> maps_pair(h, src_pts[i], ref_pts[i])
    &&& wimg.wd() == 2 * ref_img.wd()
    &&& wimg.ht() == ref_img.ht()
    &&& forall|x: int, y: int|
        0 <= x < wimg.wd() && 0 <= y < wimg.ht() ==> wimg.px(x, y) == warp_px(
            src_img,
            h,
            x,
            y,
            transparent(),
        )
    &&& comp.wd() == wimg.wd()
    &&& comp.ht() == wimg.ht()
    &&& forall|x: int, y: int|
        0 <= x < comp.wd() && 0 <= y < comp.ht() ==> comp.px(x, y) == blend_px(
            wimg,
            ref_img,
            anchor_of(ref_pts),
            x,
            y,
        )
}

/// `comp` is a composite the pipeline can produce from these photographs
/// and landmarks.
pub open spec fn merged_composite(
    src_img: RasterImage,
    ref_img: RasterImage,
    src_pts: Seq<Point2D>,
    ref_pts: Seq<Point2D>,
    comp: RasterImage,
) -> bool {
    exists|h: Homography, wimg: RasterImage|
        #[trigger] merged_witness(src_img, ref_img, src_pts, ref_pts, comp, h, wimg)
}

/// One mosaic-building session: the reference photograph, the photograph
/// to be warped onto it, the landmarks picked on each, and the composite
/// published by the last successful merge.
pub struct MosaicSession {
    reference: RasterImage,
    source: RasterImage,
    reference_points: CorrespondenceSet,
    source_points: CorrespondenceSet,
    composite: Option<RasterImage>,
}

impl MosaicSession {
    /// The reference photograph.
    pub closed spec fn ref_img(self) -> RasterImage {
        self.reference
    }

    /// The photograph that merging warps onto the reference.
    pub closed spec fn src_img(self) -> RasterImage {
        self.source
    }

    /// The landmarks picked on the reference photograph, newest first.
    pub closed spec fn ref_pts(self) -> Seq<Point2D> {
        self.reference_points.pts()
    }

    /// The landmarks picked on the source photograph, newest first.
    pub closed spec fn src_pts(self) -> Seq<Point2D> {
        self.source_points.pts()
    }

    /// The composite published by the last successful merge, if any.
    pub closed spec fn comp(self) -> Option<RasterImage> {
        self.composite
    }

    /// Opens a session over two photographs, with no landmarks picked and
    /// no composite yet.
    pub fn new(reference: RasterImage, source: RasterImage) -> (s: MosaicSession)
        ensures
            s.ref_img() == reference,
            s.src_img() == source,
            s.ref_pts() == Seq::<Point2D>::empty(),
            s.src_pts() == Seq::<Point2D>::empty(),
            s.comp() is None,
    {
        MosaicSession {
            reference,
            source,
            reference_points: CorrespondenceSet::new(),
            source_points: CorrespondenceSet::new(),
            composite: None,
        }
    }

    /// Records a landmark on the reference photograph.
    pub fn add_reference_point(&mut self, p: Point2D)
        ensures
            final(self).src_img() == old(self).src_img(),
            final(self).ref_img() == old(self).ref_img(),
            final(self).src_pts() == old(self).src_pts(),
            final(self).comp() == old(self).comp(),
            final(self).ref_pts().len() == if old(self).ref_pts().len() < 4 {
                old(self).ref_pts().len() + 1
            } else {
                4
            },
            final(self).ref_pts()[0] == p,
            forall|i: int|
                1 <= i < final(self).ref_pts().len() ==> final(self).ref_pts()[i] == old(
                    self,
                ).ref_pts()[i - 1],
    {
        self.reference_points.add(p);
    }

    /// Records a landmark on the source photograph.
    pub fn add_source_point(&mut self, p: Point2D)
        ensures
            final(self).src_img() == old(self).src_img(),
            final(self).ref_img() == old(self).ref_img(),
            final(self).ref_pts() == old(self).ref_pts(),
            final(self).comp() == old(self).comp(),
            final(self).src_pts().len() == if old(self).src_pts().len() < 4 {
                old(self).src_pts().len() + 1
            } else {
                4
            },
            final(self).src_pts()[0] == p,
            forall|i: int|
                1 <= i < final(self).src_pts().len() ==> final(self).src_pts()[i] == old(
                    self,
                ).src_pts()[i - 1],
    {
        self.source_points.add(p);
    }

    /// How many landmarks are held on the reference side.
    pub fn reference_point_count(&self) -> (n: usize)
        ensures
            n == self.ref_pts().len(),
    {
        self.reference_points.len()
    }

    /// How many landmarks are held on the source side.
    pub fn source_point_count(&self) -> (n: usize)
        ensures
            n == self.src_pts().len(),
    {
        self.source_points.len()
    }

    /// Reads the `i`-th reference-side landmark, newest first.
    pub fn reference_point(&self, i: usize) -> (p: Point2D)
        requires
            i < self.ref_pts().len(),
        ensures
            p == self.ref_pts()[i as int],
    {
        self.reference_points.point(i)
    }

    /// Reads the `i`-th source-side landmark, newest first.
    pub fn source_point(&self, i: usize) -> (p: Point2D)
        requires
            i < self.src_pts().len(),
        ensures
            p == self.src_pts()[i as int],
    {
        self.source_points.point(i)
    }

    /// The published composite, if a merge has succeeded.
    pub fn composite(&self) -> (c: Option<&RasterImage>)
        ensures
            c is Some <==> self.comp() is Some,
            c is Some ==> *c->0 == self.comp()->0,
    {
        self.composite.as_ref()
    }

    /// Runs the Merge operation.
    ///
    /// While either side holds fewer than four landmarks, nothing at all
    /// changes and `Idle` comes back. With four on both sides the pipeline
    /// runs to completion or fails atomically: on any error the session —
    /// both point sets, both photographs and any previously published
    /// composite — is exactly as before. On success both point sets are
    /// empty and the published composite is pinned by [`merged_composite`].
    pub fn merge(&mut self) -> (r: Result<MergeStatus, MosaicError>)
        ensures
            r == Ok::<MergeStatus, MosaicError>(MergeStatus::Idle) <==> (old(self).ref_pts().len()
                != 4 || old(self).src_pts().len() != 4),
            r == Ok::<MergeStatus, MosaicError>(MergeStatus::Idle) ==> *final(self) == *old(self),
            r is Err ==> *final(self) == *old(self),
            r is Err ==> r->Err_0 != MosaicError::InsufficientPoints,
            old(self).ref_pts().len() == 4 && old(self).src_pts().len() == 4 && (forall|i: int|
                0 <= i < 4 ==> old(self).src_pts()[i] == old(self).ref_pts()[i]) && (forall|i: int|
                0 <= i < 4 ==> tame_point(#[trigger] old(self).src_pts()[i])) && !degenerate_quad(
                old(self).src_pts()[0],
                old(self).src_pts()[1],
                old(self).src_pts()[2],
                old(self).src_pts()[3],
            ) && 2 * old(self).ref_img().wd() <= MAX_DIM ==> r == Ok::<
                MergeStatus,
                MosaicError,
            >(MergeStatus::Merged),
            forall|k: int, tx: int, ty: int|
                old(self).ref_pts().len() == 4 && old(self).src_pts().len() == 4 && (forall|i: int|
                    0 <= i < 4 ==> tame_point(#[trigger] old(self).src_pts()[i]) && tame_point(
                        old(self).ref_pts()[i],
                    )) && !degenerate_quad(
                    old(self).src_pts()[0],
                    old(self).src_pts()[1],
                    old(self).src_pts()[2],
                    old(self).src_pts()[3],
                ) && (forall|i: int|
                    0 <= i < 4 ==> affine_rel(
                        k,
                        tx,
                        ty,
                        #[trigger] old(self).src_pts()[i],
                        old(self).ref_pts()[i],
                    )) && #[trigger] affine_rel(
                    k,
                    tx,
                    ty,
                    old(self).src_pts()[0],
                    old(self).ref_pts()[0],
                ) && k != 0 && -0x10_0000 <= k <= 0x10_0000 && -0x100_0000_0000 <= tx
                    <= 0x100_0000_0000 && -0x100_0000_0000 <= ty <= 0x100_0000_0000 && 2 * old(
                    self,
                ).ref_img().wd() <= MAX_DIM ==> r == Ok::<MergeStatus, MosaicError>(
                    MergeStatus::Merged,
                ),
            r == Ok::<MergeStatus, MosaicError>(MergeStatus::Merged) ==> {
                &&& final(self).ref_img() == old(self).ref_img()
                &&& final(self).src_img() == old(self).src_img()
                &&& final(self).ref_pts() == Seq::<Point2D>::empty()
                &&& final(self).src_pts() == Seq::<Point2D>::empty()
                &&& final(self).comp() is Some
                &&& merged_composite(
                    old(self).src_img(),
                    old(self).ref_img(),
                    old(self).src_pts(),
                    old(self).ref_pts(),
                    final(self).comp()->0,
                )
            },
    {
        if !(self.reference_points.is_ready() && self.source_points.is_ready()) {
            return Ok(MergeStatus::Idle);
        }
        let mut dst_v: Vec<Point2D> = Vec::new();
        dst_v.push(self.reference_points.point(0));
        dst_v.push(self.reference_points.point(1));
        dst_v.push(self.reference_points.point(2));
        dst_v.push(self.reference_points.point(3));
        let mut src_v: Vec<Point2D> = Vec::new();
        src_v.push(self.source_points.point(0));
        src_v.push(self.source_points.point(1));
        src_v.push(self.source_points.point(2));
        src_v.push(self.source_points.point(3));
        let h = match estimate(&src_v, &dst_v) {
            Ok(h) => h,
            Err(e) => {
                proof {
                    assert forall|k: int, tx: int, ty: int|
                        (forall|i: int|
                            0 <= i < 4 ==> affine_rel(
                                k,
                                tx,
                                ty,
                                #[trigger] self.src_pts()[i],
                                self.ref_pts()[i],
                            )) && #[trigger] affine_rel(
                            k,
                            tx,
                            ty,
                            self.src_pts()[0],
                            self.ref_pts()[0],
                        ) && (forall|i: int|
                            0 <= i < 4 ==> tame_point(#[trigger] self.src_pts()[i]) && tame_point(
                                self.ref_pts()[i],
                            )) && !degenerate_quad(
                            self.src_pts()[0],
                            self.src_pts()[1],
                            self.src_pts()[2],
                            self.src_pts()[3],
                        ) implies false by {
                        let hm = scale_map(k, tx, ty);
                        assert(src_v@[0] == self.src_pts()[0] && src_v@[1] == self.src_pts()[1]
                            && src_v@[2] == self.src_pts()[2] && src_v@[3] == self.src_pts()[3]);
                        assert(dst_v@[0] == self.ref_pts()[0] && dst_v@[1] == self.ref_pts()[1]
                            && dst_v@[2] == self.ref_pts()[2] && dst_v@[3] == self.ref_pts()[3]);
                    }
                }
                return Err(e);
            },
        };
        proof {
            if (forall|i: int| 0 <= i < 4 ==> self.src_pts()[i] == self.ref_pts()[i]) && (
            forall|i: int|
                0 <= i < 4 ==> tame_point(#[trigger] self.src_pts()[i]) && tame_point(
                    self.ref_pts()[i],
                )) && !degenerate_quad(
                self.src_pts()[0],
                self.src_pts()[1],
                self.src_pts()[2],
                self.src_pts()[3],
            ) {
                assert(src_v@[0] == self.src_pts()[0] && src_v@[1] == self.src_pts()[1] && src_v@[2]
                    == self.src_pts()[2] && src_v@[3] == self.src_pts()[3]);
                assert(dst_v@[0] == self.ref_pts()[0] && dst_v@[1] == self.ref_pts()[1] && dst_v@[2]
                    == self.ref_pts()[2] && dst_v@[3] == self.ref_pts()[3]);
                assert forall|i: int| 0 <= i < 4 implies #[trigger] src_v@[i] == dst_v@[i] by {
                    assert(self.src_pts()[i] == self.ref_pts()[i]);
                }
                assert(h == identity());
                lemma_scale_map_tame(1, 0, 0);
                assert(scale_map(1, 0, 0) == identity());
            }
        }
        proof {
            assert forall|k: int, tx: int, ty: int|
                (forall|i: int|
                    0 <= i < 4 ==> affine_rel(
                        k,
                        tx,
                        ty,
                        #[trigger] self.src_pts()[i],
                        self.ref_pts()[i],
                    )) && #[trigger] affine_rel(
                    k,
                    tx,
                    ty,
                    self.src_pts()[0],
                    self.ref_pts()[0],
                ) && (forall|i: int|
                    0 <= i < 4 ==> tame_point(#[trigger] self.src_pts()[i]) && tame_point(
                        self.ref_pts()[i],
                    )) && !degenerate_quad(
                    self.src_pts()[0],
                    self.src_pts()[1],
                    self.src_pts()[2],
                    self.src_pts()[3],
                ) && k != 0 && -0x10_0000 <= k <= 0x10_0000 && -0x100_0000_0000 <= tx
                    <= 0x100_0000_0000 && -0x100_0000_0000 <= ty
                    <= 0x100_0000_0000 implies tame_matrix(h) && det(h) != 0 by {
                let hm = scale_map(k, tx, ty);
                assert(src_v@[0] == self.src_pts()[0] && src_v@[1] == self.src_pts()[1] && src_v@[2]
                    == self.src_pts()[2] && src_v@[3] == self.src_pts()[3]);
                assert(dst_v@[0] == self.ref_pts()[0] && dst_v@[1] == self.ref_pts()[1] && dst_v@[2]
                    == self.ref_pts()[2] && dst_v@[3] == self.ref_pts()[3]);
                lemma_scale_map_tame(k, tx, ty);
                assert(h == hm);
            }
        }
        let rw = self.reference.width();
        let rh = self.reference.height();
        let canvas_w: usize = 2 * rw;
        let fill = Rgba { r: 0, g: 0, b: 0, a: 0 };
        let warped = match warp(&self.source, &h, canvas_w, rh, fill) {
            Ok(w) => w,
            Err(e) => { return Err(e); },
        };
        let anchor = centroid4(dst_v[0], dst_v[1], dst_v[2], dst_v[3]);
        let comp = blend(&warped, &self.reference, anchor);
        proof {
            assert(merged_witness(
                self.src_img(),
                self.ref_img(),
                self.src_pts(),
                self.ref_pts(),
                comp,
                h,
                warped,
            ));
        }
        self.reference_points.clear();
        self.source_points.clear();
        self.composite = Some(comp);
        Ok(MergeStatus::Merged)
    }
}

} // verus!
