use mosaic::error::MosaicError;
use mosaic::geometry::Point2D;
use mosaic::raster::RasterImage;
use mosaic::raster::Rgba;
use mosaic::session::MergeStatus;
use mosaic::session::MosaicSession;

fn p(x: i64, y: i64) -> Point2D {
    Point2D { x, y }
}

fn white(w: usize, h: usize) -> RasterImage {
    RasterImage::new(w, h, Rgba { r: 255, g: 255, b: 255, a: 255 }).unwrap()
}

fn fresh_session() -> MosaicSession {
    MosaicSession::new(white(10, 10), white(10, 10))
}

#[test]
fn merge_with_too_few_points_is_a_no_op() {
    let mut s = fresh_session();
    s.add_reference_point(p(0, 0));
    s.add_reference_point(p(0, 9));
    s.add_reference_point(p(9, 9));
    s.add_source_point(p(0, 0));
    s.add_source_point(p(0, 9));
    s.add_source_point(p(9, 9));
    s.add_source_point(p(9, 0));
    let r = s.merge();
    assert_eq!(r, Ok(MergeStatus::Idle));
    assert_eq!(s.reference_point_count(), 3);
    assert_eq!(s.source_point_count(), 4);
    assert_eq!(s.reference_point(0), p(9, 9));
    assert_eq!(s.reference_point(2), p(0, 0));
    assert!(s.composite().is_none());
}

#[test]
fn failed_merge_preserves_points_exactly() {
    let mut s = fresh_session();
    // Three of the four source-side landmarks are collinear.
    let pts = [p(0, 0), p(1, 1), p(2, 2), p(9, 0)];
    for q in pts {
        s.add_reference_point(q);
        s.add_source_point(q);
    }
    let r = s.merge();
    assert_eq!(r, Err(MosaicError::SingularTransform));
    assert_eq!(s.reference_point_count(), 4);
    assert_eq!(s.source_point_count(), 4);
    for i in 0..4 {
        assert_eq!(s.reference_point(i), pts[3 - i]);
        assert_eq!(s.source_point(i), pts[3 - i]);
    }
    assert!(s.composite().is_none());
}

#[test]
fn successful_merge_clears_points_and_publishes() {
    let mut s = fresh_session();
    for q in [p(0, 0), p(0, 9), p(9, 9), p(9, 0)] {
        s.add_reference_point(q);
        s.add_source_point(q);
    }
    let r = s.merge();
    assert_eq!(r, Ok(MergeStatus::Merged));
    assert_eq!(s.reference_point_count(), 0);
    assert_eq!(s.source_point_count(), 0);
    let comp = s.composite().expect("composite published");
    assert_eq!(comp.width(), 20);
    assert_eq!(comp.height(), 10);
    for y in 0..10 {
        for x in 0..20 {
            if x < 10 {
                assert_eq!(comp.pixel(x, y), Rgba { r: 255, g: 255, b: 255, a: 255 });
            } else {
                assert_eq!(comp.pixel(x, y), Rgba { r: 0, g: 0, b: 0, a: 0 });
            }
        }
    }
}

#[test]
fn idle_merge_keeps_previous_composite() {
    let mut s = fresh_session();
    for q in [p(0, 0), p(0, 9), p(9, 9), p(9, 0)] {
        s.add_reference_point(q);
        s.add_source_point(q);
    }
    assert_eq!(s.merge(), Ok(MergeStatus::Merged));
    s.add_reference_point(p(1, 1));
    s.add_source_point(p(1, 1));
    assert_eq!(s.merge(), Ok(MergeStatus::Idle));
    assert_eq!(s.reference_point_count(), 1);
    assert_eq!(s.source_point_count(), 1);
    let comp = s.composite().expect("composite still published");
    assert_eq!(comp.pixel(0, 0), Rgba { r: 255, g: 255, b: 255, a: 255 });
}

#[test]
fn a_fifth_point_evicts_the_oldest() {
    let mut s = fresh_session();
    for i in 0..5 {
        s.add_reference_point(p(i, i));
    }
    assert_eq!(s.reference_point_count(), 4);
    assert_eq!(s.reference_point(0), p(4, 4));
    assert_eq!(s.reference_point(1), p(3, 3));
    assert_eq!(s.reference_point(2), p(2, 2));
    assert_eq!(s.reference_point(3), p(1, 1));
}
