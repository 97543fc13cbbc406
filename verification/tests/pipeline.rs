use mosaic::blend::blend;
use mosaic::blend::box_blur;
use mosaic::blend::clamp_add;
use mosaic::blend::distance_alpha;
use mosaic::blend::downsample;
use mosaic::blend::upsample;
use mosaic::error::MosaicError;
use mosaic::geometry::Point2D;
use mosaic::homography::Homography;
use mosaic::homography::estimate;
use mosaic::raster::RasterImage;
use mosaic::raster::Rgba;
use mosaic::warp::warp;

fn pt(x: i64, y: i64) -> Point2D {
    Point2D { x, y }
}

fn rgba(r: u8, g: u8, b: u8, a: u8) -> Rgba {
    Rgba { r, g, b, a }
}

fn solid(w: usize, h: usize, p: Rgba) -> RasterImage {
    RasterImage::new(w, h, p).unwrap()
}

#[test]
fn scale_by_two_matrix() {
    let src = vec![pt(0, 0), pt(0, 10), pt(10, 10), pt(10, 0)];
    let dst = vec![pt(0, 0), pt(0, 20), pt(20, 20), pt(20, 0)];
    let h = estimate(&src, &dst).unwrap();
    assert_eq!(h.h0, 2);
    assert_eq!(h.h1, 0);
    assert_eq!(h.h2, 0);
    assert_eq!(h.h3, 0);
    assert_eq!(h.h4, 2);
    assert_eq!(h.h5, 0);
    assert_eq!(h.h6, 0);
    assert_eq!(h.h7, 0);
    assert_eq!(h.h8, 1);
}

#[test]
fn scale_by_two_warp_covers_canvas() {
    let src = vec![pt(0, 0), pt(0, 10), pt(10, 10), pt(10, 0)];
    let dst = vec![pt(0, 0), pt(0, 20), pt(20, 20), pt(20, 0)];
    let h = estimate(&src, &dst).unwrap();
    let color = rgba(200, 40, 10, 255);
    let source = solid(10, 10, color);
    let canvas = warp(&source, &h, 20, 20, rgba(0, 0, 0, 0)).unwrap();
    assert_eq!(canvas.width(), 20);
    assert_eq!(canvas.height(), 20);
    for y in 0..20 {
        for x in 0..20 {
            assert_eq!(canvas.pixel(x, y), color, "pixel ({x}, {y})");
        }
    }
}

#[test]
fn translation_matrix_is_exact() {
    let src = vec![pt(0, 0), pt(0, 1), pt(1, 1), pt(1, 0)];
    let dst = vec![pt(5, 7), pt(5, 8), pt(6, 8), pt(6, 7)];
    let h = estimate(&src, &dst).unwrap();
    assert_eq!(
        (h.h0, h.h1, h.h2, h.h3, h.h4, h.h5, h.h6, h.h7, h.h8),
        (1, 0, 5, 0, 1, 7, 0, 0, 1)
    );
}

#[test]
fn identity_correspondence_gives_identity_matrix() {
    let ps = vec![pt(0, 0), pt(0, 10), pt(10, 10), pt(10, 0)];
    let h = estimate(&ps, &ps).unwrap();
    assert_eq!(
        (h.h0, h.h1, h.h2, h.h3, h.h4, h.h5, h.h6, h.h7, h.h8),
        (1, 0, 0, 0, 1, 0, 0, 0, 1)
    );
}

#[test]
fn identity_warp_reproduces_source() {
    let mut img = solid(3, 2, rgba(0, 0, 0, 255));
    img.set_pixel(0, 0, rgba(1, 2, 3, 255));
    img.set_pixel(1, 0, rgba(4, 5, 6, 255));
    img.set_pixel(2, 1, rgba(7, 8, 9, 255));
    let id = Homography::identity_matrix();
    let fill = rgba(0, 0, 0, 0);
    let out = warp(&img, &id, 4, 3, fill).unwrap();
    for y in 0..3 {
        for x in 0..4 {
            if x < 3 && y < 2 {
                assert_eq!(out.pixel(x, y), img.pixel(x, y));
            } else {
                assert_eq!(out.pixel(x, y), fill);
            }
        }
    }
}

#[test]
fn general_position_correspondence_succeeds() {
    let src = vec![pt(1, 1), pt(5, 2), pt(4, 7), pt(0, 6)];
    let dst = vec![pt(2, 3), pt(9, 4), pt(7, 10), pt(1, 11)];
    let h = estimate(&src, &dst).unwrap();
    assert!(h.h8 > 0);
}

#[test]
fn three_collinear_points_rejected() {
    let src = vec![pt(0, 0), pt(1, 1), pt(2, 2), pt(5, 0)];
    let dst = vec![pt(0, 0), pt(0, 20), pt(20, 20), pt(20, 0)];
    assert_eq!(estimate(&src, &dst), Err(MosaicError::SingularTransform));
}

#[test]
fn duplicate_points_rejected() {
    let src = vec![pt(0, 0), pt(0, 0), pt(2, 5), pt(5, 0)];
    let dst = vec![pt(0, 0), pt(0, 20), pt(20, 20), pt(20, 0)];
    assert_eq!(estimate(&src, &dst), Err(MosaicError::SingularTransform));
}

#[test]
fn wrong_point_count_rejected() {
    let src = vec![pt(0, 0), pt(0, 10), pt(10, 10)];
    let dst = vec![pt(0, 0), pt(0, 20), pt(20, 20), pt(20, 0)];
    assert_eq!(estimate(&src, &dst), Err(MosaicError::InsufficientPoints));
    assert_eq!(estimate(&dst, &src), Err(MosaicError::InsufficientPoints));
}

#[test]
fn oversized_canvas_rejected() {
    let src = solid(2, 2, rgba(1, 1, 1, 255));
    let id = Homography::identity_matrix();
    assert!(matches!(
        warp(&src, &id, 40000, 5, rgba(0, 0, 0, 0)),
        Err(MosaicError::CanvasOverflow)
    ));
    assert!(matches!(
        RasterImage::new(40000, 5, rgba(0, 0, 0, 0)),
        Err(MosaicError::CanvasOverflow)
    ));
}

#[test]
fn zero_determinant_rejected_by_warper() {
    let src = solid(2, 2, rgba(1, 1, 1, 255));
    let z = Homography { h0: 0, h1: 0, h2: 0, h3: 0, h4: 0, h5: 0, h6: 0, h7: 0, h8: 0 };
    assert!(matches!(
        warp(&src, &z, 4, 4, rgba(0, 0, 0, 0)),
        Err(MosaicError::InvalidMatrix)
    ));
}

#[test]
fn blend_keeps_single_source_pixels_exact() {
    // Canvas 4x3: warped content only on the right half, reference 2x2 in
    // the top-left corner, nothing at all at (0..2, 2).
    let mut warped = solid(4, 3, rgba(0, 0, 0, 0));
    for y in 0..3 {
        for x in 2..4 {
            warped.set_pixel(x, y, rgba(10, 20, 30, 255));
        }
    }
    let reference = solid(2, 2, rgba(200, 100, 50, 255));
    let out = blend(&warped, &reference, pt(1, 1));
    assert_eq!(out.width(), 4);
    assert_eq!(out.height(), 3);
    for y in 0..2 {
        for x in 0..2 {
            assert_eq!(out.pixel(x, y), rgba(200, 100, 50, 255), "reference-only region");
        }
    }
    for y in 0..3 {
        for x in 2..4 {
            assert_eq!(out.pixel(x, y), rgba(10, 20, 30, 255), "warped-only region");
        }
    }
    assert_eq!(out.pixel(0, 2), rgba(0, 0, 0, 0), "empty region stays transparent");
    assert_eq!(out.pixel(1, 2), rgba(0, 0, 0, 0), "empty region stays transparent");
}

#[test]
fn blend_of_identical_white_images_is_white() {
    let warped = solid(20, 10, rgba(255, 255, 255, 255));
    let reference = solid(10, 10, rgba(255, 255, 255, 255));
    let out = blend(&warped, &reference, pt(5, 5));
    for y in 0..10 {
        for x in 0..20 {
            assert_eq!(out.pixel(x, y), rgba(255, 255, 255, 255));
        }
    }
}

#[test]
fn blend_is_bit_reproducible() {
    let mut warped = solid(6, 6, rgba(0, 0, 0, 0));
    for y in 0..6 {
        for x in 0..4 {
            warped.set_pixel(x, y, rgba((40 * x) as u8, (30 * y) as u8, 77, 255));
        }
    }
    let mut reference = solid(5, 6, rgba(9, 9, 9, 255));
    reference.set_pixel(2, 2, rgba(250, 1, 2, 255));
    let a = blend(&warped, &reference, pt(2, 3));
    let b = blend(&warped, &reference, pt(2, 3));
    for y in 0..6 {
        for x in 0..6 {
            assert_eq!(a.pixel(x, y), b.pixel(x, y));
        }
    }
}

#[test]
fn clamp_add_saturates_at_max() {
    assert_eq!(clamp_add(200, 100, 255), 255);
    assert_eq!(clamp_add(10, 20, 255), 30);
    assert_eq!(clamp_add(100, 100, 150), 150);
    assert_eq!(clamp_add(0, 0, 255), 0);
}

#[test]
fn distance_alpha_falls_off_with_distance() {
    assert_eq!(distance_alpha(pt(0, 0), pt(0, 0), 5), 255);
    assert_eq!(distance_alpha(pt(0, 0), pt(3, 4), 1), 250);
    assert_eq!(distance_alpha(pt(0, 0), pt(100_000, 0), 1), 0);
    assert_eq!(distance_alpha(pt(10, 10), pt(10, 12), 1), 253);
}

#[test]
fn downsample_shrinks_with_floor_at_one() {
    let mut img = solid(10, 10, rgba(5, 5, 5, 255));
    img.set_pixel(0, 0, rgba(99, 0, 0, 255));
    let out = downsample(&img, 8);
    assert_eq!(out.width(), 1);
    assert_eq!(out.height(), 1);
    assert_eq!(out.pixel(0, 0), rgba(99, 0, 0, 255));
    let out2 = downsample(&img, 5);
    assert_eq!(out2.width(), 2);
    assert_eq!(out2.height(), 2);
    assert_eq!(out2.pixel(1, 1), rgba(5, 5, 5, 255));
}

#[test]
fn upsample_repeats_nearest_pixel() {
    let mut img = solid(2, 1, rgba(0, 0, 0, 255));
    img.set_pixel(0, 0, rgba(11, 0, 0, 255));
    img.set_pixel(1, 0, rgba(22, 0, 0, 255));
    let out = upsample(&img, 4, 2);
    assert_eq!(out.width(), 4);
    assert_eq!(out.height(), 2);
    for y in 0..2 {
        assert_eq!(out.pixel(0, y), rgba(11, 0, 0, 255));
        assert_eq!(out.pixel(1, y), rgba(11, 0, 0, 255));
        assert_eq!(out.pixel(2, y), rgba(22, 0, 0, 255));
        assert_eq!(out.pixel(3, y), rgba(22, 0, 0, 255));
    }
}

#[test]
fn box_blur_averages_clamped_window() {
    let mut img = solid(3, 1, rgba(0, 0, 0, 0));
    img.set_pixel(0, 0, rgba(0, 0, 0, 0));
    img.set_pixel(1, 0, rgba(9, 0, 0, 0));
    img.set_pixel(2, 0, rgba(18, 0, 0, 0));
    let out = box_blur(&img);
    assert_eq!(out.pixel(0, 0).r, 3);
    assert_eq!(out.pixel(1, 0).r, 9);
    assert_eq!(out.pixel(2, 0).r, 15);
}

#[test]
fn projective_warp_leaves_no_pixel_unwritten() {
    // A square squeezed into a trapezoid needs a true perspective term.
    let src = vec![pt(0, 0), pt(0, 10), pt(10, 10), pt(10, 0)];
    let dst = vec![pt(0, 0), pt(2, 10), pt(8, 10), pt(10, 0)];
    let h = estimate(&src, &dst).unwrap();
    assert!(h.h6 != 0 || h.h7 != 0, "expected a perspective component");
    let color = rgba(120, 60, 200, 255);
    let fill = rgba(0, 0, 0, 0);
    let source = solid(10, 10, color);
    let canvas = warp(&source, &h, 12, 12, fill).unwrap();
    let mut sampled = 0usize;
    let mut filled = 0usize;
    for y in 0..12 {
        for x in 0..12 {
            let p = canvas.pixel(x, y);
            if p == color {
                sampled += 1;
            } else {
                assert_eq!(p, fill, "pixel ({x}, {y}) must be sampled or fill");
                filled += 1;
            }
        }
    }
    assert!(sampled > 0, "some pixels sample the source");
    assert!(filled > 0, "some pixels fall outside and take the fill");
}

#[test]
fn mirror_matrix_is_exact() {
    let src = vec![pt(0, 0), pt(0, 10), pt(10, 10), pt(10, 0)];
    let dst = vec![pt(0, 0), pt(0, 10), pt(-10, 10), pt(-10, 0)];
    let h = estimate(&src, &dst).unwrap();
    assert_eq!(
        (h.h0, h.h1, h.h2, h.h3, h.h4, h.h5, h.h6, h.h7, h.h8),
        (-1, 0, 0, 0, 1, 0, 0, 0, 1)
    );
}

#[test]
fn fractional_scale_matrix_via_solver() {
    // A 3/2 scale has no integer scale factor, so the exact projective
    // solve produces the primitive representative with h8 = 2.
    let src = vec![pt(0, 0), pt(0, 2), pt(2, 2), pt(2, 0)];
    let dst = vec![pt(0, 0), pt(0, 3), pt(3, 3), pt(3, 0)];
    let h = estimate(&src, &dst).unwrap();
    assert_eq!(
        (h.h0, h.h1, h.h2, h.h3, h.h4, h.h5, h.h6, h.h7, h.h8),
        (3, 0, 0, 0, 3, 0, 0, 0, 2)
    );
}
