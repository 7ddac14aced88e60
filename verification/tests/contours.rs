use autocrop::buffer::PixelBuffer;
use autocrop::contour::{largest_contour, Contour, Point};
use autocrop::cropper::crop_contour;
use autocrop::error::CropError;
use autocrop::geometry::Rect;

fn contour(points: &[(i32, i32)]) -> Contour {
    Contour::new(points.iter().map(|&(x, y)| Point { x, y }).collect()).unwrap()
}

/// The boundary of a filled block of pixels: its four corner pixels.
fn block(x: i32, y: i32, w: i32, h: i32) -> Contour {
    contour(&[(x, y), (x, y + h - 1), (x + w - 1, y + h - 1), (x + w - 1, y)])
}

fn numbered(width: u32, height: u32) -> PixelBuffer {
    let mut data = Vec::new();
    for y in 0..height {
        for x in 0..width {
            data.extend_from_slice(&[x as u8, y as u8, (x * y) as u8, 255]);
        }
    }
    PixelBuffer::from_raw(width, height, data).unwrap()
}

#[test]
fn contour_needs_a_point() {
    assert!(Contour::new(Vec::new()).is_none());
    assert!(Contour::new(vec![Point { x: 0, y: 0 }]).is_some());
}

#[test]
fn contour_refuses_negative_coordinates() {
    assert!(Contour::new(vec![Point { x: 1, y: 1 }, Point { x: -1, y: 1 }]).is_none());
    assert!(Contour::new(vec![Point { x: 1, y: -1 }]).is_none());
    assert!(Contour::new(vec![Point { x: i32::MAX, y: 0 }, Point { x: 0, y: i32::MAX }]).is_some());
}

#[test]
fn contour_keeps_its_points() {
    let c = contour(&[(3, 4), (5, 6), (7, 8)]);
    assert_eq!(c.len(), 3);
    assert_eq!(c.point(0), Point { x: 3, y: 4 });
    assert_eq!(c.point(2), Point { x: 7, y: 8 });
}

#[test]
fn bounding_rect_includes_both_ends() {
    assert_eq!(block(1, 1, 3, 3).bounding_rect(), Rect { x: 1, y: 1, width: 3, height: 3 });
    assert_eq!(contour(&[(4, 9)]).bounding_rect(), Rect { x: 4, y: 9, width: 1, height: 1 });
    assert_eq!(
        contour(&[(5, 2), (9, 7), (3, 4), (6, 11)]).bounding_rect(),
        Rect { x: 3, y: 2, width: 7, height: 10 }
    );
    assert_eq!(
        contour(&[(0, 0), (i32::MAX, i32::MAX)]).bounding_rect(),
        Rect { x: 0, y: 0, width: 1 << 31, height: 1 << 31 }
    );
}

#[test]
fn doubled_area_of_simple_shapes() {
    assert_eq!(contour(&[(4, 9)]).doubled_area(), 0);
    assert_eq!(contour(&[(0, 0), (5, 5)]).doubled_area(), 0);
    assert_eq!(contour(&[(0, 0), (4, 0), (0, 3)]).doubled_area(), 12);
    assert_eq!(contour(&[(0, 0), (0, 3), (4, 0)]).doubled_area(), 12);
    assert_eq!(block(1, 1, 3, 3).doubled_area(), 8);
    assert_eq!(block(5, 5, 5, 4).doubled_area(), 24);
    assert_eq!(contour(&[(10, 10), (14, 10), (14, 13), (10, 13)]).doubled_area(), 24);
}

#[test]
fn doubled_area_of_the_largest_square() {
    let m = i32::MAX;
    let side = m as u128;
    assert_eq!(contour(&[(0, 0), (m, 0), (m, m), (0, m)]).doubled_area(), 2 * side * side);
}

#[test]
fn largest_of_none_is_none() {
    assert_eq!(largest_contour(&Vec::new()), None);
}

#[test]
fn largest_is_found_wherever_it_stands() {
    let small = || block(1, 1, 3, 3);
    let large = || block(5, 5, 5, 4);
    let line = || contour(&[(0, 0), (9, 0)]);
    assert_eq!(largest_contour(&vec![small()]), Some(0));
    assert_eq!(largest_contour(&vec![small(), large()]), Some(1));
    assert_eq!(largest_contour(&vec![large(), small()]), Some(0));
    assert_eq!(largest_contour(&vec![line(), small(), large(), small()]), Some(2));
}

#[test]
fn first_of_equal_areas_wins() {
    let a = || block(0, 0, 4, 4);
    let b = || block(6, 6, 4, 4);
    let c = || block(1, 6, 2, 10);
    assert_eq!(a().doubled_area(), b().doubled_area());
    assert_eq!(a().doubled_area(), c().doubled_area());
    assert_eq!(largest_contour(&vec![a(), b(), c()]), Some(0));
    assert_eq!(largest_contour(&vec![block(0, 0, 2, 2), c(), b(), a()]), Some(1));
}

#[test]
fn larger_of_two_blobs_is_cut_out() {
    // A blob of 3 by 3 pixels at (1, 1) and one of 5 by 4 pixels at (5, 5).
    let image = numbered(12, 12);
    let regions = vec![block(1, 1, 3, 3), block(5, 5, 5, 4)];
    let out = crop_contour(&image, Ok(regions)).unwrap();
    assert_eq!(out.width(), 5);
    assert_eq!(out.height(), 4);
    for y in 0..4 {
        for x in 0..5 {
            assert_eq!(out.pixel(x, y), image.pixel(x + 5, y + 5));
        }
    }
    let regions = vec![block(5, 5, 5, 4), block(1, 1, 3, 3)];
    assert_eq!(crop_contour(&image, Ok(regions)), Ok(out));
}

#[test]
fn no_region_is_no_content() {
    let image = numbered(12, 12);
    assert_eq!(crop_contour(&image, Ok(Vec::new())), Err(CropError::NoContentFound));
}

#[test]
fn tracer_error_is_handed_on() {
    let image = numbered(12, 12);
    assert_eq!(
        crop_contour(&image, Err(String::from("cannot trace"))),
        Err(CropError::BackendFailure(String::from("cannot trace")))
    );
}

#[test]
fn region_outside_the_image_is_refused() {
    let image = numbered(12, 12);
    assert_eq!(
        crop_contour(&image, Ok(vec![block(8, 8, 5, 2)])),
        Err(CropError::InvalidGeometry)
    );
    assert_eq!(
        crop_contour(&image, Ok(vec![block(1, 1, 2, 2), block(0, 0, 13, 13)])),
        Err(CropError::InvalidGeometry)
    );
    assert!(crop_contour(&image, Ok(vec![block(0, 0, 12, 12)])).is_ok());
}

#[test]
fn single_point_region_is_one_pixel() {
    let image = numbered(12, 12);
    let out = crop_contour(&image, Ok(vec![contour(&[(7, 3)])])).unwrap();
    assert_eq!((out.width(), out.height()), (1, 1));
    assert_eq!(out.pixel(0, 0), image.pixel(7, 3));
}
