use autocrop::buffer::PixelBuffer;
use autocrop::error::CropError;
use autocrop::geometry::Rect;
use autocrop::pixel::{Pixel, PixelPredicate};

fn numbered(width: u32, height: u32) -> PixelBuffer {
    let mut data = Vec::new();
    for y in 0..height {
        for x in 0..width {
            data.extend_from_slice(&[x as u8, y as u8, (x + 10 * y) as u8, 200]);
        }
    }
    PixelBuffer::from_raw(width, height, data).unwrap()
}

#[test]
fn from_raw_wants_four_bytes_per_pixel() {
    assert!(PixelBuffer::from_raw(2, 3, vec![0; 24]).is_some());
    assert!(PixelBuffer::from_raw(2, 3, vec![0; 23]).is_none());
    assert!(PixelBuffer::from_raw(2, 3, vec![0; 25]).is_none());
    assert!(PixelBuffer::from_raw(2, 3, vec![0; 6]).is_none());
}

#[test]
fn from_raw_refuses_empty_images() {
    assert!(PixelBuffer::from_raw(0, 0, vec![]).is_none());
    assert!(PixelBuffer::from_raw(0, 5, vec![]).is_none());
    assert!(PixelBuffer::from_raw(5, 0, vec![]).is_none());
    assert!(PixelBuffer::from_raw(1, 1, vec![1, 2, 3, 4]).is_some());
}

#[test]
fn pixels_are_read_row_by_row() {
    let image = numbered(4, 3);
    assert_eq!(image.width(), 4);
    assert_eq!(image.height(), 3);
    assert_eq!(image.pixel(0, 0), Pixel { red: 0, green: 0, blue: 0, alpha: 200 });
    assert_eq!(image.pixel(3, 0), Pixel { red: 3, green: 0, blue: 3, alpha: 200 });
    assert_eq!(image.pixel(1, 2), Pixel { red: 1, green: 2, blue: 21, alpha: 200 });
    assert_eq!(image.pixel(3, 2), Pixel { red: 3, green: 2, blue: 23, alpha: 200 });
}

#[test]
fn into_raw_gives_the_bytes_back() {
    let data: Vec<u8> = (0..32).collect();
    let image = PixelBuffer::from_raw(4, 2, data.clone()).unwrap();
    assert_eq!(image.into_raw(), data);
}

#[test]
fn crop_copies_the_region() {
    let image = numbered(6, 5);
    let part = image.crop(Rect { x: 2, y: 1, width: 3, height: 2 }).unwrap();
    assert_eq!(part.width(), 3);
    assert_eq!(part.height(), 2);
    for y in 0..2 {
        for x in 0..3 {
            assert_eq!(part.pixel(x, y), image.pixel(x + 2, y + 1));
        }
    }
    assert_eq!(part.pixel(0, 0), Pixel { red: 2, green: 1, blue: 12, alpha: 200 });
    assert_eq!(part.pixel(2, 1), Pixel { red: 4, green: 2, blue: 24, alpha: 200 });
}

#[test]
fn crop_of_everything_is_the_image() {
    let image = numbered(6, 5);
    let all = image.crop(Rect { x: 0, y: 0, width: 6, height: 5 }).unwrap();
    assert_eq!(all, image);
}

#[test]
fn crop_refuses_a_rectangle_without_area() {
    let image = numbered(6, 5);
    assert_eq!(
        image.crop(Rect { x: 1, y: 1, width: 0, height: 2 }),
        Err(CropError::InvalidGeometry)
    );
    assert_eq!(
        image.crop(Rect { x: 1, y: 1, width: 2, height: 0 }),
        Err(CropError::InvalidGeometry)
    );
}

#[test]
fn crop_refuses_a_rectangle_that_reaches_outside() {
    let image = numbered(6, 5);
    assert_eq!(
        image.crop(Rect { x: 4, y: 0, width: 3, height: 1 }),
        Err(CropError::InvalidGeometry)
    );
    assert_eq!(
        image.crop(Rect { x: 0, y: 4, width: 1, height: 2 }),
        Err(CropError::InvalidGeometry)
    );
    assert_eq!(
        image.crop(Rect { x: 6, y: 0, width: 1, height: 1 }),
        Err(CropError::InvalidGeometry)
    );
    assert_eq!(
        image.crop(Rect { x: u32::MAX, y: 0, width: 2, height: 1 }),
        Err(CropError::InvalidGeometry)
    );
    assert_eq!(
        image.crop(Rect { x: 0, y: 0, width: u32::MAX, height: u32::MAX }),
        Err(CropError::InvalidGeometry)
    );
    assert!(image.crop(Rect { x: 5, y: 4, width: 1, height: 1 }).is_ok());
}

#[test]
fn luminance_weighs_the_channels() {
    let l = |red: u8, green: u8, blue: u8| Pixel { red, green, blue, alpha: 0 }.luminance();
    assert_eq!(l(0, 0, 0), 0);
    assert_eq!(l(255, 255, 255), 255);
    assert_eq!(l(255, 0, 0), 54);
    assert_eq!(l(0, 255, 0), 182);
    assert_eq!(l(0, 0, 255), 18);
    assert_eq!(l(1, 1, 1), 1);
    assert_eq!(l(0, 0, 13), 0);
    assert_eq!(l(0, 0, 14), 1);
    assert_eq!(l(4, 0, 0), 0);
    assert_eq!(l(5, 0, 0), 1);
    assert_eq!(l(0, 1, 0), 0);
    assert_eq!(l(0, 2, 0), 1);
    assert_eq!(l(100, 150, 200), 142);
}

#[test]
fn gray_pixel_repeats_the_luminance() {
    let p = Pixel { red: 100, green: 150, blue: 200, alpha: 77 };
    assert_eq!(p.to_gray(), Pixel { red: 142, green: 142, blue: 142, alpha: 77 });
    assert_eq!(p.to_gray().to_gray(), p.to_gray());
    assert_eq!(p.to_gray().luminance(), p.luminance());
}

#[test]
fn grayscale_converts_every_pixel() {
    let mut data = Vec::new();
    let mut pixels = Vec::new();
    for i in 0..64u32 {
        for j in 0..64u32 {
            let p = Pixel {
                red: (i * 4 + 1) as u8,
                green: (j * 4 + 2) as u8,
                blue: ((i * 7 + j * 13) % 256) as u8,
                alpha: ((i + j) % 256) as u8,
            };
            data.extend_from_slice(&[p.red, p.green, p.blue, p.alpha]);
            pixels.push(p);
        }
    }
    let image = PixelBuffer::from_raw(64, 64, data).unwrap();
    let gray = image.grayscale();
    assert_eq!(gray.width(), 64);
    assert_eq!(gray.height(), 64);
    for y in 0..64u32 {
        for x in 0..64u32 {
            let p = pixels[(y * 64 + x) as usize];
            assert_eq!(image.pixel(x, y), p);
            assert_eq!(gray.pixel(x, y), p.to_gray());
        }
    }
    assert_ne!(gray, image);
}

#[test]
fn grayscale_agrees_with_luminance_on_the_primaries() {
    let data = vec![
        255, 0, 0, 255, 0, 255, 0, 128, 0, 0, 255, 0, 255, 255, 255, 9, 0, 0, 13, 1, 0, 0, 14, 2,
    ];
    let gray = PixelBuffer::from_raw(3, 2, data).unwrap().grayscale();
    assert_eq!(
        gray.into_raw(),
        vec![
            54, 54, 54, 255, 182, 182, 182, 128, 18, 18, 18, 0, 255, 255, 255, 9, 0, 0, 0, 1, 1,
            1, 1, 2
        ]
    );
}

#[test]
fn predicates_compare_strictly() {
    let p = |red: u8, green: u8, blue: u8, alpha: u8| Pixel { red, green, blue, alpha };
    assert!(!PixelPredicate::Alpha.test(&p(255, 255, 255, 0)));
    assert!(PixelPredicate::Alpha.test(&p(0, 0, 0, 1)));
    assert!(!PixelPredicate::DarkTolerance.test(&p(50, 50, 50, 255)));
    assert!(PixelPredicate::DarkTolerance.test(&p(51, 0, 0, 0)));
    assert!(PixelPredicate::DarkTolerance.test(&p(0, 51, 0, 0)));
    assert!(PixelPredicate::DarkTolerance.test(&p(0, 0, 51, 0)));
    assert!(!PixelPredicate::Grayscale.test(&p(1, 1, 0, 255)));
    assert!(PixelPredicate::Grayscale.test(&p(5, 0, 0, 0)));
    assert!(!PixelPredicate::BinaryThreshold.test(&p(10, 10, 10, 255)));
    assert!(PixelPredicate::BinaryThreshold.test(&p(11, 11, 11, 0)));
    assert!(!PixelPredicate::BinaryThreshold.test(&p(51, 0, 0, 255)));
    assert!(PixelPredicate::BinaryThreshold.test(&p(52, 0, 0, 255)));
}
