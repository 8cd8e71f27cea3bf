use image::{ImageFormat, Rgba, RgbaImage};
use template_compare::compare::{compare, CompareError};
use template_compare::decode::{compare_images, load_image};
use template_compare::palette::Pixel;

fn encode_png(pixels: &[(u8, u8, u8, u8)], width: u32, height: u32) -> Vec<u8> {
    let mut img = RgbaImage::new(width, height);
    for (i, &(r, g, b, a)) in pixels.iter().enumerate() {
        let x = (i as u32) % width;
        let y = (i as u32) / width;
        img.put_pixel(x, y, Rgba([r, g, b, a]));
    }
    let mut buf: Vec<u8> = Vec::new();
    img.write_to(&mut std::io::Cursor::new(&mut buf), ImageFormat::Png)
        .expect("png encoding");
    buf
}

#[test]
fn load_image_reads_pixels_back() {
    let bytes = encode_png(&[(0, 0, 0, 255), (237, 28, 36, 128)], 2, 1);
    let g = load_image(&bytes).unwrap();
    assert_eq!(g.width, 2);
    assert_eq!(g.height, 1);
    assert_eq!(g.pixels.len(), 2);
    assert_eq!(g.pixels[0], Pixel { r: 0, g: 0, b: 0, a: 255 });
    assert_eq!(g.pixels[1], Pixel { r: 237, g: 28, b: 36, a: 128 });
}

#[test]
fn load_image_rejects_garbage() {
    let err = load_image(&[1, 2, 3, 4, 5]).unwrap_err();
    assert!(matches!(err, CompareError::DecodeError(_)));
}

#[test]
fn compare_images_matches_grid_compare() {
    let tpx = [(0, 0, 0, 255), (237, 28, 36, 255), (10, 10, 10, 0), (255, 255, 255, 255)];
    let apx = [(0, 0, 0, 255), (200, 20, 30, 255), (9, 9, 9, 255), (255, 255, 255, 0)];
    let tb = encode_png(&tpx, 2, 2);
    let ab = encode_png(&apx, 2, 2);
    let by_bytes = compare_images(&tb, &ab, true).unwrap();
    let tg = load_image(&tb).unwrap();
    let ag = load_image(&ab).unwrap();
    let by_grids = compare(&tg, &ag, true).unwrap();
    assert_eq!(by_bytes, by_grids);
    assert_eq!(by_bytes.len(), 3);
    assert_eq!(by_bytes[0].name, "Black");
    assert_eq!(by_bytes[0].total, 1);
    assert_eq!(by_bytes[0].count, 0);
    assert_eq!(by_bytes[1].name, "Red");
    assert_eq!(by_bytes[1].count, 1);
    assert_eq!(by_bytes[1].pixels, vec![(1, 0)]);
    assert_eq!(by_bytes[2].name, "White");
    assert_eq!(by_bytes[2].count, 1);
    assert_eq!(by_bytes[2].pixels, vec![(1, 1)]);
}

#[test]
fn compare_images_dimension_mismatch() {
    let tb = encode_png(&[(0, 0, 0, 255), (0, 0, 0, 255)], 2, 1);
    let ab = encode_png(&[(0, 0, 0, 255), (0, 0, 0, 255)], 1, 2);
    let err = compare_images(&tb, &ab, false).unwrap_err();
    assert_eq!(
        err,
        CompareError::DimensionMismatch {
            template_width: 2,
            template_height: 1,
            actual_width: 1,
            actual_height: 2,
        }
    );
}

#[test]
fn compare_images_decode_error() {
    let good = encode_png(&[(0, 0, 0, 255)], 1, 1);
    let err = compare_images(b"not an image", &good, false).unwrap_err();
    assert!(matches!(err, CompareError::DecodeError(_)));
    let err2 = compare_images(&good, b"not an image", false).unwrap_err();
    assert!(matches!(err2, CompareError::DecodeError(_)));
}
