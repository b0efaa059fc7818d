use image::GenericImageView;
use photostore::codec::{convert_to_webp_bytes, scaled_dimensions, thumbnail_from_bytes, CodecError};
use photostore::thumbnails::{ensure_thumbnail, ThumbOutcome};

fn png_bytes(width: u32, height: u32) -> Vec<u8> {
    let img = image::DynamicImage::ImageRgb8(image::RgbImage::from_pixel(
        width,
        height,
        image::Rgb([40, 90, 160]),
    ));
    let mut cur = std::io::Cursor::new(Vec::new());
    img.write_to(&mut cur, image::ImageFormat::Png).unwrap();
    cur.into_inner()
}

#[test]
fn scaled_dimensions_landscape() {
    assert_eq!(scaled_dimensions(800, 600, 200, 200), (200, 150));
    assert_eq!(scaled_dimensions(1920, 1080, 200, 200), (200, 112));
}

#[test]
fn scaled_dimensions_portrait_and_square() {
    assert_eq!(scaled_dimensions(600, 800, 200, 200), (150, 200));
    assert_eq!(scaled_dimensions(500, 500, 200, 200), (200, 200));
}

#[test]
fn scaled_dimensions_degenerate() {
    assert_eq!(scaled_dimensions(0, 0, 200, 200), (0, 200));
    assert_eq!(scaled_dimensions(5, 0, 200, 200), (200, 0));
    assert_eq!(scaled_dimensions(0, 5, 200, 200), (0, 200));
}

#[test]
fn convert_produces_webp_with_same_dimensions() {
    let png = png_bytes(8, 6);
    let out = convert_to_webp_bytes(&png).unwrap();
    assert_eq!(image::guess_format(&out).unwrap(), image::ImageFormat::WebP);
    let back = image::load_from_memory(&out).unwrap();
    assert_eq!(back.dimensions(), (8, 6));
}

#[test]
fn convert_rejects_garbage() {
    let garbage: Vec<u8> = vec![1, 2, 3, 4, 5, 6, 7, 8];
    assert!(matches!(convert_to_webp_bytes(&garbage), Err(CodecError::Decode)));
}

#[test]
fn convert_is_deterministic() {
    let png = png_bytes(8, 6);
    assert_eq!(convert_to_webp_bytes(&png).unwrap(), convert_to_webp_bytes(&png).unwrap());
}

#[test]
fn convert_reports_encode_failure_distinctly() {
    // A sixteen-bit image decodes, but the target encoder does not accept
    // its layout: the failure is classified as the encode stage.
    let img = image::DynamicImage::ImageRgb16(image::ImageBuffer::from_pixel(
        4,
        4,
        image::Rgb([1000u16, 2000, 3000]),
    ));
    let mut cur = std::io::Cursor::new(Vec::new());
    img.write_to(&mut cur, image::ImageFormat::Png).unwrap();
    let png16 = cur.into_inner();
    assert!(matches!(convert_to_webp_bytes(&png16), Err(CodecError::Encode)));
}

#[test]
fn thumbnail_bounds_and_ratio() {
    let png = png_bytes(8, 6);
    let out = thumbnail_from_bytes(&png, 4, 4).unwrap();
    assert_eq!(image::guess_format(&out).unwrap(), image::ImageFormat::WebP);
    let thumb = image::load_from_memory(&out).unwrap();
    // 8 by 6 bounded by 4 by 4: width takes the bound, height keeps 4:3.
    assert_eq!(thumb.dimensions(), (4, 3));
}

#[test]
fn thumbnail_is_deterministic() {
    let png = png_bytes(8, 6);
    assert_eq!(
        thumbnail_from_bytes(&png, 4, 4).unwrap(),
        thumbnail_from_bytes(&png, 4, 4).unwrap()
    );
}

#[test]
fn thumbnail_rejects_garbage() {
    let garbage: Vec<u8> = vec![0, 0, 0, 0];
    assert!(matches!(
        thumbnail_from_bytes(&garbage, 4, 4),
        Err(CodecError::Decode)
    ));
}

#[test]
fn ensure_thumbnail_cache_hit_touches_nothing() {
    // A present thumbnail short-circuits: no source bytes are needed.
    let r = ensure_thumbnail(true, None, 200, 200);
    assert!(matches!(r, Ok(ThumbOutcome::AlreadyPresent)));
}

#[test]
fn ensure_thumbnail_creates_when_absent() {
    let png = png_bytes(8, 6);
    match ensure_thumbnail(false, Some(&png), 4, 4) {
        Ok(ThumbOutcome::Created(bytes)) => {
            let thumb = image::load_from_memory(&bytes).unwrap();
            assert_eq!(thumb.dimensions(), (4, 3));
        }
        other => panic!("expected a created thumbnail, got {:?}", other.is_ok()),
    }
}

#[test]
fn ensure_thumbnail_reports_decode_failure() {
    let garbage: Vec<u8> = vec![9, 9, 9];
    assert!(matches!(
        ensure_thumbnail(false, Some(&garbage), 4, 4),
        Err(CodecError::Decode)
    ));
}
