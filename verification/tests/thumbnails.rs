use std::io::Cursor;

use image::{DynamicImage, ImageFormat, RgbImage};
use lumelo::thumb::{generate_thumbnail, is_image_extension, thumb_needs_resize, ThumbnailError};

fn png_bytes(width: u32, height: u32) -> Vec<u8> {
    let image = DynamicImage::ImageRgb8(RgbImage::new(width, height));
    let mut out = Cursor::new(Vec::new());
    image.write_to(&mut out, ImageFormat::Png).unwrap();
    out.into_inner()
}

fn jpeg_size(bytes: &[u8]) -> (u32, u32) {
    let image = image::load_from_memory_with_format(bytes, ImageFormat::Jpeg).unwrap();
    (image.width(), image.height())
}

#[test]
fn resize_only_when_an_edge_exceeds_limit() {
    assert!(!thumb_needs_resize(320, 320));
    assert!(!thumb_needs_resize(1, 1));
    assert!(thumb_needs_resize(321, 10));
    assert!(thumb_needs_resize(10, 321));
}

#[test]
fn large_cover_is_shrunk_but_keeps_source_size() {
    let thumb = generate_thumbnail("/music/Album/cover.png", &png_bytes(640, 320)).unwrap();
    assert_eq!((thumb.width, thumb.height), (640, 320));
    assert_eq!(jpeg_size(&thumb.jpeg), (320, 160));
}

#[test]
fn small_cover_is_encoded_as_is() {
    let thumb = generate_thumbnail("/music/Album/folder.PNG", &png_bytes(100, 50)).unwrap();
    assert_eq!((thumb.width, thumb.height), (100, 50));
    assert_eq!(jpeg_size(&thumb.jpeg), (100, 50));
}

#[test]
fn cover_without_image_extension_is_refused() {
    let bytes = png_bytes(10, 10);
    assert!(matches!(generate_thumbnail("/music/cover", &bytes), Err(ThumbnailError::UnknownFormat)));
    assert!(matches!(generate_thumbnail("/music/cover.txt", &bytes), Err(ThumbnailError::UnknownFormat)));
}

#[test]
fn undecodable_cover_reports_decode_error() {
    assert!(matches!(
        generate_thumbnail("/music/cover.png", b"not an image"),
        Err(ThumbnailError::Decode(_))
    ));
}

#[test]
fn image_extensions_follow_the_image_crate() {
    use_extensions();
}

fn use_extensions() {
    for ext in ["png", "JPG", "jpeg", "Jfif", "gif", "webp", "qoi", "ff"] {
        assert!(is_image_extension(ext), "{ext}");
    }
    for ext in ["", "txt", "jp", "pngx"] {
        assert!(!is_image_extension(ext), "{ext}");
    }
}
