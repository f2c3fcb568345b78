//! Cover thumbnails: the cover image decoded, shrunk to fit a square of
//! `THUMB_MAX_EDGE_PX` pixels when it is larger, and encoded as JPEG.

use vstd::prelude::*;
use std::io::Cursor;
use image::codecs::jpeg::JpegEncoder;
use image::imageops::FilterType;
use image::{ImageFormat, ImageReader};
use crate::library::{THUMB_JPEG_QUALITY, THUMB_MAX_EDGE_PX};
use crate::paths::{extension_of, path_extension};
use crate::text::{chars_of, eq_str, lower, to_ascii_lower};

verus! {

/// The extensions that `image::ImageFormat::from_extension` knows, in lower
/// case (it lowers the extension first).
pub open spec fn image_extension(e: Seq<char>) -> bool {
    ||| e == "avif"@
    ||| e == "jpg"@
    ||| e == "jpeg"@
    ||| e == "jfif"@
    ||| e == "png"@
    ||| e == "apng"@
    ||| e == "gif"@
    ||| e == "webp"@
    ||| e == "tif"@
    ||| e == "tiff"@
    ||| e == "tga"@
    ||| e == "dds"@
    ||| e == "bmp"@
    ||| e == "ico"@
    ||| e == "hdr"@
    ||| e == "exr"@
    ||| e == "pbm"@
    ||| e == "pam"@
    ||| e == "ppm"@
    ||| e == "pgm"@
    ||| e == "pnm"@
    ||| e == "ff"@
    ||| e == "qoi"@
}

/// Whether `image::ImageFormat::from_extension` names a format for the
/// extension `extension`.
pub fn is_image_extension(extension: &str) -> (r: bool)
    ensures
        r == image_extension(lower(extension@)),
{
    let c = chars_of(extension);
    let l = to_ascii_lower(c.as_slice());
    let e = l.as_slice();
    eq_str(e, "avif") || eq_str(e, "jpg") || eq_str(e, "jpeg") || eq_str(e, "jfif") || eq_str(e, "png")
        || eq_str(e, "apng") || eq_str(e, "gif") || eq_str(e, "webp") || eq_str(e, "tif") || eq_str(
        e,
        "tiff",
    ) || eq_str(e, "tga") || eq_str(e, "dds") || eq_str(e, "bmp") || eq_str(e, "ico") || eq_str(e, "hdr")
        || eq_str(e, "exr") || eq_str(e, "pbm") || eq_str(e, "pam") || eq_str(e, "ppm") || eq_str(e, "pgm")
        || eq_str(e, "pnm") || eq_str(e, "ff") || eq_str(e, "qoi")
}

/// What decoding `bytes` as the image format named by `extension` gives: the
/// image's width and height, or the decoder's error text. It depends on the
/// bytes and the extension alone.
pub uninterp spec fn decoded_size(bytes: Seq<u8>, extension: Seq<char>) -> Result<(u32, u32), Seq<char>>;

/// What decoding `bytes` as the format named by `extension` and encoding the
/// image as JPEG at `quality` gives: the JPEG bytes, or the error text.
pub uninterp spec fn jpeg_of(bytes: Seq<u8>, extension: Seq<char>, quality: u8) -> Result<Seq<u8>, Seq<char>>;

/// As `jpeg_of`, with the image scaled with the Lanczos filter, its aspect
/// ratio kept, to the largest size within `edge` by `edge` before encoding.
pub uninterp spec fn jpeg_of_resized(bytes: Seq<u8>, extension: Seq<char>, edge: u32, quality: u8) -> Result<
    Seq<u8>,
    Seq<char>,
>;

/// Decodes `bytes` with `image::ImageReader::with_format(..).decode()` as the
/// format that `image::ImageFormat::from_extension` names for `extension`,
/// and reads `DynamicImage::width` and `height`. The contract says only that
/// the outcome is the one `decoded_size` names for these bytes and this
/// extension; what the decoder accepts is the `image` crate's.
#[verifier::external_body]
fn decode_size(bytes: &[u8], extension: &str) -> (r: Result<(u32, u32), String>)
    requires
        image_extension(lower(extension@)),
    ensures
        match r {
            Ok(size) => decoded_size(bytes@, extension@) == Ok::<(u32, u32), Seq<char>>(size),
            Err(m) => decoded_size(bytes@, extension@) == Err::<(u32, u32), Seq<char>>(m@),
        },
{
    let format = ImageFormat::from_extension(extension).ok_or_else(|| "unknown image format".to_string())?;
    let image = ImageReader::with_format(Cursor::new(bytes), format).decode().map_err(|err| err.to_string())?;
    Ok((image.width(), image.height()))
}

/// Decodes `bytes` as `decode_size` does and encodes the image with
/// `image::codecs::jpeg::JpegEncoder::new_with_quality(.., quality)` and
/// `encode_image`. The contract says only that the outcome is the one
/// `jpeg_of` names for these arguments.
#[verifier::external_body]
fn encode_jpeg(bytes: &[u8], extension: &str, quality: u8) -> (r: Result<Vec<u8>, String>)
    requires
        image_extension(lower(extension@)),
    ensures
        match r {
            Ok(j) => jpeg_of(bytes@, extension@, quality) == Ok::<Seq<u8>, Seq<char>>(j@),
            Err(m) => jpeg_of(bytes@, extension@, quality) == Err::<Seq<u8>, Seq<char>>(m@),
        },
{
    let format = ImageFormat::from_extension(extension).ok_or_else(|| "unknown image format".to_string())?;
    let image = ImageReader::with_format(Cursor::new(bytes), format).decode().map_err(|err| err.to_string())?;
    let mut out: Vec<u8> = Vec::new();
    JpegEncoder::new_with_quality(&mut out, quality).encode_image(&image).map_err(|err| err.to_string())?;
    Ok(out)
}

/// As `encode_jpeg`, with the image passed through `DynamicImage::resize(edge,
/// edge, FilterType::Lanczos3)` before encoding. The contract says only that
/// the outcome is the one `jpeg_of_resized` names for these arguments.
#[verifier::external_body]
fn encode_jpeg_resized(bytes: &[u8], extension: &str, edge: u32, quality: u8) -> (r: Result<Vec<u8>, String>)
    requires
        image_extension(lower(extension@)),
    ensures
        match r {
            Ok(j) => jpeg_of_resized(bytes@, extension@, edge, quality) == Ok::<Seq<u8>, Seq<char>>(j@),
            Err(m) => jpeg_of_resized(bytes@, extension@, edge, quality) == Err::<Seq<u8>, Seq<char>>(m@),
        },
{
    let format = ImageFormat::from_extension(extension).ok_or_else(|| "unknown image format".to_string())?;
    let image = ImageReader::with_format(Cursor::new(bytes), format).decode().map_err(|err| err.to_string())?;
    let resized = image.resize(edge, edge, FilterType::Lanczos3);
    let mut out: Vec<u8> = Vec::new();
    JpegEncoder::new_with_quality(&mut out, quality).encode_image(&resized).map_err(|err| err.to_string())?;
    Ok(out)
}

/// Whether a cover of `width` by `height` pixels is shrunk for its thumbnail.
pub open spec fn needs_resize(width: u32, height: u32) -> bool {
    width > THUMB_MAX_EDGE_PX || height > THUMB_MAX_EDGE_PX
}

/// Whether a cover of `width` by `height` pixels is shrunk for its thumbnail:
/// when either edge is longer than `THUMB_MAX_EDGE_PX`.
pub fn thumb_needs_resize(width: u32, height: u32) -> (r: bool)
    ensures
        r == needs_resize(width, height),
{
    width > THUMB_MAX_EDGE_PX || height > THUMB_MAX_EDGE_PX
}

/// A thumbnail: the size of the cover it was made from and its JPEG bytes.
pub struct Thumbnail {
    pub width: i64,
    pub height: i64,
    pub jpeg: Vec<u8>,
}

/// Why no thumbnail was made.
#[derive(Debug, PartialEq, Eq)]
pub enum ThumbnailError {
    /// The cover's file name has no extension that names an image format.
    UnknownFormat,
    /// The cover could not be decoded.
    Decode(String),
    /// The thumbnail could not be encoded.
    Encode(String),
}

/// The JPEG bytes of the thumbnail of a cover of `width` by `height` pixels:
/// shrunk to fit `THUMB_MAX_EDGE_PX` when `needs_resize` says so.
pub open spec fn thumb_jpeg(bytes: Seq<u8>, extension: Seq<char>, width: u32, height: u32) -> Result<
    Seq<u8>,
    Seq<char>,
> {
    if needs_resize(width, height) {
        jpeg_of_resized(bytes, extension, THUMB_MAX_EDGE_PX, THUMB_JPEG_QUALITY)
    } else {
        jpeg_of(bytes, extension, THUMB_JPEG_QUALITY)
    }
}

/// Whether `r` is the thumbnail of the cover whose file `path` holds `bytes`:
/// no format when the path has no extension that names one; else the
/// decoder's error, or the cover's size with the thumbnail's JPEG bytes, or
/// the encoder's error.
pub open spec fn thumbnail_outcome(path: Seq<char>, bytes: Seq<u8>, r: Result<Thumbnail, ThumbnailError>) -> bool {
    match path_extension(path) {
        None => r == Err::<Thumbnail, ThumbnailError>(ThumbnailError::UnknownFormat),
        Some(e) => if !image_extension(lower(e)) {
            r == Err::<Thumbnail, ThumbnailError>(ThumbnailError::UnknownFormat)
        } else {
            match decoded_size(bytes, e) {
                Err(m) => r matches Err(ThumbnailError::Decode(d)) && d@ == m,
                Ok((w, h)) => match thumb_jpeg(bytes, e, w, h) {
                    Ok(j) => r matches Ok(t) && t.width == w && t.height == h && t.jpeg@ == j,
                    Err(m) => r matches Err(ThumbnailError::Encode(d)) && d@ == m,
                },
            }
        },
    }
}

/// The thumbnail of the cover whose file `path` holds `bytes`: the format is
/// the one its extension names; the recorded size is the cover's; the image
/// is shrunk first when `thumb_needs_resize` says so; it is encoded at
/// `THUMB_JPEG_QUALITY`.
pub fn generate_thumbnail(path: &str, bytes: &[u8]) -> (r: Result<Thumbnail, ThumbnailError>)
    ensures
        thumbnail_outcome(path@, bytes@, r),
{
    let extension = match extension_of(path) {
        Some(e) => e,
        None => {
            return Err(ThumbnailError::UnknownFormat);
        },
    };
    if !is_image_extension(extension.as_str()) {
        return Err(ThumbnailError::UnknownFormat);
    }
    let (width, height) = match decode_size(bytes, extension.as_str()) {
        Ok(size) => size,
        Err(err) => {
            return Err(ThumbnailError::Decode(err));
        },
    };
    let encoded = if thumb_needs_resize(width, height) {
        encode_jpeg_resized(bytes, extension.as_str(), THUMB_MAX_EDGE_PX, THUMB_JPEG_QUALITY)
    } else {
        encode_jpeg(bytes, extension.as_str(), THUMB_JPEG_QUALITY)
    };
    match encoded {
        Ok(jpeg) => Ok(Thumbnail { width: width as i64, height: height as i64, jpeg }),
        Err(err) => Err(ThumbnailError::Encode(err)),
    }
}

} // verus!
