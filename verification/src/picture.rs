//! Decoding downloaded raster images: within fixed limits, and kept only as a
//! small RGBA image.

use vstd::prelude::*;

use image::imageops::FilterType;
use image::{DynamicImage, ImageReader, Limits};
use std::io::Cursor;

verus! {

/// The widest and tallest image that is decoded, in pixels.
pub const MAX_IMAGE_DIMENSION: u32 = 2048;

/// The most memory that decoding one image may allocate, in bytes.
pub const MAX_IMAGE_DECODE_ALLOC: u64 = 32 * 1024 * 1024;

/// The largest side of a kept image, in pixels.
pub const CACHED_IMAGE_SIZE: u32 = 128;

/// A decoded image and its size in pixels, as the image reported it when
/// it was made.
#[derive(Debug)]
pub struct RasterImage {
    pub(crate) image: DynamicImage,
    pub(crate) width: u32,
    pub(crate) height: u32,
}

impl RasterImage {
    /// The image's width and height in pixels.
    pub closed spec fn size(&self) -> (u32, u32) {
        (self.width, self.height)
    }

    /// Keeps `image` with its size.
    pub fn new(image: DynamicImage) -> (r: RasterImage) {
        let (width, height) = image_size(&image);
        RasterImage { image, width, height }
    }

    /// The width in pixels.
    pub fn width(&self) -> (r: u32)
        ensures
            r == self.size().0,
    {
        self.width
    }

    /// The height in pixels.
    pub fn height(&self) -> (r: u32)
        ensures
            r == self.size().1,
    {
        self.height
    }
}

/// `DynamicImage::width` and `DynamicImage::height`. The image is opaque
/// here, so nothing is stated of its size.
#[verifier::external_body]
fn image_size(image: &DynamicImage) -> (u32, u32) {
    (image.width(), image.height())
}

/// Whether `ImageReader` (format guessed from the bytes) decodes `bytes` with
/// images at most `max_dimension` pixels wide and high and at most
/// `max_alloc` bytes allocated.
pub uninterp spec fn decodes_within(bytes: Seq<u8>, max_dimension: u32, max_alloc: u64) -> bool;

/// The width and height of the image that `ImageReader` decodes from `bytes`
/// under those limits.
pub uninterp spec fn decoded_size(bytes: Seq<u8>, max_dimension: u32, max_alloc: u64) -> (u32, u32);

/// The width and height of what `DynamicImage::resize` makes of a `width` by
/// `height` image asked into `nwidth` by `nheight` pixels (the image crate's
/// aspect-preserving `resize_dimensions`, or the same size when it already
/// is that size).
pub uninterp spec fn resized_size(width: u32, height: u32, nwidth: u32, nheight: u32) -> (u32, u32);

/// `ImageReader::with_guessed_format` and `ImageReader::decode` under
/// `Limits` of `max_dimension` pixels each way and `max_alloc` bytes; an
/// error carries its message. Success and the decoded size are named.
/// That every decoder of the `image` crate returns, rather than panics, on
/// arbitrary bytes under these limits is what the crate documents for
/// malformed input; it is not shown from its source here, and is an
/// accepted risk of this item.
#[verifier::external_body]
fn decode_within(bytes: &[u8], max_dimension: u32, max_alloc: u64) -> (r: Result<RasterImage, String>)
    ensures
        r is Ok == decodes_within(bytes@, max_dimension, max_alloc),
        r matches Ok(image) ==> image.size() == decoded_size(bytes@, max_dimension, max_alloc),
{
    let mut limits = Limits::default();
    limits.max_image_width = Some(max_dimension);
    limits.max_image_height = Some(max_dimension);
    limits.max_alloc = Some(max_alloc);
    let mut reader = ImageReader::new(Cursor::new(bytes)).with_guessed_format().map_err(|e| e.to_string())?;
    reader.limits(limits);
    let image = reader.decode().map_err(|e| e.to_string())?;
    Ok(RasterImage { width: image.width(), height: image.height(), image })
}

/// `DynamicImage::resize` into `size` by `size` pixels keeping the aspect
/// ratio (triangle filter), as RGBA; the result has the size `resize` gives.
#[verifier::external_body]
fn resized_rgba(image: RasterImage, size: u32) -> (r: RasterImage)
    ensures
        r.size() == resized_size(image.size().0, image.size().1, size, size),
{
    let resized = DynamicImage::ImageRgba8(image.image.resize(size, size, FilterType::Triangle).to_rgba8());
    RasterImage { width: resized.width(), height: resized.height(), image: resized }
}

/// Decodes a raster image of at most [`MAX_IMAGE_DIMENSION`] pixels each way
/// and [`MAX_IMAGE_DECODE_ALLOC`] bytes of decoding memory, and keeps it
/// scaled into [`CACHED_IMAGE_SIZE`] pixels each way; otherwise the decoder's
/// error.
pub fn decode_raster_image(bytes: &[u8]) -> (r: Result<RasterImage, String>)
    ensures
        r is Ok == decodes_within(bytes@, MAX_IMAGE_DIMENSION, MAX_IMAGE_DECODE_ALLOC),
        r matches Ok(image) ==> image.size() == resized_size(
            decoded_size(bytes@, MAX_IMAGE_DIMENSION, MAX_IMAGE_DECODE_ALLOC).0,
            decoded_size(bytes@, MAX_IMAGE_DIMENSION, MAX_IMAGE_DECODE_ALLOC).1,
            CACHED_IMAGE_SIZE,
            CACHED_IMAGE_SIZE,
        ),
{
    match decode_within(bytes, MAX_IMAGE_DIMENSION, MAX_IMAGE_DECODE_ALLOC) {
        Ok(image) => Ok(resized_rgba(image, CACHED_IMAGE_SIZE)),
        Err(message) => Err(message),
    }
}

} // verus!
