//! Raster images for the composition engine, carried as opaque values of
//! the outside `image` crate together with their pixel dimensions as plain
//! values.
//!
//! A [`Frame`]'s private `img` field always holds exactly `width × height`
//! pixels, and `eight_bit` records whether its channels are 8-bit
//! integers: every function in this module that builds a `Frame` takes
//! those facts from the decoder or passes the image library the very
//! values it stores. All pixel work
//! happens inside the `image` crate; the contracts here state only what
//! its source promises about dimensions, decode success and encode
//! success, which is what the composition logic is proved against.

use vstd::prelude::*;
use image::imageops::FilterType;

verus! {

/// Declares the outside type `image::DynamicImage` (a decoded image) so
/// that values of it can be carried through; it stays opaque here.
#[verifier::external_type_specification]
#[verifier::external_body]
pub struct ExDynamicImage(image::DynamicImage);

/// Declares the outside type `image::ImageError`, the error the `image`
/// crate's decoders and encoders return.
#[verifier::external_type_specification]
#[verifier::external_body]
pub struct ExImageError(image::ImageError);

/// A decoded raster image and its dimensions in pixels.
pub struct Frame {
    img: image::DynamicImage,
    width: u32,
    height: u32,
    eight_bit: bool,
}

impl Frame {
    /// The frame's width in pixels.
    pub closed spec fn w(&self) -> u32 {
        self.width
    }

    /// The frame's height in pixels.
    pub closed spec fn h(&self) -> u32 {
        self.height
    }

    /// Whether the frame's channels are 8-bit integers; such frames are
    /// what the lossless encoder writes without any intermediate buffer.
    pub closed spec fn eight_bit(&self) -> bool {
        self.eight_bit
    }

    pub fn width(&self) -> (r: u32)
        ensures
            r == self.w(),
    {
        self.width
    }

    pub fn height(&self) -> (r: u32)
        ensures
            r == self.h(),
    {
        self.height
    }
}

/// Whether decoding a byte sequence succeeds; the decoder reads the bytes
/// alone, so this depends on them alone.
pub uninterp spec fn decodes(bytes: Seq<u8>) -> bool;

/// The pixel dimensions that decoding a byte sequence yields; they depend
/// on the bytes alone.
pub uninterp spec fn decoded_dims_of(bytes: Seq<u8>) -> (u32, u32);

/// Relies on `image::load_from_memory` to decode the bytes: it computes on
/// them alone, so success and the decoded size are functions of the bytes.
/// The returned frame records the decoded size and whether the color type
/// has 8-bit channels.
#[verifier::external_body]
pub(crate) fn decode_frame(bytes: &Vec<u8>) -> (r: Result<Frame, image::ImageError>)
    ensures
        r is Ok <==> decodes(bytes@),
        r matches Ok(f) ==> (f.w(), f.h()) == decoded_dims_of(bytes@),
{
    let img = image::load_from_memory(bytes)?;
    let width = img.width();
    let height = img.height();
    let eight_bit = match img.color() {
        image::ColorType::L8
        | image::ColorType::La8
        | image::ColorType::Rgb8
        | image::ColorType::Rgba8 => true,
        _ => false,
    };
    Ok(Frame { img, width, height, eight_bit })
}

/// Relies on the `Display` rendering of `image::ImageError` for a
/// human-readable description.
#[verifier::external_body]
pub(crate) fn image_error_text(e: &image::ImageError) -> (r: String) {
    format!("{e}")
}

/// Relies on `DynamicImage::resize_exact`: the result has exactly the
/// requested dimensions and the same color type (aspect ratio is not
/// preserved), resampled with a high-quality filter.
#[verifier::external_body]
pub(crate) fn resize_frame(f: &Frame, w: u32, h: u32) -> (r: Frame)
    ensures
        r.w() == w,
        r.h() == h,
        r.eight_bit() == f.eight_bit(),
{
    Frame {
        img: f.img.resize_exact(w, h, FilterType::CatmullRom),
        width: w,
        height: h,
        eight_bit: f.eight_bit,
    }
}

/// Relies on `DynamicImage::thumbnail_exact`: the result has exactly the
/// requested dimensions and the same color type, scaled by the fast
/// integer algorithm.
#[verifier::external_body]
pub(crate) fn thumbnail_frame(f: &Frame, w: u32, h: u32) -> (r: Frame)
    ensures
        r.w() == w,
        r.h() == h,
        r.eight_bit() == f.eight_bit(),
{
    Frame { img: f.img.thumbnail_exact(w, h), width: w, height: h, eight_bit: f.eight_bit }
}

/// Relies on `DynamicImage::crop_imm`: a cut-out whose rectangle lies
/// within the image has exactly the requested dimensions and the same
/// color type.
#[verifier::external_body]
pub(crate) fn crop_frame(f: &Frame, x: u32, y: u32, w: u32, h: u32) -> (r: Frame)
    requires
        x + w <= f.w(),
        y + h <= f.h(),
    ensures
        r.w() == w,
        r.h() == h,
        r.eight_bit() == f.eight_bit(),
{
    Frame { img: f.img.crop_imm(x, y, w, h), width: w, height: h, eight_bit: f.eight_bit }
}

/// Relies on `DynamicImage::new_rgb8`: a black 8-bit RGB canvas of exactly
/// the given dimensions.
#[verifier::external_body]
pub(crate) fn new_canvas(w: u32, h: u32) -> (r: Frame)
    ensures
        r.w() == w,
        r.h() == h,
        r.eight_bit(),
{
    Frame { img: image::DynamicImage::new_rgb8(w, h), width: w, height: h, eight_bit: true }
}

/// Relies on `image::imageops::overlay`: it draws `tile` onto `canvas` at
/// the given offset, clipped to the canvas, writing pixels only — the
/// canvas's dimensions and color type never change.
#[verifier::external_body]
pub(crate) fn overlay_frame(canvas: &mut Frame, tile: &Frame, x: u32, y: u32)
    ensures
        final(canvas).w() == old(canvas).w(),
        final(canvas).h() == old(canvas).h(),
        final(canvas).eight_bit() == old(canvas).eight_bit(),
{
    image::imageops::overlay(&mut canvas.img, &tile.img, x as i64, y as i64);
}

/// Relies on `image::codecs::jpeg::JpegEncoder` with
/// `DynamicImage::write_with_encoder`: the image is first converted to a
/// color type the encoder takes, the quality is clamped, and writing into
/// the in-memory buffer cannot fail — so encoding succeeds exactly when
/// both dimensions lie in the format's documented range, one to 65535.
#[verifier::external_body]
pub(crate) fn encode_jpeg(f: &Frame, quality: u8) -> (r: Result<Vec<u8>, image::ImageError>)
    ensures
        r is Ok <==> (1 <= f.w() && f.w() <= 65535 && 1 <= f.h() && f.h() <= 65535),
{
    let mut buf: Vec<u8> = Vec::new();
    let encoder = image::codecs::jpeg::JpegEncoder::new_with_quality(&mut buf, quality);
    f.img.write_with_encoder(encoder)?;
    Ok(buf)
}

/// Relies on `DynamicImage::write_to` with the PNG format: for an image
/// with 8-bit channels, writing into the in-memory buffer fails only for a
/// zero dimension; other color types take further paths that can fail.
#[verifier::external_body]
pub(crate) fn encode_png(f: &Frame) -> (r: Result<Vec<u8>, image::ImageError>)
    ensures
        r is Ok ==> f.w() >= 1 && f.h() >= 1,
        r is Err ==> f.w() == 0 || f.h() == 0 || !f.eight_bit(),
{
    let mut buf = std::io::Cursor::new(Vec::new());
    f.img.write_to(&mut buf, image::ImageFormat::Png)?;
    Ok(buf.into_inner())
}

} // verus!
