use vstd::prelude::*;
use crate::pixels::{RgbFrame, frame_len};

verus! {

/// The error type of the `image` crate, carried through unchanged.
#[verifier::external_type_specification]
#[verifier::external_body]
pub struct ExImageError(image::ImageError);

/// A decoded picture of the `image` crate, in the colour type it was stored in.
#[verifier::external_type_specification]
#[verifier::external_body]
pub struct ExDynamicImage(image::DynamicImage);

/// Everything a decoded picture holds (size, colour type, colour space and
/// samples), taken as one value.
pub uninterp spec fn picture_content(image: image::DynamicImage) -> Seq<u8>;

/// The width and height of a decoded picture, in that order.
pub uninterp spec fn picture_dims(image: image::DynamicImage) -> Seq<nat>;

/// What decoding yields when the format is read from the content's signature
/// alone: the picture's dimensions and content, or `None` on failure.
pub uninterp spec fn decoded_by_content(bytes: Seq<u8>) -> Option<(Seq<nat>, Seq<u8>)>;

/// What decoding yields when a file with a non-empty extension is read: the
/// format from the content's signature, else from the extension.
pub uninterp spec fn decoded_with_extension(bytes: Seq<u8>, extension: Seq<char>) -> Option<
    (Seq<nat>, Seq<u8>),
>;

/// The RGB8 bytes that `DynamicImage::resize_exact` with the triangle filter,
/// followed by `into_rgb8`, gives for a picture and a new size.
pub uninterp spec fn triangle_resize(content: Seq<u8>, new_width: nat, new_height: nat) -> Seq<u8>;

/// The RGB8 bytes that `DynamicImage::resize_to_fill` with the triangle
/// filter onto a square of side `side`, followed by `into_rgb8`, gives.
pub uninterp spec fn triangle_fill(content: Seq<u8>, side: nat) -> Seq<u8>;

/// Calls `image::ImageReader::decode` on `bytes`, with the format that
/// `image::guess_format` reads from the content's signature, or no format
/// (then the crate fails with its `Unsupported` error for an unknown format).
/// Only built-in formats are set, so the crate's run-time hooks are never
/// consulted. The contract claims that success, the picture's dimensions and
/// its content are those that `decoded_by_content` names for `bytes`.
#[verifier::external_body]
fn decode_by_content_raw(bytes: &[u8]) -> (r: Result<image::DynamicImage, image::ImageError>)
    ensures
        r is Ok <==> decoded_by_content(bytes@) is Some,
        r matches Ok(img) ==> decoded_by_content(bytes@) == Some(
            (picture_dims(img), picture_content(img)),
        ),
{
    let mut reader = image::ImageReader::new(std::io::Cursor::new(bytes));
    match image::guess_format(bytes) {
        Ok(format) => reader.set_format(format),
        Err(_) => {},
    }
    reader.decode()
}

/// Calls `image::ImageReader::decode` on `bytes` with the format that
/// `image::guess_format` reads from the content's signature, else the one
/// `ImageFormat::from_extension` gives for `extension`; with neither, fails
/// with the crate's `Unsupported` error for that path extension. These are
/// the formats and the error that `ImageReader::open` followed by
/// `with_guessed_format` and `decode` give, without run-time hooks. The
/// contract claims that success, the dimensions and the content are those
/// that `decoded_with_extension` names for the arguments.
#[verifier::external_body]
fn decode_with_extension_raw(bytes: &[u8], extension: &str) -> (r: Result<
    image::DynamicImage,
    image::ImageError,
>)
    ensures
        r is Ok <==> decoded_with_extension(bytes@, extension@) is Some,
        r matches Ok(img) ==> decoded_with_extension(bytes@, extension@) == Some(
            (picture_dims(img), picture_content(img)),
        ),
{
    let mut reader = image::ImageReader::new(std::io::Cursor::new(bytes));
    let hint = || image::error::ImageFormatHint::PathExtension(extension.into());
    match image::guess_format(bytes).ok().or_else(|| image::ImageFormat::from_extension(extension)) {
        Some(format) => reader.set_format(format),
        None => return Err(image::ImageError::Unsupported(hint().into())),
    }
    reader.decode()
}

/// Reads `DynamicImage::width` and `DynamicImage::height`. The contract claims
/// they are the two entries of `picture_dims`.
#[verifier::external_body]
fn picture_size_raw(image: &image::DynamicImage) -> (r: (u32, u32))
    ensures
        picture_dims(*image) == seq![r.0 as nat, r.1 as nat],
{
    (image.width(), image.height())
}

/// Whether resizing needs no buffer past `isize::MAX` bytes: the crate first
/// builds a `width x new_height` image of four `f32` channels, then the
/// result in the picture's colour type (at most 16 bytes a pixel), then its
/// RGB8 copy.
pub open spec fn resize_fits(width: nat, height: nat, new_width: nat, new_height: nat) -> bool {
    &&& width * new_height * 16 <= isize::MAX
    &&& new_width * new_height * 16 <= isize::MAX
}

/// Whether resize-to-fill onto a square of side `side` stays inside the
/// ranges the crate handles: a non-empty source, a scaled side well below
/// `u32::MAX`, and buffers below `isize::MAX` bytes.
pub open spec fn fill_fits(width: nat, height: nat, side: nat) -> bool {
    &&& width >= 1
    &&& height >= 1
    &&& side >= 1
    &&& 2 * width * side <= u32::MAX * height
    &&& 2 * height * side <= u32::MAX * width
    &&& (width + height) * (side + 1) * side * 16 <= isize::MAX
}

/// Calls `image::DynamicImage::resize_exact` with `FilterType::Triangle`,
/// which resamples in the picture's own colour type, and converts the result
/// with `into_rgb8`. The contract claims that the result has
/// `new_width * new_height` pixels (as the crate documents) and names its
/// bytes `triangle_resize` of the picture and the size; the crate computes
/// them with deterministic `f32` arithmetic. The `requires` keeps out the
/// sizes at which its buffer allocations would overflow; running out of
/// memory below that bound is not ruled out.
#[verifier::external_body]
fn resize_exact_raw(image: &image::DynamicImage, new_width: u32, new_height: u32) -> (r: Vec<u8>)
    requires
        picture_dims(*image).len() == 2,
        resize_fits(
            picture_dims(*image)[0],
            picture_dims(*image)[1],
            new_width as nat,
            new_height as nat,
        ),
    ensures
        r@.len() == frame_len(new_width as nat, new_height as nat),
        r@ == triangle_resize(picture_content(*image), new_width as nat, new_height as nat),
{
    image.resize_exact(new_width, new_height, image::imageops::FilterType::Triangle).into_rgb8().into_raw()
}

/// Calls `image::DynamicImage::resize_to_fill` with `FilterType::Triangle`
/// and a square target of side `side`, and converts the result with
/// `into_rgb8`. The contract claims a result of `side x side` pixels (the
/// crate scales the picture to cover the square and crops the excess,
/// centred) and names its bytes `triangle_fill` of the picture and the side.
/// Running out of memory is not ruled out.
#[verifier::external_body]
fn resize_to_fill_raw(image: &image::DynamicImage, side: u32) -> (r: Vec<u8>)
    requires
        picture_dims(*image).len() == 2,
        fill_fits(picture_dims(*image)[0], picture_dims(*image)[1], side as nat),
    ensures
        r@.len() == frame_len(side as nat, side as nat),
        r@ == triangle_fill(picture_content(*image), side as nat),
{
    image.resize_to_fill(side, side, image::imageops::FilterType::Triangle).into_rgb8().into_raw()
}

/// A decoded image, kept in the colour type it was stored in.
pub struct Picture {
    image: image::DynamicImage,
}

impl Picture {
    pub closed spec fn content(self) -> Seq<u8> {
        picture_content(self.image)
    }

    pub closed spec fn dims(self) -> Seq<nat> {
        picture_dims(self.image)
    }

    pub fn width(&self) -> (r: u32)
        ensures
            self.dims().len() == 2,
            r == self.dims()[0],
    {
        picture_size_raw(&self.image).0
    }

    pub fn height(&self) -> (r: u32)
        ensures
            self.dims().len() == 2,
            r == self.dims()[1],
    {
        picture_size_raw(&self.image).1
    }
}

/// Why an image could not be read.
pub struct DecodeError {
    /// The decoder's own account of the failure.
    pub source: image::ImageError,
}

/// What decoding a file's contents gives: with no extension the format comes
/// from the content alone, otherwise from the content or else the extension.
pub open spec fn decoded(bytes: Seq<u8>, extension: Seq<char>) -> Option<(Seq<nat>, Seq<u8>)> {
    if extension.len() == 0 {
        decoded_by_content(bytes)
    } else {
        decoded_with_extension(bytes, extension)
    }
}

/// Decodes an image file's contents, keeping its colour type.
pub fn decode_picture(bytes: &[u8], extension: &str) -> (r: Result<Picture, DecodeError>)
    ensures
        r is Ok <==> decoded(bytes@, extension@) is Some,
        r matches Ok(p) ==> decoded(bytes@, extension@) == Some((p.dims(), p.content())),
{
    let result = if extension.is_empty() {
        decode_by_content_raw(bytes)
    } else {
        decode_with_extension_raw(bytes, extension)
    };
    match result {
        Ok(image) => Ok(Picture { image }),
        Err(e) => Err(DecodeError { source: e }),
    }
}

/// Resizes a picture to exactly `new_width x new_height` with the triangle
/// filter, in its own colour type, and gives the result as RGB; `None` when
/// the buffers involved would be too large to allocate.
pub fn resize_exact(picture: &Picture, new_width: u32, new_height: u32) -> (r: Option<RgbFrame>)
    ensures
        picture.dims().len() == 2,
        r is Some <==> resize_fits(
            picture.dims()[0],
            picture.dims()[1],
            new_width as nat,
            new_height as nat,
        ),
        r matches Some(out) ==> out.spec_width() == new_width && out.spec_height() == new_height
            && out.bytes() == triangle_resize(picture.content(), new_width as nat, new_height as nat),
{
    let w = picture.width() as u128;
    let nw = new_width as u128;
    let nh = new_height as u128;
    let limit = isize::MAX as u128;
    assert(w * nh * 16 <= 0x10_0000_0000_0000_0000u128) by (nonlinear_arith)
        requires
            w <= 0xffff_ffffu128,
            nh <= 0xffff_ffffu128,
    ;
    assert(nw * nh * 16 <= 0x10_0000_0000_0000_0000u128) by (nonlinear_arith)
        requires
            nw <= 0xffff_ffffu128,
            nh <= 0xffff_ffffu128,
    ;
    if w * nh * 16 > limit || nw * nh * 16 > limit {
        return None;
    }
    let bytes = resize_exact_raw(&picture.image, new_width, new_height);
    RgbFrame::from_raw(new_width, new_height, bytes)
}

/// Scales a picture to cover a `side x side` square, crops the overflow, and
/// gives the result as RGB; `None` outside the range the scaling handles (see
/// `fill_fits`).
pub fn resize_to_fill(picture: &Picture, side: u32) -> (r: Option<RgbFrame>)
    ensures
        picture.dims().len() == 2,
        r is Some <==> fill_fits(picture.dims()[0], picture.dims()[1], side as nat),
        r matches Some(out) ==> out.spec_width() == side && out.spec_height() == side
            && out.bytes() == triangle_fill(picture.content(), side as nat),
{
    let w = picture.width() as u128;
    let h = picture.height() as u128;
    let s = side as u128;
    let limit = isize::MAX as u128;
    let umax = u32::MAX as u128;
    if w == 0 || h == 0 || s == 0 {
        return None;
    }
    assert(2 * w * s <= 0x2_0000_0000_0000_0000u128) by (nonlinear_arith)
        requires
            w <= 0xffff_ffffu128,
            s <= 0xffff_ffffu128,
    ;
    assert(2 * h * s <= 0x2_0000_0000_0000_0000u128) by (nonlinear_arith)
        requires
            h <= 0xffff_ffffu128,
            s <= 0xffff_ffffu128,
    ;
    assert(umax * h <= 0x1_0000_0000_0000_0000u128) by (nonlinear_arith)
        requires
            umax == 0xffff_ffffu128,
            h <= 0xffff_ffffu128,
    ;
    assert(umax * w <= 0x1_0000_0000_0000_0000u128) by (nonlinear_arith)
        requires
            umax == 0xffff_ffffu128,
            w <= 0xffff_ffffu128,
    ;
    if 2 * w * s > umax * h || 2 * h * s > umax * w {
        return None;
    }
    // Every factor is below 2^33, so the product stays far below 2^128.
    let a = w + h;
    let b = s + 1;
    assert(a * b <= 0x4_0000_0000_0000_0000u128) by (nonlinear_arith)
        requires
            a <= 0x1_ffff_fffeu128,
            b <= 0x1_0000_0000u128,
    ;
    let ab = a * b;
    assert(ab * s <= 0x4_0000_0000_0000_0000_0000_0000u128) by (nonlinear_arith)
        requires
            ab <= 0x4_0000_0000_0000_0000u128,
            s <= 0xffff_ffffu128,
    ;
    if ab * s * 16 > limit {
        return None;
    }
    let bytes = resize_to_fill_raw(&picture.image, side);
    RgbFrame::from_raw(side, side, bytes)
}

} // verus!
