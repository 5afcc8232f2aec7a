//! Cover images: whether bytes decode as an image, their pixels for the preview,
//! and the blurred background behind the editor (the image cropped to a square
//! that fills the background, and blurred).

use vstd::prelude::*;

verus! {

/// The side of the square background, in pixels.
pub const COVER_BACKGROUND_SIZE: u32 = 500;

/// The radius of the blur.
pub const COVER_BLUR_RADIUS: u32 = 18;

/// A decoded image of the `image` crate.
#[verifier::external_type_specification]
#[verifier::external_body]
pub struct ExDynamicImage(image::DynamicImage);

/// The width and height of the image that the image crate's `load_from_memory`
/// decodes from these bytes (in the format their signature shows), or `None` when
/// they do not decode.
pub uninterp spec fn decoded_size(bytes: Seq<u8>) -> Option<(u32, u32)>;

/// The bytes that the image crate's `DynamicImage::to_rgba8` gives, row by row,
/// for the image that `load_from_memory` decodes from these bytes.
pub uninterp spec fn decoded_rgba(bytes: Seq<u8>) -> Seq<u8>;

/// Whether the image crate decodes these bytes as an image.
pub open spec fn image_decodes(bytes: Seq<u8>) -> bool {
    decoded_size(bytes) is Some
}

/// An image of the image crate with its width and height. `source` is the bytes
/// it was decoded from, or `None` for an image made from another one. Only the
/// trusted functions of this module make one, from what the image crate gives.
pub struct Picture {
    image: image::DynamicImage,
    width: u32,
    height: u32,
    source: Ghost<Option<Seq<u8>>>,
}

impl Picture {
    /// The width in pixels.
    pub closed spec fn width(&self) -> u32 {
        self.width
    }

    /// The height in pixels.
    pub closed spec fn height(&self) -> u32 {
        self.height
    }

    /// The bytes the image was decoded from, if it was.
    pub closed spec fn source(&self) -> Option<Seq<u8>> {
        self.source@
    }
}

/// image `load_from_memory`: the image that the bytes encode, in the format they
/// appear to be in, with its width and height; `None` when they cannot be decoded.
#[verifier::external_body]
fn decode_image(bytes: &[u8]) -> (r: Option<Picture>)
    ensures
        match r {
            Some(picture) => decoded_size(bytes@) == Some((picture.width(), picture.height()))
                && picture.source() == Some(bytes@),
            None => decoded_size(bytes@) is None,
        },
{
    let image = image::load_from_memory(bytes).ok()?;
    let (width, height) = (image.width(), image.height());
    Some(Picture { image, width, height, source: Ghost(Some(bytes@)) })
}

/// image `DynamicImage::to_rgba8`: the image's pixels as 8-bit RGBA, row by row,
/// with its width and height, which the conversion keeps. An image buffer of the
/// image crate holds at least four bytes for each pixel (its constructors refuse a
/// shorter buffer) and may hold more. For an image decoded from bytes, the
/// pixels are [`decoded_rgba`] of those bytes.
#[verifier::external_body]
fn rgba_pixels(picture: &Picture) -> (r: (Vec<u8>, u32, u32))
    ensures
        r.1 == picture.width(),
        r.2 == picture.height(),
        r.0@.len() >= r.1 * r.2 * 4,
        picture.source() matches Some(bytes) ==> r.0@ == decoded_rgba(bytes),
{
    let rgba = picture.image.to_rgba8();
    let (width, height) = rgba.dimensions();
    (rgba.into_raw(), width, height)
}

/// Whether the bytes are an image that can be shown as a cover.
pub fn is_image(bytes: &[u8]) -> (r: bool)
    ensures
        r == image_decodes(bytes@),
{
    decode_image(bytes).is_some()
}

/// The number of bytes of `width` by `height` pixels of `channels` bytes each,
/// when a buffer of `available` bytes holds them.
fn pixel_bytes(width: u32, height: u32, channels: u32, available: usize) -> (r: Option<usize>)
    ensures
        match r {
            Some(n) => n == width * height * channels,
            None => width * height * channels > available,
        },
{
    let w = width as u128;
    let h = height as u128;
    let c = channels as u128;
    assert(w * h <= 0xffff_ffff * 0xffff_ffff) by (nonlinear_arith)
        requires
            w <= 0xffff_ffff,
            h <= 0xffff_ffff,
    ;
    assert(w * h * c <= 0xffff_ffff * 0xffff_ffff * 0xffff_ffff) by (nonlinear_arith)
        requires
            w * h <= 0xffff_ffff * 0xffff_ffff,
            c <= 0xffff_ffff,
    ;
    let n = w * h * c;
    if n <= available as u128 {
        Some(n as usize)
    } else {
        None
    }
}

/// The pixels of an encoded cover image for its preview: `None` exactly when the
/// bytes do not decode; otherwise the image's width and height and its RGBA
/// pixels, four bytes each, row by row.
pub fn cover_rgba(encoded: &[u8]) -> (r: Option<(Vec<u8>, u32, u32)>)
    ensures
        r is Some <==> image_decodes(encoded@),
        r matches Some((pixels, width, height)) ==> {
            &&& decoded_size(encoded@) == Some((width, height))
            &&& pixels@.len() == width * height * 4
            &&& pixels@ == decoded_rgba(encoded@).take(width * height * 4)
        },
{
    let picture = match decode_image(encoded) {
        Some(picture) => picture,
        None => return None,
    };
    let (mut pixels, width, height) = rgba_pixels(&picture);
    let length = match pixel_bytes(width, height, 4, pixels.len()) {
        Some(n) => n,
        None => {
            assert(false);
            return None;
        },
    };
    let ghost all = pixels@;
    pixels.truncate(length);
    assert(pixels@ =~= all.take(width * height * 4));
    Some((pixels, width, height))
}

/// Whether the image crate's `resize_to_fill` makes an image of `width` by
/// `height` pixels into exactly `size` by `size`: both sides positive and the
/// longer side, scaled so that the shorter one is `size`, well within `u32`
/// (the crate clamps a side that would not fit, and the crop then comes out
/// smaller).
pub open spec fn fills_square(width: u32, height: u32, size: u32) -> bool {
    &&& width > 0
    &&& height > 0
    &&& width * size <= 4_000_000_000 * height
    &&& height * size <= 4_000_000_000 * width
}

/// image `DynamicImage::resize_to_fill` with the triangle filter: the image
/// scaled to cover a `size` by `size` square and cropped to it, with its width
/// and height. The crate scales the image so that its shorter side becomes
/// `size` and crops the longer one to `size`, so the result is `size` by `size`
/// unless a scaled side had to be clamped to `u32`. Nothing is claimed of the
/// pixels, nor of running out of memory on an image of extreme shape.
#[verifier::external_body]
fn fill_square(picture: &Picture, size: u32) -> (r: Picture)
    requires
        picture.width() > 0,
        picture.height() > 0,
        size > 0,
    ensures
        fills_square(picture.width(), picture.height(), size) ==> r.width() == size && r.height()
            == size,
        r.source() is None,
{
    let image = picture.image.resize_to_fill(size, size, image::imageops::FilterType::Triangle);
    let (width, height) = (image.width(), image.height());
    Picture { image, width, height, source: Ghost(None) }
}

/// image `DynamicImage::to_rgb8`: the image's pixels as 8-bit RGB, row by row,
/// with its width and height, which the conversion keeps. An image buffer of the
/// image crate holds at least three bytes for each pixel (its constructors refuse
/// a shorter buffer) and may hold more; nothing is claimed of the pixel values.
#[verifier::external_body]
fn rgb_pixels(picture: &Picture) -> (r: (Vec<u8>, u32, u32))
    ensures
        r.1 == picture.width(),
        r.2 == picture.height(),
        r.0@.len() >= r.1 * r.2 * 3,
{
    let rgb = picture.image.to_rgb8();
    let (width, height) = rgb.dimensions();
    (rgb.into_raw(), width, height)
}

/// Whether libblur's stack blur takes a packed RGB buffer of `width` by `height`
/// pixels: a non-empty image whose bytes fit in `isize`.
pub open spec fn blur_accepts(width: u32, height: u32) -> bool {
    width > 0 && height > 0 && width * height * 3 <= isize::MAX
}

/// libblur `stack_blur` on a packed RGB buffer of `width` by `height` pixels, in
/// place. It refuses, leaving the buffer as it was, an empty image and one whose
/// bytes do not fit in `isize` ([`blur_accepts`]); otherwise it blurs the buffer,
/// keeping its length. Nothing is claimed of the blurred bytes: libblur picks a
/// code path for the processor it runs on, and the paths round differently. The
/// size is kept small enough that libblur's own products of the width do not
/// overflow.
#[verifier::external_body]
fn blur_rgb(pixels: &mut Vec<u8>, width: u32, height: u32, radius: u32) -> (r: bool)
    requires
        old(pixels)@.len() == width * height * 3,
        width * 3 <= u32::MAX,
        width * height <= u32::MAX,
    ensures
        r == blur_accepts(width, height),
        !r ==> final(pixels)@ == old(pixels)@,
        final(pixels)@.len() == old(pixels)@.len(),
{
    let mut image = libblur::BlurImageMut::borrow(
        pixels.as_mut_slice(),
        width,
        height,
        libblur::FastBlurChannels::Channels3,
    );
    libblur::stack_blur(
        &mut image,
        libblur::AnisotropicRadius::new(radius),
        libblur::ThreadingPolicy::Adaptive,
    ).is_ok()
}

/// Whether an RGB buffer of `width` by `height` pixels can be blurred into a
/// background: [`blur_accepts`], with the width and the pixel count within
/// `u32` as libblur computes them.
pub open spec fn background_fits(width: u32, height: u32) -> bool {
    width * 3 <= u32::MAX && width * height <= u32::MAX && blur_accepts(width, height)
}

/// The background made of an RGB buffer of `width` by `height` pixels (its first
/// three bytes per pixel), blurred with the background's radius: `Some` with the
/// same width and height exactly when [`background_fits`]. The blurred bytes are
/// libblur's, which depend on the processor.
pub fn blur_pixels(pixels: Vec<u8>, width: u32, height: u32) -> (r: Option<(Vec<u8>, u32, u32)>)
    requires
        pixels@.len() >= width * height * 3,
    ensures
        r is Some <==> background_fits(width, height),
        r matches Some((p, w, h)) ==> w == width && h == height && p@.len() == w * h * 3,
{
    if width == 0 || height == 0 || width > u32::MAX / 3 {
        return None;
    }
    let w = width as u64;
    let h = height as u64;
    assert(w * h <= 0xffff_ffff * 0xffff_ffff) by (nonlinear_arith)
        requires
            w <= 0xffff_ffff,
            h <= 0xffff_ffff,
    ;
    let area = w * h;
    if area > u32::MAX as u64 || area as u128 * 3 > isize::MAX as u128 {
        return None;
    }
    let length = match pixel_bytes(width, height, 3, pixels.len()) {
        Some(n) => n,
        None => {
            assert(false);
            return None;
        },
    };
    let mut pixels = pixels;
    pixels.truncate(length);
    if !blur_rgb(&mut pixels, width, height, COVER_BLUR_RADIUS) {
        return None;
    }
    Some((pixels, width, height))
}

/// The blurred background of an encoded cover image: the image scaled and cropped
/// by the image crate to a square of [`COVER_BACKGROUND_SIZE`] pixels a side, as
/// RGB pixels (three bytes each) blurred by libblur, with the width and height.
/// `None` when the bytes do not decode or decode to an empty image.
pub fn blurred_background(encoded: &[u8]) -> (r: Option<(Vec<u8>, u32, u32)>)
    ensures
        !image_decodes(encoded@) ==> r is None,
        decoded_size(encoded@) matches Some((w, h)) && (w == 0 || h == 0) ==> r is None,
        decoded_size(encoded@) matches Some((w, h)) && fills_square(w, h, COVER_BACKGROUND_SIZE)
            ==> (r matches Some((_, width, height)) && width == COVER_BACKGROUND_SIZE && height
            == COVER_BACKGROUND_SIZE),
        r matches Some((pixels, width, height)) ==> pixels@.len() == width * height * 3,
{
    let decoded = match decode_image(encoded) {
        Some(picture) => picture,
        None => return None,
    };
    if decoded.width == 0 || decoded.height == 0 {
        return None;
    }
    let square = fill_square(&decoded, COVER_BACKGROUND_SIZE);
    let (pixels, width, height) = rgb_pixels(&square);
    assert(background_fits(COVER_BACKGROUND_SIZE, COVER_BACKGROUND_SIZE));
    blur_pixels(pixels, width, height)
}

} // verus!
