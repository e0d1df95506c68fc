//! Pictures: decoding them for display, and making covers of them.

use crate::error::{Error, Result};
use image::{GenericImageView, ImageError, ImageFormat, ImageReader};
use std::io::Cursor;
use vstd::prelude::*;

verus! {

/// image's `ImageError`.
#[verifier::external_type_specification]
#[verifier::external_body]
pub struct ExImageError(image::ImageError);

/// A picture as pixels: four bytes each, red, green, blue and opacity, row by row.
#[derive(Debug)]
pub struct DecodedImage {
    pub width: u32,
    pub height: u32,
    pub rgba: Vec<u8>,
}

/// A picture as pixels, in mathematical terms.
pub struct PixelsView {
    pub width: u32,
    pub height: u32,
    pub rgba: Seq<u8>,
}

impl View for DecodedImage {
    type V = PixelsView;

    open spec fn view(&self) -> PixelsView {
        PixelsView { width: self.width, height: self.height, rgba: self.rgba@ }
    }
}

/// A picture as it is kept in a file, in one of the two formats that covers may have.
#[derive(Debug)]
pub struct EncodedArtwork {
    pub format: ArtworkFormat,
    pub bytes: Vec<u8>,
}

/// A picture as it is kept in a file, in mathematical terms.
pub struct EncodedView {
    pub format: ArtworkFormat,
    pub bytes: Seq<u8>,
}

impl View for EncodedArtwork {
    type V = EncodedView;

    open spec fn view(&self) -> EncodedView {
        EncodedView { format: self.format, bytes: self.bytes@ }
    }
}

/// The formats that covers may have.
#[derive(Clone, Copy, Debug, PartialEq, Eq, Structural)]
pub enum ArtworkFormat {
    Jpeg,
    Png,
}

/// The widest and the highest that a cover may be, in pixels.
pub const MAX_COVER_DIMENSION: u32 = 1000;

/// The largest bounding square for which a thumbnail is made: its pixels, of up to 16 bytes each,
/// can be allocated where addresses have 32 bits.
pub const MAX_THUMBNAIL_SIDE: u32 = 11585;

/// Whether the bytes begin with the signature of PNG.
pub open spec fn begins_as_png(b: Seq<u8>) -> bool {
    b.len() >= 8 && b[0] == 0x89 && b[1] == 0x50 && b[2] == 0x4e && b[3] == 0x47 && b[4] == 0x0d
        && b[5] == 0x0a && b[6] == 0x1a && b[7] == 0x0a
}

/// Whether the bytes begin with the signature of JPEG.
pub open spec fn begins_as_jpeg(b: Seq<u8>) -> bool {
    b.len() >= 3 && b[0] == 0xff && b[1] == 0xd8 && b[2] == 0xff
}

/// The cover format that the bytes begin as.
pub open spec fn cover_format(b: Seq<u8>) -> Option<ArtworkFormat> {
    if begins_as_png(b) {
        Some(ArtworkFormat::Png)
    } else if begins_as_jpeg(b) {
        Some(ArtworkFormat::Jpeg)
    } else {
        None
    }
}

/// Whether `d` is `part` scaled by `side` over `whole`, to the nearest pixel; one pixel at least.
pub open spec fn in_proportion(d: int, part: int, side: int, whole: int) -> bool {
    ||| -whole <= 2 * (d * whole - side * part) <= whole
    ||| d == 1 && 2 * (side * part) < whole
}

/// Whether `out` is the size of a picture of this size that was scaled to fit a square: its longer
/// side fills the square, and the other is in proportion.
pub open spec fn fitted(size: (u32, u32), side: u32, out: (u32, u32)) -> bool {
    let (w, h) = size;
    &&& out.0 <= side && out.1 <= side
    &&& if w >= h {
        out.0 == side && in_proportion(out.1 as int, h as int, side as int, w as int)
    } else {
        out.1 == side && in_proportion(out.0 as int, w as int, side as int, h as int)
    }
}

/// How many pixels a picture's side has once the picture is scaled to fit a square, where `whole`
/// is its longer side: the nearest number in proportion, the lower one of two, and one at least.
pub open spec fn scaled_side(part: u32, whole: u32, side: u32) -> int {
    let scaled = (2 * (part as int * side as int) + whole - 1) / (2 * whole as int);
    if scaled < 1 {
        1
    } else {
        scaled
    }
}

/// Whether a side in proportion is just between two numbers of pixels, of which either may be taken.
pub open spec fn between_two(part: u32, whole: u32, side: u32) -> bool {
    2 * (part as int * side as int) % (2 * whole as int) == whole
}

/// Whether single precision, in which the places of a thumbnail's pixels are worked out, holds them
/// so well that they are rounded as they should be, where `from` pixels are scaled to `to`.
pub open spec fn places_hold(from: u32, to: int) -> bool {
    ||| from as int % to == 0 && from <= 0x100_0000
    ||| from as int * (to + 1) < 0xff_0000
}

/// At most how many pixels in a row go into one pixel of a thumbnail, along one side of a picture
/// whose longer side is `whole`: the ratio of the side to the scaled one, rounded up, and what
/// single precision adds.
pub open spec fn block_side(part: u32, whole: u32, side: u32) -> int {
    let to = scaled_side(part, whole, side);
    let ratio = (part as int + to - 1) / to;
    let most = if places_hold(part, to) && !between_two(part, whole, side) {
        ratio
    } else {
        ratio + part as int / 0x80_0000 + 1
    };
    if most < part {
        most
    } else {
        part as int
    }
}

/// At most how many pixels go into one pixel of a thumbnail that fits a square.
pub open spec fn block_pixels(size: (u32, u32), side: u32) -> int {
    let (w, h) = size;
    let whole = if w >= h {
        w
    } else {
        h
    };
    if w == 0 || h == 0 {
        0
    } else {
        block_side(w, whole, side) * block_side(h, whole, side)
    }
}

/// Whether so many samples, none above `top`, and half their number can be summed in 32 bits.
pub open spec fn sums_fit(pixels: int, top: int) -> bool {
    pixels <= 0xffff_ffff && pixels * top + pixels / 2 <= 0xffff_ffff
}

/// The largest of some samples of 8 bits; 0 where there are none.
pub open spec fn largest_byte(samples: Seq<u8>) -> int
    decreases samples.len(),
{
    if samples.len() == 0 {
        0
    } else {
        let before = largest_byte(samples.drop_last());
        if samples.last() > before {
            samples.last() as int
        } else {
            before
        }
    }
}

/// The largest of some samples of 16 bits; 0 where there are none.
pub open spec fn largest_word(samples: Seq<u16>) -> int
    decreases samples.len(),
{
    if samples.len() == 0 {
        0
    } else {
        let before = largest_word(samples.drop_last());
        if samples.last() > before {
            samples.last() as int
        } else {
            before
        }
    }
}

/// The largest sample that is summed in 32 bits when a picture is averaged, by the bytes of a pixel
/// and its channels. A channel that is missing counts as full, so only where there are all four
/// does it depend on the pixels. Samples of four bytes are not summed in 32 bits.
pub open spec fn top_sample(
    color: (u8, u8),
    pixels: Option<PixelsView>,
    deep: Option<Seq<u16>>,
) -> Option<int> {
    let (bytes, channels) = color;
    if bytes as int == 4 * channels {
        Some(0)
    } else if bytes == channels {
        if channels < 4 {
            Some(0xff)
        } else {
            match pixels {
                Some(p) => Some(largest_byte(p.rgba)),
                None => None,
            }
        }
    } else if channels < 4 {
        Some(0xffff)
    } else {
        match deep {
            Some(samples) => Some(largest_word(samples)),
            None => None,
        }
    }
}

/// The largest sample that is summed in 32 bits when an encoded picture is averaged.
pub open spec fn top_sample_of(bytes: Seq<u8>) -> Option<int> {
    match loaded_color(bytes) {
        Some(color) => top_sample(color, pixels_of(bytes), deep_pixels_of(bytes)),
        None => None,
    }
}

/// Whether the pixels that go into one pixel of an encoded picture's thumbnail can be averaged:
/// there are so few that they can whatever they are, or they can be as they are.
pub open spec fn can_average(bytes: Seq<u8>, size: (u32, u32), side: u32) -> bool {
    ||| block_pixels(size, side) <= 0x1_0000
    ||| top_sample_of(bytes) matches Some(top) && sums_fit(block_pixels(size, side), top)
}

/// The width and the height that image's `ImageReader` reads from the header of an encoded
/// picture, if it can.
pub uninterp spec fn picture_size(bytes: Seq<u8>) -> Option<(u32, u32)>;

/// The width and the height of the picture that image's `load_from_memory` decodes, if it can.
pub uninterp spec fn loaded_size(bytes: Seq<u8>) -> Option<(u32, u32)>;

/// The bytes of a pixel and its channels, in the color type of the picture that image's
/// `load_from_memory` decodes, if it can.
pub uninterp spec fn loaded_color(bytes: Seq<u8>) -> Option<(u8, u8)>;

/// The pixels that image's `load_from_memory` and `to_rgba8` give, if the picture can be decoded.
pub uninterp spec fn pixels_of(bytes: Seq<u8>) -> Option<PixelsView>;

/// The samples of 16 bits that image's `load_from_memory` and `to_rgba16` give, four for each pixel,
/// if the picture can be decoded.
pub uninterp spec fn deep_pixels_of(bytes: Seq<u8>) -> Option<Seq<u16>>;

/// The pixels that image's `thumbnail` gives for a bounding square, if the picture can be decoded.
pub uninterp spec fn thumbnail_of(bytes: Seq<u8>, max_side: u32) -> Option<PixelsView>;

/// The picture that image's `write_to` encodes as JPEG, if it can be decoded and encoded.
pub uninterp spec fn jpeg_of(bytes: Seq<u8>) -> Option<Seq<u8>>;

/// Whether `made` may be what image's `resize` with a Lanczos filter and `write_to` with JPEG make
/// of an encoded picture, for a bounding square.
pub uninterp spec fn shrunk(bytes: Seq<u8>, side: u32, made: Seq<u8>) -> bool;

/// The picture that image's `write_to` encodes as PNG from pixels, if it can.
pub uninterp spec fn png_of(width: u32, height: u32, rgba: Seq<u8>) -> Option<Seq<u8>>;

/// `Display` of image's `ImageError`: some sentence.
#[verifier::external_body]
fn image_error_text(e: &ImageError) -> (r: String) {
    e.to_string()
}

/// `guess_format` of image: what the first bytes say, here among the two formats of covers.
/// Signatures are compared in a fixed order, PNG first and JPEG second.
#[verifier::external_body]
fn guess_cover_format(bytes: &[u8]) -> (r: Option<ArtworkFormat>)
    ensures
        r == cover_format(bytes@),
{
    match image::guess_format(bytes) {
        Ok(ImageFormat::Png) => Some(ArtworkFormat::Png),
        Ok(ImageFormat::Jpeg) => Some(ArtworkFormat::Jpeg),
        _ => None,
    }
}

/// `ImageReader::into_dimensions` of image, on a reader that has guessed the format: the size in
/// the header.
#[verifier::external_body]
fn read_size(bytes: &[u8]) -> (r: std::result::Result<(u32, u32), ImageError>)
    ensures
        r matches Ok(size) ==> picture_size(bytes@) == Some(size),
        r is Err ==> picture_size(bytes@) is None,
{
    ImageReader::new(Cursor::new(bytes)).with_guessed_format()?.into_dimensions()
}

/// `load_from_memory` of image, and the size of what it decodes.
#[verifier::external_body]
fn load_size(bytes: &[u8]) -> (r: std::result::Result<(u32, u32), ImageError>)
    ensures
        r matches Ok(size) ==> loaded_size(bytes@) == Some(size),
        r is Err ==> loaded_size(bytes@) is None,
{
    image::load_from_memory(bytes).map(|img| img.dimensions())
}

/// `DynamicImage::color` of image, on what `load_from_memory` decodes: how many bytes a pixel has,
/// and how many channels.
#[verifier::external_body]
fn load_color(bytes: &[u8]) -> (r: std::result::Result<(u8, u8), ImageError>)
    ensures
        r matches Ok(color) ==> loaded_color(bytes@) == Some(color),
        r is Err ==> loaded_color(bytes@) is None,
{
    let color = image::load_from_memory(bytes)?.color();
    Ok((color.bytes_per_pixel(), color.channel_count()))
}

/// `DynamicImage::to_rgba8` of image, on what `load_from_memory` decodes: four bytes for each
/// pixel.
#[verifier::external_body]
fn load_pixels(bytes: &[u8]) -> (r: std::result::Result<DecodedImage, ImageError>)
    ensures
        r matches Ok(p) ==> pixels_of(bytes@) == Some(p@) && p@.rgba.len() == 4 * p.width
            * p.height,
        r is Err ==> pixels_of(bytes@) is None,
{
    let rgba = image::load_from_memory(bytes)?.to_rgba8();
    Ok(DecodedImage { width: rgba.width(), height: rgba.height(), rgba: rgba.into_raw() })
}

/// `DynamicImage::to_rgba16` of image, on what `load_from_memory` decodes: the samples of its
/// pixels, with 16 bits each.
#[verifier::external_body]
fn load_deep_pixels(bytes: &[u8]) -> (r: std::result::Result<Vec<u16>, ImageError>)
    ensures
        r matches Ok(samples) ==> deep_pixels_of(bytes@) == Some(samples@),
        r is Err ==> deep_pixels_of(bytes@) is None,
{
    Ok(image::load_from_memory(bytes)?.to_rgba16().into_raw())
}

/// `DynamicImage::thumbnail` of image, on what `load_from_memory` decodes: the picture scaled to
/// the largest size that fits the square, four bytes for each pixel. The samples of the pixels that
/// go into one pixel of the thumbnail are summed in 32 bits, so these pixels may not be too many.
#[verifier::external_body]
fn load_thumbnail(bytes: &[u8], max_side: u32) -> (r: std::result::Result<DecodedImage, ImageError>)
    requires
        max_side <= MAX_THUMBNAIL_SIDE,
        loaded_size(bytes@) matches Some(size) ==> can_average(bytes@, size, max_side),
    ensures
        r matches Ok(p) ==> thumbnail_of(bytes@, max_side) == Some(p@) && p@.rgba.len() == 4
            * p.width * p.height && (max_side >= 1 ==> p.width <= max_side && p.height <= max_side),
        r is Err ==> thumbnail_of(bytes@, max_side) is None,
{
    let rgba = image::load_from_memory(bytes)?.thumbnail(max_side, max_side).to_rgba8();
    Ok(DecodedImage { width: rgba.width(), height: rgba.height(), rgba: rgba.into_raw() })
}

/// `DynamicImage::write_to` of image with JPEG, on what `load_from_memory` decodes: the encoded
/// picture has the size of the decoded one, and begins with the signature of JPEG. JPEG takes sizes
/// from one pixel to 65535 either way.
#[verifier::external_body]
fn encode_jpeg(bytes: &[u8]) -> (r: std::result::Result<Vec<u8>, ImageError>)
    ensures
        r matches Ok(b) ==> jpeg_of(bytes@) == Some(b@) && picture_size(b@) == loaded_size(bytes@)
            && begins_as_jpeg(b@),
        r is Err ==> jpeg_of(bytes@) is None,
        r is Ok <==> (loaded_size(bytes@) matches Some((w, h)) && 1 <= w <= 0xffff && 1 <= h
            <= 0xffff),
{
    let mut out = Cursor::new(Vec::new());
    image::load_from_memory(bytes)?.write_to(&mut out, ImageFormat::Jpeg)?;
    Ok(out.into_inner())
}

/// `DynamicImage::resize` of image with a Lanczos filter, on what `load_from_memory` decodes,
/// encoded as JPEG: the picture scaled to the largest size that fits the square, with its
/// proportions kept. What is encoded begins with the signature of JPEG. The filter takes sines,
/// which differ from machine to machine in their last digits, so a picture may be shrunk in more
/// than one way, and nothing is said of the pixels.
#[verifier::external_body]
fn shrink_to_jpeg(bytes: &[u8], side: u32) -> (r: std::result::Result<Vec<u8>, ImageError>)
    requires
        1 <= side <= MAX_THUMBNAIL_SIDE,
    ensures
        r is Ok <==> loaded_size(bytes@) is Some,
        r matches Ok(b) ==> shrunk(bytes@, side, b@),
        r matches Ok(b) ==> begins_as_jpeg(b@),
        r matches Ok(b) ==> (picture_size(b@) matches Some(size) && (loaded_size(bytes@)
            matches Some(loaded) ==> loaded.0 > 0 || loaded.1 > 0 ==> fitted(loaded, side, size))),
{
    let mut out = Cursor::new(Vec::new());
    let scaled = image::load_from_memory(bytes)?.resize(side, side, image::imageops::Lanczos3);
    scaled.write_to(&mut out, ImageFormat::Jpeg)?;
    Ok(out.into_inner())
}

/// `ImageBuffer::from_raw` of image, which takes pixels of which there are as many as the size asks
/// for, and `DynamicImage::write_to` with PNG. What is written depends on the size and the pixels
/// alone.
#[verifier::external_body]
fn write_png(width: u32, height: u32, rgba: Vec<u8>) -> (r: Option<Vec<u8>>)
    requires
        rgba@.len() == 4 * width * height,
    ensures
        r matches Some(b) ==> png_of(width, height, rgba@) == Some(b@),
        r is None ==> png_of(width, height, rgba@) is None,
{
    let mut out = Cursor::new(Vec::new());
    let pixels = image::RgbaImage::from_raw(width, height, rgba)?;
    image::DynamicImage::ImageRgba8(pixels).write_to(&mut out, ImageFormat::Png).ok()?;
    Some(out.into_inner())
}

/// The pixels of an encoded picture; an error where it cannot be decoded.
pub fn decode(bytes: &[u8]) -> (r: Result<DecodedImage>)
    ensures
        match pixels_of(bytes@) {
            Some(p) => r matches Ok(d) && d@ == p && d@.rgba.len() == 4 * d.width * d.height,
            None => r matches Err(Error::Image(_)),
        },
{
    match load_pixels(bytes) {
        Ok(d) => Ok(d),
        Err(e) => Err(Error::Image(image_error_text(&e))),
    }
}

/// At most how many pixels in a row go into one pixel of a thumbnail, along one side of a picture
/// whose longer side is `whole`.
fn most_in_a_row(part: u32, whole: u32, side: u32) -> (r: u128)
    requires
        0 < part <= whole,
        side <= MAX_THUMBNAIL_SIDE,
    ensures
        r == block_side(part, whole, side),
        r <= 0xffff_ffff,
{
    assert(0 <= part as int * side as int <= whole as int * side as int <= 0xffff_ffff * 11585)
        by (nonlinear_arith)
        requires
            0 <= part <= whole <= 0xffff_ffff,
            0 <= side <= 11585,
    ;
    let from: u128 = part as u128;
    let twice: u128 = 2 * (from * side as u128);
    let both: u128 = 2 * whole as u128;
    let scaled: u128 = (twice + whole as u128 - 1) / both;
    assert(scaled <= side + 1) by (nonlinear_arith)
        requires
            scaled == (twice as int + whole - 1) / both as int,
            twice as int <= 2 * (whole as int * side as int),
            both == 2 * whole,
            0 < whole,
            0 <= twice,
    ;
    let to: u128 = if scaled < 1 {
        1
    } else {
        scaled
    };
    assert(0 <= from * (to + 1) <= 0xffff_ffff * 11587) by (nonlinear_arith)
        requires
            0 <= from <= 0xffff_ffff,
            1 <= to <= 11586,
    ;
    let ratio: u128 = (from + to - 1) / to;
    assert(ratio <= 0x2_0000_0000) by (nonlinear_arith)
        requires
            ratio == (from as int + to as int - 1) / to as int,
            from <= 0xffff_ffff,
            1 <= to <= 11586,
    ;
    let hold = (from % to == 0 && from <= 0x100_0000) || from * (to + 1) < 0xff_0000;
    let most: u128 = if hold && twice % both != whole as u128 {
        ratio
    } else {
        ratio + from / 0x80_0000 + 1
    };
    if most < from {
        most
    } else {
        from
    }
}

/// At most how many pixels go into one pixel of a thumbnail that fits a square.
pub fn most_in_a_block(size: (u32, u32), side: u32) -> (r: u128)
    requires
        side <= MAX_THUMBNAIL_SIDE,
    ensures
        r == block_pixels(size, side),
        r <= 0xffff_ffff * 0xffff_ffff,
{
    let (w, h) = size;
    if w == 0 || h == 0 {
        return 0;
    }
    let whole: u32 = if w >= h {
        w
    } else {
        h
    };
    let across = most_in_a_row(w, whole, side);
    let down = most_in_a_row(h, whole, side);
    assert(0 <= across * down <= 0xffff_ffff * 0xffff_ffff) by (nonlinear_arith)
        requires
            0 <= across <= 0xffff_ffff,
            0 <= down <= 0xffff_ffff,
    ;
    across * down
}

/// Whether so many samples, none above `top`, can be averaged in 32 bits.
pub fn sums_fit_in_32_bits(pixels: u128, top: u16) -> (r: bool)
    ensures
        r == sums_fit(pixels as int, top as int),
{
    if pixels > 0xffff_ffff {
        return false;
    }
    assert(0 <= pixels * top <= 0xffff_ffff * 0xffff) by (nonlinear_arith)
        requires
            0 <= pixels <= 0xffff_ffff,
            0 <= top <= 0xffff,
    ;
    pixels * top as u128 + pixels / 2 <= 0xffff_ffff
}

/// The largest of some samples of 8 bits.
fn find_largest_byte(samples: &Vec<u8>) -> (r: u8)
    ensures
        r == largest_byte(samples@),
{
    let mut top: u8 = 0;
    let mut i: usize = 0;
    while i < samples.len()
        invariant
            i <= samples@.len(),
            top == largest_byte(samples@.take(i as int)),
        decreases samples@.len() - i,
    {
        assert(samples@.take(i + 1).drop_last() =~= samples@.take(i as int));
        if samples[i] > top {
            top = samples[i];
        }
        i += 1;
    }
    assert(samples@.take(i as int) =~= samples@);
    top
}

/// The largest of some samples of 16 bits.
fn find_largest_word(samples: &Vec<u16>) -> (r: u16)
    ensures
        r == largest_word(samples@),
{
    let mut top: u16 = 0;
    let mut i: usize = 0;
    while i < samples.len()
        invariant
            i <= samples@.len(),
            top == largest_word(samples@.take(i as int)),
        decreases samples@.len() - i,
    {
        assert(samples@.take(i + 1).drop_last() =~= samples@.take(i as int));
        if samples[i] > top {
            top = samples[i];
        }
        i += 1;
    }
    assert(samples@.take(i as int) =~= samples@);
    top
}

/// The largest sample that is summed in 32 bits when an encoded picture is averaged, if it can be
/// decoded.
fn find_top_sample(bytes: &[u8]) -> (r: Option<u16>)
    ensures
        match r {
            Some(top) => top_sample_of(bytes@) == Some(top as int),
            None => top_sample_of(bytes@) is None,
        },
{
    let (size, channels) = match load_color(bytes) {
        Ok(color) => color,
        Err(_) => return None,
    };
    if size as u16 == 4 * channels as u16 {
        Some(0)
    } else if size == channels {
        if channels < 4 {
            Some(0xff)
        } else {
            match load_pixels(bytes) {
                Ok(p) => Some(find_largest_byte(&p.rgba) as u16),
                Err(_) => None,
            }
        }
    } else if channels < 4 {
        Some(0xffff)
    } else {
        match load_deep_pixels(bytes) {
            Ok(samples) => Some(find_largest_word(&samples)),
            Err(_) => None,
        }
    }
}

/// The thumbnail of an encoded picture that fits a square, if it can be decoded, and the pixels
/// that go into one pixel can be averaged.
pub open spec fn scaled_picture(bytes: Seq<u8>, max_side: u32) -> Option<PixelsView> {
    match loaded_size(bytes) {
        Some(size) => if can_average(bytes, size, max_side) {
            thumbnail_of(bytes, max_side)
        } else {
            None
        },
        None => None,
    }
}

/// The pixels of an encoded picture, scaled to fit a square; an error where it cannot be decoded,
/// or is too large for so small a square.
pub fn thumbnail(bytes: &[u8], max_side: u32) -> (r: Result<DecodedImage>)
    requires
        max_side <= MAX_THUMBNAIL_SIDE,
    ensures
        match scaled_picture(bytes@, max_side) {
            Some(p) => r matches Ok(d) && d@ == p && d@.rgba.len() == 4 * d.width * d.height && (
            max_side >= 1 ==> d.width <= max_side && d.height <= max_side),
            None => r matches Err(Error::Image(_)),
        },
{
    let size = match load_size(bytes) {
        Ok(size) => size,
        Err(e) => return Err(Error::Image(image_error_text(&e))),
    };
    let pixels = most_in_a_block(size, max_side);
    if pixels > 0x1_0000 {
        let fits = match find_top_sample(bytes) {
            Some(top) => sums_fit_in_32_bits(pixels, top),
            None => false,
        };
        if !fits {
            return Err(Error::Image("picture too large for a thumbnail".to_string()));
        }
    }
    match load_thumbnail(bytes, max_side) {
        Ok(d) => Ok(d),
        Err(e) => Err(Error::Image(image_error_text(&e))),
    }
}

/// The width and the height of an encoded picture; an error where its header cannot be read.
pub fn dimensions(bytes: &[u8]) -> (r: Result<(u32, u32)>)
    ensures
        match picture_size(bytes@) {
            Some(size) => r matches Ok(s) && s == size,
            None => r matches Err(Error::Image(_)),
        },
{
    match read_size(bytes) {
        Ok(size) => Ok(size),
        Err(e) => Err(Error::Image(image_error_text(&e))),
    }
}

/// A picture encoded as PNG; none where it has too few pixels for its size, or cannot be encoded.
pub fn encode_png(image: DecodedImage) -> (r: Option<Vec<u8>>)
    requires
        image@.rgba.len() <= 4 * image.width * image.height,
    ensures
        ({
            let p = image@;
            let whole = p.rgba.len() == 4 * p.width * p.height;
            match r {
                Some(b) => whole && png_of(p.width, p.height, p.rgba) == Some(b@),
                None => !whole || png_of(p.width, p.height, p.rgba) is None,
            }
        }),
{
    let DecodedImage { width, height, rgba } = image;
    assert(4 * width * height <= 4 * 0xffff_ffff * 0xffff_ffff) by (nonlinear_arith)
        requires
            width <= 0xffff_ffff,
            height <= 0xffff_ffff,
    ;
    let wanted: u128 = 4 * width as u128 * height as u128;
    if (rgba.len() as u128) < wanted {
        return None;
    }
    write_png(width, height, rgba)
}

/// Whether a size is within the limit of covers.
pub open spec fn within_limit(size: (u32, u32)) -> bool {
    size.0 <= MAX_COVER_DIMENSION && size.1 <= MAX_COVER_DIMENSION
}

/// What is done to make a cover of a picture.
#[derive(Clone, Copy, Debug, PartialEq, Eq, Structural)]
pub enum CoverStep {
    /// Its bytes are taken as they are.
    Keep(ArtworkFormat),
    /// It is encoded anew, as JPEG.
    Encode,
    /// It is scaled into the limit and encoded anew, as JPEG.
    Shrink,
    /// It cannot be decoded.
    Fail,
}

/// What is done to make a cover of a picture, from its format, the size in its header, and the
/// size it decodes to.
pub open spec fn cover_step(
    format: Option<ArtworkFormat>,
    header: Option<(u32, u32)>,
    loaded: Option<(u32, u32)>,
) -> CoverStep {
    let small = match header {
        Some(size) => within_limit(size),
        None => false,
    };
    match (small, format) {
        (true, Some(f)) => CoverStep::Keep(f),
        _ => match loaded {
            None => CoverStep::Fail,
            Some(size) => if within_limit(size) {
                CoverStep::Encode
            } else {
                CoverStep::Shrink
            },
        },
    }
}

/// The format in which a picture is taken as it is: its header says that it is within the limit,
/// and it is in a format that covers may have.
pub fn kept_format(format: Option<ArtworkFormat>, header: Option<(u32, u32)>) -> (r: Option<
    ArtworkFormat,
>)
    ensures
        r == (match header {
            Some(size) => if within_limit(size) {
                format
            } else {
                None
            },
            None => None,
        }),
{
    match header {
        Some((w, h)) => if w <= MAX_COVER_DIMENSION && h <= MAX_COVER_DIMENSION {
            format
        } else {
            None
        },
        None => None,
    }
}

/// Whether a size is that of a picture without pixels.
pub open spec fn has_no_pixels(size: Option<(u32, u32)>) -> bool {
    size matches Some((w, h)) && (w == 0 || h == 0)
}

/// Makes a cover of a picture. One within the size limit that is JPEG or PNG already is taken byte
/// for byte; any other is scaled into the limit where it is larger, keeping its proportions, and
/// encoded as JPEG. The cover is never larger than the limit.
pub fn normalize_for_cover(bytes: &[u8]) -> (r: Result<EncodedArtwork>)
    ensures
        match cover_step(cover_format(bytes@), picture_size(bytes@), loaded_size(bytes@)) {
            CoverStep::Keep(format) => r matches Ok(a) && a@ == (EncodedView {
                format,
                bytes: bytes@,
            }),
            CoverStep::Encode => match jpeg_of(bytes@) {
                Some(b) => r matches Ok(a) && a@ == (EncodedView {
                    format: ArtworkFormat::Jpeg,
                    bytes: b,
                }),
                None => r matches Err(Error::Image(_)) && has_no_pixels(loaded_size(bytes@)),
            },
            CoverStep::Shrink => r matches Ok(a) && a@.format == ArtworkFormat::Jpeg && shrunk(
                bytes@,
                MAX_COVER_DIMENSION,
                a@.bytes,
            ) && (loaded_size(bytes@) matches Some(loaded) && (picture_size(a@.bytes) matches Some(size)
                && fitted(loaded, MAX_COVER_DIMENSION, size))),
            CoverStep::Fail => r matches Err(Error::Image(_)),
        },
        r matches Ok(a) ==> (picture_size(a@.bytes) matches Some(size) && within_limit(size)),
        r matches Ok(a) ==> cover_format(a@.bytes) == Some(a@.format),
{
    let format = guess_cover_format(bytes);
    let header: Option<(u32, u32)> = match read_size(bytes) {
        Ok(size) => Some(size),
        Err(_) => None,
    };
    if let Some(f) = kept_format(format, header) {
        let mut copy: Vec<u8> = Vec::new();
        copy.extend_from_slice(bytes);
        assert(copy@ =~= bytes@);
        return Ok(EncodedArtwork { format: f, bytes: copy });
    }
    let (w, h) = match load_size(bytes) {
        Ok(size) => size,
        Err(e) => return Err(Error::Image(image_error_text(&e))),
    };
    let made = if w > MAX_COVER_DIMENSION || h > MAX_COVER_DIMENSION {
        shrink_to_jpeg(bytes, MAX_COVER_DIMENSION)
    } else {
        encode_jpeg(bytes)
    };
    match made {
        Ok(b) => Ok(EncodedArtwork { format: ArtworkFormat::Jpeg, bytes: b }),
        Err(e) => Err(Error::Image(image_error_text(&e))),
    }
}

/// Making a cover of a cover keeps it byte for byte: a picture that was made a cover is in one of
/// the formats of covers and within the size limit.
pub proof fn law_cover_stays_as_it_is(cover: EncodedView)
    requires
        cover_format(cover.bytes) == Some(cover.format),
        picture_size(cover.bytes) matches Some(size) && within_limit(size),
    ensures
        cover_step(cover_format(cover.bytes), picture_size(cover.bytes), loaded_size(cover.bytes))
            == CoverStep::Keep(cover.format),
{
}

/// A cover is known by how it begins: the eight bytes of a PNG file, else the three of a JPEG file.
pub proof fn law_covers_are_known_by_their_beginning(b: Seq<u8>)
    ensures
        (cover_format(b) == Some(ArtworkFormat::Png)) == (b.len() >= 8 && b.take(8) == seq![
            0x89u8,
            0x50u8,
            0x4eu8,
            0x47u8,
            0x0du8,
            0x0au8,
            0x1au8,
            0x0au8,
        ]),
        (cover_format(b) == Some(ArtworkFormat::Jpeg)) == (b.len() >= 3 && b.take(3) == seq![
            0xffu8,
            0xd8u8,
            0xffu8,
        ]),
{
    if b.len() >= 8 {
        let t = b.take(8);
        assert(t[0] == b[0] && t[1] == b[1] && t[2] == b[2] && t[3] == b[3]);
        assert(t[4] == b[4] && t[5] == b[5] && t[6] == b[6] && t[7] == b[7]);
        if begins_as_png(b) {
            assert(t =~= seq![0x89u8, 0x50u8, 0x4eu8, 0x47u8, 0x0du8, 0x0au8, 0x1au8, 0x0au8]);
        }
    }
    if b.len() >= 3 {
        let t = b.take(3);
        assert(t[0] == b[0] && t[1] == b[1] && t[2] == b[2]);
        if begins_as_jpeg(b) {
            assert(t =~= seq![0xffu8, 0xd8u8, 0xffu8]);
        }
    }
}

/// A cover stays as it is exactly where it is of a known kind and its header says that no side
/// exceeds a thousand. Any other is made anew from its picture: in its own size where that is
/// within the limit, else smaller; without a picture it fails.
pub proof fn law_large_covers_are_shrunk(
    format: Option<ArtworkFormat>,
    header: Option<(u32, u32)>,
    loaded: Option<(u32, u32)>,
)
    ensures
        ({
            let kept = format is Some && (header matches Some((w, h)) && w <= 1000 && h <= 1000);
            let step = cover_step(format, header, loaded);
            &&& kept ==> step == CoverStep::Keep(format.unwrap())
            &&& !kept && loaded is None ==> step == CoverStep::Fail
            &&& !kept ==> (loaded matches Some((w, h)) ==> step == (if w <= 1000 && h <= 1000 {
                CoverStep::Encode
            } else {
                CoverStep::Shrink
            }))
        }),
{
}

proof fn lemma_largest_byte(samples: Seq<u8>)
    ensures
        forall|i: int| 0 <= i < samples.len() ==> #[trigger] samples[i] <= largest_byte(samples),
        samples.len() > 0 ==> exists|i: int|
            0 <= i < samples.len() && #[trigger] samples[i] == largest_byte(samples),
    decreases samples.len(),
{
    if samples.len() > 0 {
        let init = samples.drop_last();
        lemma_largest_byte(init);
        assert(samples.last() == samples[samples.len() - 1]);
        assert forall|i: int| 0 <= i < samples.len() implies #[trigger] samples[i] <= largest_byte(
            samples,
        ) by {
            if i < init.len() {
                assert(samples[i] == init[i]);
            }
        }
        if samples.last() <= largest_byte(init) {
            if init.len() > 0 {
                let i = choose|i: int|
                    0 <= i < init.len() && #[trigger] init[i] == largest_byte(init);
                assert(samples[i] == largest_byte(samples));
            } else {
                assert(samples[0] == largest_byte(samples));
            }
        }
    }
}

proof fn lemma_largest_word(samples: Seq<u16>)
    ensures
        forall|i: int| 0 <= i < samples.len() ==> #[trigger] samples[i] <= largest_word(samples),
        samples.len() > 0 ==> exists|i: int|
            0 <= i < samples.len() && #[trigger] samples[i] == largest_word(samples),
    decreases samples.len(),
{
    if samples.len() > 0 {
        let init = samples.drop_last();
        lemma_largest_word(init);
        assert(samples.last() == samples[samples.len() - 1]);
        assert forall|i: int| 0 <= i < samples.len() implies #[trigger] samples[i] <= largest_word(
            samples,
        ) by {
            if i < init.len() {
                assert(samples[i] == init[i]);
            }
        }
        if samples.last() <= largest_word(init) {
            if init.len() > 0 {
                let i = choose|i: int|
                    0 <= i < init.len() && #[trigger] init[i] == largest_word(init);
                assert(samples[i] == largest_word(samples));
            } else {
                assert(samples[0] == largest_word(samples));
            }
        }
    }
}

/// The largest sample is one of the samples, and none is larger.
pub proof fn law_largest_sample_is_a_sample(bytes: Seq<u8>, words: Seq<u16>)
    ensures
        forall|i: int| 0 <= i < bytes.len() ==> #[trigger] bytes[i] <= largest_byte(bytes),
        bytes.len() > 0 ==> exists|i: int|
            0 <= i < bytes.len() && #[trigger] bytes[i] == largest_byte(bytes),
        forall|i: int| 0 <= i < words.len() ==> #[trigger] words[i] <= largest_word(words),
        words.len() > 0 ==> exists|i: int|
            0 <= i < words.len() && #[trigger] words[i] == largest_word(words),
{
    lemma_largest_byte(bytes);
    lemma_largest_word(words);
}

/// A sum of samples fits in 32 bits exactly where even the largest sample, taken for each pixel of
/// a block, and the half of the block that is added for rounding stay below two to the
/// thirty-second. Blocks of at most 65536 pixels always fit, for samples of up to sixteen bits.
pub proof fn law_sums_stay_within_their_bits(pixels: int, top: int)
    requires
        0 <= pixels,
        0 <= top,
    ensures
        sums_fit(pixels, top) == (pixels < 0x1_0000_0000 && pixels * top + pixels / 2
            < 0x1_0000_0000),
        pixels <= 0x1_0000 && top <= 0xffff ==> sums_fit(pixels, top),
{
    if pixels <= 0x1_0000 && top <= 0xffff {
        assert(pixels * top + pixels / 2 <= 0xffff_ffff) by (nonlinear_arith)
            requires
                0 <= pixels <= 0x1_0000,
                0 <= top <= 0xffff,
        ;
    }
}

} // verus!
