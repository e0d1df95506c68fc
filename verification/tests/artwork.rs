use tagtiger::artwork::{
    decode, dimensions, encode_png, kept_format, most_in_a_block, normalize_for_cover,
    sums_fit_in_32_bits, thumbnail, ArtworkFormat, DecodedImage, MAX_COVER_DIMENSION,
};
use tagtiger::error::Error;

/// A picture of one color, encoded.
fn encoded(w: u32, h: u32, format: image::ImageFormat) -> Vec<u8> {
    let img = image::RgbImage::from_pixel(w, h, image::Rgb([10, 20, 30]));
    let mut out = std::io::Cursor::new(Vec::new());
    image::DynamicImage::ImageRgb8(img).write_to(&mut out, format).unwrap();
    out.into_inner()
}

fn png(w: u32, h: u32) -> Vec<u8> {
    let img = image::RgbaImage::from_pixel(w, h, image::Rgba([10, 20, 30, 255]));
    let mut out = std::io::Cursor::new(Vec::new());
    image::DynamicImage::ImageRgba8(img).write_to(&mut out, image::ImageFormat::Png).unwrap();
    out.into_inner()
}

#[test]
fn clamps_tall_image_to_max_dimension() {
    let (w, h) = dimensions(&normalize_for_cover(&png(800, 2000)).unwrap().bytes).unwrap();
    assert!(w <= MAX_COVER_DIMENSION && h <= MAX_COVER_DIMENSION, "{w}x{h}");
    assert_eq!(h, MAX_COVER_DIMENSION);
    assert_eq!(w, 400);
}

#[test]
fn clamps_wide_image_to_max_dimension() {
    let (w, h) = dimensions(&normalize_for_cover(&png(2000, 800)).unwrap().bytes).unwrap();
    assert!(w <= MAX_COVER_DIMENSION && h <= MAX_COVER_DIMENSION, "{w}x{h}");
    assert_eq!(w, MAX_COVER_DIMENSION);
    assert_eq!(h, 400);
}

#[test]
fn passes_through_small_image() {
    let (w, h) = dimensions(&normalize_for_cover(&png(600, 900)).unwrap().bytes).unwrap();
    assert_eq!((w, h), (600, 900));
}

#[test]
fn small_covers_are_kept_byte_for_byte() {
    let bytes = png(60, 90);
    let cover = normalize_for_cover(&bytes).unwrap();
    assert_eq!(cover.format, ArtworkFormat::Png);
    assert_eq!(cover.bytes, bytes);
    let bytes = encoded(60, 90, image::ImageFormat::Jpeg);
    let cover = normalize_for_cover(&bytes).unwrap();
    assert_eq!(cover.format, ArtworkFormat::Jpeg);
    assert_eq!(cover.bytes, bytes);
}

#[test]
fn other_formats_become_jpeg() {
    let bytes = encoded(60, 90, image::ImageFormat::Bmp);
    let cover = normalize_for_cover(&bytes).unwrap();
    assert_eq!(cover.format, ArtworkFormat::Jpeg);
    assert_ne!(cover.bytes, bytes);
    assert_eq!(dimensions(&cover.bytes).unwrap(), (60, 90));
    assert_eq!(&cover.bytes[..3], &[0xff, 0xd8, 0xff]);
}

#[test]
fn only_small_covers_are_kept() {
    let png = Some(ArtworkFormat::Png);
    assert_eq!(kept_format(png, Some((1000, 1000))), png);
    assert_eq!(kept_format(png, Some((1001, 10))), None);
    assert_eq!(kept_format(png, None), None);
    assert_eq!(kept_format(None, Some((10, 10))), None);
}

#[test]
fn pictures_decode_to_pixels() {
    let d = decode(&png(3, 2)).unwrap();
    assert_eq!((d.width, d.height), (3, 2));
    assert_eq!(d.rgba.len(), 24);
    assert_eq!(&d.rgba[..4], &[10, 20, 30, 255]);
}

#[test]
fn thumbnails_fit_their_square() {
    let t = thumbnail(&png(400, 100), 200).unwrap();
    assert_eq!((t.width, t.height), (200, 50));
    assert_eq!(t.rgba.len(), 200 * 50 * 4);
}

/// A white picture of one channel with 16 bits.
fn deep_grey(w: u32, h: u32) -> Vec<u8> {
    let img = image::ImageBuffer::from_pixel(w, h, image::Luma([0xffffu16]));
    let mut out = std::io::Cursor::new(Vec::new());
    image::DynamicImage::ImageLuma16(img).write_to(&mut out, image::ImageFormat::Png).unwrap();
    out.into_inner()
}

/// A picture of four channels with 16 bits, all of them the same.
fn deep_color(w: u32, h: u32, sample: u16) -> Vec<u8> {
    let img = image::ImageBuffer::from_pixel(w, h, image::Rgba([sample; 4]));
    let mut out = std::io::Cursor::new(Vec::new());
    image::DynamicImage::ImageRgba16(img).write_to(&mut out, image::ImageFormat::Png).unwrap();
    out.into_inner()
}

#[test]
fn blocks_are_as_large_as_their_ratio() {
    assert_eq!(most_in_a_block((400, 100), 200), 4);
    assert_eq!(most_in_a_block((100, 100), 200), 1);
    assert_eq!(most_in_a_block((1000, 1000), 1), 1_000_000);
    assert_eq!(most_in_a_block((10_000_000, 1), 200), 50_000);
    assert_eq!(most_in_a_block((50_000, 262), 200), 65_500);
    assert_eq!(most_in_a_block((50_000, 300), 200), 75_000);
    assert_eq!(most_in_a_block((50_000, 400), 200), 50_000);
    assert_eq!(most_in_a_block((0, 50_000), 1), 0);
    assert_eq!(most_in_a_block((7, 3), 0), 21);
}

#[test]
fn sums_are_taken_in_32_bits() {
    assert!(sums_fit_in_32_bits(65_536, 0xffff));
    assert!(!sums_fit_in_32_bits(65_537, 0xffff));
    assert!(sums_fit_in_32_bits(16_810_048, 0xff));
    assert!(!sums_fit_in_32_bits(16_810_049, 0xff));
    assert!(sums_fit_in_32_bits(0xffff_ffff, 0));
    assert!(!sums_fit_in_32_bits(0x1_0000_0000, 0));
}

#[test]
fn pixels_that_cannot_be_averaged_are_an_error() {
    // 8 bits a sample: a million samples can be summed.
    let t = thumbnail(&png(1000, 1000), 1).unwrap();
    assert_eq!((t.width, t.height), (1, 1));
    assert_eq!(t.rgba, vec![10, 20, 30, 255]);
    // 16 bits a sample: 65536 samples can be summed, and 90000 cannot.
    let t = thumbnail(&deep_grey(256, 256), 1).unwrap();
    assert_eq!(t.rgba, vec![255, 255, 255, 255]);
    assert!(matches!(thumbnail(&deep_grey(300, 300), 1), Err(Error::Image(_))));
    // Unless none of them is large.
    let t = thumbnail(&deep_color(300, 300, 257), 1).unwrap();
    assert_eq!(t.rgba, vec![1, 1, 1, 1]);
    assert!(matches!(thumbnail(&deep_color(300, 300, 0xffff), 1), Err(Error::Image(_))));
    // A long row is no square.
    let t = thumbnail(&deep_grey(1_000_000, 1), 200).unwrap();
    assert_eq!((t.width, t.height), (200, 1));
}

#[test]
fn what_is_no_picture_is_an_error() {
    assert!(matches!(decode(b"nothing"), Err(Error::Image(_))));
    assert!(matches!(thumbnail(b"nothing", 10), Err(Error::Image(_))));
    assert!(matches!(dimensions(b"nothing"), Err(Error::Image(_))));
    assert!(matches!(normalize_for_cover(b"nothing"), Err(Error::Image(_))));
}

#[test]
fn pixels_encode_as_png() {
    let rgba: Vec<u8> = vec![1, 2, 3, 255, 4, 5, 6, 255];
    let bytes = encode_png(DecodedImage { width: 2, height: 1, rgba: rgba.clone() }).unwrap();
    assert_eq!(decode(&bytes).unwrap().rgba, rgba);
    assert!(encode_png(DecodedImage { width: 2, height: 1, rgba: vec![0; 7] }).is_none());
}

#[test]
fn a_cover_stays_as_it_is() {
    for (w, h) in [(3000, 1001), (20, 30), (1, 2500)] {
        let cover = normalize_for_cover(&png(w, h)).unwrap();
        let again = normalize_for_cover(&cover.bytes).unwrap();
        assert_eq!(again.format, cover.format);
        assert_eq!(again.bytes, cover.bytes);
    }
    let narrow = normalize_for_cover(&png(1, 2500)).unwrap();
    assert_eq!(dimensions(&narrow.bytes).unwrap(), (1, 1000));
}
