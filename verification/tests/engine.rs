use std::io::Cursor;

use dxtr_imgs::engine::{
    develop_preview, extract_best_embedded_jpeg, keep_larger_preview, load_embedded_preview,
    preview_from_raster_attempt, DevelopedImage, ImageEngineError,
};
use image::codecs::jpeg::JpegEncoder;
use image::{ExtendedColorType, ImageEncoder, Rgb, RgbImage, Rgba, RgbaImage};

fn encode_test_jpeg(source: &RgbImage) -> Vec<u8> {
    let mut jpeg = Vec::new();
    JpegEncoder::new_with_quality(&mut jpeg, 95)
        .write_image(
            source.as_raw(),
            source.width(),
            source.height(),
            ExtendedColorType::Rgb8,
        )
        .expect("test JPEG should encode");
    jpeg
}

fn encode_test_png(source: &RgbaImage) -> Vec<u8> {
    let mut png = Vec::new();
    source
        .write_to(&mut Cursor::new(&mut png), image::ImageFormat::Png)
        .expect("test PNG should save");
    png
}

fn image_of(width: u32, height: u32) -> DevelopedImage {
    DevelopedImage { width, height, data: vec![0; (width * height * 4) as usize] }
}

#[test]
fn raster_preview_returns_owned_rgba() {
    let mut source = RgbaImage::new(2, 1);
    source.put_pixel(0, 0, Rgba([10, 20, 30, 255]));
    source.put_pixel(1, 0, Rgba([40, 50, 60, 255]));
    let png = encode_test_png(&source);

    let developed = develop_preview(&png, "png").expect("PNG should decode");

    assert_eq!((developed.width, developed.height), (2, 1));
    assert!(developed.has_valid_rgba_len());
    assert_eq!(&developed.data[0..4], &[10, 20, 30, 255]);
}

#[test]
fn raw_container_falls_back_to_embedded_jpeg() {
    let source = RgbImage::from_pixel(3, 2, Rgb([120, 90, 60]));
    let jpeg = encode_test_jpeg(&source);

    let mut container = b"synthetic-raw-prefix".to_vec();
    container.extend_from_slice(&jpeg);
    container.extend_from_slice(b"synthetic-raw-suffix");

    let developed = develop_preview(&container, "raw").expect("embedded JPEG should decode");

    assert_eq!((developed.width, developed.height), (3, 2));
    assert!(developed.has_valid_rgba_len());
}

#[test]
fn embedded_jpeg_scanner_skips_nested_thumbnail_eoi() {
    let outer = RgbImage::from_pixel(4, 3, Rgb([120, 90, 60]));
    let outer_jpeg = encode_test_jpeg(&outer);
    let thumbnail = RgbImage::from_pixel(1, 1, Rgb([10, 20, 30]));
    let thumbnail_jpeg = encode_test_jpeg(&thumbnail);

    let comment_length = u16::try_from(thumbnail_jpeg.len() + 2)
        .expect("thumbnail JPEG should fit in a JPEG comment segment");
    let mut nested = Vec::new();
    nested.extend_from_slice(&outer_jpeg[..2]);
    nested.extend_from_slice(&[0xff, 0xfe]);
    nested.extend_from_slice(&comment_length.to_be_bytes());
    nested.extend_from_slice(&thumbnail_jpeg);
    nested.extend_from_slice(&outer_jpeg[2..]);

    let preview = extract_best_embedded_jpeg(&nested).expect("outer JPEG should decode");
    assert_eq!((preview.width, preview.height), (4, 3));
}

#[test]
fn scanner_picks_the_largest_embedded_jpeg() {
    let small = encode_test_jpeg(&RgbImage::from_pixel(2, 2, Rgb([1, 2, 3])));
    let large = encode_test_jpeg(&RgbImage::from_pixel(6, 5, Rgb([4, 5, 6])));
    let mut container = b"header".to_vec();
    container.extend_from_slice(&small);
    container.extend_from_slice(b"gap");
    container.extend_from_slice(&large);
    container.extend_from_slice(b"gap");
    container.extend_from_slice(&small);

    let preview = extract_best_embedded_jpeg(&container).expect("embedded JPEGs should decode");
    assert_eq!((preview.width, preview.height), (6, 5));
    assert_eq!(preview.data.len(), 6 * 5 * 4);
}

#[test]
fn scanner_without_start_marker_reports_it() {
    let message = extract_best_embedded_jpeg(b"no markers here").unwrap_err();
    assert_eq!(message, "no embedded JPEG start marker found");
}

#[test]
fn scanner_with_undecodable_markers_reports_it() {
    let message = extract_best_embedded_jpeg(&[0x00, 0xff, 0xd8, 0x01, 0xff, 0xd9]).unwrap_err();
    assert_eq!(message, "embedded JPEG markers found, but none decoded");
}

#[test]
fn undecodable_source_is_an_unsupported_preview() {
    match load_embedded_preview(b"plain text, not an image", "txt") {
        Err(ImageEngineError::UnsupportedPreview(message)) => {
            assert_eq!(message, "no embedded JPEG start marker found")
        }
        other => panic!("unexpected result: {:?}", other),
    }
}

#[test]
fn raster_decoding_orients_and_converts_to_rgba() {
    let jpeg = encode_test_jpeg(&RgbImage::from_pixel(5, 3, Rgb([200, 100, 50])));
    let preview = load_embedded_preview(&jpeg, "jpg").expect("JPEG should decode");
    assert_eq!((preview.width, preview.height), (5, 3));
    assert!(preview.has_valid_rgba_len());
    assert_eq!(preview.data[3], 255);
}

#[test]
fn decoded_raster_is_kept() {
    let raster = image_of(2, 2);
    let kept = preview_from_raster_attempt(Some(raster.clone()), b"ignored").expect("raster kept");
    assert_eq!(kept, raster);
}

#[test]
fn failed_raster_falls_back_to_scan() {
    let jpeg = encode_test_jpeg(&RgbImage::from_pixel(3, 4, Rgb([9, 9, 9])));
    let preview = preview_from_raster_attempt(None, &jpeg).expect("scan should find the JPEG");
    assert_eq!((preview.width, preview.height), (3, 4));
}

#[test]
fn larger_candidate_replaces_best() {
    let kept = keep_larger_preview(Some(image_of(2, 2)), image_of(3, 2));
    assert_eq!((kept.width, kept.height), (3, 2));
}

#[test]
fn equal_or_smaller_candidate_keeps_best() {
    let kept = keep_larger_preview(Some(image_of(2, 3)), image_of(3, 2));
    assert_eq!((kept.width, kept.height), (2, 3));
    let kept = keep_larger_preview(Some(image_of(4, 4)), image_of(1, 1));
    assert_eq!((kept.width, kept.height), (4, 4));
}

#[test]
fn first_candidate_becomes_best() {
    let kept = keep_larger_preview(None, image_of(1, 1));
    assert_eq!((kept.width, kept.height), (1, 1));
}

#[test]
fn expected_rgba_len_multiplies_pixels_by_four() {
    let image = DevelopedImage { width: 3, height: 2, data: vec![0; 24] };
    assert_eq!(image.expected_rgba_len(), Some(24));
    assert!(image.has_valid_rgba_len());
}

#[test]
fn expected_rgba_len_of_empty_image_is_zero() {
    let image = DevelopedImage { width: 0, height: 7, data: Vec::new() };
    assert_eq!(image.expected_rgba_len(), Some(0));
    assert!(image.has_valid_rgba_len());
}

#[test]
fn mismatched_buffer_is_invalid() {
    let image = DevelopedImage { width: 3, height: 2, data: vec![0; 23] };
    assert!(!image.has_valid_rgba_len());
}

#[test]
fn overflowing_size_has_no_expected_len() {
    let image = DevelopedImage { width: u32::MAX, height: u32::MAX, data: Vec::new() };
    if usize::BITS == 64 {
        assert_eq!(image.expected_rgba_len(), None);
    }
    assert!(!image.has_valid_rgba_len());
}

#[test]
fn sixteen_bit_raster_develops_to_exact_rgba8() {
    let source = image::ImageBuffer::<Rgba<u16>, Vec<u16>>::from_pixel(3, 2, Rgba([65535, 0, 32768, 65535]));
    let mut png = Vec::new();
    image::DynamicImage::ImageRgba16(source)
        .write_to(&mut Cursor::new(&mut png), image::ImageFormat::Png)
        .expect("test PNG should save");
    let developed = develop_preview(&png, "png").expect("PNG should decode");
    assert_eq!((developed.width, developed.height), (3, 2));
    assert_eq!(developed.data.len(), 3 * 2 * 4);
    assert!(developed.has_valid_rgba_len());
    assert_eq!(&developed.data[0..4], &[255, 0, 128, 255]);
}

#[test]
fn marker_free_padding_leaves_the_scan_unchanged() {
    let jpeg = encode_test_jpeg(&RgbImage::from_pixel(4, 2, Rgb([30, 60, 90])));
    let mut padded = b"leading bytes".to_vec();
    padded.extend_from_slice(&jpeg);
    padded.extend_from_slice(b"trailing bytes");
    assert_eq!(
        extract_best_embedded_jpeg(&padded).expect("padded JPEG"),
        extract_best_embedded_jpeg(&jpeg).expect("bare JPEG")
    );

    let undecodable = [0xff, 0xd8, 0x00, 0xff, 0xd9];
    let mut padded = b"abc".to_vec();
    padded.extend_from_slice(&undecodable);
    padded.extend_from_slice(b"xyz");
    assert_eq!(
        extract_best_embedded_jpeg(&padded).unwrap_err(),
        extract_best_embedded_jpeg(&undecodable).unwrap_err()
    );
}
