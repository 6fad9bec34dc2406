use base64::Engine;

use victauri::visual::{
    compare_decoded, compute_diff, decode_png, image_from_frame, mark_diff_pixels, screenshot_bytes,
    DecodedImage, MaskRegion, PngFrame, TestError, ThresholdPreset,
};

fn encode(width: u32, height: u32, color: png::ColorType, data: &[u8]) -> Vec<u8> {
    let mut buf = Vec::new();
    {
        let mut encoder = png::Encoder::new(&mut buf, width, height);
        encoder.set_color(color);
        encoder.set_depth(png::BitDepth::Eight);
        let mut writer = encoder.write_header().unwrap();
        writer.write_image_data(data).unwrap();
    }
    buf
}

fn solid(width: u32, height: u32, r: u8, g: u8, b: u8) -> DecodedImage {
    let mut rgba = Vec::new();
    for _ in 0..(width * height) {
        rgba.extend_from_slice(&[r, g, b, 255]);
    }
    DecodedImage { width, height, rgba }
}

#[test]
fn mask_region_new_and_contains() {
    let m = MaskRegion::new(2, 3, 4, 5);
    assert_eq!((m.x, m.y, m.width, m.height), (2, 3, 4, 5));
    assert!(m.contains(2, 3));
    assert!(m.contains(5, 7));
    assert!(!m.contains(6, 7));
    assert!(!m.contains(5, 8));
    assert!(!m.contains(1, 3));
}

#[test]
fn preset_tolerances() {
    assert_eq!(ThresholdPreset::Strict.channel_tolerance(), 0);
    assert_eq!(ThresholdPreset::Standard.channel_tolerance(), 2);
    assert_eq!(ThresholdPreset::AntiAlias.channel_tolerance(), 5);
    assert_eq!(ThresholdPreset::Relaxed.channel_tolerance(), 10);
}

#[test]
fn identical_decoded_images_have_no_diff() {
    let a = solid(10, 10, 128, 128, 128);
    let b = solid(10, 10, 128, 128, 128);
    let s = compare_decoded(&a, &b, 2, &[]).unwrap();
    assert_eq!(s.diff_pixel_count, 0);
    assert_eq!(s.total_pixels, 100);
    assert_eq!(s.masked_pixels, 0);
}

#[test]
fn tolerance_absorbs_small_channel_differences() {
    let a = solid(10, 10, 129, 128, 128);
    let b = solid(10, 10, 128, 128, 128);
    assert_eq!(compare_decoded(&a, &b, 2, &[]).unwrap().diff_pixel_count, 0);
    assert_eq!(compare_decoded(&a, &b, 0, &[]).unwrap().diff_pixel_count, 100);
}

#[test]
fn whole_image_mask_excludes_every_pixel() {
    let a = solid(10, 10, 255, 0, 0);
    let b = solid(10, 10, 128, 128, 128);
    let s = compare_decoded(&a, &b, 2, &[MaskRegion::new(0, 0, 10, 10)]).unwrap();
    assert_eq!(s.masked_pixels, 100);
    assert_eq!(s.diff_pixel_count, 0);
    assert_eq!(s.total_pixels, 0);
}

#[test]
fn partial_mask_counts_the_rest() {
    let a = solid(4, 4, 200, 200, 200);
    let b = solid(4, 4, 100, 100, 100);
    let s = compare_decoded(&a, &b, 0, &[MaskRegion::new(0, 0, 2, 2)]).unwrap();
    assert_eq!(s.masked_pixels, 4);
    assert_eq!(s.diff_pixel_count, 12);
    assert_eq!(s.total_pixels, 12);
    assert_eq!(s.diff_positions, vec![2, 3, 6, 7, 8, 9, 10, 11, 12, 13, 14, 15]);
}

#[test]
fn size_mismatch_is_reported() {
    let a = solid(10, 10, 1, 1, 1);
    let b = solid(5, 5, 1, 1, 1);
    match compare_decoded(&a, &b, 0, &[]) {
        Err(TestError::Other(m)) => assert_eq!(m, "screenshot size 10x10 doesn't match baseline 5x5"),
        other => panic!("expected a size error, got {other:?}"),
    }
}

#[test]
fn short_buffers_end_the_comparison() {
    let mut a = solid(2, 2, 9, 9, 9);
    a.rgba.truncate(9); // two whole pixels and a fragment
    let b = solid(2, 2, 0, 0, 0);
    let (diff, masked) = compute_diff(&a, &b, 0, &[]);
    assert_eq!(diff, vec![0, 1]);
    assert_eq!(masked, 0);
}

#[test]
fn rgb_png_decodes_to_opaque_rgba() {
    let png = encode(2, 1, png::ColorType::Rgb, &[200, 100, 50, 1, 2, 3]);
    let img = decode_png(&png).unwrap();
    assert_eq!((img.width, img.height), (2, 1));
    assert_eq!(img.rgba, vec![200, 100, 50, 255, 1, 2, 3, 255]);
}

#[test]
fn grayscale_png_decodes_to_grey_rgba() {
    let png = encode(3, 1, png::ColorType::Grayscale, &[128, 0, 7]);
    let img = decode_png(&png).unwrap();
    assert_eq!(img.rgba, vec![128, 128, 128, 255, 0, 0, 0, 255, 7, 7, 7, 255]);
}

#[test]
fn rgba_png_decodes_unchanged() {
    let data = [1, 2, 3, 4, 5, 6, 7, 8];
    let png = encode(1, 2, png::ColorType::Rgba, &data);
    let img = decode_png(&png).unwrap();
    assert_eq!((img.width, img.height), (1, 2));
    assert_eq!(img.rgba, data.to_vec());
}

#[test]
fn grey_alpha_png_is_refused() {
    let png = encode(1, 1, png::ColorType::GrayscaleAlpha, &[5, 6]);
    match decode_png(&png) {
        Err(TestError::Other(m)) => assert_eq!(m, "unsupported PNG color type: GrayscaleAlpha"),
        other => panic!("expected refusal, got {other:?}"),
    }
}

#[test]
fn garbage_is_a_decode_error() {
    match decode_png(b"definitely not a png") {
        Err(TestError::Other(m)) => assert!(m.starts_with("PNG decode error: "), "got {m}"),
        other => panic!("expected a decode error, got {other:?}"),
    }
}

#[test]
fn rgb_and_rgba_screenshots_compare_equal() {
    let rgb = encode(8, 8, png::ColorType::Rgb, &[200, 100, 50].repeat(64));
    let rgba = encode(8, 8, png::ColorType::Rgba, &[200, 100, 50, 255].repeat(64));
    let a = decode_png(&rgb).unwrap();
    let b = decode_png(&rgba).unwrap();
    let s = compare_decoded(&a, &b, 0, &[]).unwrap();
    assert_eq!(s.diff_pixel_count, 0);
}

#[test]
fn base64_screenshot_round_trips() {
    let png = encode(1, 1, png::ColorType::Rgba, &[1, 2, 3, 4]);
    let text = base64::engine::general_purpose::STANDARD.encode(&png);
    assert_eq!(screenshot_bytes(&text).unwrap(), png);
}

#[test]
fn bad_base64_is_reported() {
    match screenshot_bytes("!!!not base64!!!") {
        Err(TestError::Other(m)) => {
            assert!(m.starts_with("failed to decode base64 screenshot: "), "got {m}")
        }
        other => panic!("expected an error, got {other:?}"),
    }
}

#[test]
fn diff_image_paints_listed_pixels_red() {
    let source = vec![10u8; 4 * 3 + 2];
    let out = mark_diff_pixels(&source, &[1, 7]);
    let mut expected = source.clone();
    expected[4..8].copy_from_slice(&[255, 0, 0, 255]);
    assert_eq!(out, expected);
}

#[test]
fn frames_convert_by_colour_type() {
    let rgb = PngFrame { width: 1, height: 2, color_code: 2, samples: vec![1, 2, 3, 4, 5, 6, 7] };
    let img = image_from_frame(rgb).unwrap();
    assert_eq!((img.width, img.height), (1, 2));
    assert_eq!(img.rgba, vec![1, 2, 3, 255, 4, 5, 6, 255]);
    let gray = PngFrame { width: 2, height: 1, color_code: 0, samples: vec![3, 4] };
    assert_eq!(image_from_frame(gray).unwrap().rgba, vec![3, 3, 3, 255, 4, 4, 4, 255]);
    let rgba = PngFrame { width: 1, height: 1, color_code: 6, samples: vec![1, 2, 3, 4] };
    assert_eq!(image_from_frame(rgba).unwrap().rgba, vec![1, 2, 3, 4]);
    let indexed = PngFrame { width: 1, height: 1, color_code: 3, samples: vec![0] };
    match image_from_frame(indexed) {
        Err(TestError::Other(m)) => assert_eq!(m, "unsupported PNG color type: Indexed"),
        other => panic!("expected refusal, got {other:?}"),
    }
}
