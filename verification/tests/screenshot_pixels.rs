use std::io::Read;

use victauri::frame::{
    blank_frame_reason, both_engines_failed, client_area_crop, convert_bgra_frame,
    wgc_fallback_reason,
};
use victauri::png::{adler32, assemble_png, encode_png, png_crc32, raw_scanlines};

#[test]
fn png_signature_correct() {
    let rgba = vec![255, 0, 0, 255]; // 1x1 red pixel
    let png = encode_png(1, 1, &rgba).unwrap();
    assert_eq!(&png[0..8], &[137, 80, 78, 71, 13, 10, 26, 10]);
}

#[test]
fn png_ihdr_chunk_present() {
    let rgba = vec![0u8; 4]; // 1x1 black pixel
    let png = encode_png(1, 1, &rgba).unwrap();
    assert_eq!(&png[12..16], b"IHDR");
}

#[test]
fn png_iend_chunk_present() {
    let rgba = vec![0u8; 4];
    let png = encode_png(1, 1, &rgba).unwrap();
    let len = png.len();
    assert_eq!(&png[len - 8..len - 4], b"IEND");
}

#[test]
fn png_2x2_produces_valid_output() {
    let rgba = vec![
        255, 0, 0, 255, // red
        0, 255, 0, 255, // green
        0, 0, 255, 255, // blue
        255, 255, 255, 255, // white
    ];
    let png = encode_png(2, 2, &rgba).unwrap();
    assert!(png.len() > 50);
    assert_eq!(&png[0..8], &[137, 80, 78, 71, 13, 10, 26, 10]);
}

#[test]
fn adler32_empty() {
    assert_eq!(adler32(&[]), 1);
}

#[test]
fn adler32_known_value() {
    assert_eq!(adler32(b"Wikipedia"), 0x11E60398);
}

#[test]
fn crc32_known_value() {
    assert_eq!(png_crc32(b"IEND"), 0xAE426082);
}

#[test]
fn encode_png_large_image() {
    let rgba = vec![128u8; 100 * 100 * 4];
    let png = encode_png(100, 100, &rgba).unwrap();
    assert!(png.len() > 100);
    assert_eq!(&png[0..8], &[137, 80, 78, 71, 13, 10, 26, 10]);
}

fn be32(b: &[u8]) -> usize {
    u32::from_be_bytes([b[0], b[1], b[2], b[3]]) as usize
}

#[test]
fn idat_holds_zlib_of_unfiltered_scanlines() {
    let rgba = vec![
        1, 2, 3, 4, 5, 6, 7, 8, //
        9, 10, 11, 12, 13, 14, 15, 16,
    ];
    let png = encode_png(2, 2, &rgba).unwrap();
    // signature (8) + IHDR chunk (4 + 4 + 13 + 4 = 25) → IDAT starts at 33.
    assert_eq!(&png[37..41], b"IDAT");
    let n = be32(&png[33..37]);
    let data = &png[41..41 + n];
    assert_eq!(data[0], 0x78, "zlib header");
    let mut inflated = Vec::new();
    flate2::read::ZlibDecoder::new(data).read_to_end(&mut inflated).unwrap();
    let mut expected = vec![0u8];
    expected.extend_from_slice(&rgba[0..8]);
    expected.push(0);
    expected.extend_from_slice(&rgba[8..16]);
    assert_eq!(inflated, expected);
    // The chunk CRC covers the type and the data.
    let crc = be32(&png[41 + n..45 + n]) as u32;
    assert_eq!(crc, png_crc32(&png[37..41 + n]));
}

#[test]
fn ihdr_fields_are_big_endian_rgba8() {
    let png = encode_png(3, 2, &[0u8; 24]).unwrap();
    assert_eq!(be32(&png[8..12]), 13);
    assert_eq!(be32(&png[16..20]), 3);
    assert_eq!(be32(&png[20..24]), 2);
    assert_eq!(&png[24..29], &[8, 6, 0, 0, 0]);
}

#[test]
fn adler32_of_abc() {
    // a = 1 + 97 + 98 + 99 = 295; b = 98 + 196 + 295 = 589.
    assert_eq!(adler32(b"abc"), (589 << 16) | 295);
}

#[test]
fn uniform_white_reads_as_blank() {
    let px = vec![0xFFu8; 4 * 16];
    assert_eq!(blank_frame_reason(&px), Some("blank white"));
}

#[test]
fn uniform_zero_reads_as_blank() {
    let px = vec![0x00u8; 4 * 16];
    assert_eq!(blank_frame_reason(&px), Some("blank (empty)"));
}

#[test]
fn varied_content_is_not_blank() {
    let mut px = vec![0xFFu8; 4 * 16];
    px[20] = 0x10;
    assert_eq!(blank_frame_reason(&px), None);
}

#[test]
fn uniform_grey_is_not_blank() {
    let px = vec![0x80u8; 4 * 16];
    assert_eq!(blank_frame_reason(&px), None);
}

#[test]
fn alpha_noise_ignored_for_white() {
    let mut px = vec![0xFFu8; 4 * 4];
    px[3] = 0x00;
    px[7] = 0x12;
    assert_eq!(blank_frame_reason(&px), Some("blank white"));
}

/// Build a BGRA frame where each pixel encodes its own (col, row) so a
/// crop's provenance is checkable: B=col, G=row, R=0xAB, A=0xFF.
fn synthetic_bgra(frame_w: u32, frame_h: u32, row_pitch: usize) -> Vec<u8> {
    let mut data = vec![0xEEu8; row_pitch * frame_h as usize];
    for row in 0..frame_h {
        for col in 0..frame_w {
            let o = row as usize * row_pitch + col as usize * 4;
            data[o] = col as u8;
            data[o + 1] = row as u8;
            data[o + 2] = 0xAB;
            data[o + 3] = 0xFF;
        }
    }
    data
}

#[test]
fn convert_swaps_bgra_to_rgba_and_skips_row_pitch_padding() {
    let data = synthetic_bgra(4, 2, 32);
    let (rgba, w, h) = convert_bgra_frame(&data, 32, 4, 2, (0, 0, 4, 2)).unwrap();
    assert_eq!((w, h), (4, 2));
    assert_eq!(rgba.len(), 4 * 2 * 4);
    let px = &rgba[(4 + 2) * 4..(4 + 2) * 4 + 4];
    assert_eq!(px, &[0xAB, 1, 2, 0xFF]);
    assert!(!rgba.contains(&0xEE));
}

#[test]
fn convert_crops_client_area_out_of_full_window_frame() {
    let data = synthetic_bgra(8, 8, 8 * 4);
    let (rgba, w, h) = convert_bgra_frame(&data, 8 * 4, 8, 8, (2, 1, 4, 3)).unwrap();
    assert_eq!((w, h), (4, 3));
    assert_eq!(&rgba[0..4], &[0xAB, 1, 2, 0xFF]);
    let last = &rgba[rgba.len() - 4..];
    assert_eq!(last, &[0xAB, 3, 5, 0xFF]);
}

#[test]
fn convert_clamps_oversized_crop_to_frame_bounds() {
    let data = synthetic_bgra(4, 4, 4 * 4);
    let (rgba, w, h) = convert_bgra_frame(&data, 4 * 4, 4, 4, (1, 1, 10, 10)).unwrap();
    assert_eq!((w, h), (3, 3));
    assert_eq!(rgba.len(), 3 * 3 * 4);
}

#[test]
fn convert_rejects_zero_area_and_out_of_frame_crops() {
    let data = synthetic_bgra(4, 4, 4 * 4);
    assert!(convert_bgra_frame(&data, 4 * 4, 4, 4, (0, 0, 0, 4)).is_err());
    assert!(convert_bgra_frame(&data, 4 * 4, 4, 4, (4, 0, 1, 1)).is_err());
    assert!(convert_bgra_frame(&data, 4 * 4, 4, 4, (0, 4, 1, 1)).is_err());
}

#[test]
fn convert_rejects_undersized_buffer() {
    let data = vec![0u8; 4 * 4 * 3];
    assert!(convert_bgra_frame(&data, 4 * 4, 4, 4, (0, 0, 4, 4)).is_err());
}

#[test]
fn convert_unpremultiplies_partial_alpha() {
    let data = vec![0u8, 0, 64, 128];
    let (rgba, _, _) = convert_bgra_frame(&data, 4, 1, 1, (0, 0, 1, 1)).unwrap();
    assert_eq!(rgba[3], 128);
    assert_eq!(rgba[0], 128);
    let data = vec![10u8, 20, 30, 255];
    let (rgba, _, _) = convert_bgra_frame(&data, 4, 1, 1, (0, 0, 1, 1)).unwrap();
    assert_eq!(&rgba[..], &[30, 20, 10, 255]);
    let data = vec![0u8, 0, 0, 0];
    let (rgba, _, _) = convert_bgra_frame(&data, 4, 1, 1, (0, 0, 1, 1)).unwrap();
    assert_eq!(&rgba[..], &[0, 0, 0, 0]);
}

#[test]
fn swapping_twice_restores_the_pixels() {
    let before = vec![1u8, 2, 3, 4, 5, 6, 7, 8, 9];
    let mut px = before.clone();
    victauri::frame::swap_red_blue(&mut px);
    assert_eq!(px, vec![3, 2, 1, 4, 7, 6, 5, 8, 9]);
    victauri::frame::swap_red_blue(&mut px);
    assert_eq!(px, before);
}

#[test]
fn unpremultiply_keeps_opaque_and_transparent_pixels() {
    let mut px = vec![10u8, 20, 30, 255, 0, 0, 0, 0, 64, 32, 16, 128];
    victauri::frame::unpremultiply_in_place(&mut px);
    assert_eq!(&px[0..8], &[10, 20, 30, 255, 0, 0, 0, 0]);
    // (64 * 255 + 64) / 128 = 128; (32 * 255 + 64) / 128 = 64; (16 * 255 + 64) / 128 = 32.
    assert_eq!(&px[8..12], &[128, 64, 32, 128]);
}

#[test]
fn x11_pixels_convert_by_depth() {
    let data = [1u8, 2, 3, 4, 5, 6, 7, 8];
    assert_eq!(victauri::frame::x11_pixels_to_rgba(&data, 32), Ok(vec![3, 2, 1, 4, 7, 6, 5, 8]));
    assert_eq!(victauri::frame::x11_pixels_to_rgba(&data, 24), Ok(vec![3, 2, 1, 255, 7, 6, 5, 255]));
    assert_eq!(victauri::frame::x11_pixels_to_rgba(&data, 16), Err(16));
}

#[test]
fn client_area_is_cropped_out_of_the_window_frame() {
    // Window at (100, 50); client origin at (108, 81); client 640x480.
    assert_eq!(client_area_crop(100, 50, 108, 81, 640, 480), Some((8, 31, 640, 480)));
    // A client origin left of or above the window clamps to 0.
    assert_eq!(client_area_crop(100, 50, 90, 40, 10, 10), Some((0, 0, 10, 10)));
    assert_eq!(client_area_crop(0, 0, 0, 0, 0, 480), None);
    assert_eq!(client_area_crop(0, 0, 0, 0, 640, -1), None);
}

#[test]
fn assembled_png_wraps_the_given_stream() {
    let png = assemble_png(2, 1, &[9, 8, 7]).unwrap();
    let mut expected: Vec<u8> = vec![137, 80, 78, 71, 13, 10, 26, 10];
    let chunk = |kind: &[u8], data: &[u8], out: &mut Vec<u8>| {
        out.extend_from_slice(&(data.len() as u32).to_be_bytes());
        out.extend_from_slice(kind);
        out.extend_from_slice(data);
        let mut covered = kind.to_vec();
        covered.extend_from_slice(data);
        out.extend_from_slice(&png_crc32(&covered).to_be_bytes());
    };
    chunk(b"IHDR", &[0, 0, 0, 2, 0, 0, 0, 1, 8, 6, 0, 0, 0], &mut expected);
    chunk(b"IDAT", &[9, 8, 7], &mut expected);
    chunk(b"IEND", &[], &mut expected);
    assert_eq!(png, expected);
    assert_eq!(raw_scanlines(&[1, 2, 3, 4, 5], 2), vec![0, 1, 2, 0, 3, 4]);
}

#[test]
fn wgc_frame_kept_unless_blank_or_failed() {
    let varied: Result<Vec<u8>, String> = Ok(vec![1, 2, 3, 255, 9, 9, 9, 255]);
    assert_eq!(wgc_fallback_reason(&varied), None);
    let white: Result<Vec<u8>, String> = Ok(vec![0xFF; 4 * 4]);
    assert_eq!(
        wgc_fallback_reason(&white).as_deref(),
        Some("WGC returned a uniform blank frame")
    );
    let failed: Result<Vec<u8>, String> = Err("no frame arrived".to_string());
    assert_eq!(wgc_fallback_reason(&failed).as_deref(), Some("no frame arrived"));
}

#[test]
fn both_engines_failing_joins_the_errors() {
    assert_eq!(
        both_engines_failed("window capture is blank white", "no frame arrived"),
        "window capture is blank white (Windows.Graphics.Capture was tried first: no frame arrived)"
    );
}

#[test]
fn encode_png_one_pixel_succeeds() {
    for rgba in [[255u8, 0, 0, 255], [0u8, 0, 0, 0]] {
        let png = encode_png(1, 1, &rgba).unwrap();
        assert_eq!(&png[0..8], &[137, 80, 78, 71, 13, 10, 26, 10]);
        assert_eq!(&png[12..16], b"IHDR");
        assert_eq!(&png[png.len() - 8..png.len() - 4], b"IEND");
    }
}
