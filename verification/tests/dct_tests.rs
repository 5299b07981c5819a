use hayro_syntax::dct::{decode, infer_output, retry_target, ycck_to_cmyk, JpegColorSpace};

/// A 1x1 baseline grayscale JPEG with flat quantization, one DC code and
/// an AC end-of-block code; its single sample decodes to 128.
fn gray_jpeg() -> Vec<u8> {
    let mut j: Vec<u8> = vec![0xFF, 0xD8];
    j.extend_from_slice(&[0xFF, 0xDB, 0x00, 0x43, 0x00]);
    j.extend_from_slice(&[1u8; 64]);
    j.extend_from_slice(&[
        0xFF, 0xC0, 0x00, 0x0B, 0x08, 0x00, 0x01, 0x00, 0x01, 0x01, 0x01, 0x11, 0x00,
    ]);
    j.extend_from_slice(&[0xFF, 0xC4, 0x00, 0x14, 0x00, 0x01]);
    j.extend_from_slice(&[0u8; 15]);
    j.push(0x00);
    j.extend_from_slice(&[0xFF, 0xC4, 0x00, 0x14, 0x10, 0x01]);
    j.extend_from_slice(&[0u8; 15]);
    j.push(0x00);
    j.extend_from_slice(&[0xFF, 0xDA, 0x00, 0x08, 0x01, 0x01, 0x00, 0x00, 0x3F, 0x00]);
    j.push(0x3F);
    j.extend_from_slice(&[0xFF, 0xD9]);
    j
}

/// A 1x1 baseline YCbCr JPEG whose luma and Cb samples decode to 128 and
/// whose Cr sample decodes to 129; `sos_tables` selects the entropy tables
/// of each scan component.
fn color_jpeg(sos_tables: u8) -> Vec<u8> {
    let mut j: Vec<u8> = vec![0xFF, 0xD8];
    j.extend_from_slice(&[0xFF, 0xDB, 0x00, 0x43, 0x00]);
    j.extend_from_slice(&[1u8; 64]);
    j.extend_from_slice(&[
        0xFF, 0xC0, 0x00, 0x11, 0x08, 0x00, 0x01, 0x00, 0x01, 0x03, 0x01, 0x11, 0x00, 0x02, 0x11,
        0x00, 0x03, 0x11, 0x00,
    ]);
    // DC table 0: one code of length one (category 0), one of length two
    // (category 4).
    j.extend_from_slice(&[0xFF, 0xC4, 0x00, 0x15, 0x00, 0x01, 0x01]);
    j.extend_from_slice(&[0u8; 14]);
    j.extend_from_slice(&[0x00, 0x04]);
    // AC table 0: a single end-of-block code.
    j.extend_from_slice(&[0xFF, 0xC4, 0x00, 0x14, 0x10, 0x01]);
    j.extend_from_slice(&[0u8; 15]);
    j.push(0x00);
    j.extend_from_slice(&[
        0xFF, 0xDA, 0x00, 0x0C, 0x03, 0x01, sos_tables, 0x02, sos_tables, 0x03, sos_tables, 0x00,
        0x3F, 0x00,
    ]);
    // Y: DC 0, EOB; Cb: DC 0, EOB; Cr: DC diff 8 (code `10`, bits `1000`),
    // EOB; padded with ones.
    j.extend_from_slice(&[0x0A, 0x1F]);
    j.extend_from_slice(&[0xFF, 0xD9]);
    j
}

#[test]
fn ycbcr_without_flag_infers_rgb_and_with_zero_stays_ycbcr() {
    assert_eq!(infer_output(JpegColorSpace::YCbCr, None), JpegColorSpace::Rgb);
    assert_eq!(infer_output(JpegColorSpace::YCbCr, Some(1)), JpegColorSpace::Rgb);
    assert_eq!(infer_output(JpegColorSpace::YCbCr, Some(0)), JpegColorSpace::YCbCr);
}

#[test]
fn alpha_is_dropped_and_unknown_inputs_default_to_rgb() {
    assert_eq!(infer_output(JpegColorSpace::Rgb, None), JpegColorSpace::Rgb);
    assert_eq!(infer_output(JpegColorSpace::Rgba, None), JpegColorSpace::Rgb);
    assert_eq!(infer_output(JpegColorSpace::Luma, Some(1)), JpegColorSpace::Luma);
    assert_eq!(infer_output(JpegColorSpace::LumaA, None), JpegColorSpace::Luma);
    assert_eq!(infer_output(JpegColorSpace::Cmyk, None), JpegColorSpace::Cmyk);
    assert_eq!(infer_output(JpegColorSpace::Ycck, None), JpegColorSpace::Ycck);
    assert_eq!(infer_output(JpegColorSpace::Other, None), JpegColorSpace::Rgb);
}

#[test]
fn retry_flips_between_cmyk_like_and_rgb() {
    assert_eq!(retry_target(JpegColorSpace::Ycck), JpegColorSpace::Rgb);
    assert_eq!(retry_target(JpegColorSpace::Cmyk), JpegColorSpace::Rgb);
    assert_eq!(retry_target(JpegColorSpace::Rgb), JpegColorSpace::Cmyk);
    assert_eq!(retry_target(JpegColorSpace::Luma), JpegColorSpace::Cmyk);
    assert_eq!(retry_target(JpegColorSpace::YCbCr), JpegColorSpace::Cmyk);
}

#[test]
fn ycck_pixel_transforms_to_the_exact_truncated_values() {
    let mut v: Vec<u8> = vec![0, 0, 0, 255];
    ycck_to_cmyk(&mut v);
    assert_eq!(v, vec![178, 119, 225, 255]);
}

#[test]
fn ycck_transform_walks_groups_and_keeps_ragged_tails() {
    let mut v: Vec<u8> = vec![0, 0, 0, 255, 255, 0, 0, 0, 9, 9];
    ycck_to_cmyk(&mut v);
    // second pixel: y = 255 shifts every channel by -255000 before
    // truncation; the tail bytes pass through.
    assert_eq!(v, vec![178, 119, 225, 255, 179, 121, 226, 0, 9, 9]);

    let mut w: Vec<u8> = vec![1, 2, 3];
    ycck_to_cmyk(&mut w);
    assert_eq!(w, vec![1, 2, 3]);
}

#[test]
fn garbage_bytes_fail_to_decode() {
    assert_eq!(decode(b"not a jpeg at all", None), None);
    assert_eq!(decode(b"", Some(1)), None);
}

#[test]
fn a_grayscale_stream_decodes_to_luma() {
    let j = gray_jpeg();
    let out = decode(&j, None);
    assert_eq!(out, Some(vec![128]));
}

#[test]
fn the_transform_flag_decides_between_rgb_and_raw_ycbcr() {
    let j = color_jpeg(0x00);
    let raw = decode(&j, Some(0)).expect("raw YCbCr decode");
    assert_eq!(raw, vec![128, 128, 129]);

    let rgb = decode(&j, None).expect("RGB decode");
    assert_eq!(rgb.len(), 3);
    assert_ne!(rgb, raw);
}

#[test]
fn a_stream_that_fails_both_attempts_yields_nothing() {
    // headers parse, but the scan selects an entropy table that was never
    // defined, so the inferred-target decode and the retry both fail.
    let j = color_jpeg(0x30);
    assert_eq!(decode(&j, None), None);
}
