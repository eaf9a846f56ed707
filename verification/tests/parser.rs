//! Whole-file parsing and the header.

use farbfeld::parser::decode_be_samples;
use farbfeld::{
    parse_farbfeld, peek_farbfeld_dimensions, FarbfeldError, FarbfeldHeader, BYTES_PER_PIXEL,
    HEADER_LEN,
};

#[test]
fn rejects_empty_input() {
    assert!(parse_farbfeld(&[]).is_err());
}

#[test]
fn rejects_short_header() {
    assert!(parse_farbfeld(b"farbfeld\x00\x00").is_err());
}

#[test]
fn rejects_wrong_magic() {
    let mut buf = [0u8; 16];
    buf[..8].copy_from_slice(b"FARBFELD");
    assert!(parse_farbfeld(&buf).is_err());
}

#[test]
fn rejects_truncated_body() {
    let mut buf = Vec::from(&b"farbfeld"[..]);
    buf.extend_from_slice(&1u32.to_be_bytes());
    buf.extend_from_slice(&1u32.to_be_bytes());
    buf.extend_from_slice(&[0u8; 4]);
    assert!(parse_farbfeld(&buf).is_err());
}

#[test]
fn rejects_oversized_body() {
    let mut buf = Vec::from(&b"farbfeld"[..]);
    buf.extend_from_slice(&1u32.to_be_bytes());
    buf.extend_from_slice(&1u32.to_be_bytes());
    buf.extend_from_slice(&[0u8; 16]);
    assert!(parse_farbfeld(&buf).is_err());
}

#[test]
fn parses_single_pixel() {
    let mut buf = Vec::from(&b"farbfeld"[..]);
    buf.extend_from_slice(&1u32.to_be_bytes());
    buf.extend_from_slice(&1u32.to_be_bytes());
    buf.extend_from_slice(&[0x12, 0x34, 0x56, 0x78, 0x9A, 0xBC, 0xDE, 0xF0]);
    let img = parse_farbfeld(&buf).unwrap();
    assert_eq!(img.width, 1);
    assert_eq!(img.height, 1);
    assert_eq!(img.pixels, [0x1234, 0x5678, 0x9ABC, 0xDEF0]);
}

#[test]
fn parses_zero_dimension() {
    let mut buf = Vec::from(&b"farbfeld"[..]);
    buf.extend_from_slice(&0u32.to_be_bytes());
    buf.extend_from_slice(&0u32.to_be_bytes());
    let img = parse_farbfeld(&buf).unwrap();
    assert_eq!(img.width, 0);
    assert_eq!(img.height, 0);
    assert!(img.pixels.is_empty());
}

#[test]
fn header_total_len_matches_header_plus_body() {
    let h = FarbfeldHeader {
        width: 3,
        height: 4,
        body_len: 96,
    };
    assert_eq!(h.total_len().unwrap(), HEADER_LEN + 96);
    assert_eq!(h.total_len().unwrap(), 112);
}

#[test]
fn header_total_len_handles_zero_dimension() {
    let h = FarbfeldHeader {
        width: 0,
        height: 0,
        body_len: 0,
    };
    assert_eq!(h.total_len().unwrap(), HEADER_LEN);
}

#[test]
fn header_total_len_reports_overflow_without_panicking() {
    let h = FarbfeldHeader {
        width: 0xFFFF_FFFF,
        height: 0xFFFF_FFFF,
        body_len: usize::MAX,
    };
    let err = h.total_len().unwrap_err();
    let FarbfeldError::InvalidData(s) = err;
    assert!(s.contains("overflow"), "msg = {s:?}");
}

#[test]
fn peek_farbfeld_dimensions_returns_same_as_parse_header() {
    let mut buf = Vec::from(&b"farbfeld"[..]);
    buf.extend_from_slice(&5u32.to_be_bytes());
    buf.extend_from_slice(&7u32.to_be_bytes());
    buf.extend_from_slice(&vec![0u8; 5 * 7 * BYTES_PER_PIXEL]);

    let h_full = peek_farbfeld_dimensions(&buf).unwrap();
    let h_prefix = peek_farbfeld_dimensions(&buf[..HEADER_LEN]).unwrap();
    assert_eq!(h_full, h_prefix);
    assert_eq!(h_full.width, 5);
    assert_eq!(h_full.height, 7);
    assert_eq!(h_full.body_len, 5 * 7 * BYTES_PER_PIXEL);
    assert_eq!(h_full.total_len().unwrap(), buf.len());
}

#[test]
fn peek_farbfeld_dimensions_rejects_short_buffer() {
    assert!(peek_farbfeld_dimensions(&[0u8; HEADER_LEN - 1]).is_err());
    assert!(peek_farbfeld_dimensions(&[]).is_err());
}

#[test]
fn peek_farbfeld_dimensions_rejects_wrong_magic() {
    let mut buf = [0u8; HEADER_LEN];
    buf[..8].copy_from_slice(b"farbFELD");
    assert!(peek_farbfeld_dimensions(&buf).is_err());
}

#[test]
fn peek_farbfeld_dimensions_accepts_body_announcing_header_only() {
    let mut buf = Vec::from(&b"farbfeld"[..]);
    buf.extend_from_slice(&0u32.to_be_bytes());
    buf.extend_from_slice(&0u32.to_be_bytes());
    let h = peek_farbfeld_dimensions(&buf).unwrap();
    assert_eq!(h.width, 0);
    assert_eq!(h.height, 0);
    assert_eq!(h.body_len, 0);
    assert_eq!(h.total_len().unwrap(), HEADER_LEN);
}

#[test]
fn peek_farbfeld_dimensions_does_not_validate_body_length() {
    let mut buf = Vec::from(&b"farbfeld"[..]);
    buf.extend_from_slice(&4u32.to_be_bytes());
    buf.extend_from_slice(&4u32.to_be_bytes());
    let h = peek_farbfeld_dimensions(&buf).unwrap();
    assert_eq!(h.width, 4);
    assert_eq!(h.height, 4);
    assert_eq!(h.body_len, 4 * 4 * BYTES_PER_PIXEL);
    assert!(parse_farbfeld(&buf).is_err());
}

#[test]
fn decode_be_samples_handles_unit_size_and_long_runs() {
    let mut out = [0u16; 1];
    decode_be_samples(&[0x12, 0x34], &mut out);
    assert_eq!(out, [0x1234]);

    let bytes: Vec<u8> = (0..1024u16).flat_map(|v| v.to_be_bytes()).collect();
    let mut out = vec![0u16; 1024];
    decode_be_samples(&bytes, &mut out);
    assert_eq!(out, (0..1024u16).collect::<Vec<_>>());
}

#[test]
fn decode_be_samples_zero_length_is_a_noop() {
    let mut out: [u16; 0] = [];
    decode_be_samples(&[], &mut out);
    assert!(out.is_empty());
}

#[test]
fn decode_be_samples_caps_at_smaller_side_without_panic() {
    let mut out = [0xFFFFu16; 4];
    decode_be_samples(&[0x12, 0x34, 0x56, 0x78], &mut out);
    assert_eq!(out, [0x1234, 0x5678, 0xFFFF, 0xFFFF]);
}

#[test]
fn parses_2x3_pixel_order_is_row_major() {
    let w = 2u32;
    let h = 3u32;
    let mut buf = Vec::from(&b"farbfeld"[..]);
    buf.extend_from_slice(&w.to_be_bytes());
    buf.extend_from_slice(&h.to_be_bytes());
    for y in 0..h {
        for x in 0..w {
            let r = (y * w + x) as u16;
            buf.extend_from_slice(&r.to_be_bytes());
            buf.extend_from_slice(&0u16.to_be_bytes());
            buf.extend_from_slice(&0u16.to_be_bytes());
            buf.extend_from_slice(&0u16.to_be_bytes());
        }
    }
    let img = parse_farbfeld(&buf).unwrap();
    for y in 0..h {
        for x in 0..w {
            let base = ((y * w + x) * 4) as usize;
            assert_eq!(img.pixels[base], (y * w + x) as u16);
            assert_eq!(img.pixels[base + 1], 0);
            assert_eq!(img.pixels[base + 2], 0);
            assert_eq!(img.pixels[base + 3], 0);
        }
    }
}
