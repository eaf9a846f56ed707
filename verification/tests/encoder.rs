//! Whole-file encoding, and the loops that move samples in and out of bytes.

use farbfeld::encoder::{
    encode_be_samples, encode_le_samples, flatten_rgba_pixels, swap_pairs_le_to_be,
};
use farbfeld::parser::decode_be_samples;
use farbfeld::{
    encode_farbfeld, encode_farbfeld_from_rgba16, encode_farbfeld_image, parse_farbfeld,
    FarbfeldImage, HEADER_LEN, MAGIC,
};

#[test]
fn encode_rejects_body_length_mismatch() {
    assert!(encode_farbfeld(1, 1, &[0u8; 4]).is_err());
    assert!(encode_farbfeld(1, 1, &[0u8; 16]).is_err());
}

#[test]
fn encode_zero_image_is_just_header() {
    let bytes = encode_farbfeld(0, 0, &[]).unwrap();
    assert_eq!(bytes.len(), HEADER_LEN);
    assert_eq!(&bytes[..8], MAGIC);
    assert_eq!(&bytes[8..12], &[0, 0, 0, 0]);
    assert_eq!(&bytes[12..16], &[0, 0, 0, 0]);
}

#[test]
fn encode_single_pixel_byte_exact() {
    let body = [0x12, 0x34, 0x56, 0x78, 0x9A, 0xBC, 0xDE, 0xF0];
    let bytes = encode_farbfeld(1, 1, &body).unwrap();
    let mut expected = Vec::from(&b"farbfeld"[..]);
    expected.extend_from_slice(&1u32.to_be_bytes());
    expected.extend_from_slice(&1u32.to_be_bytes());
    expected.extend_from_slice(&body);
    assert_eq!(bytes, expected);
}

#[test]
fn encode_from_rgba16_round_trips() {
    let pixels = [
        [0x1234, 0x5678, 0x9ABC, 0xDEF0],
        [0x0001, 0x0002, 0x0003, 0x0004],
    ];
    let bytes = encode_farbfeld_from_rgba16(2, 1, &pixels).unwrap();
    let parsed = parse_farbfeld(&bytes).unwrap();
    assert_eq!(parsed.width, 2);
    assert_eq!(parsed.height, 1);
    assert_eq!(
        parsed.pixels,
        [0x1234, 0x5678, 0x9ABC, 0xDEF0, 0x0001, 0x0002, 0x0003, 0x0004]
    );
}

#[test]
fn encode_image_round_trips_through_parser() {
    let img = FarbfeldImage {
        width: 3,
        height: 2,
        pixels: (0..(3 * 2 * 4)).map(|i| (i * 0x1111) as u16).collect(),
    };
    let bytes = encode_farbfeld_image(&img).unwrap();
    let parsed = parse_farbfeld(&bytes).unwrap();
    assert_eq!(parsed, img);
}

#[test]
fn encode_from_rgba16_rejects_pixel_count_mismatch() {
    let pixels = [[0u16; 4]; 3];
    assert!(encode_farbfeld_from_rgba16(2, 2, &pixels).is_err());
}

#[test]
fn flatten_rgba_pixels_aliases_input_bytes_one_to_one() {
    let pixels = [
        [0x0001u16, 0x0002, 0x0003, 0x0004],
        [0x0005, 0x0006, 0x0007, 0x0008],
        [0x0009, 0x000A, 0x000B, 0x000C],
    ];
    let flat = flatten_rgba_pixels(&pixels);
    assert_eq!(flat.len(), 12);
    for (i, &sample) in flat.iter().enumerate() {
        let px = i / 4;
        let ch = i % 4;
        assert_eq!(sample, pixels[px][ch], "sample {i}: pixel {px} chan {ch}");
    }
}

#[test]
fn flatten_rgba_pixels_handles_empty_input() {
    let pixels: [[u16; 4]; 0] = [];
    let flat = flatten_rgba_pixels(&pixels);
    assert!(flat.is_empty());
}

#[test]
fn encode_be_samples_byte_swap_inverts_decode_be_samples() {
    let samples: Vec<u16> = (0..1024u16).collect();
    let mut bytes = vec![0u8; samples.len() * 2];
    encode_be_samples(&samples, &mut bytes);
    let mut round = vec![0u16; samples.len()];
    decode_be_samples(&bytes, &mut round);
    assert_eq!(round, samples);
    assert_eq!(&bytes[0..2], &[0x00, 0x00]);
    assert_eq!(&bytes[2..4], &[0x00, 0x01]);
    assert_eq!(&bytes[510..512], &[0x00, 0xFF]);
    assert_eq!(&bytes[512..514], &[0x01, 0x00]);
}

#[test]
fn encode_le_samples_writes_little_endian_word_order() {
    let samples: Vec<u16> = (0..1024u16).collect();
    let mut bytes = vec![0u8; samples.len() * 2];
    encode_le_samples(&samples, &mut bytes);
    assert_eq!(&bytes[0..2], &[0x00, 0x00]);
    assert_eq!(&bytes[2..4], &[0x01, 0x00]);
    assert_eq!(&bytes[510..512], &[0xFF, 0x00]);
    assert_eq!(&bytes[512..514], &[0x00, 0x01]);
    for (i, pair) in bytes.chunks_exact(2).enumerate() {
        assert_eq!(u16::from_le_bytes([pair[0], pair[1]]), samples[i]);
    }
}

#[test]
fn encode_le_samples_and_encode_be_samples_swap_each_other_byte_order() {
    let samples: Vec<u16> = vec![0x1234, 0x5678, 0x9ABC, 0xDEF0];
    let mut be = vec![0u8; samples.len() * 2];
    let mut le = vec![0u8; samples.len() * 2];
    encode_be_samples(&samples, &mut be);
    encode_le_samples(&samples, &mut le);
    for (b, l) in be.chunks_exact(2).zip(le.chunks_exact(2)) {
        assert_eq!(b[0], l[1]);
        assert_eq!(b[1], l[0]);
    }
}

#[test]
fn encode_le_samples_zero_length_is_a_noop() {
    let mut out: [u8; 0] = [];
    encode_le_samples(&[], &mut out);
    assert!(out.is_empty());
}

#[test]
fn swap_pairs_le_to_be_reverses_each_two_byte_pair() {
    let src = vec![0x34u8, 0x12, 0x78, 0x56, 0xBC, 0x9A, 0xF0, 0xDE];
    let mut dst = vec![0u8; src.len()];
    swap_pairs_le_to_be(&src, &mut dst);
    assert_eq!(dst, vec![0x12, 0x34, 0x56, 0x78, 0x9A, 0xBC, 0xDE, 0xF0]);
    for (s, d) in src.chunks_exact(2).zip(dst.chunks_exact(2)) {
        let v = u16::from_le_bytes([s[0], s[1]]);
        assert_eq!([d[0], d[1]], v.to_be_bytes());
    }
}

#[test]
fn swap_pairs_le_to_be_is_its_own_inverse() {
    let src: Vec<u8> = (0..256u16).flat_map(|v| v.to_le_bytes()).collect();
    let mut once = vec![0u8; src.len()];
    swap_pairs_le_to_be(&src, &mut once);
    let mut twice = vec![0u8; src.len()];
    swap_pairs_le_to_be(&once, &mut twice);
    assert_eq!(twice, src);
}

#[test]
fn swap_pairs_le_to_be_zero_length_is_a_noop() {
    let mut dst: [u8; 0] = [];
    swap_pairs_le_to_be(&[], &mut dst);
    assert!(dst.is_empty());
}

#[test]
fn encode_farbfeld_from_rgba16_bulk_path_matches_per_pixel_reference() {
    let w = 17u32;
    let h = 13u32;
    let mut pixels = Vec::with_capacity((w * h) as usize);
    for y in 0..h {
        for x in 0..w {
            let v = (y * w + x) as u16;
            pixels.push([
                v.wrapping_mul(0x0123),
                v.wrapping_mul(0x4567),
                v.wrapping_mul(0x89AB),
                v.wrapping_mul(0xCDEF),
            ]);
        }
    }
    let fast = encode_farbfeld_from_rgba16(w, h, &pixels).unwrap();

    let mut reference = Vec::with_capacity(fast.len());
    reference.extend_from_slice(MAGIC);
    reference.extend_from_slice(&w.to_be_bytes());
    reference.extend_from_slice(&h.to_be_bytes());
    for px in &pixels {
        for chan in px {
            reference.extend_from_slice(&chan.to_be_bytes());
        }
    }
    assert_eq!(fast, reference);
}

#[test]
fn encode_farbfeld_image_bulk_path_matches_per_sample_reference() {
    let w = 19u32;
    let h = 11u32;
    let sample_count = (w * h * 4) as usize;
    let pixels: Vec<u16> = (0..sample_count).map(|i| (i * 0x1111) as u16).collect();
    let img = FarbfeldImage {
        width: w,
        height: h,
        pixels: pixels.clone(),
    };
    let fast = encode_farbfeld_image(&img).unwrap();

    let mut reference = Vec::with_capacity(fast.len());
    reference.extend_from_slice(MAGIC);
    reference.extend_from_slice(&w.to_be_bytes());
    reference.extend_from_slice(&h.to_be_bytes());
    for &s in &pixels {
        reference.extend_from_slice(&s.to_be_bytes());
    }
    assert_eq!(fast, reference);
}
