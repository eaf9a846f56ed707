//! Row-at-a-time reading and writing.

use farbfeld::{
    parse_farbfeld, ByteCursor, FarbfeldError, FarbfeldStreamReader, FarbfeldStreamWriter,
    BYTES_PER_PIXEL, HEADER_LEN, MAGIC,
};

fn synth(width: u32, height: u32, samples: &[u16]) -> Vec<u8> {
    let mut buf = Vec::new();
    buf.extend_from_slice(MAGIC);
    buf.extend_from_slice(&width.to_be_bytes());
    buf.extend_from_slice(&height.to_be_bytes());
    for &s in samples {
        buf.extend_from_slice(&s.to_be_bytes());
    }
    buf
}

#[test]
fn streaming_reader_yields_each_row_native_endian() {
    let mut samples = Vec::new();
    for y in 0..2u32 {
        for x in 0..3u32 {
            samples.push((y * 100 + x * 10) as u16);
            samples.push(1);
            samples.push(2);
            samples.push(3);
        }
    }
    let bytes = synth(3, 2, &samples);
    let mut reader = FarbfeldStreamReader::new(ByteCursor::new(bytes)).unwrap();
    assert_eq!(reader.width(), 3);
    assert_eq!(reader.height(), 2);
    assert_eq!(reader.rows_remaining(), 2);

    let mut row = vec![0u16; 3 * 4];
    assert!(reader.read_row(&mut row).unwrap());
    assert_eq!(row, &samples[..12]);
    assert!(reader.read_row(&mut row).unwrap());
    assert_eq!(row, &samples[12..]);
    assert!(!reader.read_row(&mut row).unwrap());
    assert_eq!(reader.rows_read(), 2);
    assert_eq!(reader.rows_remaining(), 0);
}

#[test]
fn streaming_reader_rejects_truncated_body() {
    let mut bytes = Vec::new();
    bytes.extend_from_slice(MAGIC);
    bytes.extend_from_slice(&2u32.to_be_bytes());
    bytes.extend_from_slice(&2u32.to_be_bytes());
    bytes.extend_from_slice(&[0u8; 16]);
    let mut reader = FarbfeldStreamReader::new(ByteCursor::new(bytes)).unwrap();
    let mut row = vec![0u16; 8];
    assert!(reader.read_row(&mut row).is_ok());
    let err = reader.read_row(&mut row).unwrap_err();
    let FarbfeldError::InvalidData(s) = err;
    assert!(s.contains("truncated"), "msg = {s:?}");
}

#[test]
fn streaming_reader_rejects_bad_magic_at_construction() {
    let mut bytes = vec![0u8; HEADER_LEN];
    bytes[..8].copy_from_slice(b"OXIDEAVF");
    assert!(FarbfeldStreamReader::new(ByteCursor::new(bytes)).is_err());
}

#[test]
fn streaming_reader_rejects_wrong_row_length() {
    let bytes = synth(2, 1, &[0, 0, 0, 0, 0, 0, 0, 0]);
    let mut reader = FarbfeldStreamReader::new(ByteCursor::new(bytes)).unwrap();
    let mut row = vec![0u16; 4];
    assert!(reader.read_row(&mut row).is_err());
}

#[test]
fn streaming_reader_handles_zero_dimension() {
    let bytes = synth(0, 0, &[]);
    let mut reader = FarbfeldStreamReader::new(ByteCursor::new(bytes)).unwrap();
    let mut row: Vec<u16> = Vec::new();
    assert!(!reader.read_row(&mut row).unwrap());
    let bytes = synth(5, 0, &[]);
    let mut reader = FarbfeldStreamReader::new(ByteCursor::new(bytes)).unwrap();
    let mut row = vec![0u16; 20];
    assert!(!reader.read_row(&mut row).unwrap());
    let bytes = synth(0, 4, &[]);
    let mut reader = FarbfeldStreamReader::new(ByteCursor::new(bytes)).unwrap();
    let mut row: Vec<u16> = Vec::new();
    for _ in 0..4 {
        assert!(reader.read_row(&mut row).unwrap());
    }
    assert!(!reader.read_row(&mut row).unwrap());
}

#[test]
fn streaming_writer_emits_byte_exact_against_synthesised_reference() {
    let mut samples = Vec::new();
    for y in 0..3u32 {
        for x in 0..2u32 {
            let base = (y * 2 + x) as u16;
            samples.push(base.wrapping_mul(0x0123));
            samples.push(base.wrapping_mul(0x4567));
            samples.push(base.wrapping_mul(0x89AB));
            samples.push(base.wrapping_mul(0xCDEF));
        }
    }
    let reference = synth(2, 3, &samples);

    let mut writer = FarbfeldStreamWriter::new(Vec::new(), 2, 3).unwrap();
    for row_idx in 0..3 {
        let off = row_idx * 2 * 4;
        writer.write_row(&samples[off..off + 2 * 4]).unwrap();
    }
    let bytes = writer.finish().unwrap();
    assert_eq!(bytes, reference);
}

#[test]
fn streaming_writer_finish_rejects_missing_rows() {
    let mut writer = FarbfeldStreamWriter::new(Vec::new(), 1, 3).unwrap();
    let row = [0u16; 4];
    writer.write_row(&row).unwrap();
    let err = writer.finish().unwrap_err();
    let FarbfeldError::InvalidData(s) = err;
    assert!(s.contains("1 of 3"), "msg = {s:?}");
}

#[test]
fn streaming_writer_rejects_extra_row() {
    let mut writer = FarbfeldStreamWriter::new(Vec::new(), 1, 2).unwrap();
    let row = [0u16; 4];
    writer.write_row(&row).unwrap();
    writer.write_row(&row).unwrap();
    assert!(writer.write_row(&row).is_err());
}

#[test]
fn streaming_writer_rejects_wrong_row_length() {
    let mut writer = FarbfeldStreamWriter::new(Vec::new(), 3, 1).unwrap();
    let too_short = [0u16; 8];
    assert!(writer.write_row(&too_short).is_err());
}

#[test]
fn skip_row_advances_rows_read_without_decoding() {
    let mut samples = Vec::new();
    for y in 0..4u32 {
        for x in 0..3u32 {
            let v = (y * 100 + x * 10) as u16;
            samples.push(v);
            samples.push(v.wrapping_add(1));
            samples.push(v.wrapping_add(2));
            samples.push(v.wrapping_add(3));
        }
    }
    let bytes = synth(3, 4, &samples);
    let mut reader = FarbfeldStreamReader::new(ByteCursor::new(bytes)).unwrap();

    assert!(reader.skip_row().unwrap());
    assert_eq!(reader.rows_read(), 1);
    assert_eq!(reader.rows_remaining(), 3);
    assert!(reader.skip_row().unwrap());
    assert_eq!(reader.rows_read(), 2);

    let mut row = vec![0u16; 12];
    assert!(reader.read_row(&mut row).unwrap());
    assert_eq!(row, &samples[24..36]);

    assert!(reader.read_row(&mut row).unwrap());
    assert_eq!(row, &samples[36..48]);

    assert!(!reader.skip_row().unwrap());
    assert!(!reader.read_row(&mut row).unwrap());
}

#[test]
fn skip_row_handles_zero_width() {
    let bytes = synth(0, 3, &[]);
    let mut reader = FarbfeldStreamReader::new(ByteCursor::new(bytes)).unwrap();
    for i in 0..3u32 {
        assert!(reader.skip_row().unwrap());
        assert_eq!(reader.rows_read(), i + 1);
    }
    assert!(!reader.skip_row().unwrap());
}

#[test]
fn skip_row_propagates_truncated_body() {
    let mut bytes = Vec::new();
    bytes.extend_from_slice(MAGIC);
    bytes.extend_from_slice(&2u32.to_be_bytes());
    bytes.extend_from_slice(&2u32.to_be_bytes());
    bytes.extend_from_slice(&[0u8; 8]);
    let mut reader = FarbfeldStreamReader::new(ByteCursor::new(bytes)).unwrap();
    let err = reader.skip_row().unwrap_err();
    let FarbfeldError::InvalidData(s) = err;
    assert!(s.contains("truncated"), "msg = {s:?}");
}

#[test]
fn skip_rows_caps_at_remaining() {
    let samples = vec![0u16; 3 * 4];
    let bytes = synth(1, 3, &samples);
    let mut reader = FarbfeldStreamReader::new(ByteCursor::new(bytes)).unwrap();
    let skipped = reader.skip_rows(100).unwrap();
    assert_eq!(skipped, 3);
    assert_eq!(reader.rows_read(), 3);
    assert_eq!(reader.rows_remaining(), 0);
    assert_eq!(reader.skip_rows(5).unwrap(), 0);
}

#[test]
fn skip_rows_zero_is_a_noop() {
    let samples = vec![0u16; 2 * 2 * 4];
    let bytes = synth(2, 2, &samples);
    let mut reader = FarbfeldStreamReader::new(ByteCursor::new(bytes)).unwrap();
    assert_eq!(reader.skip_rows(0).unwrap(), 0);
    assert_eq!(reader.rows_read(), 0);
    let drained = reader.read_all_rows().unwrap();
    assert_eq!(drained.len(), 2 * 2 * 4);
}

#[test]
fn skip_rows_then_read_remaining_matches_full_decode() {
    let w = 5u32;
    let h = 4u32;
    let mut samples = Vec::new();
    for y in 0..h {
        for x in 0..w {
            let v = (y * w + x) as u16;
            samples.push(v.wrapping_mul(0x0123));
            samples.push(v.wrapping_mul(0x4567));
            samples.push(v.wrapping_mul(0x89AB));
            samples.push(v.wrapping_mul(0xCDEF));
        }
    }
    let bytes = synth(w, h, &samples);

    let mut full_reader = FarbfeldStreamReader::new(ByteCursor::new(bytes.clone())).unwrap();
    let full = full_reader.read_all_rows().unwrap();

    let mut win_reader = FarbfeldStreamReader::new(ByteCursor::new(bytes)).unwrap();
    assert_eq!(win_reader.skip_rows(2).unwrap(), 2);
    assert_eq!(win_reader.rows_read(), 2);
    let tail = win_reader.read_all_rows().unwrap();

    let row_samples = (w * 4) as usize;
    assert_eq!(tail, full[row_samples * 2..]);
}

#[test]
fn read_row_raw_yields_on_disk_bytes_verbatim() {
    let mut samples = Vec::new();
    for y in 0..2u32 {
        for x in 0..3u32 {
            let v = (y * 100 + x * 10) as u16;
            samples.push(v);
            samples.push(v.wrapping_add(1));
            samples.push(v.wrapping_add(2));
            samples.push(v.wrapping_add(3));
        }
    }
    let bytes = synth(3, 2, &samples);
    let row_bytes_len = 3 * BYTES_PER_PIXEL;
    let mut reader = FarbfeldStreamReader::new(ByteCursor::new(bytes.clone())).unwrap();

    let mut row_raw = vec![0u8; row_bytes_len];
    assert!(reader.read_row_raw(&mut row_raw).unwrap());
    assert_eq!(
        row_raw,
        bytes[HEADER_LEN..HEADER_LEN + row_bytes_len],
        "row 0 raw bytes must equal the on-disk body prefix"
    );
    assert_eq!(reader.rows_read(), 1);

    assert!(reader.read_row_raw(&mut row_raw).unwrap());
    assert_eq!(
        row_raw,
        bytes[HEADER_LEN + row_bytes_len..HEADER_LEN + 2 * row_bytes_len],
        "row 1 raw bytes must equal the on-disk body's second row"
    );
    assert_eq!(reader.rows_read(), 2);

    assert!(!reader.read_row_raw(&mut row_raw).unwrap());
}

#[test]
fn read_row_raw_rejects_wrong_out_length() {
    let bytes = synth(2, 1, &[0u16; 8]);
    let mut reader = FarbfeldStreamReader::new(ByteCursor::new(bytes)).unwrap();
    let mut row = vec![0u8; 8];
    assert!(reader.read_row_raw(&mut row).is_err());
}

#[test]
fn read_row_raw_handles_zero_width_no_body() {
    let bytes = synth(0, 3, &[]);
    let mut reader = FarbfeldStreamReader::new(ByteCursor::new(bytes)).unwrap();
    let mut row: Vec<u8> = Vec::new();
    for i in 0..3u32 {
        assert!(reader.read_row_raw(&mut row).unwrap());
        assert_eq!(reader.rows_read(), i + 1);
    }
    assert!(!reader.read_row_raw(&mut row).unwrap());
}

#[test]
fn read_row_raw_propagates_truncated_body() {
    let mut bytes = Vec::new();
    bytes.extend_from_slice(MAGIC);
    bytes.extend_from_slice(&2u32.to_be_bytes());
    bytes.extend_from_slice(&2u32.to_be_bytes());
    bytes.extend_from_slice(&[0u8; 16]);
    let mut reader = FarbfeldStreamReader::new(ByteCursor::new(bytes)).unwrap();
    let mut row = vec![0u8; 16];
    assert!(reader.read_row_raw(&mut row).is_ok());
    let err = reader.read_row_raw(&mut row).unwrap_err();
    let FarbfeldError::InvalidData(s) = err;
    assert!(s.contains("truncated"), "msg = {s:?}");
}

#[test]
fn read_row_raw_and_read_row_are_interchangeable_mid_stream() {
    let mut samples = Vec::new();
    for y in 0..4u32 {
        for x in 0..3u32 {
            let v = (y * 3 + x) as u16;
            samples.push(v.wrapping_mul(0x0123));
            samples.push(v.wrapping_mul(0x4567));
            samples.push(v.wrapping_mul(0x89AB));
            samples.push(v.wrapping_mul(0xCDEF));
        }
    }
    let bytes = synth(3, 4, &samples);
    let mut reader = FarbfeldStreamReader::new(ByteCursor::new(bytes.clone())).unwrap();

    let row_bytes_len = 3 * BYTES_PER_PIXEL;
    let mut raw = vec![0u8; row_bytes_len];
    assert!(reader.read_row_raw(&mut raw).unwrap());
    assert_eq!(raw, bytes[HEADER_LEN..HEADER_LEN + row_bytes_len]);

    let mut row_native = vec![0u16; 12];
    assert!(reader.read_row(&mut row_native).unwrap());
    assert_eq!(row_native, &samples[12..24]);

    assert!(reader.skip_row().unwrap());

    assert!(reader.read_row_raw(&mut raw).unwrap());
    let row3_off = HEADER_LEN + 3 * row_bytes_len;
    assert_eq!(raw, bytes[row3_off..row3_off + row_bytes_len]);

    assert_eq!(reader.rows_read(), 4);
    assert!(!reader.read_row_raw(&mut raw).unwrap());
}

#[test]
fn write_row_raw_accepts_be_bytes_verbatim_byte_exact_against_reference() {
    let mut samples = Vec::new();
    for y in 0..3u32 {
        for x in 0..2u32 {
            let base = (y * 2 + x) as u16;
            samples.push(base.wrapping_mul(0x0123));
            samples.push(base.wrapping_mul(0x4567));
            samples.push(base.wrapping_mul(0x89AB));
            samples.push(base.wrapping_mul(0xCDEF));
        }
    }
    let reference = synth(2, 3, &samples);
    let row_bytes_len = 2 * BYTES_PER_PIXEL;
    let body = &reference[HEADER_LEN..];

    let mut writer = FarbfeldStreamWriter::new(Vec::new(), 2, 3).unwrap();
    for row_idx in 0..3usize {
        let off = row_idx * row_bytes_len;
        writer
            .write_row_raw(&body[off..off + row_bytes_len])
            .unwrap();
    }
    let bytes = writer.finish().unwrap();
    assert_eq!(bytes, reference);
}

#[test]
fn write_row_raw_rejects_wrong_row_length() {
    let mut writer = FarbfeldStreamWriter::new(Vec::new(), 3, 1).unwrap();
    let too_short = [0u8; 16];
    assert!(writer.write_row_raw(&too_short).is_err());
}

#[test]
fn write_row_raw_rejects_extra_row() {
    let mut writer = FarbfeldStreamWriter::new(Vec::new(), 1, 2).unwrap();
    let row = [0u8; BYTES_PER_PIXEL];
    writer.write_row_raw(&row).unwrap();
    writer.write_row_raw(&row).unwrap();
    assert!(writer.write_row_raw(&row).is_err());
}

#[test]
fn write_row_raw_handles_zero_width() {
    let mut writer = FarbfeldStreamWriter::new(Vec::new(), 0, 3).unwrap();
    for _ in 0..3 {
        writer.write_row_raw(&[]).unwrap();
    }
    let bytes = writer.finish().unwrap();
    assert_eq!(bytes.len(), HEADER_LEN);
    assert_eq!(&bytes[..8], MAGIC);
    assert_eq!(&bytes[8..12], &[0, 0, 0, 0]);
    assert_eq!(&bytes[12..16], &[0, 0, 0, 3]);
}

#[test]
fn write_row_raw_and_write_row_can_be_mixed_mid_stream() {
    let mut samples = Vec::new();
    for y in 0..4u32 {
        for x in 0..2u32 {
            let v = (y * 2 + x) as u16;
            samples.push(v.wrapping_mul(0x1111));
            samples.push(v.wrapping_mul(0x2222));
            samples.push(v.wrapping_mul(0x3333));
            samples.push(v.wrapping_mul(0x4444));
        }
    }
    let reference = synth(2, 4, &samples);
    let row_bytes_len = 2 * BYTES_PER_PIXEL;
    let body = &reference[HEADER_LEN..];

    let mut writer = FarbfeldStreamWriter::new(Vec::new(), 2, 4).unwrap();
    writer.write_row_raw(&body[..row_bytes_len]).unwrap();
    writer.write_row(&samples[8..16]).unwrap();
    writer
        .write_row_raw(&body[2 * row_bytes_len..3 * row_bytes_len])
        .unwrap();
    writer.write_row(&samples[24..32]).unwrap();

    let bytes = writer.finish().unwrap();
    assert_eq!(bytes, reference);
}

#[test]
fn raw_passthrough_round_trips_reader_into_writer_without_conversion() {
    let mut samples = Vec::new();
    for y in 0..5u32 {
        for x in 0..7u32 {
            let v = (y * 7 + x) as u16;
            samples.push(v.wrapping_mul(0x1357));
            samples.push(v.wrapping_mul(0x2468));
            samples.push(v.wrapping_mul(0xACE0));
            samples.push(v.wrapping_mul(0xBDF1));
        }
    }
    let reference = synth(7, 5, &samples);

    let mut reader = FarbfeldStreamReader::new(ByteCursor::new(reference.clone())).unwrap();
    let mut writer = FarbfeldStreamWriter::new(Vec::new(), 7, 5).unwrap();
    let mut row_raw = vec![0u8; 7 * BYTES_PER_PIXEL];
    while reader.read_row_raw(&mut row_raw).unwrap() {
        writer.write_row_raw(&row_raw).unwrap();
    }
    let forwarded = writer.finish().unwrap();
    assert_eq!(forwarded, reference);
}

#[test]
fn stream_roundtrip_matches_in_memory_parse_and_encode() {
    let mut samples = Vec::new();
    for y in 0..7u32 {
        for x in 0..5u32 {
            let v = (y * 5 + x) as u16;
            samples.push(v.wrapping_mul(0x1111));
            samples.push(v.wrapping_mul(0x2222));
            samples.push(v.wrapping_mul(0x3333));
            samples.push(v.wrapping_mul(0x4444));
        }
    }
    let reference = synth(5, 7, &samples);

    let mut reader = FarbfeldStreamReader::new(ByteCursor::new(reference.clone())).unwrap();
    let decoded = reader.read_all_rows().unwrap();
    assert_eq!(decoded, samples);

    let mut writer = FarbfeldStreamWriter::new(Vec::new(), 5, 7).unwrap();
    for y in 0..7 {
        let off = y * 5 * 4;
        writer.write_row(&samples[off..off + 5 * 4]).unwrap();
    }
    let encoded = writer.finish().unwrap();
    assert_eq!(encoded, reference);
}

#[test]
fn read_all_rows_spare_capacity_decode_is_bit_identical_to_whole_file() {

    for &(w, h) in &[(1u32, 1u32), (3, 5), (7, 1), (1, 9), (13, 11)] {
        let mut samples = Vec::new();
        for y in 0..h {
            for x in 0..w {
                let v = (y.wrapping_mul(w).wrapping_add(x)) as u16;
                samples.push(v.wrapping_mul(0x0123).wrapping_add(0xBEEF));
                samples.push(v.wrapping_mul(0x4567));
                samples.push(v.wrapping_mul(0x89AB).wrapping_add(0x0F0F));
                samples.push(v.wrapping_mul(0xCDEF));
            }
        }
        let bytes = synth(w, h, &samples);
        let whole = parse_farbfeld(&bytes).unwrap();

        let mut reader = FarbfeldStreamReader::new(ByteCursor::new(bytes.clone())).unwrap();
        let all = reader.read_all_rows().unwrap();
        assert_eq!(all, whole.pixels, "fresh read_all_rows mismatch at {w}x{h}");

        if h >= 1 {
            let mut reader = FarbfeldStreamReader::new(ByteCursor::new(bytes.clone())).unwrap();
            let row_samples = (w as usize) * 4;
            let mut first = vec![0u16; row_samples];
            assert!(reader.read_row(&mut first).unwrap());
            let rest = reader.read_all_rows().unwrap();
            let mut joined = first;
            joined.extend_from_slice(&rest);
            assert_eq!(
                joined, whole.pixels,
                "partial-drain read_all_rows mismatch at {w}x{h}"
            );
        }
    }
}

#[test]
fn read_all_rows_above_cap_announcement_with_no_body_fails_fast() {
    let big = 0x4000u32;
    let mut buf = Vec::new();
    buf.extend_from_slice(MAGIC);
    buf.extend_from_slice(&big.to_be_bytes());
    buf.extend_from_slice(&big.to_be_bytes());
    let mut reader = FarbfeldStreamReader::new(ByteCursor::new(buf)).unwrap();
    let t = std::time::Instant::now();
    let err = reader.read_all_rows().expect_err("no body — must refuse");
    let dt = t.elapsed();
    let FarbfeldError::InvalidData(msg) = err;
    assert!(msg.contains("truncated"), "msg = {msg:?}");
    assert!(
        dt < std::time::Duration::from_millis(500),
        "above-cap announcement took {dt:?} — incremental path must not pre-allocate",
    );
}
