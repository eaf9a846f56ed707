//! The exact text of every refusal.

use farbfeld::text::{push_byte_list, push_decimal};
use farbfeld::{
    encode_farbfeld, encode_farbfeld_from_rgba16, encode_farbfeld_image, parse_farbfeld,
    parse_farbfeld_header, ByteCursor, FarbfeldError, FarbfeldHeader, FarbfeldImage,
    FarbfeldStreamReader, FarbfeldStreamWriter,
};

fn text(e: FarbfeldError) -> String {
    let FarbfeldError::InvalidData(s) = e;
    s
}

fn header(width: u32, height: u32) -> Vec<u8> {
    let mut buf = b"farbfeld".to_vec();
    buf.extend_from_slice(&width.to_be_bytes());
    buf.extend_from_slice(&height.to_be_bytes());
    buf
}

#[test]
fn numbers_and_byte_lists_are_written_in_decimal() {
    for n in [0u64, 1, 9, 10, 99, 100, 65_535, u32::MAX as u64, u64::MAX] {
        let mut out = String::from("n = ");
        push_decimal(&mut out, n);
        assert_eq!(out, format!("n = {n}"));
    }
    for bytes in [&[][..], &[7], &[0, 255], &[1, 2, 3, 10, 100]] {
        let mut out = String::new();
        push_byte_list(&mut out, bytes);
        assert_eq!(out, format!("{bytes:?}"));
    }
}

#[test]
fn errors_describe_themselves() {
    let e = FarbfeldError::invalid("row too short".to_string());
    assert_eq!(e, FarbfeldError::InvalidData("row too short".to_string()));
    assert_eq!(e.describe(), "invalid data: row too short");
}

#[test]
fn header_refusals() {
    assert_eq!(
        text(parse_farbfeld_header(&[0u8; 15]).unwrap_err()),
        "farbfeld: header truncated — got 15 bytes, need at least 16"
    );
    let mut wrong = header(1, 1);
    wrong[0] = b'F';
    assert_eq!(
        text(parse_farbfeld_header(&wrong).unwrap_err()),
        "farbfeld: bad magic [70, 97, 114, 98, 102, 101, 108, 100], expected [102, 97, 114, 98, 102, 101, 108, 100]"
    );
    let all = u32::MAX as u128 * u32::MAX as u128;
    let expected = if all > usize::MAX as u128 {
        "farbfeld: width*height (4294967295 * 4294967295) overflows usize".to_string()
    } else {
        format!("farbfeld: pixel byte count ({all} * 8) overflows usize")
    };
    assert_eq!(
        text(parse_farbfeld_header(&header(u32::MAX, u32::MAX)).unwrap_err()),
        expected
    );
    let huge = FarbfeldHeader {
        width: 1,
        height: 1,
        body_len: usize::MAX - 15,
    };
    assert_eq!(
        text(huge.total_len().unwrap_err()),
        "farbfeld: total file size overflows usize"
    );
    let largest = FarbfeldHeader {
        width: 1,
        height: 1,
        body_len: usize::MAX - 16,
    };
    assert_eq!(largest.total_len(), Ok(usize::MAX));
}

#[test]
fn file_refusals() {
    let mut file = header(2, 3);
    file.extend_from_slice(&[0u8; 47]);
    assert_eq!(
        text(parse_farbfeld(&file).unwrap_err()),
        "farbfeld: body size mismatch — file has 63 bytes, header announces 64 (2×3 pixels × 8 bytes + 16 header)"
    );
}

#[test]
fn encoder_refusals() {
    assert_eq!(
        text(encode_farbfeld(2, 3, &[0u8; 5]).unwrap_err()),
        "farbfeld: body length mismatch — caller passed 5 bytes, header announces 48 (2×3 × 8)"
    );
    assert_eq!(
        text(encode_farbfeld_from_rgba16(2, 3, &[[0u16; 4]; 5]).unwrap_err()),
        "farbfeld: pixel count mismatch — caller passed 5 pixels, header announces 6 (2×3)"
    );
    let image = FarbfeldImage {
        width: 2,
        height: 3,
        pixels: vec![0u16; 23],
    };
    assert_eq!(
        text(encode_farbfeld_image(&image).unwrap_err()),
        "farbfeld: image.pixels has 23 samples, header announces 24 (2×3 × 4)"
    );
    let vast = FarbfeldImage {
        width: u32::MAX,
        height: u32::MAX,
        pixels: Vec::new(),
    };
    assert!(text(encode_farbfeld_image(&vast).unwrap_err()).contains("overflow"));
    assert!(text(encode_farbfeld(u32::MAX, u32::MAX, &[]).unwrap_err()).contains("overflow"));
}

#[test]
fn reader_refusals() {
    let mut file = header(2, 1);
    file.extend_from_slice(&[0u8; 16]);
    let mut reader = FarbfeldStreamReader::new(ByteCursor::new(file)).unwrap();
    assert_eq!(
        text(reader.read_row(&mut [0u16; 7]).unwrap_err()),
        "farbfeld stream: row out-slice has 7 samples, need 8 (2 × 4)"
    );
    assert_eq!(
        text(reader.read_row_raw(&mut [0u8; 17]).unwrap_err()),
        "farbfeld stream: row out-slice has 17 bytes, need 16 (2 × 8)"
    );
    assert_eq!(reader.rows_read(), 0);
    assert!(reader.read_row(&mut [0u16; 8]).unwrap());
    assert_eq!(reader.read_row(&mut [0u16; 7]), Ok(false));
    assert_eq!(reader.read_row_raw(&mut [0u8; 17]), Ok(false));
}

#[test]
fn writer_refusals() {
    let mut writer = FarbfeldStreamWriter::new(Vec::new(), 2, 1).unwrap();
    assert_eq!(
        text(writer.write_row(&[0u16; 7]).unwrap_err()),
        "farbfeld stream: row in-slice has 7 samples, need 8 (2 × 4)"
    );
    assert_eq!(
        text(writer.write_row_raw(&[0u8; 17]).unwrap_err()),
        "farbfeld stream: row in-slice has 17 bytes, need 16 (2 × 8)"
    );
    writer.write_row(&[0u16; 8]).unwrap();
    assert_eq!(
        text(writer.write_row(&[0u16; 8]).unwrap_err()),
        "farbfeld stream: write_row called after all 1 rows already written"
    );
    assert_eq!(
        text(writer.write_row_raw(&[0u8; 16]).unwrap_err()),
        "farbfeld stream: write_row_raw called after all 1 rows already written"
    );
    let unfinished = FarbfeldStreamWriter::new(Vec::new(), 1, 3).unwrap();
    assert_eq!(
        text(unfinished.finish().unwrap_err()),
        "farbfeld stream: finish called with 0 of 3 rows written"
    );
    let vast = FarbfeldStreamWriter::new(Vec::new(), u32::MAX, u32::MAX)
        .err()
        .unwrap();
    assert!(text(vast).contains("overflows usize"));
}
