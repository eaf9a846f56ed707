//! Reading whole farbfeld files.
//!
//! A file is `16 + 8 * width * height` bytes long. Anything shorter is
//! truncated, anything longer carries trailing bytes; both are refused. The
//! announced body length is compared with the bytes that are present before
//! the pixel buffer is allocated.

use vstd::prelude::*;
use vstd::string::StringExecFns;

use crate::error::{outcome, viewed_outcome, FarbfeldError};
pub use crate::format::{BYTES_PER_PIXEL, HEADER_LEN, MAGIC};
use crate::format::{
    be32_join, be32_value, be_bytes, be_samples, body_size, file_bytes, join_sample, overlaid,
};
use crate::image::FarbfeldImage;
use crate::laws::law_accepted_files;
use crate::text::{byte_list, decimal, push_byte_list, push_decimal};

verus! {

/// A decoded header: the dimensions, and the body length computed from them.
#[derive(Debug, Clone, Copy, PartialEq, Eq, Structural)]
pub struct FarbfeldHeader {
    /// Picture width in pixels, exactly as carried on disk.
    pub width: u32,
    /// Picture height in pixels, exactly as carried on disk.
    pub height: u32,
    /// `width * height * 8`: the number of bytes that must follow the header.
    pub body_len: usize,
}

/// The message for a header cut short after `got` bytes.
pub open spec fn header_truncated_text(got: nat) -> Seq<char> {
    "farbfeld: header truncated — got "@ + decimal(got) + " bytes, need at least 16"@
}

/// The message for eight leading bytes that are not the magic.
pub open spec fn bad_magic_text(found: Seq<u8>) -> Seq<char> {
    "farbfeld: bad magic "@ + byte_list(found) + ", expected "@ + byte_list(MAGIC@)
}

/// The message for a pixel count beyond `usize`.
pub open spec fn pixel_count_overflow_text(width: u32, height: u32) -> Seq<char> {
    "farbfeld: width*height ("@ + decimal(width as nat) + " * "@ + decimal(height as nat)
        + ") overflows usize"@
}

/// The message for a body length beyond `usize`.
pub open spec fn byte_count_overflow_text(pixel_count: nat) -> Seq<char> {
    "farbfeld: pixel byte count ("@ + decimal(pixel_count) + " * 8) overflows usize"@
}

/// The message for a file length beyond `usize`.
pub open spec fn total_overflow_text() -> Seq<char> {
    "farbfeld: total file size overflows usize"@
}

/// The message for a file that is not as long as its header announces.
pub open spec fn size_mismatch_text(got: nat, total: nat, width: u32, height: u32) -> Seq<char> {
    "farbfeld: body size mismatch — file has "@ + decimal(got) + " bytes, header announces "@
        + decimal(total) + " ("@ + decimal(width as nat) + "×"@ + decimal(height as nat)
        + " pixels × 8 bytes + 16 header)"@
}

/// The body length of an image of the given size, or the message that says
/// which product does not fit in `usize`.
pub open spec fn body_len_outcome(width: u32, height: u32) -> Result<usize, Seq<char>> {
    if width * height > usize::MAX {
        Err(pixel_count_overflow_text(width, height))
    } else if body_size(width as nat, height as nat) > usize::MAX {
        Err(byte_count_overflow_text((width * height) as nat))
    } else {
        Ok(body_size(width as nat, height as nat) as usize)
    }
}

/// The width that a header carries.
pub open spec fn header_width(bytes: Seq<u8>) -> u32 {
    be32_value(bytes[8], bytes[9], bytes[10], bytes[11])
}

/// The height that a header carries.
pub open spec fn header_height(bytes: Seq<u8>) -> u32 {
    be32_value(bytes[12], bytes[13], bytes[14], bytes[15])
}

/// What the first 16 bytes of a file say.
pub open spec fn header_outcome(bytes: Seq<u8>) -> Result<FarbfeldHeader, Seq<char>> {
    if bytes.len() < 16 {
        Err(header_truncated_text(bytes.len()))
    } else if bytes.take(8) != MAGIC@ {
        Err(bad_magic_text(bytes.take(8)))
    } else {
        match body_len_outcome(header_width(bytes), header_height(bytes)) {
            Err(text) => Err(text),
            Ok(body_len) => Ok(
                FarbfeldHeader {
                    width: header_width(bytes),
                    height: header_height(bytes),
                    body_len,
                },
            ),
        }
    }
}

/// The length of the file that a header announces.
pub open spec fn total_len_outcome(header: FarbfeldHeader) -> Result<usize, Seq<char>> {
    if 16 + header.body_len > usize::MAX {
        Err(total_overflow_text())
    } else {
        Ok((16 + header.body_len) as usize)
    }
}

/// What a whole file says: width, height and samples.
pub open spec fn file_outcome(bytes: Seq<u8>) -> Result<(u32, u32, Seq<u16>), Seq<char>> {
    match header_outcome(bytes) {
        Err(text) => Err(text),
        Ok(header) => match total_len_outcome(header) {
            Err(text) => Err(text),
            Ok(total) => if bytes.len() != total {
                Err(size_mismatch_text(bytes.len(), total as nat, header.width, header.height))
            } else {
                Ok((header.width, header.height, be_samples(bytes.skip(16))))
            },
        },
    }
}

impl FarbfeldHeader {
    /// Length in bytes of the file that this header announces: `16 + body_len`.
    ///
    /// The sum is refused, not wrapped, where it does not fit in `usize`.
    pub fn total_len(&self) -> (r: Result<usize, FarbfeldError>)
        ensures
            outcome(r) == total_len_outcome(*self),
    {
        match HEADER_LEN.checked_add(self.body_len) {
            Some(total) => Ok(total),
            None => Err(total_overflow()),
        }
    }
}

/// `width * height * 8`, refused where it or the pixel count overflows.
pub(crate) fn checked_body_len(width: u32, height: u32) -> (r: Result<usize, FarbfeldError>)
    ensures
        outcome(r) == body_len_outcome(width, height),
{
    match (width as usize).checked_mul(height as usize) {
        Some(pixel_count) => match pixel_count.checked_mul(BYTES_PER_PIXEL) {
            Some(body_len) => Ok(body_len),
            None => Err(byte_count_overflow(pixel_count)),
        },
        None => Err(pixel_count_overflow(width, height)),
    }
}

/// The error for a pixel count beyond `usize`.
pub(crate) fn pixel_count_overflow(width: u32, height: u32) -> (r: FarbfeldError)
    ensures
        r.text() == pixel_count_overflow_text(width, height),
{
    let mut msg = String::from_str("farbfeld: width*height (");
    push_decimal(&mut msg, width as u64);
    msg.append(" * ");
    push_decimal(&mut msg, height as u64);
    msg.append(") overflows usize");
    FarbfeldError::invalid(msg)
}

/// The error for a body length beyond `usize`.
pub(crate) fn byte_count_overflow(pixel_count: usize) -> (r: FarbfeldError)
    ensures
        r.text() == byte_count_overflow_text(pixel_count as nat),
{
    let mut msg = String::from_str("farbfeld: pixel byte count (");
    push_decimal(&mut msg, pixel_count as u64);
    msg.append(" * 8) overflows usize");
    FarbfeldError::invalid(msg)
}

/// The error for a file length beyond `usize`.
pub(crate) fn total_overflow() -> (r: FarbfeldError)
    ensures
        r.text() == total_overflow_text(),
{
    FarbfeldError::invalid(String::from_str("farbfeld: total file size overflows usize"))
}

/// Whether `bytes` begins with the magic.
pub(crate) fn has_magic(bytes: &[u8]) -> (r: bool)
    ensures
        r == (bytes@.len() >= 8 && bytes@.take(8) == MAGIC@),
{
    if bytes.len() < 8 {
        return false;
    }
    let mut i: usize = 0;
    while i < 8
        invariant
            i <= 8,
            bytes@.len() >= 8,
            bytes@.take(i as int) == MAGIC@.take(i as int),
        decreases 8 - i,
    {
        assert(bytes@.take(8)[i as int] == bytes@[i as int]);
        if bytes[i] != MAGIC[i] {
            return false;
        }
        assert(bytes@.take(i + 1) == bytes@.take(i as int).push(bytes@[i as int]));
        assert(MAGIC@.take(i + 1) == MAGIC@.take(i as int).push(MAGIC@[i as int]));
        i += 1;
    }
    assert(MAGIC@.take(8) == MAGIC@);
    true
}

/// Parses the 16-byte header at the front of `header`.
///
/// The magic is checked, and that `width * height * 8` fits in `usize`. The
/// body is not looked at.
pub fn parse_farbfeld_header(header: &[u8]) -> (r: Result<FarbfeldHeader, FarbfeldError>)
    ensures
        outcome(r) == header_outcome(header@),
{
    if header.len() < HEADER_LEN {
        let mut msg = String::from_str("farbfeld: header truncated — got ");
        push_decimal(&mut msg, header.len() as u64);
        msg.append(" bytes, need at least 16");
        return Err(FarbfeldError::invalid(msg));
    }
    if !has_magic(header) {
        let mut msg = String::from_str("farbfeld: bad magic ");
        push_byte_list(&mut msg, &header[0..8]);
        msg.append(", expected ");
        push_byte_list(&mut msg, MAGIC);
        return Err(FarbfeldError::invalid(msg));
    }
    let width: u32 = be32_join(header[8], header[9], header[10], header[11]);
    let height: u32 = be32_join(header[12], header[13], header[14], header[15]);
    match checked_body_len(width, height) {
        Ok(body_len) => Ok(FarbfeldHeader { width, height, body_len }),
        Err(e) => Err(e),
    }
}

/// Reads only the header at the front of `bytes`.
///
/// Bytes past offset 15 are never inspected, so a short prefix of the file is
/// enough. Whether the body is as long as announced is left to the caller.
pub fn peek_farbfeld_dimensions(bytes: &[u8]) -> (r: Result<FarbfeldHeader, FarbfeldError>)
    ensures
        outcome(r) == header_outcome(bytes@),
{
    parse_farbfeld_header(bytes)
}

/// Decodes big-endian `body` into the slots of `out`, in lockstep.
///
/// Where the two lengths do not match, only the slots that both sides cover
/// are filled; the others keep their value.
pub fn decode_be_samples(body: &[u8], out: &mut [u16])
    ensures
        final(out)@ == overlaid(be_samples(body@), old(out)@),
{
    let n: usize = if body.len() / 2 < out.len() {
        body.len() / 2
    } else {
        out.len()
    };
    let mut i: usize = 0;
    while i < n
        invariant
            i <= n,
            n <= body.len() / 2,
            n <= old(out)@.len(),
            n == body.len() / 2 || n == old(out)@.len(),
            out@.len() == old(out)@.len(),
            forall|j: int| 0 <= j < i ==> out@[j] == be_samples(body@)[j],
            forall|j: int| i <= j < out@.len() ==> out@[j] == old(out)@[j],
        decreases n - i,
    {
        out[i] = join_sample(body[2 * i], body[2 * i + 1]);
        i += 1;
    }
}

/// Parses a complete farbfeld byte stream.
///
/// The input is refused where the header is short or wrong, where a size
/// overflows `usize`, and where the body is not exactly as long as announced.
pub fn parse_farbfeld(bytes: &[u8]) -> (r: Result<FarbfeldImage, FarbfeldError>)
    ensures
        viewed_outcome(r) == file_outcome(bytes@),
        r matches Ok(image) ==> {
            &&& image.wf()
            &&& bytes@ == file_bytes(image.width, image.height, be_bytes(image.pixels@))
        },
{
    let header = match parse_farbfeld_header(bytes) {
        Ok(header) => header,
        Err(e) => return Err(e),
    };
    let expected_total: usize = match header.total_len() {
        Ok(total) => total,
        Err(e) => return Err(e),
    };
    if bytes.len() != expected_total {
        let mut msg = String::from_str("farbfeld: body size mismatch — file has ");
        push_decimal(&mut msg, bytes.len() as u64);
        msg.append(" bytes, header announces ");
        push_decimal(&mut msg, expected_total as u64);
        msg.append(" (");
        push_decimal(&mut msg, header.width as u64);
        msg.append("×");
        push_decimal(&mut msg, header.height as u64);
        msg.append(" pixels × 8 bytes + 16 header)");
        return Err(FarbfeldError::invalid(msg));
    }
    let body = &bytes[HEADER_LEN..bytes.len()];
    let sample_count: usize = header.body_len / 2;
    let mut pixels: Vec<u16> = vec![0u16; sample_count];
    decode_be_samples(body, pixels.as_mut_slice());
    assert(body@ == bytes@.skip(16));
    assert(pixels@ == be_samples(body@));
    proof {
        law_accepted_files(bytes@, header.width, header.height, pixels@);
    }
    Ok(FarbfeldImage { width: header.width, height: header.height, pixels })
}

} // verus!
