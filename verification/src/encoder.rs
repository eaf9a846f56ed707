//! Writing whole farbfeld files.
//!
//! [`encode_farbfeld`] takes a body that is already in on-disk order,
//! [`encode_farbfeld_from_rgba16`] takes pixels and [`encode_farbfeld_image`]
//! an image; all three produce the same bytes for the same picture.

use vstd::prelude::*;
use vstd::string::StringExecFns;

use crate::error::{viewed_outcome, FarbfeldError};
use crate::format::{
    be32_split, be_bytes, file_bytes, flattened, header_bytes, le_bytes, overlaid_pairs,
    sample_total, swapped_pairs, whole_pairs, CHANNELS_PER_PIXEL, HEADER_LEN, MAGIC,
};
use crate::image::FarbfeldImage;
use crate::parser::{
    body_len_outcome, byte_count_overflow, byte_count_overflow_text, checked_body_len,
    pixel_count_overflow, pixel_count_overflow_text, total_overflow, total_overflow_text,
};
use crate::text::{decimal, push_decimal};

verus! {

/// Writes `samples` big-endian into the pairs of bytes of `out`, in lockstep.
///
/// Where the two lengths do not match, only the pairs that both sides cover
/// are filled; the other bytes keep their value.
pub fn encode_be_samples(samples: &[u16], out: &mut [u8])
    ensures
        final(out)@ == overlaid_pairs(be_bytes(samples@), old(out)@),
{
    let n: usize = if out.len() / 2 < samples.len() {
        out.len() / 2
    } else {
        samples.len()
    };
    let mut i: usize = 0;
    while i < n
        invariant
            i <= n,
            n <= samples@.len(),
            n <= out.len() / 2,
            2 * n == whole_pairs(samples@.len() * 2, old(out)@.len()),
            out@.len() == old(out)@.len(),
            forall|j: int| 0 <= j < 2 * i ==> out@[j] == be_bytes(samples@)[j],
            forall|j: int| 2 * i <= j < out@.len() ==> out@[j] == old(out)@[j],
        decreases n - i,
    {
        out[2 * i] = (samples[i] / 256) as u8;
        out[2 * i + 1] = (samples[i] % 256) as u8;
        i += 1;
    }
}

/// Writes `samples` little-endian into the pairs of bytes of `out`, in lockstep.
///
/// Where the two lengths do not match, only the pairs that both sides cover
/// are filled; the other bytes keep their value.
pub fn encode_le_samples(samples: &[u16], out: &mut [u8])
    ensures
        final(out)@ == overlaid_pairs(le_bytes(samples@), old(out)@),
{
    let n: usize = if out.len() / 2 < samples.len() {
        out.len() / 2
    } else {
        samples.len()
    };
    let mut i: usize = 0;
    while i < n
        invariant
            i <= n,
            n <= samples@.len(),
            n <= out.len() / 2,
            2 * n == whole_pairs(samples@.len() * 2, old(out)@.len()),
            out@.len() == old(out)@.len(),
            forall|j: int| 0 <= j < 2 * i ==> out@[j] == le_bytes(samples@)[j],
            forall|j: int| 2 * i <= j < out@.len() ==> out@[j] == old(out)@[j],
        decreases n - i,
    {
        out[2 * i] = (samples[i] % 256) as u8;
        out[2 * i + 1] = (samples[i] / 256) as u8;
        i += 1;
    }
}

/// Exchanges the two bytes of each pair of `src`, writing into `dst`.
///
/// Where the two lengths do not match, only the pairs that both sides cover
/// are written; the other bytes of `dst`, a last odd one included, keep their
/// value.
pub fn swap_pairs_le_to_be(src: &[u8], dst: &mut [u8])
    ensures
        final(dst)@ == overlaid_pairs(swapped_pairs(src@), old(dst)@),
{
    let n: usize = if dst.len() / 2 < src.len() / 2 {
        dst.len() / 2
    } else {
        src.len() / 2
    };
    let mut i: usize = 0;
    while i < n
        invariant
            i <= n,
            n <= src.len() / 2,
            n <= dst.len() / 2,
            2 * n == whole_pairs(src@.len() / 2 * 2, old(dst)@.len()),
            dst@.len() == old(dst)@.len(),
            forall|j: int| 0 <= j < 2 * i ==> dst@[j] == swapped_pairs(src@)[j],
            forall|j: int| 2 * i <= j < dst@.len() ==> dst@[j] == old(dst)@[j],
        decreases n - i,
    {
        dst[2 * i] = src[2 * i + 1];
        dst[2 * i + 1] = src[2 * i];
        i += 1;
    }
}

/// A plane of pixels as a flat plane of samples.
pub fn flatten_rgba_pixels(pixels: &[[u16; 4]]) -> (r: Vec<u16>)
    ensures
        r@ == flattened(pixels@),
{
    let mut out: Vec<u16> = Vec::new();
    let mut i: usize = 0;
    while i < pixels.len()
        invariant
            i <= pixels.len(),
            out@ == flattened(pixels@.take(i as int)),
        decreases pixels.len() - i,
    {
        let px: [u16; 4] = pixels[i];
        out.push(px[0]);
        out.push(px[1]);
        out.push(px[2]);
        out.push(px[3]);
        i += 1;
    }
    assert(pixels@.take(i as int) == pixels@);
    out
}

/// The 16 header bytes that announce an image of the given size.
pub(crate) fn new_header(width: u32, height: u32) -> (r: Vec<u8>)
    ensures
        r@ == header_bytes(width, height),
{
    let mut out: Vec<u8> = Vec::new();
    out.extend_from_slice(MAGIC);
    out.extend_from_slice(&be32_split(width));
    out.extend_from_slice(&be32_split(height));
    out
}

/// The message for a body that is not as long as the dimensions demand.
pub open spec fn body_mismatch_text(got: nat, announced: nat, width: u32, height: u32) -> Seq<
    char,
> {
    "farbfeld: body length mismatch — caller passed "@ + decimal(got)
        + " bytes, header announces "@ + decimal(announced) + " ("@ + decimal(width as nat)
        + "×"@ + decimal(height as nat) + " × 8)"@
}

/// The message for a pixel list that is not as long as the dimensions demand.
pub open spec fn pixel_mismatch_text(got: nat, announced: nat, width: u32, height: u32) -> Seq<
    char,
> {
    "farbfeld: pixel count mismatch — caller passed "@ + decimal(got)
        + " pixels, header announces "@ + decimal(announced) + " ("@ + decimal(width as nat)
        + "×"@ + decimal(height as nat) + ")"@
}

/// The message for an image with more or fewer samples than its dimensions
/// demand.
pub open spec fn sample_mismatch_text(got: nat, announced: nat, width: u32, height: u32) -> Seq<
    char,
> {
    "farbfeld: image.pixels has "@ + decimal(got) + " samples, header announces "@ + decimal(
        announced,
    ) + " ("@ + decimal(width as nat) + "×"@ + decimal(height as nat) + " × 4)"@
}

/// The file with the given body, or the message of the limit it breaks.
pub open spec fn sized_file_outcome(width: u32, height: u32, body: Seq<u8>) -> Result<
    Seq<u8>,
    Seq<char>,
> {
    match body_len_outcome(width, height) {
        Err(text) => Err(text),
        Ok(body_len) => if 16 + body_len > usize::MAX {
            Err(total_overflow_text())
        } else {
            Ok(file_bytes(width, height, body))
        },
    }
}

/// What encoding a ready-made body gives.
pub open spec fn encode_body_outcome(width: u32, height: u32, body: Seq<u8>) -> Result<
    Seq<u8>,
    Seq<char>,
> {
    match body_len_outcome(width, height) {
        Err(text) => Err(text),
        Ok(body_len) => if body.len() != body_len {
            Err(body_mismatch_text(body.len(), body_len as nat, width, height))
        } else {
            sized_file_outcome(width, height, body)
        },
    }
}

/// What encoding a list of pixels gives.
pub open spec fn encode_pixels_outcome(width: u32, height: u32, pixels: Seq<[u16; 4]>) -> Result<
    Seq<u8>,
    Seq<char>,
> {
    if width * height > usize::MAX {
        Err(pixel_count_overflow_text(width, height))
    } else if pixels.len() != width * height {
        Err(pixel_mismatch_text(pixels.len(), (width * height) as nat, width, height))
    } else {
        sized_file_outcome(width, height, be_bytes(flattened(pixels)))
    }
}

/// What encoding an image gives.
pub open spec fn encode_image_outcome(width: u32, height: u32, samples: Seq<u16>) -> Result<
    Seq<u8>,
    Seq<char>,
> {
    if width * height > usize::MAX {
        Err(pixel_count_overflow_text(width, height))
    } else if sample_total(width as nat, height as nat) > usize::MAX {
        Err(byte_count_overflow_text((width * height) as nat))
    } else if samples.len() != sample_total(width as nat, height as nat) {
        Err(
            sample_mismatch_text(
                samples.len(),
                sample_total(width as nat, height as nat),
                width,
                height,
            ),
        )
    } else {
        sized_file_outcome(width, height, be_bytes(samples))
    }
}

/// Encodes a file from a body that is already in on-disk order.
///
/// `rgba_u16_be` must be exactly `width * height * 8` bytes long; it follows
/// the header verbatim.
pub fn encode_farbfeld(width: u32, height: u32, rgba_u16_be: &[u8]) -> (r: Result<
    Vec<u8>,
    FarbfeldError,
>)
    ensures
        viewed_outcome(r) == encode_body_outcome(width, height, rgba_u16_be@),
{
    let body_len: usize = match checked_body_len(width, height) {
        Ok(body_len) => body_len,
        Err(e) => return Err(e),
    };
    if rgba_u16_be.len() != body_len {
        let mut msg = String::from_str("farbfeld: body length mismatch — caller passed ");
        push_decimal(&mut msg, rgba_u16_be.len() as u64);
        msg.append(" bytes, header announces ");
        push_decimal(&mut msg, body_len as u64);
        msg.append(" (");
        push_decimal(&mut msg, width as u64);
        msg.append("×");
        push_decimal(&mut msg, height as u64);
        msg.append(" × 8)");
        return Err(FarbfeldError::invalid(msg));
    }
    if body_len > usize::MAX - HEADER_LEN {
        return Err(total_overflow());
    }
    let mut out = new_header(width, height);
    out.extend_from_slice(rgba_u16_be);
    assert(out@ == file_bytes(width, height, rgba_u16_be@));
    Ok(out)
}

/// A file whose body is `samples`, big-endian.
fn encode_samples(width: u32, height: u32, samples: &[u16]) -> (r: Result<Vec<u8>, FarbfeldError>)
    requires
        samples@.len() == sample_total(width as nat, height as nat),
    ensures
        viewed_outcome(r) == sized_file_outcome(width, height, be_bytes(samples@)),
{
    let body_len: usize = match checked_body_len(width, height) {
        Ok(body_len) => body_len,
        Err(e) => return Err(e),
    };
    if body_len > usize::MAX - HEADER_LEN {
        return Err(total_overflow());
    }
    let mut out = new_header(width, height);
    out.resize(HEADER_LEN + body_len, 0);
    {
        let (_, body) = out.as_mut_slice().split_at_mut(HEADER_LEN);
        encode_be_samples(samples, body);
    }
    assert(out@ == file_bytes(width, height, be_bytes(samples@)));
    Ok(out)
}

/// Encodes a file from native-endian pixels.
///
/// `pixels` must be exactly `width * height` long; each `[r, g, b, a]` becomes
/// four big-endian samples.
pub fn encode_farbfeld_from_rgba16(width: u32, height: u32, pixels: &[[u16; 4]]) -> (r: Result<
    Vec<u8>,
    FarbfeldError,
>)
    ensures
        viewed_outcome(r) == encode_pixels_outcome(width, height, pixels@),
{
    let pixel_count: usize = match (width as usize).checked_mul(height as usize) {
        Some(pixel_count) => pixel_count,
        None => return Err(pixel_count_overflow(width, height)),
    };
    if pixels.len() != pixel_count {
        let mut msg = String::from_str("farbfeld: pixel count mismatch — caller passed ");
        push_decimal(&mut msg, pixels.len() as u64);
        msg.append(" pixels, header announces ");
        push_decimal(&mut msg, pixel_count as u64);
        msg.append(" (");
        push_decimal(&mut msg, width as u64);
        msg.append("×");
        push_decimal(&mut msg, height as u64);
        msg.append(")");
        return Err(FarbfeldError::invalid(msg));
    }
    let flat: Vec<u16> = flatten_rgba_pixels(pixels);
    encode_samples(width, height, flat.as_slice())
}

/// Encodes an image.
///
/// An image whose sample count does not match its dimensions is refused.
pub fn encode_farbfeld_image(image: &FarbfeldImage) -> (r: Result<Vec<u8>, FarbfeldError>)
    ensures
        viewed_outcome(r) == encode_image_outcome(image.width, image.height, image.pixels@),
{
    let pixel_count: usize = match (image.width as usize).checked_mul(image.height as usize) {
        Some(pixel_count) => pixel_count,
        None => return Err(pixel_count_overflow(image.width, image.height)),
    };
    let sample_count: usize = match pixel_count.checked_mul(CHANNELS_PER_PIXEL) {
        Some(sample_count) => sample_count,
        None => return Err(byte_count_overflow(pixel_count)),
    };
    if image.pixels.len() != sample_count {
        let mut msg = String::from_str("farbfeld: image.pixels has ");
        push_decimal(&mut msg, image.pixels.len() as u64);
        msg.append(" samples, header announces ");
        push_decimal(&mut msg, sample_count as u64);
        msg.append(" (");
        push_decimal(&mut msg, image.width as u64);
        msg.append("×");
        push_decimal(&mut msg, image.height as u64);
        msg.append(" × 4)");
        return Err(FarbfeldError::invalid(msg));
    }
    encode_samples(image.width, image.height, image.pixels.as_slice())
}

} // verus!
