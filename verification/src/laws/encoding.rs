//! What the encoders put into a file, byte by byte.
//!
//! Each law takes the arguments of an operation and a result that its contract
//! allows, and says what the result holds.

use vstd::prelude::*;

use crate::encoder::{
    encode_be_samples, encode_farbfeld, encode_farbfeld_from_rgba16, encode_farbfeld_image,
    encode_le_samples, flatten_rgba_pixels, swap_pairs_le_to_be,
};
use crate::error::FarbfeldError;
use crate::format::{
    be32_bytes, be_bytes, file_bytes, flattened, header_bytes, BYTES_PER_PIXEL,
    CHANNELS_PER_PIXEL, HEADER_LEN, MAGIC,
};
use crate::image::FarbfeldImage;
use crate::text::decimal;

verus! {

/// Whether the first 16 bytes are the letters `farbfeld` and the two dimensions,
/// most significant byte first.
pub open spec fn begins_with_header(bytes: Seq<u8>, width: u32, height: u32) -> bool {
    &&& bytes.len() >= 16
    &&& bytes.take(8) == seq![0x66u8, 0x61, 0x72, 0x62, 0x66, 0x65, 0x6c, 0x64]
    &&& bytes[8] * 0x100_0000 + bytes[9] * 0x1_0000 + bytes[10] * 0x100 + bytes[11] == width
    &&& bytes[12] * 0x100_0000 + bytes[13] * 0x1_0000 + bytes[14] * 0x100 + bytes[15] == height
}

/// The header that a file is made with is the one that it begins with.
pub(crate) proof fn lemma_made_header(width: u32, height: u32, body: Seq<u8>)
    ensures
        begins_with_header(file_bytes(width, height, body), width, height),
        begins_with_header(header_bytes(width, height), width, height),
        header_bytes(width, height).len() == 16,
        file_bytes(width, height, body).len() == 16 + body.len(),
        file_bytes(width, height, body).skip(16) == body,
{
    let header = header_bytes(width, height);
    let file = file_bytes(width, height, body);
    let magic = seq![0x66u8, 0x61, 0x72, 0x62, 0x66, 0x65, 0x6c, 0x64];
    assert(MAGIC@ =~= magic);
    assert(header.take(8) =~= magic);
    assert(file.take(8) =~= magic);
    assert(file.skip(16) =~= body);
    lemma_four_bytes(width);
    lemma_four_bytes(height);
    assert(header.subrange(8, 12) =~= be32_bytes(width));
    assert(header.subrange(12, 16) =~= be32_bytes(height));
    assert(header[8] == header.subrange(8, 12)[0]);
    assert(header[9] == header.subrange(8, 12)[1]);
    assert(header[10] == header.subrange(8, 12)[2]);
    assert(header[11] == header.subrange(8, 12)[3]);
    assert(header[12] == header.subrange(12, 16)[0]);
    assert(header[13] == header.subrange(12, 16)[1]);
    assert(header[14] == header.subrange(12, 16)[2]);
    assert(header[15] == header.subrange(12, 16)[3]);
    assert(file.take(16) =~= header);
    assert forall|i: int| 0 <= i < 16 implies file[i] == header[i] by {
        assert(file[i] == file.take(16)[i]);
    }
}

/// The four bytes of a number add up to it.
proof fn lemma_four_bytes(v: u32)
    ensures
        be32_bytes(v).len() == 4,
        ({
            let b = be32_bytes(v);
            b[0] * 0x100_0000 + b[1] * 0x1_0000 + b[2] * 0x100 + b[3] == v
        }),
{
}

/// The fixed numbers of the format: the letters `farbfeld`, a header of 16 bytes,
/// and pixels of 4 channels in 8 bytes.
pub proof fn law_fixed_numbers()
    ensures
        MAGIC@ == seq![0x66u8, 0x61, 0x72, 0x62, 0x66, 0x65, 0x6c, 0x64],
        HEADER_LEN == 16,
        BYTES_PER_PIXEL == 8,
        CHANNELS_PER_PIXEL == 4,
{
    assert(MAGIC@ =~= seq![0x66u8, 0x61, 0x72, 0x62, 0x66, 0x65, 0x6c, 0x64]);
}

/// Encoding pixels: the file is the header and then, for channel `c` of pixel
/// `p`, the high byte at `16 + 8 * p + 2 * c` and the low byte behind it. It is
/// refused where there are not `width * height` pixels, or where a length does
/// not fit in `usize`.
pub proof fn law_pixels_on_disk(
    width: u32,
    height: u32,
    pixels: &[[u16; 4]],
    r: Result<Vec<u8>, FarbfeldError>,
)
    requires
        call_ensures(encode_farbfeld_from_rgba16, (width, height, pixels), r),
    ensures
        call_requires(encode_farbfeld_from_rgba16, (width, height, pixels)),
        match r {
            Ok(file) => {
                &&& pixels@.len() == width * height
                &&& file@.len() == 16 + 8 * pixels@.len()
                &&& begins_with_header(file@, width, height)
                &&& forall|p: int, c: int|
                    0 <= p < pixels@.len() && 0 <= c < 4 ==> {
                        &&& file@[16 + 8 * p + 2 * c] == #[trigger] pixels@[p]@[c] / 256
                        &&& file@[16 + 8 * p + 2 * c + 1] == pixels@[p]@[c] % 256
                    }
            },
            Err(FarbfeldError::InvalidData(message)) => {
                ||| width * height > usize::MAX && message@ == "farbfeld: width*height ("@
                    + decimal(width as nat) + " * "@ + decimal(height as nat)
                    + ") overflows usize"@
                ||| width * height <= usize::MAX && pixels@.len() != width * height && message@
                    == "farbfeld: pixel count mismatch — caller passed "@ + decimal(
                    pixels@.len(),
                ) + " pixels, header announces "@ + decimal((width * height) as nat) + " ("@
                    + decimal(width as nat) + "×"@ + decimal(height as nat) + ")"@
                ||| pixels@.len() == width * height && width * height * 8 > usize::MAX && message@
                    == "farbfeld: pixel byte count ("@ + decimal((width * height) as nat)
                    + " * 8) overflows usize"@
                ||| pixels@.len() == width * height && width * height * 8 <= usize::MAX && 16
                    + width * height * 8 > usize::MAX && message@
                    == "farbfeld: total file size overflows usize"@
            },
        },
{
    assert(0 <= width * height) by (nonlinear_arith);
    if let Ok(file) = r {
        let body = be_bytes(flattened(pixels@));
        lemma_made_header(width, height, body);
        assert forall|p: int, c: int| 0 <= p < pixels@.len() && 0 <= c < 4 implies {
            &&& file@[16 + 8 * p + 2 * c] == #[trigger] pixels@[p]@[c] / 256
            &&& file@[16 + 8 * p + 2 * c + 1] == pixels@[p]@[c] % 256
        } by {
            let i = 4 * p + c;
            assert(flattened(pixels@)[i] == pixels@[p]@[c]);
            assert(file@.skip(16)[2 * i] == file@[16 + 2 * i]);
            assert(file@.skip(16)[2 * i + 1] == file@[16 + 2 * i + 1]);
        }
    }
}

/// Encoding an image: the file is the header and then, for sample `i`, the high
/// byte at `16 + 2 * i` and the low byte behind it. It is refused where there are
/// not `width * height * 4` samples, or where a length does not fit in `usize`.
pub proof fn law_image_on_disk(image: &FarbfeldImage, r: Result<Vec<u8>, FarbfeldError>)
    requires
        call_ensures(encode_farbfeld_image, (image,), r),
    ensures
        call_requires(encode_farbfeld_image, (image,)),
        ({
            let (width, height) = (image.width, image.height);
            let samples = image.pixels@;
            match r {
                Ok(file) => {
                    &&& samples.len() == width * height * 4
                    &&& file@.len() == 16 + 2 * samples.len()
                    &&& begins_with_header(file@, width, height)
                    &&& forall|i: int|
                        0 <= i < samples.len() ==> {
                            &&& file@[16 + 2 * i] == #[trigger] samples[i] / 256
                            &&& file@[16 + 2 * i + 1] == samples[i] % 256
                        }
                },
                Err(FarbfeldError::InvalidData(message)) => {
                    ||| width * height > usize::MAX && message@ == "farbfeld: width*height ("@
                        + decimal(width as nat) + " * "@ + decimal(height as nat)
                        + ") overflows usize"@
                    ||| width * height <= usize::MAX && width * height * 4 > usize::MAX && message@
                        == "farbfeld: pixel byte count ("@ + decimal((width * height) as nat)
                        + " * 8) overflows usize"@
                    ||| width * height * 4 <= usize::MAX && samples.len() != width * height * 4
                        && message@ == "farbfeld: image.pixels has "@ + decimal(samples.len())
                        + " samples, header announces "@ + decimal((width * height * 4) as nat)
                        + " ("@ + decimal(width as nat) + "×"@ + decimal(height as nat) + " × 4)"@
                    ||| samples.len() == width * height * 4 && width * height * 8 > usize::MAX
                        && message@ == "farbfeld: pixel byte count ("@ + decimal(
                        (width * height) as nat,
                    ) + " * 8) overflows usize"@
                    ||| samples.len() == width * height * 4 && width * height * 8 <= usize::MAX
                        && 16 + width * height * 8 > usize::MAX && message@
                        == "farbfeld: total file size overflows usize"@
                },
            }
        }),
{
    assert(0 <= image.width * image.height) by (nonlinear_arith);
    if let Ok(file) = r {
        let samples = image.pixels@;
        lemma_made_header(image.width, image.height, be_bytes(samples));
        assert forall|i: int| 0 <= i < samples.len() implies {
            &&& file@[16 + 2 * i] == #[trigger] samples[i] / 256
            &&& file@[16 + 2 * i + 1] == samples[i] % 256
        } by {
            assert(file@.skip(16)[2 * i] == file@[16 + 2 * i]);
            assert(file@.skip(16)[2 * i + 1] == file@[16 + 2 * i + 1]);
        }
    }
}

/// Encoding a body that is already in on-disk order: the file is the header and
/// then the body. It is refused where the body is not `width * height * 8` bytes
/// long, or where a length does not fit in `usize`.
pub proof fn law_body_on_disk(
    width: u32,
    height: u32,
    body: &[u8],
    r: Result<Vec<u8>, FarbfeldError>,
)
    requires
        call_ensures(encode_farbfeld, (width, height, body), r),
    ensures
        call_requires(encode_farbfeld, (width, height, body)),
        match r {
            Ok(file) => {
                &&& body@.len() == width * height * 8
                &&& begins_with_header(file@, width, height)
                &&& file@.skip(16) == body@
            },
            Err(FarbfeldError::InvalidData(message)) => {
                ||| width * height > usize::MAX && message@ == "farbfeld: width*height ("@
                    + decimal(width as nat) + " * "@ + decimal(height as nat)
                    + ") overflows usize"@
                ||| width * height <= usize::MAX && width * height * 8 > usize::MAX && message@
                    == "farbfeld: pixel byte count ("@ + decimal((width * height) as nat)
                    + " * 8) overflows usize"@
                ||| width * height * 8 <= usize::MAX && body@.len() != width * height * 8
                    && message@ == "farbfeld: body length mismatch — caller passed "@ + decimal(
                    body@.len(),
                ) + " bytes, header announces "@ + decimal((width * height * 8) as nat) + " ("@
                    + decimal(width as nat) + "×"@ + decimal(height as nat) + " × 8)"@
                ||| body@.len() == width * height * 8 && 16 + width * height * 8 > usize::MAX
                    && message@ == "farbfeld: total file size overflows usize"@
            },
        },
{
    assert(0 <= width * height) by (nonlinear_arith);
    lemma_made_header(width, height, body@);
}

/// Pixels as samples: sample `4 * p + c` is channel `c` of pixel `p`.
pub proof fn law_flat_pixels(pixels: &[[u16; 4]], r: Vec<u16>)
    requires
        call_ensures(flatten_rgba_pixels, (pixels,), r),
    ensures
        call_requires(flatten_rgba_pixels, (pixels,)),
        r@.len() == 4 * pixels@.len(),
        forall|p: int, c: int|
            0 <= p < pixels@.len() && 0 <= c < 4 ==> r@[4 * p + c] == #[trigger] pixels@[p]@[c],
{
}

/// Samples as bytes, high byte first: the pairs that both sides have are
/// written, and no other byte changes.
pub proof fn law_samples_high_byte_first(samples: &[u16], out: &mut [u8])
    requires
        call_ensures(encode_be_samples, (samples, out), ()),
    ensures
        call_requires(encode_be_samples, (samples, out)),
        final(out)@.len() == old(out)@.len(),
        forall|i: int|
            0 <= i < samples@.len() && 2 * i + 1 < old(out)@.len() ==> {
                &&& final(out)@[2 * i] == #[trigger] samples@[i] / 256
                &&& final(out)@[2 * i + 1] == samples@[i] % 256
            },
        forall|j: int|
            0 <= j < old(out)@.len() && (j >= 2 * samples@.len() || j == old(out)@.len() - 1 && j
                % 2 == 0) ==> #[trigger] final(out)@[j] == old(out)@[j],
{
}

/// Samples as bytes, low byte first: the pairs that both sides have are written,
/// and no other byte changes.
pub proof fn law_samples_low_byte_first(samples: &[u16], out: &mut [u8])
    requires
        call_ensures(encode_le_samples, (samples, out), ()),
    ensures
        call_requires(encode_le_samples, (samples, out)),
        final(out)@.len() == old(out)@.len(),
        forall|i: int|
            0 <= i < samples@.len() && 2 * i + 1 < old(out)@.len() ==> {
                &&& final(out)@[2 * i] == #[trigger] samples@[i] % 256
                &&& final(out)@[2 * i + 1] == samples@[i] / 256
            },
        forall|j: int|
            0 <= j < old(out)@.len() && (j >= 2 * samples@.len() || j == old(out)@.len() - 1 && j
                % 2 == 0) ==> #[trigger] final(out)@[j] == old(out)@[j],
{
}

/// Exchanging the bytes of each pair: the pairs that both sides have are written,
/// and no other byte changes.
pub proof fn law_pairs_exchanged(src: &[u8], dst: &mut [u8])
    requires
        call_ensures(swap_pairs_le_to_be, (src, dst), ()),
    ensures
        call_requires(swap_pairs_le_to_be, (src, dst)),
        final(dst)@.len() == old(dst)@.len(),
        forall|i: int|
            #![trigger final(dst)@[2 * i]]
            0 <= i && 2 * i + 1 < src@.len() && 2 * i + 1 < old(dst)@.len() ==> {
                &&& final(dst)@[2 * i] == src@[2 * i + 1]
                &&& final(dst)@[2 * i + 1] == src@[2 * i]
            },
        forall|j: int|
            0 <= j < old(dst)@.len() && (j >= src@.len() || j == src@.len() - 1 && j % 2 == 0 || j
                == old(dst)@.len() - 1 && j % 2 == 0) ==> #[trigger] final(dst)@[j]
                == old(dst)@[j],
{
}

} // verus!
