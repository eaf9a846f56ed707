//! What the parser reads out of a file, byte by byte.

use vstd::prelude::*;

use crate::encoder::{encode_farbfeld, encode_farbfeld_from_rgba16, encode_farbfeld_image};
use crate::error::FarbfeldError;
use crate::image::FarbfeldImage;
use crate::laws::encoding::{
    begins_with_header, law_body_on_disk, law_image_on_disk, law_pixels_on_disk,
};
use crate::laws::law_encode_after_decode;
use crate::parser::{
    decode_be_samples, header_height, header_width, parse_farbfeld, parse_farbfeld_header,
    peek_farbfeld_dimensions, FarbfeldHeader, MAGIC,
};
use crate::text::{byte_list, decimal};

verus! {

/// Bytes that begin with a header begin with the magic and carry its dimensions.
pub(crate) proof fn lemma_header_fields(bytes: Seq<u8>)
    requires
        bytes.len() >= 16,
    ensures
        bytes.take(8) == MAGIC@ ==> begins_with_header(
            bytes,
            header_width(bytes),
            header_height(bytes),
        ),
        forall|width: u32, height: u32| #[trigger]
            begins_with_header(bytes, width, height) ==> bytes.take(8) == MAGIC@ && width
                == header_width(bytes) && height == header_height(bytes),
{
    assert(MAGIC@ =~= seq![0x66u8, 0x61, 0x72, 0x62, 0x66, 0x65, 0x6c, 0x64]);
}

/// What reading a header says: where the 16 bytes are there and are a header,
/// its dimensions and the body length `width * height * 8`. It is refused where
/// there are fewer bytes, where the first eight are not the letters `farbfeld`,
/// or where a product does not fit in `usize`.
pub open spec fn reads_header(bytes: Seq<u8>, r: Result<FarbfeldHeader, FarbfeldError>) -> bool {
    match r {
        Ok(header) => {
            &&& begins_with_header(bytes, header.width, header.height)
            &&& header.body_len == header.width * header.height * 8
        },
        Err(FarbfeldError::InvalidData(message)) => {
            ||| bytes.len() < 16 && message@ == "farbfeld: header truncated — got "@ + decimal(
                bytes.len(),
            ) + " bytes, need at least 16"@
            ||| bytes.len() >= 16 && bytes.take(8) != seq![
                0x66u8,
                0x61,
                0x72,
                0x62,
                0x66,
                0x65,
                0x6c,
                0x64,
            ] && message@ == "farbfeld: bad magic "@ + byte_list(bytes.take(8))
                + ", expected "@ + byte_list(seq![0x66u8, 0x61, 0x72, 0x62, 0x66, 0x65, 0x6c, 0x64])
            ||| exists|width: u32, height: u32| #[trigger]
                begins_with_header(bytes, width, height) && width * height > usize::MAX && message@
                    == "farbfeld: width*height ("@ + decimal(width as nat) + " * "@ + decimal(
                    height as nat,
                ) + ") overflows usize"@
            ||| exists|width: u32, height: u32| #[trigger]
                begins_with_header(bytes, width, height) && width * height <= usize::MAX && width
                    * height * 8 > usize::MAX && message@ == "farbfeld: pixel byte count ("@
                    + decimal((width * height) as nat) + " * 8) overflows usize"@
        },
    }
}

/// Reading a header, alone or as a peek at a file, says what its bytes say.
pub proof fn law_header_is_read(bytes: &[u8], r: Result<FarbfeldHeader, FarbfeldError>)
    requires
        call_ensures(parse_farbfeld_header, (bytes,), r) || call_ensures(
            peek_farbfeld_dimensions,
            (bytes,),
            r,
        ),
    ensures
        call_requires(parse_farbfeld_header, (bytes,)),
        call_requires(peek_farbfeld_dimensions, (bytes,)),
        reads_header(bytes@, r),
{
    assert(MAGIC@ =~= seq![0x66u8, 0x61, 0x72, 0x62, 0x66, 0x65, 0x6c, 0x64]);
    if bytes@.len() >= 16 {
        lemma_header_fields(bytes@);
        let (width, height) = (header_width(bytes@), header_height(bytes@));
        assert(0 <= width * height) by (nonlinear_arith);
        if bytes@.take(8) == MAGIC@ {
            assert(begins_with_header(bytes@, width, height));
        }
    }
}

/// The file that a header announces is 16 bytes longer than its body, and is
/// refused where that does not fit in `usize`.
pub proof fn law_announced_length(header: &FarbfeldHeader, r: Result<usize, FarbfeldError>)
    requires
        call_ensures(FarbfeldHeader::total_len, (header,), r),
    ensures
        call_requires(FarbfeldHeader::total_len, (header,)),
        match r {
            Ok(total) => total == 16 + header.body_len,
            Err(FarbfeldError::InvalidData(message)) => 16 + header.body_len > usize::MAX
                && message@ == "farbfeld: total file size overflows usize"@,
        },
{
}

/// Parsing a file: it is accepted exactly where it begins with a header and is as
/// long as that announces, and sample `i` of the image is then made of the bytes
/// at `16 + 2 * i` and behind it, high byte first.
pub proof fn law_file_is_read(bytes: &[u8], r: Result<FarbfeldImage, FarbfeldError>)
    requires
        call_ensures(parse_farbfeld, (bytes,), r),
    ensures
        call_requires(parse_farbfeld, (bytes,)),
        match r {
            Ok(image) => {
                &&& begins_with_header(bytes@, image.width, image.height)
                &&& bytes@.len() == 16 + image.width * image.height * 8
                &&& image.pixels@.len() == image.width * image.height * 4
                &&& forall|i: int|
                    0 <= i < image.pixels@.len() ==> #[trigger] image.pixels@[i] == bytes@[16 + 2
                        * i] * 256 + bytes@[16 + 2 * i + 1]
            },
            Err(FarbfeldError::InvalidData(message)) => {
                &&& forall|width: u32, height: u32| #[trigger]
                    begins_with_header(bytes@, width, height) ==> bytes@.len() != 16 + width
                        * height * 8
                &&& {
                    ||| reads_header(bytes@, Err(FarbfeldError::InvalidData(message)))
                    ||| exists|width: u32, height: u32| #[trigger]
                        begins_with_header(bytes@, width, height) && width * height * 8
                            <= usize::MAX && 16 + width * height * 8 > usize::MAX && message@
                            == "farbfeld: total file size overflows usize"@
                    ||| exists|width: u32, height: u32| #[trigger]
                        begins_with_header(bytes@, width, height) && 16 + width * height * 8
                            <= usize::MAX && message@ == "farbfeld: body size mismatch — file has "@ + decimal(
                            bytes@.len(),
                        ) + " bytes, header announces "@ + decimal(
                            (16 + width * height * 8) as nat,
                        ) + " ("@ + decimal(width as nat) + "×"@ + decimal(height as nat)
                            + " pixels × 8 bytes + 16 header)"@
                }
            },
        },
{
    assert(MAGIC@ =~= seq![0x66u8, 0x61, 0x72, 0x62, 0x66, 0x65, 0x6c, 0x64]);
    assert(bytes.len() <= usize::MAX);
    if bytes@.len() >= 16 {
        lemma_header_fields(bytes@);
        let (width, height) = (header_width(bytes@), header_height(bytes@));
        assert(0 <= width * height) by (nonlinear_arith);
        if bytes@.take(8) == MAGIC@ {
            assert(begins_with_header(bytes@, width, height));
        }
        if let Ok(image) = r {
            assert forall|i: int| 0 <= i < image.pixels@.len() implies #[trigger] image.pixels@[i]
                == bytes@[16 + 2 * i] * 256 + bytes@[16 + 2 * i + 1] by {
                assert(bytes@.skip(16)[2 * i] == bytes@[16 + 2 * i]);
                assert(bytes@.skip(16)[2 * i + 1] == bytes@[16 + 2 * i + 1]);
            }
        }
    }
}

/// Bytes as samples, high byte first: the slots that both sides have are filled,
/// and no other slot changes.
pub proof fn law_samples_from_bytes(body: &[u8], out: &mut [u16])
    requires
        call_ensures(decode_be_samples, (body, out), ()),
    ensures
        call_requires(decode_be_samples, (body, out)),
        final(out)@.len() == old(out)@.len(),
        forall|i: int|
            0 <= i < old(out)@.len() ==> #[trigger] final(out)@[i] == (if 2 * i + 1 < body@.len() {
                body@[2 * i] * 256 + body@[2 * i + 1]
            } else {
                old(out)@[i] as int
            }),
{
}

/// A file that begins with a header and is as long as that announces is accepted,
/// with the dimensions of the header.
proof fn lemma_whole_file(
    bytes: &[u8],
    width: u32,
    height: u32,
    r: Result<FarbfeldImage, FarbfeldError>,
)
    requires
        call_ensures(parse_farbfeld, (bytes,), r),
        begins_with_header(bytes@, width, height),
        bytes@.len() == 16 + width * height * 8,
    ensures
        r is Ok,
        r->Ok_0.width == width,
        r->Ok_0.height == height,
        r->Ok_0.pixels@.len() == width * height * 4,
        forall|i: int|
            0 <= i < r->Ok_0.pixels@.len() ==> #[trigger] r->Ok_0.pixels@[i] == bytes@[16 + 2 * i]
                * 256 + bytes@[16 + 2 * i + 1],
{
    law_file_is_read(bytes, r);
    lemma_header_fields(bytes@);
}

/// Samples that were written high byte first are read back.
proof fn lemma_samples_back(file: Seq<u8>, samples: Seq<u16>, read: Seq<u16>)
    requires
        read.len() == samples.len(),
        forall|i: int|
            0 <= i < samples.len() ==> {
                &&& file[16 + 2 * i] == #[trigger] samples[i] / 256
                &&& file[16 + 2 * i + 1] == samples[i] % 256
            },
        forall|i: int|
            0 <= i < read.len() ==> #[trigger] read[i] == file[16 + 2 * i] * 256 + file[16 + 2 * i
                + 1],
    ensures
        read == samples,
{
    assert forall|i: int| 0 <= i < read.len() implies read[i] == samples[i] by {
        assert(file[16 + 2 * i] == samples[i] / 256);
    }
    assert(read =~= samples);
}

/// Pixels that were written high byte first are read back.
proof fn lemma_pixels_back(file: Seq<u8>, pixels: Seq<[u16; 4]>, read: Seq<u16>)
    requires
        read.len() == 4 * pixels.len(),
        forall|p: int, c: int|
            0 <= p < pixels.len() && 0 <= c < 4 ==> {
                &&& file[16 + 8 * p + 2 * c] == #[trigger] pixels[p]@[c] / 256
                &&& file[16 + 8 * p + 2 * c + 1] == pixels[p]@[c] % 256
            },
        forall|i: int|
            0 <= i < read.len() ==> #[trigger] read[i] == file[16 + 2 * i] * 256 + file[16 + 2 * i
                + 1],
    ensures
        forall|p: int, c: int|
            0 <= p < pixels.len() && 0 <= c < 4 ==> read[4 * p + c] == #[trigger] pixels[p]@[c],
{
    assert forall|p: int, c: int| 0 <= p < pixels.len() && 0 <= c < 4 implies read[4 * p + c]
        == #[trigger] pixels[p]@[c] by {
        let i = 4 * p + c;
        assert(read[i] == file[16 + 2 * i] * 256 + file[16 + 2 * i + 1]);
    }
}

/// A file that was encoded from pixels parses to them: sample `4 * p + c` is
/// channel `c` of pixel `p`.
pub proof fn law_encoded_pixels_parse_back(
    width: u32,
    height: u32,
    pixels: &[[u16; 4]],
    file: Vec<u8>,
    bytes: &[u8],
    r: Result<FarbfeldImage, FarbfeldError>,
)
    requires
        call_ensures(encode_farbfeld_from_rgba16, (width, height, pixels), Ok(file)),
        bytes@ == file@,
        call_ensures(parse_farbfeld, (bytes,), r),
    ensures
        call_requires(encode_farbfeld_from_rgba16, (width, height, pixels)),
        call_requires(parse_farbfeld, (bytes,)),
        r matches Ok(image) && {
            &&& image.width == width
            &&& image.height == height
            &&& image.pixels@.len() == 4 * pixels@.len()
            &&& forall|p: int, c: int|
                0 <= p < pixels@.len() && 0 <= c < 4 ==> image.pixels@[4 * p + c]
                    == #[trigger] pixels@[p]@[c]
        },
{
    law_pixels_on_disk(width, height, pixels, Ok(file));
    lemma_whole_file(bytes, width, height, r);
    lemma_pixels_back(bytes@, pixels@, r->Ok_0.pixels@);
}

/// A file that was encoded from an image parses to it.
pub proof fn law_encoded_image_parses_back(
    image: &FarbfeldImage,
    file: Vec<u8>,
    bytes: &[u8],
    r: Result<FarbfeldImage, FarbfeldError>,
)
    requires
        call_ensures(encode_farbfeld_image, (image,), Ok(file)),
        bytes@ == file@,
        call_ensures(parse_farbfeld, (bytes,), r),
    ensures
        call_requires(encode_farbfeld_image, (image,)),
        call_requires(parse_farbfeld, (bytes,)),
        r matches Ok(read) && read.width == image.width && read.height == image.height
            && read.pixels@ == image.pixels@,
{
    law_image_on_disk(image, Ok(file));
    lemma_whole_file(bytes, image.width, image.height, r);
    lemma_samples_back(bytes@, image.pixels@, r->Ok_0.pixels@);
}

/// A file that was encoded from a body in on-disk order parses to the samples
/// that the body denotes, high byte first.
pub proof fn law_encoded_body_parses_back(
    width: u32,
    height: u32,
    body: &[u8],
    file: Vec<u8>,
    bytes: &[u8],
    r: Result<FarbfeldImage, FarbfeldError>,
)
    requires
        call_ensures(encode_farbfeld, (width, height, body), Ok(file)),
        bytes@ == file@,
        call_ensures(parse_farbfeld, (bytes,), r),
    ensures
        call_requires(encode_farbfeld, (width, height, body)),
        call_requires(parse_farbfeld, (bytes,)),
        r matches Ok(image) && {
            &&& image.width == width
            &&& image.height == height
            &&& 2 * image.pixels@.len() == body@.len()
            &&& forall|i: int|
                0 <= i < image.pixels@.len() ==> #[trigger] image.pixels@[i] == body@[2 * i] * 256
                    + body@[2 * i + 1]
        },
{
    law_body_on_disk(width, height, body, Ok(file));
    lemma_whole_file(bytes, width, height, r);
    let image = r->Ok_0;
    assert forall|i: int| 0 <= i < image.pixels@.len() implies #[trigger] image.pixels@[i]
        == body@[2 * i] * 256 + body@[2 * i + 1] by {
        assert(file@.skip(16)[2 * i] == file@[16 + 2 * i]);
        assert(file@.skip(16)[2 * i + 1] == file@[16 + 2 * i + 1]);
    }
}

/// A file that parses is the one that encoding its image gives.
pub proof fn law_parsed_file_encodes_back(
    bytes: &[u8],
    image: &FarbfeldImage,
    r: Result<Vec<u8>, FarbfeldError>,
)
    requires
        call_ensures(parse_farbfeld, (bytes,), Ok(*image)),
        call_ensures(encode_farbfeld_image, (image,), r),
    ensures
        call_requires(parse_farbfeld, (bytes,)),
        call_requires(encode_farbfeld_image, (image,)),
        r matches Ok(file) && file@ == bytes@,
{
    law_encode_after_decode(bytes@);
}

} // verus!
