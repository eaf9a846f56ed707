//! What holds of several operations together.
//!
//! Each law here is stated over the same specification functions as the contracts
//! of the operations that it relates. The laws in the modules below take the
//! arguments of an operation and any result that its contract allows, and say in
//! bytes, samples and numbers what the result is.

use vstd::arithmetic::div_mod::lemma_fundamental_div_mod_converse;
use vstd::prelude::*;

use crate::container::{evidence, Evidence};
use crate::decoder::decode_outcome;
use crate::encoder::{encode_body_outcome, encode_image_outcome, encode_pixels_outcome};
use crate::error::{outcome, viewed_outcome, FarbfeldError};
use crate::format::{
    be32_bytes, be32_value, be_bytes, be_samples, body_size, chunk, chunks, file_bytes, flattened,
    header_bytes, high_byte, le_bytes, le_samples, lemma_chunk_within, lemma_joined_chunks,
    low_byte, sample_of, sample_total, swapped_pairs, MAGIC,
};
use crate::frame_encoder::{packed_rows, plane_outcome};
use crate::image::FarbfeldImage;
use crate::parser::{
    body_len_outcome, file_outcome, header_height, header_outcome, header_width, total_len_outcome,
    FarbfeldHeader,
};
use crate::stream::lemma_short;
use crate::stream::reader::{open_outcome, ReaderState};
use crate::stream::writer::{create_outcome, WriterState};
use crate::transport::{Account, Supply};

pub mod encoding;
pub mod frames;
pub mod images;
pub mod parsing;
pub mod reading;
pub mod texts;
pub mod transports;
pub mod writing;

verus! {

/// Samples survive the way to big-endian bytes and back, in both directions.
pub proof fn law_big_endian_round_trip(samples: Seq<u16>, bytes: Seq<u8>)
    ensures
        be_samples(be_bytes(samples)) == samples,
        bytes.len() % 2 == 0 ==> be_bytes(be_samples(bytes)) == bytes,
{
    assert forall|i: int| 0 <= i < samples.len() implies be_samples(be_bytes(samples))[i]
        == samples[i] by {
        assert(be_bytes(samples)[2 * i] == high_byte(samples[i]));
        assert(be_bytes(samples)[2 * i + 1] == low_byte(samples[i]));
    }
    if bytes.len() % 2 == 0 {
        assert forall|i: int| 0 <= i < bytes.len() implies be_bytes(be_samples(bytes))[i]
            == bytes[i] by {
            let k = i / 2;
            assert(be_samples(bytes)[k] == sample_of(bytes[2 * k], bytes[2 * k + 1]));
        }
    }
}

/// Samples survive the way to little-endian bytes and back, in both directions.
pub proof fn law_little_endian_round_trip(samples: Seq<u16>, bytes: Seq<u8>)
    ensures
        le_samples(le_bytes(samples)) == samples,
        bytes.len() % 2 == 0 ==> le_bytes(le_samples(bytes)) == bytes,
{
    assert forall|i: int| 0 <= i < samples.len() implies le_samples(le_bytes(samples))[i]
        == samples[i] by {
        assert(le_bytes(samples)[2 * i + 1] == high_byte(samples[i]));
        assert(le_bytes(samples)[2 * i] == low_byte(samples[i]));
    }
    if bytes.len() % 2 == 0 {
        assert forall|i: int| 0 <= i < bytes.len() implies le_bytes(le_samples(bytes))[i]
            == bytes[i] by {
            let k = i / 2;
            assert(le_samples(bytes)[k] == sample_of(bytes[2 * k + 1], bytes[2 * k]));
        }
    }
}

/// Swapping the bytes of each pair turns either byte order into the other, and
/// twice swapped is not swapped.
pub proof fn law_swapping_pairs(samples: Seq<u16>, bytes: Seq<u8>)
    ensures
        swapped_pairs(le_bytes(samples)) == be_bytes(samples),
        swapped_pairs(be_bytes(samples)) == le_bytes(samples),
        bytes.len() % 2 == 0 ==> swapped_pairs(swapped_pairs(bytes)) == bytes,
{
    assert(swapped_pairs(le_bytes(samples)) =~= be_bytes(samples));
    assert(swapped_pairs(be_bytes(samples)) =~= le_bytes(samples));
    if bytes.len() % 2 == 0 {
        assert(swapped_pairs(swapped_pairs(bytes)) =~= bytes);
    }
}

/// A body length is `width * height * 8` or refused: it is never wrapped.
pub proof fn law_body_length_exact(width: u32, height: u32)
    ensures
        body_len_outcome(width, height) is Ok <==> width * height * 8 <= usize::MAX,
        body_len_outcome(width, height) matches Ok(n) ==> n == width * height * 8,
{
    assert(0 <= width * height) by (nonlinear_arith);
}

/// The bytes of a header say what it was made from.
proof fn lemma_header_echo(width: u32, height: u32, rest: Seq<u8>)
    ensures
        file_bytes(width, height, rest).len() == 16 + rest.len(),
        file_bytes(width, height, rest).take(8) == MAGIC@,
        header_width(file_bytes(width, height, rest)) == width,
        header_height(file_bytes(width, height, rest)) == height,
        file_bytes(width, height, rest).skip(16) == rest,
{
    let bytes = file_bytes(width, height, rest);
    assert(bytes.take(8) =~= MAGIC@);
    assert(bytes.skip(16) =~= rest);
    lemma_be32(width);
    lemma_be32(height);
    assert(bytes.subrange(8, 12) =~= be32_bytes(width));
    assert(bytes.subrange(12, 16) =~= be32_bytes(height));
    assert(bytes[8] == bytes.subrange(8, 12)[0]);
    assert(bytes[9] == bytes.subrange(8, 12)[1]);
    assert(bytes[10] == bytes.subrange(8, 12)[2]);
    assert(bytes[11] == bytes.subrange(8, 12)[3]);
    assert(bytes[12] == bytes.subrange(12, 16)[0]);
    assert(bytes[13] == bytes.subrange(12, 16)[1]);
    assert(bytes[14] == bytes.subrange(12, 16)[2]);
    assert(bytes[15] == bytes.subrange(12, 16)[3]);
}

/// A 32-bit number is what its four bytes denote.
proof fn lemma_be32(v: u32)
    ensures
        be32_bytes(v).len() == 4,
        be32_value(be32_bytes(v)[0], be32_bytes(v)[1], be32_bytes(v)[2], be32_bytes(v)[3]) == v,
{
}

/// Four bytes are those of the 32-bit number that they denote.
proof fn lemma_be32_back(b0: u8, b1: u8, b2: u8, b3: u8)
    ensures
        be32_bytes(be32_value(b0, b1, b2, b3)) == seq![b0, b1, b2, b3],
{
    let v = be32_value(b0, b1, b2, b3);
    assert(v == b0 * 0x100_0000 + b1 * 0x1_0000 + b2 * 0x100 + b3);
    assert(v / 0x100_0000 == b0);
    assert(v / 0x1_0000 == b0 * 0x100 + b1);
    assert(v / 0x100 == b0 * 0x1_0000 + b1 * 0x100 + b2);
    assert(be32_bytes(v) =~= seq![b0, b1, b2, b3]);
}

/// Bytes that begin with a valid header are that header and the rest.
proof fn lemma_header_split(bytes: Seq<u8>)
    requires
        bytes.len() >= 16,
        bytes.take(8) == MAGIC@,
    ensures
        bytes == file_bytes(header_width(bytes), header_height(bytes), bytes.skip(16)),
{
    let w = be32_bytes(header_width(bytes));
    let h = be32_bytes(header_height(bytes));
    lemma_be32_back(bytes[8], bytes[9], bytes[10], bytes[11]);
    lemma_be32_back(bytes[12], bytes[13], bytes[14], bytes[15]);
    assert(bytes =~= bytes.take(8) + w + h + bytes.skip(16));
}

/// A file is accepted exactly where it is the header of its dimensions and then
/// the big-endian samples of all pixels: nothing else decodes, and what decodes
/// has no other reading.
pub proof fn law_accepted_files(bytes: Seq<u8>, width: u32, height: u32, samples: Seq<u16>)
    ensures
        file_outcome(bytes) == Ok::<_, Seq<char>>((width, height, samples)) <==> {
            &&& bytes == file_bytes(width, height, be_bytes(samples))
            &&& samples.len() == sample_total(width as nat, height as nat)
            &&& bytes.len() <= usize::MAX
        },
{
    assert(0 <= width * height) by (nonlinear_arith);
    if file_outcome(bytes) == Ok::<_, Seq<char>>((width, height, samples)) {
        lemma_header_split(bytes);
        law_big_endian_round_trip(samples, bytes.skip(16));
    }
    if bytes == file_bytes(width, height, be_bytes(samples)) && samples.len() == sample_total(
        width as nat,
        height as nat,
    ) && bytes.len() <= usize::MAX {
        lemma_header_echo(width, height, be_bytes(samples));
        law_big_endian_round_trip(samples, be_bytes(samples));
    }
}

/// An image can be encoded exactly where it has four samples for every pixel and
/// its file fits in the address space, and the file is its header and then its
/// samples.
pub proof fn law_encodable_images(width: u32, height: u32, samples: Seq<u16>)
    ensures
        encode_image_outcome(width, height, samples) is Ok <==> {
            &&& samples.len() == sample_total(width as nat, height as nat)
            &&& 16 + width * height * 8 <= usize::MAX
        },
        encode_image_outcome(width, height, samples) matches Ok(bytes) ==> bytes == file_bytes(
            width,
            height,
            be_bytes(samples),
        ),
{
    assert(0 <= width * height) by (nonlinear_arith);
}

/// Encoding loses nothing: an image that can be encoded is what its file decodes
/// to.
pub proof fn law_decode_after_encode(width: u32, height: u32, samples: Seq<u16>)
    ensures
        encode_image_outcome(width, height, samples) matches Ok(bytes) ==> file_outcome(bytes)
            == Ok::<_, Seq<char>>((width, height, samples)),
{
    if let Ok(bytes) = encode_image_outcome(width, height, samples) {
        lemma_header_echo(width, height, be_bytes(samples));
        law_accepted_files(bytes, width, height, samples);
    }
}

/// Decoding loses nothing: a file that is accepted is what its image encodes to,
/// byte for byte.
pub proof fn law_encode_after_decode(bytes: Seq<u8>)
    ensures
        file_outcome(bytes) matches Ok((width, height, samples)) ==> encode_image_outcome(
            width,
            height,
            samples,
        ) == Ok::<_, Seq<char>>(bytes),
{
    if let Ok((width, height, samples)) = file_outcome(bytes) {
        assert(0 <= width * height) by (nonlinear_arith);
        law_accepted_files(bytes, width, height, samples);
        lemma_header_echo(width, height, be_bytes(samples));
    }
}

/// Encoding what an encoded file decodes to gives that file again.
pub proof fn law_reencoding_changes_nothing(width: u32, height: u32, samples: Seq<u16>)
    ensures
        encode_image_outcome(width, height, samples) matches Ok(bytes) ==> {
            &&& file_outcome(bytes) matches Ok((w, h, s))
            &&& encode_image_outcome(w, h, s) == Ok::<_, Seq<char>>(bytes)
        },
{
    law_decode_after_encode(width, height, samples);
}

/// Encoding is deterministic: two results for one picture are the same bytes, or
/// the same refusal.
pub proof fn law_encoding_is_deterministic(
    image: FarbfeldImage,
    first: Result<Vec<u8>, FarbfeldError>,
    second: Result<Vec<u8>, FarbfeldError>,
)
    requires
        viewed_outcome(first) == encode_image_outcome(image.width, image.height, image.pixels@),
        viewed_outcome(second) == encode_image_outcome(image.width, image.height, image.pixels@),
    ensures
        first is Ok <==> second is Ok,
        first is Ok ==> first->Ok_0@ == second->Ok_0@,
        first is Err ==> first->Err_0.text() == second->Err_0.text(),
{
}

/// An image has one file: two files that decode to the same image are equal.
pub proof fn law_one_file_per_image(a: Seq<u8>, b: Seq<u8>)
    requires
        file_outcome(a) is Ok,
        file_outcome(a) == file_outcome(b),
    ensures
        a == b,
{
    law_encode_after_decode(a);
    law_encode_after_decode(b);
}

/// An encoded file is `16 + width * height * 8` bytes long, and its header says
/// so and echoes the dimensions.
pub proof fn law_encoded_size_and_header(width: u32, height: u32, body: Seq<u8>)
    ensures
        encode_body_outcome(width, height, body) matches Ok(bytes) ==> {
            &&& bytes.len() == 16 + width * height * 8
            &&& bytes.take(8) == MAGIC@
            &&& bytes.skip(16) == body
            &&& header_outcome(bytes) == Ok::<_, Seq<char>>(
                FarbfeldHeader { width, height, body_len: body.len() as usize },
            )
            &&& total_len_outcome(
                FarbfeldHeader { width, height, body_len: body.len() as usize },
            ) == Ok::<_, Seq<char>>(bytes.len() as usize)
        },
{
    assert(0 <= width * height) by (nonlinear_arith);
    lemma_header_echo(width, height, body);
}

/// The three encoders agree: pixels, their samples and the big-endian bytes of
/// those give the same file. It is given for `width * height` pixels, and all
/// three refuse any other number.
///
/// A slice is at most `isize::MAX` bytes long, and the file of such a slice
/// always fits in `usize`. Longer sequences of pixels exist only as mathematics:
/// all three refuse those whose file does not fit.
pub proof fn law_encoders_agree(width: u32, height: u32, pixels: Seq<[u16; 4]>)
    ensures
        ({
            let from_pixels = encode_pixels_outcome(width, height, pixels);
            let from_samples = encode_image_outcome(width, height, flattened(pixels));
            let from_bytes = encode_body_outcome(width, height, be_bytes(flattened(pixels)));
            let file = Ok::<_, Seq<char>>(file_bytes(width, height, be_bytes(flattened(pixels))));
            &&& pixels.len() * 8 <= isize::MAX ==> if pixels.len() == width * height {
                from_pixels == file && from_samples == file && from_bytes == file
            } else {
                from_pixels is Err && from_samples is Err && from_bytes is Err
            }
            &&& if pixels.len() == width * height && 16 + width * height * 8 <= usize::MAX {
                from_pixels == file && from_samples == file && from_bytes == file
            } else {
                from_pixels is Err && from_samples is Err && from_bytes is Err
            }
        }),
{
    assert(0 <= width * height) by (nonlinear_arith);
}

/// A body that can be encoded is what the samples of its file are the
/// big-endian bytes of.
pub proof fn law_decode_after_encode_body(width: u32, height: u32, body: Seq<u8>)
    ensures
        encode_body_outcome(width, height, body) matches Ok(bytes) ==> file_outcome(bytes)
            == Ok::<_, Seq<char>>((width, height, be_samples(body))),
{
    if let Ok(bytes) = encode_body_outcome(width, height, body) {
        assert(0 <= width * height) by (nonlinear_arith);
        lemma_header_echo(width, height, body);
        law_big_endian_round_trip(be_samples(body), body);
        law_accepted_files(bytes, width, height, be_samples(body));
    }
}

/// A header is read from its 16 bytes alone: what follows them does not matter.
pub proof fn law_header_ignores_body(bytes: Seq<u8>, other: Seq<u8>)
    requires
        bytes.len() >= 16,
        other.len() >= 16,
        bytes.take(16) == other.take(16),
    ensures
        header_outcome(bytes) == header_outcome(other),
{
    assert forall|i: int| 0 <= i < 16 implies bytes[i] == other[i] by {
        assert(bytes[i] == bytes.take(16)[i]);
        assert(other[i] == other.take(16)[i]);
    }
    assert(bytes.take(8) =~= other.take(8));
}

/// The first 16 bytes have the header of the whole.
proof fn lemma_header_prefix(bytes: Seq<u8>)
    requires
        bytes.len() >= 16,
    ensures
        header_outcome(bytes.take(16)) == header_outcome(bytes),
{
    assert(bytes.take(16).take(16) =~= bytes.take(16));
    law_header_ignores_body(bytes, bytes.take(16));
}

/// A file that is accepted has two body bytes for each sample.
proof fn lemma_accepted_length(bytes: Seq<u8>)
    requires
        file_outcome(bytes) is Ok,
    ensures
        header_outcome(bytes) is Ok,
        header_outcome(bytes)->Ok_0.body_len == file_outcome(bytes)->Ok_0.2.len() * 2,
{
    let header = header_outcome(bytes)->Ok_0;
    assert(header.body_len == header.width * header.height * 8);
    assert(bytes.skip(16).len() == header.body_len);
}

/// A file that is accepted has the header that a peek at its front reports, and
/// is as long as that header announces.
pub proof fn law_peek_agrees_with_parse(bytes: Seq<u8>)
    ensures
        file_outcome(bytes) matches Ok((width, height, samples)) ==> {
            &&& header_outcome(bytes.take(16)) == Ok::<_, Seq<char>>(
                FarbfeldHeader { width, height, body_len: (samples.len() * 2) as usize },
            )
            &&& total_len_outcome(
                FarbfeldHeader { width, height, body_len: (samples.len() * 2) as usize },
            ) == Ok::<_, Seq<char>>(bytes.len() as usize)
        },
        header_outcome(bytes) matches Err(text) ==> file_outcome(bytes) == Err::<
            (u32, u32, Seq<u16>),
            _,
        >(text),
{
    if let Ok((width, height, samples)) = file_outcome(bytes) {
        lemma_accepted_length(bytes);
        lemma_header_prefix(bytes);
    }
}

/// A header is read back as it was written, with the exact body length, or
/// refused where that length does not fit: whatever the dimensions, and
/// whatever follows.
pub proof fn law_header_round_trip(width: u32, height: u32, rest: Seq<u8>)
    ensures
        header_outcome(file_bytes(width, height, rest)) == (match body_len_outcome(
            width,
            height,
        ) {
            Ok(body_len) => Ok(FarbfeldHeader { width, height, body_len }),
            Err(text) => Err(text),
        }),
{
    lemma_header_echo(width, height, rest);
}

/// A header with a body of any other length than it announces is refused, be
/// the body cut short, missing or too long.
pub proof fn law_wrong_body_is_refused(width: u32, height: u32, body: Seq<u8>)
    requires
        body.len() != width * height * 8,
    ensures
        file_outcome(file_bytes(width, height, body)) is Err,
{
    assert(0 <= width * height) by (nonlinear_arith);
    lemma_header_echo(width, height, body);
}

/// No file is accepted without its magic.
pub proof fn law_magic_is_required(bytes: Seq<u8>)
    requires
        bytes.len() < 8 || bytes.take(8) != MAGIC@,
    ensures
        header_outcome(bytes) is Err,
        file_outcome(bytes) is Err,
{
}

/// Of the files with one header, only those of one length are accepted: bytes
/// cut off the end, or added to it, are noticed.
pub proof fn law_length_is_exact(file: Seq<u8>, other: Seq<u8>)
    requires
        file_outcome(file) is Ok,
        other.len() != file.len(),
        other.len() >= 16 ==> other.take(16) == file.take(16),
    ensures
        file_outcome(other) is Err,
{
    if other.len() >= 16 {
        law_header_ignores_body(file, other);
    }
}

/// Reading a stream row by row gives what reading the file as a whole gives: a
/// file that is accepted opens, delivers all its rows, and leaves nothing over.
///
/// On a 32-bit host a picture of no height may be too wide for a row buffer.
pub proof fn law_stream_reads_files(file: Seq<u8>)
    requires
        file_outcome(file) is Ok,
        header_width(file) * 8 <= usize::MAX,
    ensures
        ({
            let (width, height, samples) = file_outcome(file)->Ok_0;
            let opened = open_outcome(Supply::of(file));
            let start = ReaderState::opened(opened->Ok_0, Supply::of(file));
            &&& opened is Ok
            &&& opened->Ok_0.width == width
            &&& opened->Ok_0.height == height
            &&& start.remaining() == height
            &&& start.delivers(start.remaining())
            &&& be_samples(start.ahead(start.remaining())) == samples
            &&& start.advanced(start.remaining()).supply == Supply::of(Seq::empty())
        }),
{
    lemma_header_prefix(file);
    let header = header_outcome(file)->Ok_0;
    let start = ReaderState::opened(header, Supply::of(file));
    lemma_rows_are_body(header.width, header.height);
    assert(start.supply.pending.take(start.supply.pending.len() as int) =~= start.supply.pending);
    assert(start.supply.after(start.supply.pending.len() as int) =~= Supply::of(Seq::empty()));
}

/// A stream that opens, delivers all its rows and leaves nothing over is a file
/// that is accepted as a whole, with the same samples.
pub proof fn law_read_streams_are_files(file: Seq<u8>)
    requires
        file.len() <= usize::MAX,
        open_outcome(Supply::of(file)) is Ok,
        ({
            let start = ReaderState::opened(open_outcome(Supply::of(file))->Ok_0, Supply::of(file));
            &&& start.delivers(start.remaining())
            &&& start.advanced(start.remaining()).supply.pending.len() == 0
        }),
    ensures
        ({
            let header = open_outcome(Supply::of(file))->Ok_0;
            let start = ReaderState::opened(header, Supply::of(file));
            file_outcome(file) == Ok::<_, Seq<char>>(
                (header.width, header.height, be_samples(start.ahead(start.remaining()))),
            )
        }),
{
    lemma_header_prefix(file);
    let header = header_outcome(file)->Ok_0;
    let start = ReaderState::opened(header, Supply::of(file));
    lemma_rows_are_body(header.width, header.height);
    assert(start.supply.pending.take(start.supply.pending.len() as int) =~= start.supply.pending);
}

/// All rows together are the body.
proof fn lemma_rows_are_body(width: u32, height: u32)
    ensures
        height as nat * (width * 8) as nat == body_size(width as nat, height as nat),
        width * 8 * height == body_size(width as nat, height as nat),
        height * (width * 4) == sample_total(width as nat, height as nat),
        0 <= width * height,
{
    assert(height as nat * (width * 8) as nat == width as nat * height as nat * 8)
        by (nonlinear_arith);
    assert(width * 8 * height == width as nat * height as nat * 8) by (nonlinear_arith);
    assert(height * (width * 4) == width as nat * height as nat * 4) by (nonlinear_arith);
    assert(0 <= width * height) by (nonlinear_arith);
}

/// Rows that are skipped change nothing about those behind them: skipping `k`
/// rows and reading `n` gives the last `n` of `k + n` rows, as bytes and as
/// samples, and leaves the stream at the same place.
pub proof fn law_skip_then_read(s: ReaderState, k: nat, n: nat)
    requires
        s.delivers(k + n),
    ensures
        s.delivers(k),
        s.advanced(k).delivers(n),
        s.advanced(k).advanced(n) == s.advanced(k + n),
        s.advanced(k).ahead(n) == s.ahead(k + n).skip((k * s.row_size()) as int),
        be_samples(s.advanced(k).ahead(n)) == be_samples(s.ahead(k + n)).skip(
            k * (s.header.width * 4),
        ),
{
    let row = s.row_size();
    assert((k + n) * row == k * row + n * row) by (nonlinear_arith);
    assert(k * row == 2 * (k * (s.header.width * 4))) by (nonlinear_arith)
        requires
            row == s.header.width * 8,
    ;
    assert(0 <= n * row && 0 <= k * row) by (nonlinear_arith);
    assert(s.advanced(k).advanced(n).supply =~= s.advanced(k + n).supply);
    assert(s.advanced(k).ahead(n) =~= s.ahead(k + n).skip((k * row) as int));
    assert(be_samples(s.advanced(k).ahead(n)) =~= be_samples(s.ahead(k + n)).skip(
        k * (s.header.width * 4),
    ));
}

/// Skipping a row and reading it are one step of the stream: `skip` and `read`
/// are what the two return from the same state, `skipped` and `after_read` the
/// states that they leave.
///
/// Both say the same, whether there was a row, there was none or it came short,
/// and both leave the stream at the same place: one row and `width * 8` bytes
/// further on behind a row, where it was when there was none, and with no more
/// rows but behind the stop when the row came short, be that stop the end of the
/// input or a fault. Over bytes in memory that is their end.
pub proof fn law_skipping_is_reading(
    s: ReaderState,
    skip: Result<bool, FarbfeldError>,
    skipped: ReaderState,
    read: Result<bool, FarbfeldError>,
    after_read: ReaderState,
)
    requires
        s.done <= s.header.height,
        outcome(skip) == s.step_outcome(),
        skipped == s.stepped(),
        outcome(read) == s.step_outcome(),
        after_read == s.stepped(),
    ensures
        outcome(skip) == outcome(read),
        skipped == after_read,
        skipped.header == s.header,
        match skip {
            Ok(true) => {
                &&& s.done < s.header.height
                &&& skipped.done == s.done + 1
                &&& skipped.supply == s.supply.after(s.header.width * 8)
            },
            Ok(false) => s.done == s.header.height && skipped == s,
            Err(_) => {
                &&& s.supply.pending.len() < s.header.width * 8
                &&& skipped.done == s.done
                &&& skipped.supply == s.supply.resumed()
                &&& s.supply == Supply::of(s.supply.pending) ==> skipped.supply == Supply::of(
                    Seq::empty(),
                )
            },
        },
{
    if !s.delivers(1) {
        lemma_short(s.supply.pending.len(), s.row_size());
        if s.supply == Supply::of(s.supply.pending) {
            assert(s.supply.resumed() =~= Supply::of(Seq::empty()));
        }
    }
}

/// Reading a row as bytes and reading it as samples are two views of one thing:
/// the bytes are those of the samples.
pub proof fn law_raw_row_is_native_row(s: ReaderState, n: nat)
    requires
        s.delivers(n),
    ensures
        be_bytes(be_samples(s.ahead(n))) == s.ahead(n),
{
    let row = s.row_size();
    assert(n * row == 2 * (n * (s.header.width * 4))) by (nonlinear_arith)
        requires
            row == s.header.width * 8,
    ;
    law_big_endian_round_trip(be_samples(s.ahead(n)), s.ahead(n));
}

/// Rows written one after the other are the rows written together, as far as
/// the sink accepts them.
pub proof fn law_writes_add_up(s: WriterState, a: Seq<u8>, b: Seq<u8>, m: nat, n: nat)
    requires
        s.account.accepts(a.len() + b.len()),
    ensures
        s.account.accepts(a.len()),
        s.appended(a, m).account.accepts(b.len()),
        s.appended(a, m).appended(b, n) == s.appended(a + b, m + n),
{
    assert(s.appended(a, m).appended(b, n) =~= s.appended(a + b, m + n));
}

/// Writing a picture row by row gives the same file as encoding it as a whole:
/// the header, and then the rows `0` to `height - 1` in any grouping.
pub proof fn law_stream_writes_files(width: u32, height: u32, samples: Seq<u16>, sink: Account)
    requires
        encode_image_outcome(width, height, samples) is Ok,
        width * 8 <= usize::MAX,
        sink.accepts((16 + width * height * 8) as nat),
    ensures
        create_outcome(width, height, sink) is Ok,
        ({
            let start = WriterState::opened(width, height, sink);
            let end = start.appended(be_bytes(samples), height as nat);
            &&& be_bytes(samples).len() == start.remaining_size()
            &&& start.account.accepts(be_bytes(samples).len())
            &&& end.done == height
            &&& end.account.written == sink.written + encode_image_outcome(
                width,
                height,
                samples,
            )->Ok_0
        }),
        forall|k: int|
            0 <= k < height ==> #[trigger] chunk(samples, width * 4, k).len() == width * 4
                && be_bytes(samples.take(k * (width * 4))) + be_bytes(chunk(samples, width * 4, k))
                == be_bytes(samples.take((k + 1) * (width * 4))),
        be_bytes(samples.take(height * (width * 4))) == be_bytes(samples),
{
    lemma_rows_are_body(width, height);
    let file = encode_image_outcome(width, height, samples)->Ok_0;
    assert(sink.written + header_bytes(width, height) + be_bytes(samples) =~= sink.written + file);
    assert(samples.take(height * (width * 4)) =~= samples);
    let row = width * 4;
    assert forall|k: int| 0 <= k < height implies #[trigger] chunk(samples, row, k).len() == row
        && be_bytes(samples.take(k * row)) + be_bytes(chunk(samples, row, k)) == be_bytes(
        samples.take((k + 1) * row),
    ) by {
        assert(0 <= k * row && (k + 1) * row == k * row + row && (k + 1) * row <= height * row)
            by (nonlinear_arith)
            requires
                0 <= k < height,
                0 <= row,
        ;
        assert(be_bytes(samples.take(k * row)) + be_bytes(chunk(samples, row, k)) =~= be_bytes(
            samples.take((k + 1) * row),
        ));
    }
}

/// A file that is read as raw rows and written as raw rows arrives unchanged.
pub proof fn law_raw_pass_through(file: Seq<u8>, sink: Account)
    requires
        file_outcome(file) is Ok,
        header_width(file) * 8 <= usize::MAX,
        sink.accepts(file.len()),
    ensures
        ({
            let (width, height, _) = file_outcome(file)->Ok_0;
            let header = open_outcome(Supply::of(file))->Ok_0;
            let source = ReaderState::opened(header, Supply::of(file));
            let start = WriterState::opened(width, height, sink);
            &&& create_outcome(width, height, sink) is Ok
            &&& start.row_size() == source.row_size()
            &&& start.account.accepts(source.ahead(height as nat).len())
            &&& start.appended(source.ahead(height as nat), height as nat).account.written
                == sink.written + file
        }),
{
    law_stream_reads_files(file);
    lemma_header_split(file);
    let (width, height, _) = file_outcome(file)->Ok_0;
    lemma_rows_are_body(width, height);
    let source = ReaderState::opened(open_outcome(Supply::of(file))->Ok_0, Supply::of(file));
    assert(source.ahead(height as nat) =~= file.skip(16));
    assert(sink.written + header_bytes(width, height) + file.skip(16) =~= sink.written + file);
}

/// A pixel that was set is read back, and setting it changes no other pixel.
///
/// `after` is what setting the pixel at `(x, y)` to `rgba` makes of `before`.
pub proof fn law_set_pixel_reads_back(
    before: FarbfeldImage,
    after: FarbfeldImage,
    x: u32,
    y: u32,
    rgba: Seq<u16>,
)
    requires
        before.wf(),
        before.contains(x, y),
        rgba.len() == 4,
        after.width == before.width,
        after.height == before.height,
        after.pixels@ == before.pixels@.take(before.slot(x, y)) + rgba + before.pixels@.skip(
            before.slot(x, y) + 4,
        ),
    ensures
        after.wf(),
        after.quad(x, y) == rgba,
        forall|x2: u32, y2: u32|
            before.contains(x2, y2) && (x2 != x || y2 != y) ==> #[trigger] after.quad(x2, y2)
                == before.quad(x2, y2),
{
    let w = before.width as int;
    lemma_pixel_index(w, before.height as int, x as int, y as int);
    assert(after.quad(x, y) =~= rgba);
    assert forall|x2: u32, y2: u32|
        before.contains(x2, y2) && (x2 != x || y2 != y) implies #[trigger] after.quad(x2, y2)
        == before.quad(x2, y2) by {
        lemma_pixel_index(w, before.height as int, x2 as int, y2 as int);
        lemma_pixel_index_injective(w, x as int, y as int, x2 as int, y2 as int);
        assert(after.quad(x2, y2) =~= before.quad(x2, y2));
    }
}

/// A row that was written is read back, and writing it changes no other row.
///
/// `after` is what writing `row` to row `y` makes of `before`.
pub proof fn law_written_row_reads_back(
    before: FarbfeldImage,
    after: FarbfeldImage,
    y: u32,
    row: Seq<u16>,
)
    requires
        before.wf(),
        y < before.height,
        row.len() == before.row_len(),
        after.width == before.width,
        after.height == before.height,
        after.pixels@ == before.pixels@.take(before.row_start(y as int)) + row
            + before.pixels@.skip(before.row_start(y + 1)),
    ensures
        after.wf(),
        after.row_samples(y as int) == row,
        forall|y2: u32|
            y2 < before.height && y2 != y ==> #[trigger] after.row_samples(y2 as int)
                == before.row_samples(y2 as int),
{
    let n = before.row_len();
    let h = before.height as int;
    lemma_rows_are_body(before.width, before.height);
    lemma_chunk_within(h, n, y as int);
    assert(after.row_samples(y as int) =~= row);
    assert forall|y2: u32| y2 < before.height && y2 != y implies #[trigger] after.row_samples(
        y2 as int,
    ) == before.row_samples(y2 as int) by {
        lemma_chunk_within(h, n, y2 as int);
        if y2 < y {
            assert((y2 + 1) * n <= y * n) by (nonlinear_arith)
                requires
                    y2 + 1 <= y,
                    0 <= n,
            ;
        } else {
            assert((y + 1) * n <= y2 * n) by (nonlinear_arith)
                requires
                    y + 1 <= y2,
                    0 <= n,
            ;
        }
        assert(after.row_samples(y2 as int) =~= before.row_samples(y2 as int));
    }
}

/// A walk for writing lays the rows that were taken from the top before those
/// that it has left, and the rows that were taken from the bottom behind them:
/// the next row, from either end, keeps it so.
///
/// `above` and `below` are what was written so far, `row` is what is written to
/// the next row, and `left` is what becomes of the rows after that.
pub proof fn law_walk_keeps_rows_in_place(
    above: Seq<Seq<u16>>,
    row: Seq<u16>,
    left: Seq<u16>,
    below: Seq<Seq<u16>>,
)
    ensures
        above.flatten() + (row + left) + below.flatten() == above.push(row).flatten() + left
            + below.flatten(),
        above.flatten() + (left + row) + below.flatten() == above.flatten() + left + (seq![row]
            + below).flatten(),
{
    above.lemma_flatten_push(row);
    assert((seq![row] + below).drop_first() =~= below);
    assert(above.flatten() + (row + left) + below.flatten() =~= above.push(row).flatten() + left
        + below.flatten());
    assert(above.flatten() + (left + row) + below.flatten() =~= above.flatten() + left + (seq![row]
        + below).flatten());
}

/// A walk that writes all rows, from the top, from the bottom or from both, is
/// read back whole: row `y` is what was written to it, no other sample changes
/// and none is gained or lost.
///
/// `after` is what writing `rows` to the rows makes of `before`.
pub proof fn law_rewritten_rows_read_back(
    before: FarbfeldImage,
    after: FarbfeldImage,
    rows: Seq<Seq<u16>>,
)
    requires
        before.wf(),
        rows.len() == before.all_rows().len(),
        forall|y: int| 0 <= y < rows.len() ==> (#[trigger] rows[y]).len() == before.row_len(),
        after.width == before.width,
        after.height == before.height,
        after.pixels@ == rows.flatten() + before.pixels@.skip(
            before.row_total() * before.row_len(),
        ),
    ensures
        after.wf(),
        after.pixels@.len() == before.pixels@.len(),
        after.all_rows() == rows,
        forall|y: u32| y < after.height ==> #[trigger] after.row_samples(y as int) == rows[y as int],
{
    lemma_rows_are_body(before.width, before.height);
    law_rows_visit_every_row(before);
    lemma_joined_chunks(rows, before.row_len());
    assert(after.pixels@ =~= rows.flatten());
    law_rows_visit_every_row(after);
    assert forall|y: int| 0 <= y < rows.len() implies #[trigger] after.all_rows()[y]
        == rows[y] by {
        assert(chunks(rows.flatten(), before.row_len(), 0, rows.len() as int)[y] == rows[y]);
    }
    assert(after.all_rows() =~= rows);
}

/// A walk over the rows of an image visits `height` rows of `width * 4` samples,
/// and the `y`-th is row `y`; a walk from the bottom visits them in the opposite
/// order.
pub proof fn law_rows_visit_every_row(image: FarbfeldImage)
    requires
        image.wf(),
    ensures
        image.all_rows().len() == image.height,
        forall|y: int|
            0 <= y < image.height ==> {
                &&& #[trigger] image.all_rows()[y] == image.row_samples(y)
                &&& image.all_rows()[y].len() == image.width * 4
                &&& image.all_rows().reverse()[image.height - 1 - y] == image.row_samples(y)
            },
{
    lemma_rows_are_body(image.width, image.height);
    if image.width > 0 {
        lemma_fundamental_div_mod_converse(
            image.pixels@.len() as int,
            image.row_len(),
            image.height as int,
            0,
        );
    }
    assert forall|y: int| 0 <= y < image.height implies (#[trigger] image.all_rows()[y]).len()
        == image.width * 4 by {
        lemma_chunk_within(image.height as int, image.row_len(), y);
        assert(image.all_rows()[y] == image.row_samples(y));
    }
}

/// A walk over the pixels of an image visits `width * height` pixels, and the
/// one numbered `y * width + x` is the pixel `(x, y)`; a walk from the end
/// visits them in the opposite order.
pub proof fn law_pixels_visit_every_pixel(image: FarbfeldImage, x: u32, y: u32)
    requires
        image.wf(),
    ensures
        image.all_quads().len() == image.width * image.height,
        image.contains(x, y) ==> {
            let number = y * image.width + x;
            &&& 0 <= number < image.all_quads().len()
            &&& image.all_quads()[number] == image.quad(x, y)
            &&& image.all_quads().reverse()[image.all_quads().len() - 1 - number] == image.quad(
                x,
                y,
            )
        },
{
    lemma_rows_are_body(image.width, image.height);
    if image.contains(x, y) {
        lemma_pixel_index(image.width as int, image.height as int, x as int, y as int);
    }
}

/// A pixel, its channels and its row are views of the same samples.
pub proof fn law_pixel_lies_in_row(image: FarbfeldImage, x: u32, y: u32)
    requires
        image.wf(),
        image.contains(x, y),
    ensures
        image.quad(x, y).len() == 4,
        forall|c: int|
            0 <= c < 4 ==> #[trigger] image.quad(x, y)[c] == image.pixels@[image.slot(x, y) + c],
        image.row_samples(y as int).len() == image.width * 4,
        image.row_samples(y as int).subrange(4 * x, 4 * x + 4) == image.quad(x, y),
{
    let w = image.width as int;
    lemma_rows_are_body(image.width, image.height);
    lemma_pixel_index(w, image.height as int, x as int, y as int);
    lemma_chunk_within(image.height as int, w * 4, y as int);
    assert(image.slot(x, y) == image.row_start(y as int) + 4 * x) by (nonlinear_arith)
        requires
            image.slot(x, y) == (y * w + x) * 4,
            image.row_start(y as int) == y * (w * 4),
    ;
    assert(image.row_samples(y as int).subrange(4 * x, 4 * x + 4) =~= image.quad(x, y));
}

/// A pixel inside an image has a number below the pixel count.
proof fn lemma_pixel_index(w: int, h: int, x: int, y: int)
    requires
        0 <= x < w,
        0 <= y < h,
    ensures
        0 <= y * w + x < w * h,
{
    assert(0 <= y * w) by (nonlinear_arith)
        requires
            0 <= y,
            0 <= w,
    ;
    assert(y * w + w <= w * h) by (nonlinear_arith)
        requires
            y + 1 <= h,
            0 <= w,
    ;
}

/// Two pixels have two numbers.
proof fn lemma_pixel_index_injective(w: int, x: int, y: int, x2: int, y2: int)
    requires
        0 <= x < w,
        0 <= x2 < w,
        x != x2 || y != y2,
    ensures
        y * w + x != y2 * w + x2,
{
    if y < y2 {
        assert(y * w + w <= y2 * w) by (nonlinear_arith)
            requires
                y + 1 <= y2,
                0 <= w,
        ;
    } else if y2 < y {
        assert(y2 * w + w <= y * w) by (nonlinear_arith)
            requires
                y2 + 1 <= y,
                0 <= w,
        ;
    }
}

/// A picture decoded for a framework and encoded again is the same file.
pub proof fn law_frame_decode_then_encode(file: Seq<u8>)
    ensures
        decode_outcome(file) matches Ok((stride, plane)) ==> {
            let (width, height, samples) = file_outcome(file)->Ok_0;
            &&& le_samples(plane) == samples
            &&& plane_outcome(width, height, stride, plane) == Ok::<_, Seq<char>>(file)
        },
{
    if let Ok((stride, plane)) = decode_outcome(file) {
        let (width, height, samples) = file_outcome(file)->Ok_0;
        law_little_endian_round_trip(samples, plane);
        law_accepted_files(file, width, height, samples);
        lemma_header_echo(width, height, be_bytes(samples));
        lemma_rows_are_body(width, height);
        let row = width * 8;
        if height > 0 {
            assert((height - 1) * row + row == height * row) by (nonlinear_arith);
        }
        let packed = packed_rows(plane, row, row, height as int);
        assert forall|i: int| 0 <= i < packed.len() implies packed[i] == plane[i] by {
            assert(row > 0) by (nonlinear_arith)
                requires
                    0 <= i < height * row,
                    0 <= row,
            ;
            vstd::arithmetic::div_mod::lemma_fundamental_div_mod(i, row);
            assert(i / row * row == row * (i / row)) by (nonlinear_arith);
        }
        assert(packed =~= plane);
        law_swapping_pairs(samples, plane);
    }
}

/// A picture that a framework encodes decodes to its rows, without what lay
/// between them.
pub proof fn law_frame_encode_then_decode(width: u32, height: u32, stride: usize, data: Seq<u8>)
    ensures
        plane_outcome(width, height, stride, data) matches Ok(file) ==> decode_outcome(file)
            == Ok::<_, Seq<char>>(
            (
                (width * 8) as usize,
                packed_rows(data, stride as int, width * 8, height as int),
            ),
        ),
{
    if let Ok(file) = plane_outcome(width, height, stride, data) {
        lemma_rows_are_body(width, height);
        let packed = packed_rows(data, stride as int, width * 8, height as int);
        let samples = le_samples(packed);
        assert(le_bytes(samples) == packed) by {
            law_little_endian_round_trip(samples, packed);
        }
        assert(swapped_pairs(packed) == be_bytes(samples)) by {
            law_swapping_pairs(samples, packed);
        }
        assert(file.len() == 16 + packed.len()) by {
            lemma_header_echo(width, height, be_bytes(samples));
        }
        assert(file_outcome(file) == Ok::<_, Seq<char>>((width, height, samples))) by {
            law_accepted_files(file, width, height, samples);
        }
    }
}

/// A file that is accepted is recognised by its first bytes alone.
pub proof fn law_accepted_files_are_recognised(file: Seq<u8>)
    requires
        file_outcome(file) is Ok,
    ensures
        evidence(file, None) == Evidence::Magic,
        evidence(file.take(8), None) == Evidence::Magic,
{
    assert(file.take(8).take(8) =~= file.take(8));
}

} // verus!
