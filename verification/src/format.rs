//! The farbfeld byte layout, as mathematics.
//!
//! ```text
//!   offset  bytes  field
//!        0      8  magic = ASCII "farbfeld"
//!        8      4  width  (u32 big-endian)
//!       12      4  height (u32 big-endian)
//!       16    8·N  N = width * height pixels of four big-endian u16: R, G, B, A
//! ```

use vstd::prelude::*;

verus! {

/// Magic bytes that prefix every farbfeld file: ASCII `"farbfeld"`.
pub const MAGIC: &'static [u8; 8] = &[102, 97, 114, 98, 102, 101, 108, 100];

/// Length of the fixed-size header (magic, width, height) in bytes.
pub const HEADER_LEN: usize = 16;

/// Bytes per pixel on disk: 4 channels of 2 bytes.
pub const BYTES_PER_PIXEL: usize = 8;

/// Channels per pixel: four 16-bit components in `R, G, B, A` order.
pub const CHANNELS_PER_PIXEL: usize = 4;

/// The high byte of a sample.
pub open spec fn high_byte(v: u16) -> u8 {
    (v / 256) as u8
}

/// The low byte of a sample.
pub open spec fn low_byte(v: u16) -> u8 {
    (v % 256) as u8
}

/// The sample with the given high and low byte.
pub open spec fn sample_of(high: u8, low: u8) -> u16 {
    (high * 256 + low) as u16
}

/// Samples as bytes, high byte first.
pub open spec fn be_bytes(samples: Seq<u16>) -> Seq<u8> {
    Seq::new(
        samples.len() * 2,
        |i: int|
            if i % 2 == 0 {
                high_byte(samples[i / 2])
            } else {
                low_byte(samples[i / 2])
            },
    )
}

/// Samples as bytes, low byte first.
pub open spec fn le_bytes(samples: Seq<u16>) -> Seq<u8> {
    Seq::new(
        samples.len() * 2,
        |i: int|
            if i % 2 == 0 {
                low_byte(samples[i / 2])
            } else {
                high_byte(samples[i / 2])
            },
    )
}

/// The samples that pairs of bytes denote, high byte first. A last odd byte
/// denotes nothing.
pub open spec fn be_samples(bytes: Seq<u8>) -> Seq<u16> {
    Seq::new(bytes.len() / 2, |i: int| sample_of(bytes[2 * i], bytes[2 * i + 1]))
}

/// The samples that pairs of bytes denote, low byte first.
pub open spec fn le_samples(bytes: Seq<u8>) -> Seq<u16> {
    Seq::new(bytes.len() / 2, |i: int| sample_of(bytes[2 * i + 1], bytes[2 * i]))
}

/// The bytes with the two of each pair exchanged, without a last odd byte.
pub open spec fn swapped_pairs(bytes: Seq<u8>) -> Seq<u8> {
    Seq::new(
        bytes.len() / 2 * 2,
        |i: int|
            if i % 2 == 0 {
                bytes[i + 1]
            } else {
                bytes[i - 1]
            },
    )
}

/// A 32-bit number as four bytes, most significant first.
pub open spec fn be32_bytes(v: u32) -> Seq<u8> {
    seq![
        (v / 0x100_0000) as u8,
        (v / 0x1_0000 % 0x100) as u8,
        (v / 0x100 % 0x100) as u8,
        (v % 0x100) as u8,
    ]
}

/// The 32-bit number whose four bytes are given, most significant first.
pub open spec fn be32_value(b0: u8, b1: u8, b2: u8, b3: u8) -> u32 {
    (b0 * 0x100_0000 + b1 * 0x1_0000 + b2 * 0x100 + b3) as u32
}

/// The 16 header bytes that announce an image of the given size.
pub open spec fn header_bytes(width: u32, height: u32) -> Seq<u8> {
    MAGIC@ + be32_bytes(width) + be32_bytes(height)
}

/// A whole file: the header, then the body.
pub open spec fn file_bytes(width: u32, height: u32, body: Seq<u8>) -> Seq<u8> {
    header_bytes(width, height) + body
}

/// Bytes of the body of an image of the given size.
pub open spec fn body_size(width: nat, height: nat) -> nat {
    width * height * 8
}

/// Samples of an image of the given size.
pub open spec fn sample_total(width: nat, height: nat) -> nat {
    width * height * 4
}

/// The slots of `slots` with as many values of `values` as there is room for
/// written over their front.
pub open spec fn overlaid<T>(values: Seq<T>, slots: Seq<T>) -> Seq<T> {
    Seq::new(
        slots.len(),
        |i: int|
            if i < values.len() {
                values[i]
            } else {
                slots[i]
            },
    )
}

/// The slots of `slots` with as many whole pairs of `values` as there is room
/// for written over their front.
pub open spec fn overlaid_pairs(values: Seq<u8>, slots: Seq<u8>) -> Seq<u8> {
    overlaid(values.take(whole_pairs(values.len(), slots.len()) as int), slots)
}

/// The largest even number that is at most `a` and at most `b`.
pub open spec fn whole_pairs(a: nat, b: nat) -> nat {
    (if a < b {
        a
    } else {
        b
    }) / 2 * 2
}

/// Pixels as samples, channel by channel.
pub open spec fn flattened(pixels: Seq<[u16; 4]>) -> Seq<u16> {
    Seq::new(pixels.len() * 4, |i: int| pixels[i / 4]@[i % 4])
}

/// The `k`-th of the pieces of length `size` that a sequence falls into.
pub open spec fn chunk<T>(whole: Seq<T>, size: int, k: int) -> Seq<T> {
    whole.subrange(k * size, (k + 1) * size)
}

/// The pieces from the one numbered `from` up to the one before `to`.
pub open spec fn chunks<T>(whole: Seq<T>, size: int, from: int, to: int) -> Seq<Seq<T>> {
    Seq::new((to - from) as nat, |i: int| chunk(whole, size, from + i))
}

/// Splits a 32-bit number into four bytes, most significant first.
pub(crate) fn be32_split(v: u32) -> (r: [u8; 4])
    ensures
        r@ == be32_bytes(v),
{
    [
        (v / 0x100_0000) as u8,
        (v / 0x1_0000 % 0x100) as u8,
        (v / 0x100 % 0x100) as u8,
        (v % 0x100) as u8,
    ]
}

/// Joins four bytes, most significant first, into a 32-bit number.
pub(crate) fn be32_join(b0: u8, b1: u8, b2: u8, b3: u8) -> (r: u32)
    ensures
        r == be32_value(b0, b1, b2, b3),
{
    b0 as u32 * 0x100_0000 + b1 as u32 * 0x1_0000 + b2 as u32 * 0x100 + b3 as u32
}

/// Joins the high and the low byte of a sample.
pub(crate) fn join_sample(high: u8, low: u8) -> (r: u16)
    ensures
        r == sample_of(high, low),
{
    high as u16 * 256 + low as u16
}

/// Piece `k` lies within the first `count` pieces.
pub(crate) proof fn lemma_chunk_within(count: int, size: int, k: int)
    requires
        0 <= k < count,
        0 <= size,
    ensures
        0 <= k * size,
        (k + 1) * size == k * size + size,
        (k + 1) * size <= count * size,
{
    assert(0 <= k * size) by (nonlinear_arith)
        requires
            0 <= k,
            0 <= size,
    ;
    assert((k + 1) * size == k * size + size) by (nonlinear_arith);
    assert((k + 1) * size <= count * size) by (nonlinear_arith)
        requires
            k + 1 <= count,
            0 <= size,
    ;
}

/// Pieces that make up the whole join to it.
pub(crate) proof fn lemma_chunks_join<T>(whole: Seq<T>, size: int, count: int)
    requires
        0 <= size,
        0 <= count,
        whole.len() == count * size,
    ensures
        chunks(whole, size, 0, count).flatten() == whole,
    decreases count,
{
    let pieces = chunks(whole, size, 0, count);
    if count == 0 {
        assert(0 * size == 0) by (nonlinear_arith);
    } else {
        let front = whole.take((count - 1) * size);
        lemma_chunk_within(count, size, count - 1);
        lemma_chunks_join(front, size, count - 1);
        assert forall|k: int| 0 <= k < count - 1 implies chunk(front, size, k) == chunk(
            whole,
            size,
            k,
        ) by {
            lemma_chunk_within(count - 1, size, k);
        }
        assert(pieces == chunks(front, size, 0, count - 1).push(chunk(whole, size, count - 1)));
        chunks(front, size, 0, count - 1).lemma_flatten_push(chunk(whole, size, count - 1));
    }
}

/// Pieces of one size that are joined are found again at their places.
pub(crate) proof fn lemma_joined_chunks<T>(pieces: Seq<Seq<T>>, size: int)
    requires
        0 <= size,
        forall|k: int| 0 <= k < pieces.len() ==> (#[trigger] pieces[k]).len() == size,
    ensures
        pieces.flatten().len() == pieces.len() * size,
        chunks(pieces.flatten(), size, 0, pieces.len() as int) == pieces,
    decreases pieces.len(),
{
    let count = pieces.len() as int;
    if count == 0 {
        assert(0 * size == 0) by (nonlinear_arith);
    } else {
        let front = pieces.drop_last();
        lemma_joined_chunks(front, size);
        front.lemma_flatten_push(pieces.last());
        assert(pieces == front.push(pieces.last()));
        lemma_chunk_within(count, size, count - 1);
        assert forall|k: int| 0 <= k < count implies #[trigger] chunk(pieces.flatten(), size, k)
            == pieces[k] by {
            lemma_chunk_within(count, size, k);
            if k < count - 1 {
                lemma_chunk_within(count - 1, size, k);
                assert(chunks(front.flatten(), size, 0, count - 1)[k] == front[k]);
                assert(chunk(pieces.flatten(), size, k) == chunk(front.flatten(), size, k));
            }
        }
    }
}

} // verus!
