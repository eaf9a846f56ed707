//! Encoding for a media framework: one little-endian picture in, one file out.

use vstd::prelude::*;
use vstd::string::StringExecFns;

use crate::encoder::{new_header, swap_pairs_le_to_be};
use crate::error::{outcome, viewed_outcome, FarbfeldError};
use crate::format::{file_bytes, header_bytes, swapped_pairs, BYTES_PER_PIXEL, HEADER_LEN};
use crate::frame::{
    FilePacket, Idle, MediaFrame, PacketModel, PictureParameters, PixelLayout, PlaneView,
    StreamKind, TimeBase,
};
use crate::parser::{total_overflow, total_overflow_text};
use crate::text::{decimal, push_decimal};

verus! {

/// The message for a stride that is shorter than a row.
pub open spec fn short_stride_text(stride: nat, row: nat) -> Seq<char> {
    "farbfeld encoder: plane stride "@ + decimal(stride) + " smaller than row width "@ + decimal(
        row,
    )
}

/// The message for a plane that does not hold all rows.
pub open spec fn short_plane_text(got: nat, height: u32, stride: nat) -> Seq<char> {
    "farbfeld encoder: plane data "@ + decimal(got) + " bytes too short for "@ + decimal(
        height as nat,
    ) + " rows of stride "@ + decimal(stride)
}

/// The first `row` bytes of each of `height` rows that lie `stride` apart, one
/// row behind the other.
pub open spec fn packed_rows(data: Seq<u8>, stride: int, row: int, height: int) -> Seq<u8> {
    Seq::new((height * row) as nat, |i: int| data[i / row * stride + i % row])
}

/// Bytes that a plane must have to hold `height` rows of `row` bytes.
pub open spec fn extent(stride: nat, row: nat, height: u32) -> int {
    if height == 0 {
        0
    } else {
        (height - 1) * stride + row
    }
}

/// What encoding a plane of the given dimensions gives.
pub open spec fn plane_outcome(width: u32, height: u32, stride: usize, data: Seq<u8>) -> Result<
    Seq<u8>,
    Seq<char>,
> {
    let row = (width * 8) as nat;
    if row > usize::MAX {
        Err("farbfeld encoder: row size overflow"@)
    } else if stride < row {
        Err(short_stride_text(stride as nat, row))
    } else if row * height > usize::MAX {
        Err("farbfeld encoder: body size overflow"@)
    } else if extent(stride as nat, row, height) > usize::MAX {
        Err("farbfeld encoder: plane extent overflow"@)
    } else if data.len() < extent(stride as nat, row, height) {
        Err(short_plane_text(data.len(), height, stride as nat))
    } else if 16 + row * height > usize::MAX {
        Err(total_overflow_text())
    } else {
        Ok(
            file_bytes(
                width,
                height,
                swapped_pairs(packed_rows(data, stride as int, row as int, height as int)),
            ),
        )
    }
}

/// What encoding a frame gives, for an encoder with the given dimensions.
pub open spec fn frame_outcome(
    width: Option<u32>,
    height: Option<u32>,
    frame: MediaFrame<'_>,
) -> Result<Seq<u8>, Seq<char>> {
    match (frame, width, height) {
        (MediaFrame::Other, _, _) => Err("farbfeld encoder: expected video frame"@),
        (_, None, _) => Err("farbfeld encoder: width missing in CodecParameters"@),
        (_, _, None) => Err("farbfeld encoder: height missing in CodecParameters"@),
        (MediaFrame::Video(planes), Some(width), Some(height)) => if planes@.len() == 0 {
            Err("farbfeld encoder: empty planes"@)
        } else {
            plane_outcome(width, height, planes@[0].stride, planes@[0].data@)
        },
    }
}

/// Encodes one plane of little-endian samples.
///
/// Rows lie `stride` bytes apart, and only the first `width * 8` bytes of each
/// carry samples: what lies between them never reaches the file.
pub fn encode_plane(width: u32, height: u32, plane: PlaneView<'_>) -> (r: Result<
    Vec<u8>,
    FarbfeldError,
>)
    ensures
        viewed_outcome(r) == plane_outcome(width, height, plane.stride, plane.data@),
{
    let stride: usize = plane.stride;
    let row_bytes: usize = match (width as usize).checked_mul(BYTES_PER_PIXEL) {
        Some(row_bytes) => row_bytes,
        None => {
            return Err(
                FarbfeldError::invalid(String::from_str("farbfeld encoder: row size overflow")),
            );
        },
    };
    if stride < row_bytes {
        let mut msg = String::from_str("farbfeld encoder: plane stride ");
        push_decimal(&mut msg, stride as u64);
        msg.append(" smaller than row width ");
        push_decimal(&mut msg, row_bytes as u64);
        return Err(FarbfeldError::invalid(msg));
    }
    let body_len: usize = match row_bytes.checked_mul(height as usize) {
        Some(body_len) => body_len,
        None => {
            return Err(
                FarbfeldError::invalid(String::from_str("farbfeld encoder: body size overflow")),
            );
        },
    };
    let needed: usize = if height == 0 {
        0
    } else {
        let before_last: Option<usize> = (height as usize - 1).checked_mul(stride);
        let all: Option<usize> = match before_last {
            Some(n) => n.checked_add(row_bytes),
            None => None,
        };
        match all {
            Some(needed) => needed,
            None => {
                return Err(
                    FarbfeldError::invalid(
                        String::from_str("farbfeld encoder: plane extent overflow"),
                    ),
                );
            },
        }
    };
    if plane.data.len() < needed {
        let mut msg = String::from_str("farbfeld encoder: plane data ");
        push_decimal(&mut msg, plane.data.len() as u64);
        msg.append(" bytes too short for ");
        push_decimal(&mut msg, height as u64);
        msg.append(" rows of stride ");
        push_decimal(&mut msg, stride as u64);
        return Err(FarbfeldError::invalid(msg));
    }
    if body_len > usize::MAX - HEADER_LEN {
        return Err(total_overflow());
    }
    let mut out = new_header(width, height);
    out.resize(HEADER_LEN + body_len, 0);
    let ghost packed = packed_rows(plane.data@, stride as int, row_bytes as int, height as int);
    let ghost body = swapped_pairs(packed);
    let mut y: u32 = 0;
    while y < height
        invariant
            y <= height,
            row_bytes == width * 8,
            row_bytes <= stride,
            body_len == row_bytes * height,
            16 + body_len <= usize::MAX,
            plane.stride == stride,
            plane.data.len() >= extent(stride as nat, row_bytes as nat, height),
            packed == packed_rows(plane.data@, stride as int, row_bytes as int, height as int),
            body == swapped_pairs(packed),
            out@.len() == 16 + body_len,
            out@.take(16) == header_bytes(width, height),
            forall|j: int| 0 <= j < y * row_bytes ==> out@[16 + j] == body[j],
        decreases height - y,
    {
        proof {
            lemma_row_bounds(stride as int, row_bytes as int, height as int, y as int);
        }
        let src_lo: usize = y as usize * stride;
        let src = &plane.data[src_lo..src_lo + row_bytes];
        let dst_lo: usize = HEADER_LEN + y as usize * row_bytes;
        let ghost before = out@;
        {
            let (_, tail) = out.as_mut_slice().split_at_mut(dst_lo);
            let (dst, _) = tail.split_at_mut(row_bytes);
            swap_pairs_le_to_be(src, dst);
        }
        proof {
            lemma_swapped_row(plane.data@, stride as int, row_bytes as int, height as int, y as int);
            assert(out@ == before.take(dst_lo as int) + swapped_pairs(src@) + before.skip(
                dst_lo + row_bytes,
            ));
            lemma_row_placed(before, out@, body, swapped_pairs(src@), y * row_bytes);
        }
        y += 1;
    }
    proof {
        lemma_packed_length(plane.data@, stride as int, width, height);
        lemma_file_joined(out@, width, height, body);
    }
    Ok(out)
}

/// An encoder that holds at most one file until it is fetched.
pub struct FarbfeldEncoder {
    width: Option<u32>,
    height: Option<u32>,
    pending: Option<Vec<u8>>,
    eof: bool,
}

/// What an encoder holds.
#[verifier::ext_equal]
pub struct EncoderState {
    /// Picture width in pixels, where it is known.
    pub width: Option<u32>,
    /// Picture height in pixels, where it is known.
    pub height: Option<u32>,
    /// The file that waits to be fetched.
    pub pending: Option<Seq<u8>>,
    /// Whether the input has ended.
    pub eof: bool,
}

impl View for FarbfeldEncoder {
    type V = EncoderState;

    closed spec fn view(&self) -> EncoderState {
        EncoderState {
            width: self.width,
            height: self.height,
            pending: match self.pending {
                Some(bytes) => Some(bytes@),
                None => None,
            },
            eof: self.eof,
        }
    }
}

impl FarbfeldEncoder {
    /// An encoder for pictures of the given dimensions.
    pub fn new(width: Option<u32>, height: Option<u32>) -> (r: Self)
        ensures
            r@ == (EncoderState { width, height, pending: None, eof: false }),
    {
        FarbfeldEncoder { width, height, pending: None, eof: false }
    }

    /// What the encoder publishes of the pictures that it encodes.
    pub fn output_params(&self) -> (r: PictureParameters)
        ensures
            r == (PictureParameters {
                media_type: StreamKind::Video,
                width: self@.width,
                height: self@.height,
                pixel_format: PixelLayout::Rgba64Le,
            }),
    {
        PictureParameters::farbfeld(self.width, self.height)
    }

    /// Encodes one picture: its first plane, little-endian samples.
    ///
    /// The file replaces one that was not fetched. A refused picture changes
    /// nothing.
    pub fn send_frame(&mut self, frame: &MediaFrame<'_>) -> (r: Result<(), FarbfeldError>)
        ensures
            match frame_outcome(old(self)@.width, old(self)@.height, *frame) {
                Ok(file) => {
                    &&& r is Ok
                    &&& final(self)@ == (EncoderState { pending: Some(file), ..old(self)@ })
                },
                Err(text) => {
                    &&& outcome(r) == Err::<(), _>(text)
                    &&& final(self)@ == old(self)@
                },
            },
    {
        let planes = match frame {
            MediaFrame::Video(planes) => planes,
            MediaFrame::Other => {
                return Err(
                    FarbfeldError::invalid(
                        String::from_str("farbfeld encoder: expected video frame"),
                    ),
                );
            },
        };
        let width: u32 = match self.width {
            Some(width) => width,
            None => {
                return Err(
                    FarbfeldError::invalid(
                        String::from_str("farbfeld encoder: width missing in CodecParameters"),
                    ),
                );
            },
        };
        let height: u32 = match self.height {
            Some(height) => height,
            None => {
                return Err(
                    FarbfeldError::invalid(
                        String::from_str("farbfeld encoder: height missing in CodecParameters"),
                    ),
                );
            },
        };
        if planes.len() == 0 {
            return Err(
                FarbfeldError::invalid(String::from_str("farbfeld encoder: empty planes")),
            );
        }
        match encode_plane(width, height, planes[0]) {
            Ok(file) => {
                self.pending = Some(file);
                Ok(())
            },
            Err(e) => Err(e),
        }
    }

    /// Fetches the file that waits, or says why there is none.
    pub fn receive_packet(&mut self) -> (r: Result<FilePacket, Idle>)
        ensures
            final(self)@ == (EncoderState { pending: None, ..old(self)@ }),
            match old(self)@.pending {
                Some(file) => r matches Ok(packet) && packet@ == (PacketModel {
                    stream_index: 0,
                    time_base: TimeBase { num: 1, den: 1 },
                    pts: None,
                    dts: None,
                    keyframe: true,
                    data: file,
                }),
                None => r == Err::<FilePacket, _>(
                    if old(self)@.eof {
                        Idle::Eof
                    } else {
                        Idle::NeedMore
                    },
                ),
            },
    {
        match self.pending.take() {
            Some(data) => Ok(
                FilePacket {
                    stream_index: 0,
                    time_base: TimeBase::seconds(),
                    pts: None,
                    dts: None,
                    keyframe: true,
                    data,
                },
            ),
            None => {
                if self.eof {
                    Err(Idle::Eof)
                } else {
                    Err(Idle::NeedMore)
                }
            },
        }
    }

    /// Notes that the input has ended.
    pub fn flush(&mut self)
        ensures
            final(self)@ == (EncoderState { eof: true, ..old(self)@ }),
    {
        self.eof = true;
    }
}

/// Row `y` lies within the plane, and within the body.
proof fn lemma_row_bounds(stride: int, row: int, height: int, y: int)
    requires
        0 <= row <= stride,
        0 <= y < height,
    ensures
        0 <= y * stride,
        y * stride + row <= (height - 1) * stride + row,
        0 <= y * row,
        (y + 1) * row == y * row + row,
        (y + 1) * row <= row * height,
        height * row == row * height,
{
    assert(0 <= y * stride) by (nonlinear_arith)
        requires
            0 <= y,
            0 <= stride,
    ;
    assert(y * stride <= (height - 1) * stride) by (nonlinear_arith)
        requires
            y <= height - 1,
            0 <= stride,
    ;
    assert(0 <= y * row) by (nonlinear_arith)
        requires
            0 <= y,
            0 <= row,
    ;
    assert((y + 1) * row == y * row + row) by (nonlinear_arith);
    assert((y + 1) * row <= row * height) by (nonlinear_arith)
        requires
            y + 1 <= height,
            0 <= row,
    ;
    assert(height * row == row * height) by (nonlinear_arith);
}

/// Packed rows are as long as all rows together, and swapping keeps that.
proof fn lemma_packed_length(data: Seq<u8>, stride: int, width: u32, height: u32)
    ensures
        swapped_pairs(packed_rows(data, stride, width * 8, height as int)).len() == width * 8
            * height,
        height * (width * 8) == width * 8 * height,
{
    assert(height * (width * 8) == width * 8 * height) by (nonlinear_arith);
    assert(width * 8 * height == 2 * (width * 4 * height)) by (nonlinear_arith);
    assert(0 <= width * 8 * height) by (nonlinear_arith);
}

/// Bytes that begin with the header and go on with the body are the file.
proof fn lemma_file_joined(out: Seq<u8>, width: u32, height: u32, body: Seq<u8>)
    requires
        out.len() == 16 + body.len(),
        out.take(16) == header_bytes(width, height),
        forall|j: int| 0 <= j < body.len() ==> out[16 + j] == body[j],
    ensures
        out == file_bytes(width, height, body),
{
    assert(out.skip(16) =~= body);
    assert(out =~= out.take(16) + out.skip(16));
}

/// A file that holds the first `done` bytes of its body holds one row more when
/// that row is laid behind them.
proof fn lemma_row_placed(
    before: Seq<u8>,
    after: Seq<u8>,
    body: Seq<u8>,
    row: Seq<u8>,
    done: int,
)
    requires
        0 <= done,
        16 + done + row.len() <= before.len(),
        after == before.take(16 + done) + row + before.skip(16 + done + row.len()),
        forall|j: int| 0 <= j < done ==> before[16 + j] == body[j],
        forall|j: int| done <= j < done + row.len() ==> body[j] == row[j - done],
    ensures
        after.len() == before.len(),
        after.take(16) == before.take(16),
        forall|j: int| 0 <= j < done + row.len() ==> after[16 + j] == body[j],
{
}

/// The swapped bytes of a source row are those of the same row of the body.
proof fn lemma_swapped_row(data: Seq<u8>, stride: int, row: int, height: int, y: int)
    requires
        0 <= row <= stride,
        row % 2 == 0,
        0 <= y < height,
        y * stride + row <= data.len(),
    ensures
        forall|j: int|
            y * row <= j < (y + 1) * row ==> swapped_pairs(packed_rows(data, stride, row, height))[j]
                == swapped_pairs(data.subrange(y * stride, y * stride + row))[j - y * row],
{
    lemma_row_bounds(stride, row, height, y);
    let packed = packed_rows(data, stride, row, height);
    let src = data.subrange(y * stride, y * stride + row);
    assert(y * row == 2 * (y * (row / 2))) by (nonlinear_arith)
        requires
            row % 2 == 0,
    ;
    assert forall|j: int| 0 <= j < row implies packed[y * row + j] == src[j] by {
        vstd::arithmetic::div_mod::lemma_fundamental_div_mod_converse(y * row + j, row, y, j);
    }
    assert forall|j: int| y * row <= j < (y + 1) * row implies swapped_pairs(packed)[j]
        == swapped_pairs(src)[j - y * row] by {
        let k = j - y * row;
        if j % 2 == 0 {
            assert(packed[y * row + (k + 1)] == src[k + 1]);
        } else {
            assert(packed[y * row + (k - 1)] == src[k - 1]);
        }
    }
}

} // verus!
