//! What a media framework gets from the decoder, the encoder and the container.

use vstd::prelude::*;

use crate::container::{
    check_mux_streams, judge, probe, Evidence, FarbfeldDemuxer, StreamDescription,
};
use crate::decoder::FarbfeldDecoder;
use crate::error::FarbfeldError;
use crate::format::{le_bytes, swapped_pairs};
use crate::frame::{
    DecodedFrame, FilePacket, Idle, MediaFrame, PictureParameters, PixelLayout, PlaneView,
    StreamKind, TimeBase,
};
use crate::frame_encoder::{encode_plane, packed_rows, plane_outcome, FarbfeldEncoder};
use crate::image::FarbfeldImage;
use crate::laws::encoding::{begins_with_header, lemma_made_header};
use crate::parser::{file_outcome, parse_farbfeld, MAGIC};
use crate::text::decimal;

verus! {

/// Whether `file` is the file of a plane: the header, and then the `width * 4`
/// samples of each of `height` rows. What lies between the rows is not in it.
pub open spec fn is_file_of_plane(
    file: Seq<u8>,
    width: u32,
    height: u32,
    stride: int,
    data: Seq<u8>,
) -> bool {
    &&& begins_with_header(file, width, height)
    &&& file.len() == 16 + height * (width * 8)
    &&& forall|y: int, i: int|
        0 <= y < height && 0 <= i < width * 4 ==> #[trigger] holds_sample(
            file,
            width,
            stride,
            data,
            y,
            i,
        )
}

/// Whether `file` holds sample `i` of row `y` of a plane: the two bytes at `2 * i`
/// of the row, which begins at `y * stride`, in the opposite order.
pub open spec fn holds_sample(
    file: Seq<u8>,
    width: u32,
    stride: int,
    data: Seq<u8>,
    y: int,
    i: int,
) -> bool {
    &&& file[16 + y * (width * 8) + 2 * i] == data[y * stride + 2 * i + 1]
    &&& file[16 + y * (width * 8) + 2 * i + 1] == data[y * stride + 2 * i]
}

/// What is said of a plane that cannot be encoded: its rows are longer than
/// `usize` counts, longer than they lie apart, or more than `usize` counts
/// together; or they end beyond what `usize` counts or beyond the data; or the
/// file is too long.
pub open spec fn says_plane_is_wrong(
    message: Seq<char>,
    width: u32,
    height: u32,
    stride: usize,
    data: Seq<u8>,
) -> bool {
    let row = width * 8;
    let end = if height == 0 {
        0
    } else {
        (height - 1) * stride + row
    };
    ||| row > usize::MAX && message == "farbfeld encoder: row size overflow"@
    ||| stride < row <= usize::MAX && message == "farbfeld encoder: plane stride "@ + decimal(
        stride as nat,
    ) + " smaller than row width "@ + decimal(row as nat)
    ||| row <= stride && row * height > usize::MAX && message
        == "farbfeld encoder: body size overflow"@
    ||| row <= stride && row * height <= usize::MAX && end > usize::MAX && message
        == "farbfeld encoder: plane extent overflow"@
    ||| row <= stride && row * height <= usize::MAX && data.len() < end <= usize::MAX && message
        == "farbfeld encoder: plane data "@ + decimal(data.len()) + " bytes too short for "@
        + decimal(height as nat) + " rows of stride "@ + decimal(stride as nat)
    ||| row <= stride && row * height <= usize::MAX < 16 + row * height && end <= data.len()
        && message == "farbfeld: total file size overflows usize"@
}

/// The file of a plane, in its parts.
proof fn lemma_plane(width: u32, height: u32, stride: usize, data: Seq<u8>)
    ensures
        match plane_outcome(width, height, stride, data) {
            Ok(file) => is_file_of_plane(file, width, height, stride as int, data),
            Err(text) => says_plane_is_wrong(text, width, height, stride, data),
        },
{
    let row = width * 8;
    assert(height * row == row * height) by (nonlinear_arith);
    if let Ok(file) = plane_outcome(width, height, stride, data) {
        let packed = packed_rows(data, stride as int, row, height as int);
        let body = swapped_pairs(packed);
        assert(height * row == 2 * (height * (width * 4))) by (nonlinear_arith)
            requires
                row == width * 8,
        ;
        assert(0 <= height * row) by (nonlinear_arith)
            requires
                0 <= row,
        ;
        lemma_made_header(width, height, body);
        assert forall|y: int, i: int| 0 <= y < height && 0 <= i < width * 4 implies #[trigger]
            holds_sample(file, width, stride as int, data, y, i) by {
            lemma_packed_pair(data, stride as int, row, height as int, y, i);
            let k = y * row + 2 * i;
            assert(file.skip(16)[k] == file[16 + k]);
            assert(file.skip(16)[k + 1] == file[16 + k + 1]);
        }
    }
}

/// A pair of bytes of a row is the same pair of the packed rows.
proof fn lemma_packed_pair(data: Seq<u8>, stride: int, row: int, height: int, y: int, i: int)
    requires
        0 <= y < height,
        0 <= i,
        2 * i + 1 < row,
        row % 2 == 0,
    ensures
        0 <= y * row + 2 * i,
        y * row + 2 * i + 1 < height * row,
        (y * row + 2 * i) % 2 == 0,
        packed_rows(data, stride, row, height)[y * row + 2 * i] == data[y * stride + 2 * i],
        packed_rows(data, stride, row, height)[y * row + 2 * i + 1] == data[y * stride + 2 * i + 1],
{
    let k = y * row + 2 * i;
    assert(0 <= y * row) by (nonlinear_arith)
        requires
            0 <= y,
            0 <= row,
    ;
    assert(y * row + row <= height * row) by (nonlinear_arith)
        requires
            y + 1 <= height,
            0 <= row,
    ;
    assert(y * row == 2 * (y * (row / 2))) by (nonlinear_arith)
        requires
            row % 2 == 0,
    ;
    vstd::arithmetic::div_mod::lemma_fundamental_div_mod_converse(k, row, y, 2 * i);
    vstd::arithmetic::div_mod::lemma_fundamental_div_mod_converse(k + 1, row, y, 2 * i + 1);
}

/// Encoding a plane gives its file, by the plane's own stride.
pub proof fn law_plane_is_encoded(
    width: u32,
    height: u32,
    plane: PlaneView<'_>,
    r: Result<Vec<u8>, FarbfeldError>,
)
    requires
        call_ensures(encode_plane, (width, height, plane), r),
    ensures
        call_requires(encode_plane, (width, height, plane)),
        match r {
            Ok(file) => is_file_of_plane(
                file@,
                width,
                height,
                plane.stride as int,
                plane.data@,
            ),
            Err(FarbfeldError::InvalidData(message)) => says_plane_is_wrong(
                message@,
                width,
                height,
                plane.stride,
                plane.data@,
            ),
        },
{
    lemma_plane(width, height, plane.stride, plane.data@);
}

/// Sending a picture to the encoder: the file of its first plane, by that plane's
/// own stride and with the encoder's dimensions, is then pending. Anything but a
/// picture, a picture without dimensions or planes and a plane that cannot be
/// encoded are refused, in that order, and change nothing.
pub proof fn law_frame_is_encoded(
    encoder: &mut FarbfeldEncoder,
    frame: &MediaFrame<'_>,
    r: Result<(), FarbfeldError>,
)
    requires
        call_ensures(FarbfeldEncoder::send_frame, (encoder, frame), r),
    ensures
        call_requires(FarbfeldEncoder::send_frame, (encoder, frame)),
        final(encoder)@.width == old(encoder)@.width,
        final(encoder)@.height == old(encoder)@.height,
        final(encoder)@.eof == old(encoder)@.eof,
        match r {
            Ok(()) => {
                match (frame, old(encoder)@.width, old(encoder)@.height, final(encoder)@.pending) {
                    (MediaFrame::Video(planes), Some(width), Some(height), Some(file)) => {
                        &&& planes@.len() > 0
                        &&& is_file_of_plane(
                            file,
                            width,
                            height,
                            planes@[0].stride as int,
                            planes@[0].data@,
                        )
                    },
                    _ => false,
                }
            },
            Err(FarbfeldError::InvalidData(message)) => {
                &&& final(encoder)@.pending == old(encoder)@.pending
                &&& match (frame, old(encoder)@.width, old(encoder)@.height) {
                    (MediaFrame::Other, _, _) => message@
                        == "farbfeld encoder: expected video frame"@,
                    (MediaFrame::Video(_), None, _) => message@
                        == "farbfeld encoder: width missing in CodecParameters"@,
                    (MediaFrame::Video(_), Some(_), None) => message@
                        == "farbfeld encoder: height missing in CodecParameters"@,
                    (MediaFrame::Video(planes), Some(width), Some(height)) => if planes@.len()
                        == 0 {
                        message@ == "farbfeld encoder: empty planes"@
                    } else {
                        says_plane_is_wrong(
                            message@,
                            width,
                            height,
                            planes@[0].stride,
                            planes@[0].data@,
                        )
                    },
                }
            },
        },
{
    match (frame, old(encoder)@.width, old(encoder)@.height) {
        (MediaFrame::Video(planes), Some(width), Some(height)) => {
            if planes@.len() > 0 {
                lemma_plane(width, height, planes@[0].stride, planes@[0].data@);
            }
        },
        _ => {},
    }
}

/// What an encoder starts with, publishes and hands out: nothing pending, its
/// dimensions and the one pixel format, and the pending file once, as one packet
/// of stream zero that stands on its own. When nothing is pending, an encoder
/// whose input has ended says so, and any other asks for more.
pub proof fn law_encoder_hands_out(
    width: Option<u32>,
    height: Option<u32>,
    fresh: FarbfeldEncoder,
    encoder: &mut FarbfeldEncoder,
    params: PictureParameters,
    r: Result<FilePacket, Idle>,
    flushed: &mut FarbfeldEncoder,
)
    requires
        call_ensures(FarbfeldEncoder::new, (width, height), fresh),
        call_ensures(FarbfeldEncoder::output_params, (&*old(encoder),), params),
        call_ensures(FarbfeldEncoder::receive_packet, (encoder,), r),
        call_ensures(FarbfeldEncoder::flush, (flushed,), ()),
    ensures
        call_requires(FarbfeldEncoder::new, (width, height)),
        call_requires(FarbfeldEncoder::output_params, (&*old(encoder),)),
        call_requires(FarbfeldEncoder::receive_packet, (encoder,)),
        call_requires(FarbfeldEncoder::flush, (flushed,)),
        fresh@.width == width && fresh@.height == height && fresh@.pending is None
            && !fresh@.eof,
        params.media_type == StreamKind::Video,
        params.pixel_format == PixelLayout::Rgba64Le,
        params.width == old(encoder)@.width && params.height == old(encoder)@.height,
        final(encoder)@.width == old(encoder)@.width,
        final(encoder)@.height == old(encoder)@.height,
        final(encoder)@.eof == old(encoder)@.eof,
        final(encoder)@.pending is None,
        match r {
            Ok(packet) => {
                &&& old(encoder)@.pending == Some(packet.data@)
                &&& packet.stream_index == 0
                &&& packet.time_base.num == 1 && packet.time_base.den == 1
                &&& packet.pts is None && packet.dts is None
                &&& packet.keyframe
            },
            Err(Idle::Eof) => old(encoder)@.pending is None && old(encoder)@.eof,
            Err(Idle::NeedMore) => old(encoder)@.pending is None && !old(encoder)@.eof,
        },
        final(flushed)@.eof,
        final(flushed)@.pending == old(flushed)@.pending,
        final(flushed)@.width == old(flushed)@.width,
        final(flushed)@.height == old(flushed)@.height,
{
}

/// Timestamps count seconds, and farbfeld pictures of any dimensions are published
/// with them and in the one pixel format.
pub proof fn law_what_is_published(
    unit: TimeBase,
    width: Option<u32>,
    height: Option<u32>,
    params: PictureParameters,
)
    requires
        call_ensures(TimeBase::seconds, (), unit),
        call_ensures(PictureParameters::farbfeld, (width, height), params),
    ensures
        unit.num == 1 && unit.den == 1,
        params.media_type == StreamKind::Video,
        params.width == width && params.height == height,
        params.pixel_format == PixelLayout::Rgba64Le,
{
}

/// Sending a file to the decoder: it is accepted where it parses and its rows fit
/// in `usize`, and the picture is then pending, with the packet's timestamp and
/// rows of `width * 8` bytes without a gap. Sample `i` of the parsed image lies at
/// `2 * i`, low byte first. A file that is refused changes nothing.
pub proof fn law_packet_is_decoded(
    decoder: &mut FarbfeldDecoder,
    data: &[u8],
    pts: Option<i64>,
    r: Result<(), FarbfeldError>,
    parsed: Result<FarbfeldImage, FarbfeldError>,
)
    requires
        call_ensures(FarbfeldDecoder::send_packet, (decoder, data, pts), r),
        call_ensures(parse_farbfeld, (data,), parsed),
    ensures
        call_requires(parse_farbfeld, (data,)),
        call_requires(FarbfeldDecoder::send_packet, (decoder, data, pts)),
        final(decoder)@.1 == old(decoder)@.1,
        match (r, parsed) {
            (Ok(()), Ok(image)) => {
                &&& final(decoder)@.0 matches Some((stamp, (stride, plane))) && {
                    &&& stamp == pts
                    &&& stride == image.width * 8
                    &&& low_byte_first(image.pixels@, plane)
                }
            },
            (Err(FarbfeldError::InvalidData(message)), Ok(image)) => {
                &&& image.width * 8 > usize::MAX
                &&& message@ == "farbfeld: stride overflow"@
                &&& final(decoder)@.0 == old(decoder)@.0
            },
            (
                Err(FarbfeldError::InvalidData(message)),
                Err(FarbfeldError::InvalidData(refusal)),
            ) => {
                &&& message@ == refusal@
                &&& final(decoder)@.0 == old(decoder)@.0
            },
            (Ok(()), Err(_)) => false,
        },
{
    lemma_low_byte_first(file_outcome(data@)->Ok_0.2);
}

/// Samples as bytes, low byte first, in their parts.
proof fn lemma_low_byte_first(samples: Seq<u16>)
    ensures
        low_byte_first(samples, le_bytes(samples)),
{
}

/// Whether `bytes` are the samples, low byte first.
pub open spec fn low_byte_first(samples: Seq<u16>, bytes: Seq<u8>) -> bool {
    &&& bytes.len() == 2 * samples.len()
    &&& forall|i: int|
        0 <= i < samples.len() ==> {
            &&& bytes[2 * i] == #[trigger] samples[i] % 256
            &&& bytes[2 * i + 1] == samples[i] / 256
        }
}

/// What a decoder starts with and hands out: nothing, and then the pending picture
/// once. When nothing is pending, a decoder whose input has ended says so, and any
/// other asks for more.
pub proof fn law_decoder_hands_out(
    fresh: FarbfeldDecoder,
    decoder: &mut FarbfeldDecoder,
    r: Result<DecodedFrame, Idle>,
    flushed: &mut FarbfeldDecoder,
)
    requires
        call_ensures(FarbfeldDecoder::new, (), fresh),
        call_ensures(FarbfeldDecoder::receive_frame, (decoder,), r),
        call_ensures(FarbfeldDecoder::flush, (flushed,), ()),
    ensures
        call_requires(FarbfeldDecoder::new, ()),
        call_requires(FarbfeldDecoder::receive_frame, (decoder,)),
        call_requires(FarbfeldDecoder::flush, (flushed,)),
        fresh@.0 is None && !fresh@.1,
        final(decoder)@.0 is None,
        final(decoder)@.1 == old(decoder)@.1,
        match r {
            Ok(frame) => old(decoder)@.0 == Some(
                (frame.pts, (frame.plane.stride, frame.plane.data@)),
            ),
            Err(Idle::Eof) => old(decoder)@.0 is None && old(decoder)@.1,
            Err(Idle::NeedMore) => old(decoder)@.0 is None && !old(decoder)@.1,
        },
        final(flushed)@.0 == old(flushed)@.0,
        final(flushed)@.1,
{
}

/// Opening a file as a container: it is accepted exactly where it parses, with
/// the same message where it does not. Its one stream is of pictures with the
/// dimensions of the file, and the whole file waits to be fetched.
pub proof fn law_container_is_opened(
    bytes: Vec<u8>,
    r: Result<FarbfeldDemuxer, FarbfeldError>,
    view: &[u8],
    parsed: Result<FarbfeldImage, FarbfeldError>,
)
    requires
        call_ensures(FarbfeldDemuxer::open, (bytes,), r),
        view@ == bytes@,
        call_ensures(parse_farbfeld, (view,), parsed),
    ensures
        call_requires(parse_farbfeld, (view,)),
        call_requires(FarbfeldDemuxer::open, (bytes,)),
        match (r, parsed) {
            (Ok(demuxer), Ok(image)) => {
                let stream = demuxer@.0;
                &&& stream.index == 0
                &&& stream.time_base.num == 1 && stream.time_base.den == 1
                &&& stream.start_time == Some(0i64)
                &&& stream.duration is None
                &&& stream.params.media_type == StreamKind::Video
                &&& stream.params.pixel_format == PixelLayout::Rgba64Le
                &&& stream.params.width == Some(image.width)
                &&& stream.params.height == Some(image.height)
                &&& demuxer@.1 == Some(bytes@)
            },
            (
                Err(FarbfeldError::InvalidData(message)),
                Err(FarbfeldError::InvalidData(refusal)),
            ) => message@ == refusal@,
            _ => false,
        },
{
}

/// What a demuxer hands out: its stream, and the file once, as one packet of
/// stream zero at time zero that stands on its own.
pub proof fn law_demuxer_hands_out(
    demuxer: &mut FarbfeldDemuxer,
    stream: StreamDescription,
    r: Result<FilePacket, Idle>,
)
    requires
        call_ensures(FarbfeldDemuxer::stream, (&*old(demuxer),), stream),
        call_ensures(FarbfeldDemuxer::next_packet, (demuxer,), r),
    ensures
        call_requires(FarbfeldDemuxer::stream, (&*old(demuxer),)),
        call_requires(FarbfeldDemuxer::next_packet, (demuxer,)),
        stream == old(demuxer)@.0,
        final(demuxer)@.0 == old(demuxer)@.0,
        final(demuxer)@.1 is None,
        match r {
            Ok(packet) => {
                &&& old(demuxer)@.1 == Some(packet.data@)
                &&& packet.stream_index == 0
                &&& packet.time_base.num == 1 && packet.time_base.den == 1
                &&& packet.pts == Some(0i64) && packet.dts == Some(0i64)
                &&& packet.keyframe
            },
            Err(idle) => idle == Idle::Eof && old(demuxer)@.1 is None,
        },
{
}

/// Probing: bytes that begin with the letters `farbfeld` score 100, others score
/// 25 where the extension is `ff` or `farbfeld`, and 0 where it is not. Judging
/// tells these apart by name.
pub proof fn law_input_is_probed(buf: &[u8], extension: Option<&str>, score: u8, found: Evidence)
    requires
        call_ensures(probe, (buf, extension), score),
        call_ensures(judge, (buf, extension), found),
    ensures
        call_requires(probe, (buf, extension)),
        call_requires(judge, (buf, extension)),
        ({
            let magic = buf@.len() >= 8 && buf@.take(8) == seq![
                0x66u8,
                0x61,
                0x72,
                0x62,
                0x66,
                0x65,
                0x6c,
                0x64,
            ];
            let named = extension matches Some(e) && (e@ == "ff"@ || e@ == "farbfeld"@);
            &&& magic ==> score == 100 && found == Evidence::Magic
            &&& !magic && named ==> score == 25 && found == Evidence::Extension
            &&& !magic && !named ==> score == 0 && found == Evidence::Nothing
        }),
{
    assert(MAGIC@ =~= seq![0x66u8, 0x61, 0x72, 0x62, 0x66, 0x65, 0x6c, 0x64]);
}

/// A file can be written for exactly one stream, and that of pictures.
pub proof fn law_streams_to_write(streams: &[StreamKind], r: Result<(), FarbfeldError>)
    requires
        call_ensures(check_mux_streams, (streams,), r),
    ensures
        call_requires(check_mux_streams, (streams,)),
        match r {
            Ok(()) => streams@.len() == 1 && streams@[0] == StreamKind::Video,
            Err(FarbfeldError::InvalidData(message)) => {
                ||| streams@.len() != 1 && message@
                    == "farbfeld muxer: expected exactly one video stream"@
                ||| streams@.len() == 1 && streams@[0] != StreamKind::Video && message@
                    == "farbfeld muxer: stream must be video"@
            },
        },
{
}

} // verus!
