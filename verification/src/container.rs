//! farbfeld files as a container: one file is one packet on stream zero.

use vstd::prelude::*;
use vstd::string::StringExecFns;

use crate::error::{outcome, FarbfeldError};
use crate::format::MAGIC;
use crate::frame::{
    FilePacket, Idle, PacketModel, PictureParameters, PixelLayout, StreamKind, TimeBase,
};
use crate::parser::{file_outcome, has_magic, parse_farbfeld};

verus! {

/// What speaks for an input being a farbfeld file.
#[derive(Debug, Clone, Copy, PartialEq, Eq, Structural)]
pub enum Evidence {
    /// It begins with the magic.
    Magic,
    /// Only the file extension.
    Extension,
    /// Nothing.
    Nothing,
}

/// Whether a file extension stands for farbfeld.
pub open spec fn is_farbfeld_extension(extension: Seq<char>) -> bool {
    extension == "ff"@ || extension == "farbfeld"@
}

/// What the first bytes of an input, and its extension, speak for.
pub open spec fn evidence(buf: Seq<u8>, extension: Option<Seq<char>>) -> Evidence {
    if buf.len() >= 8 && buf.take(8) == MAGIC@ {
        Evidence::Magic
    } else if extension matches Some(e) && is_farbfeld_extension(e) {
        Evidence::Extension
    } else {
        Evidence::Nothing
    }
}

/// How sure a probe is of its evidence, from 0 to 100.
pub open spec fn score(evidence: Evidence) -> u8 {
    match evidence {
        Evidence::Magic => 100,
        Evidence::Extension => 25,
        Evidence::Nothing => 0,
    }
}

/// The constant `oxideav_core::MAX_PROBE_SCORE`, the score for magic bytes that
/// leave no doubt: it is 100.
#[verifier::external_body]
fn max_probe_score() -> (r: u8)
    ensures
        r == 100,
{
    oxideav_core::MAX_PROBE_SCORE
}

/// The constant `oxideav_core::PROBE_SCORE_EXTENSION`, the score where only the
/// file extension matches: it is 25.
#[verifier::external_body]
fn extension_probe_score() -> (r: u8)
    ensures
        r == 25,
{
    oxideav_core::PROBE_SCORE_EXTENSION
}

/// Scores an input by its first bytes, and by its extension where they are
/// something else.
pub fn probe(buf: &[u8], extension: Option<&str>) -> (r: u8)
    ensures
        r == score(
            evidence(
                buf@,
                match extension {
                    Some(e) => Some(e@),
                    None => None,
                },
            ),
        ),
{
    match judge(buf, extension) {
        Evidence::Magic => max_probe_score(),
        Evidence::Extension => extension_probe_score(),
        Evidence::Nothing => 0,
    }
}

/// Judges an input by its first bytes, and by its extension where they are
/// something else.
pub fn judge(buf: &[u8], extension: Option<&str>) -> (r: Evidence)
    ensures
        r == evidence(
            buf@,
            match extension {
                Some(e) => Some(e@),
                None => None,
            },
        ),
{
    if has_magic(buf) {
        return Evidence::Magic;
    }
    match extension {
        Some(extension) => {
            let given = String::from_str(extension);
            let short = String::from_str("ff");
            let long = String::from_str("farbfeld");
            if given == short || given == long {
                Evidence::Extension
            } else {
                Evidence::Nothing
            }
        },
        None => Evidence::Nothing,
    }
}

/// Checks that the streams to write are exactly one of pictures.
pub fn check_mux_streams(streams: &[StreamKind]) -> (r: Result<(), FarbfeldError>)
    ensures
        outcome(r) == (if streams@.len() != 1 {
            Err("farbfeld muxer: expected exactly one video stream"@)
        } else if streams@[0] != StreamKind::Video {
            Err("farbfeld muxer: stream must be video"@)
        } else {
            Ok(())
        }),
{
    if streams.len() != 1 {
        return Err(
            FarbfeldError::invalid(
                String::from_str("farbfeld muxer: expected exactly one video stream"),
            ),
        );
    }
    if streams[0] != StreamKind::Video {
        return Err(
            FarbfeldError::invalid(String::from_str("farbfeld muxer: stream must be video")),
        );
    }
    Ok(())
}

/// What a demuxer publishes of its stream.
#[derive(Debug, Clone, Copy, PartialEq, Eq, Structural)]
pub struct StreamDescription {
    /// Number of the stream.
    pub index: u32,
    /// Unit of the timestamps.
    pub time_base: TimeBase,
    /// Timestamp of the first packet.
    pub start_time: Option<i64>,
    /// Length of the stream, where it is known.
    pub duration: Option<i64>,
    /// What the stream carries.
    pub params: PictureParameters,
}

/// A demuxer over one file.
pub struct FarbfeldDemuxer {
    stream: StreamDescription,
    data: Option<Vec<u8>>,
}

impl View for FarbfeldDemuxer {
    type V = (StreamDescription, Option<Seq<u8>>);

    /// The stream, and the file where it has not been fetched.
    closed spec fn view(&self) -> (StreamDescription, Option<Seq<u8>>) {
        (
            self.stream,
            match self.data {
                Some(bytes) => Some(bytes@),
                None => None,
            },
        )
    }
}

impl FarbfeldDemuxer {
    /// Opens a file. It is checked at once, so that the dimensions are known
    /// before anything is decoded.
    pub fn open(bytes: Vec<u8>) -> (r: Result<Self, FarbfeldError>)
        ensures
            match (r, file_outcome(bytes@)) {
                (Ok(demuxer), Ok((width, height, _))) => demuxer@ == (
                    StreamDescription {
                        index: 0,
                        time_base: TimeBase { num: 1, den: 1 },
                        start_time: Some(0),
                        duration: None,
                        params: PictureParameters {
                            media_type: StreamKind::Video,
                            width: Some(width),
                            height: Some(height),
                            pixel_format: PixelLayout::Rgba64Le,
                        },
                    },
                    Some(bytes@),
                ),
                (Err(e), Err(text)) => e.text() == text,
                _ => false,
            },
    {
        let image = match parse_farbfeld(bytes.as_slice()) {
            Ok(image) => image,
            Err(e) => return Err(e),
        };
        let stream = StreamDescription {
            index: 0,
            time_base: TimeBase::seconds(),
            start_time: Some(0),
            duration: None,
            params: PictureParameters::farbfeld(Some(image.width), Some(image.height)),
        };
        Ok(FarbfeldDemuxer { stream, data: Some(bytes) })
    }

    /// The one stream of the file.
    pub fn stream(&self) -> (r: StreamDescription)
        ensures
            r == self@.0,
    {
        self.stream
    }

    /// Fetches the file as one packet, once.
    pub fn next_packet(&mut self) -> (r: Result<FilePacket, Idle>)
        ensures
            final(self)@ == (old(self)@.0, None::<Seq<u8>>),
            match old(self)@.1 {
                Some(file) => r matches Ok(packet) && packet@ == (PacketModel {
                    stream_index: 0,
                    time_base: TimeBase { num: 1, den: 1 },
                    pts: Some(0),
                    dts: Some(0),
                    keyframe: true,
                    data: file,
                }),
                None => r == Err::<FilePacket, _>(Idle::Eof),
            },
    {
        match self.data.take() {
            Some(data) => Ok(
                FilePacket {
                    stream_index: 0,
                    time_base: TimeBase::seconds(),
                    pts: Some(0),
                    dts: Some(0),
                    keyframe: true,
                    data,
                },
            ),
            None => Err(Idle::Eof),
        }
    }
}

} // verus!
