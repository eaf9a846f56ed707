//! The shapes in which a media framework hands pictures and files around.
//!
//! A picture is a list of planes of bytes; a farbfeld picture is one plane of
//! little-endian 16-bit RGBA samples. A file travels as one packet.

use vstd::prelude::*;

verus! {

/// One plane of a picture: rows of bytes, each `stride` behind the last.
#[derive(Debug, PartialEq, Eq)]
pub struct Plane {
    /// Bytes from the start of one row to the start of the next.
    pub stride: usize,
    /// The bytes of the rows, and what lies between them.
    pub data: Vec<u8>,
}

impl View for Plane {
    type V = (usize, Seq<u8>);

    /// Stride and bytes.
    open spec fn view(&self) -> (usize, Seq<u8>) {
        (self.stride, self.data@)
    }
}

/// A plane that is lent out.
#[derive(Debug, Clone, Copy)]
pub struct PlaneView<'a> {
    /// Bytes from the start of one row to the start of the next.
    pub stride: usize,
    /// The bytes of the rows, and what lies between them.
    pub data: &'a [u8],
}

impl<'a> View for PlaneView<'a> {
    type V = (usize, Seq<u8>);

    /// Stride and bytes.
    open spec fn view(&self) -> (usize, Seq<u8>) {
        (self.stride, self.data@)
    }
}

/// A frame that a framework hands in.
#[derive(Debug)]
pub enum MediaFrame<'a> {
    /// A picture, by its planes.
    Video(Vec<PlaneView<'a>>),
    /// Anything that is not a picture.
    Other,
}

/// A decoded picture.
#[derive(Debug, PartialEq, Eq)]
pub struct DecodedFrame {
    /// Presentation timestamp of the packet that the picture came in.
    pub pts: Option<i64>,
    /// The one plane of the picture.
    pub plane: Plane,
}

impl View for DecodedFrame {
    type V = (Option<i64>, (usize, Seq<u8>));

    /// Timestamp and plane.
    open spec fn view(&self) -> (Option<i64>, (usize, Seq<u8>)) {
        (self.pts, self.plane@)
    }
}

/// The kind of a stream.
#[derive(Debug, Clone, Copy, PartialEq, Eq, Structural)]
pub enum StreamKind {
    /// Pictures.
    Video,
    /// Anything else.
    Other,
}

/// How the samples of a picture lie in its planes.
#[derive(Debug, Clone, Copy, PartialEq, Eq, Structural)]
pub enum PixelLayout {
    /// One plane of 16-bit samples, low byte first, four per pixel in
    /// `R, G, B, A` order.
    Rgba64Le,
}

/// What a stream carries, as far as it is known before anything is decoded.
#[derive(Debug, Clone, Copy, PartialEq, Eq, Structural)]
pub struct PictureParameters {
    /// Kind of the stream.
    pub media_type: StreamKind,
    /// Picture width in pixels, where it is known.
    pub width: Option<u32>,
    /// Picture height in pixels, where it is known.
    pub height: Option<u32>,
    /// Layout of the samples.
    pub pixel_format: PixelLayout,
}

impl PictureParameters {
    /// Those of farbfeld pictures of the given dimensions.
    pub fn farbfeld(width: Option<u32>, height: Option<u32>) -> (r: Self)
        ensures
            r == (PictureParameters {
                media_type: StreamKind::Video,
                width,
                height,
                pixel_format: PixelLayout::Rgba64Le,
            }),
    {
        PictureParameters {
            media_type: StreamKind::Video,
            width,
            height,
            pixel_format: PixelLayout::Rgba64Le,
        }
    }
}

/// A unit of time, as a fraction of a second.
#[derive(Debug, Clone, Copy, PartialEq, Eq, Structural)]
pub struct TimeBase {
    /// Numerator.
    pub num: i64,
    /// Denominator.
    pub den: i64,
}

impl TimeBase {
    /// The unit of the timestamps of a farbfeld stream: one second.
    pub fn seconds() -> (r: Self)
        ensures
            r == (TimeBase { num: 1, den: 1 }),
    {
        TimeBase { num: 1, den: 1 }
    }
}

/// One file on its way through a framework.
#[derive(Debug, PartialEq, Eq)]
pub struct FilePacket {
    /// Number of the stream that the packet belongs to.
    pub stream_index: u32,
    /// Unit of the timestamps.
    pub time_base: TimeBase,
    /// Presentation timestamp.
    pub pts: Option<i64>,
    /// Decoding timestamp.
    pub dts: Option<i64>,
    /// Whether the packet can be decoded on its own.
    pub keyframe: bool,
    /// The whole file.
    pub data: Vec<u8>,
}

/// What a [`FilePacket`] carries, with its bytes as a sequence.
#[verifier::ext_equal]
pub struct PacketModel {
    /// Number of the stream.
    pub stream_index: u32,
    /// Unit of the timestamps.
    pub time_base: TimeBase,
    /// Presentation timestamp.
    pub pts: Option<i64>,
    /// Decoding timestamp.
    pub dts: Option<i64>,
    /// Whether the packet can be decoded on its own.
    pub keyframe: bool,
    /// The whole file.
    pub data: Seq<u8>,
}

impl View for FilePacket {
    type V = PacketModel;

    open spec fn view(&self) -> PacketModel {
        PacketModel {
            stream_index: self.stream_index,
            time_base: self.time_base,
            pts: self.pts,
            dts: self.dts,
            keyframe: self.keyframe,
            data: self.data@,
        }
    }
}

/// Why nothing came out of a decoder, an encoder or a demuxer.
#[derive(Debug, Clone, Copy, PartialEq, Eq, Structural)]
pub enum Idle {
    /// Nothing is ready yet: more input is needed.
    NeedMore,
    /// Nothing will ever be ready: the input has ended.
    Eof,
}

} // verus!
