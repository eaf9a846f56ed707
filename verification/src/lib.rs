//! farbfeld image files: reading, writing, streaming and pixel access.
//!
//! A farbfeld file is a 16-byte header, the magic and two big-endian `u32`
//! dimensions, and then four big-endian `u16` samples per pixel in `R, G, B, A`
//! order, row by row. There is no compression and no metadata.
//!
//! Every operation states in its contract exactly what it returns, the text of
//! its error included; `laws` states what holds of several together.

use vstd::prelude::*;

pub mod container;
pub mod decoder;
pub mod encoder;
pub mod error;
pub mod format;
pub mod frame;
pub mod frame_encoder;
pub mod image;
pub mod laws;
pub mod parser;
pub mod stream;
pub mod text;
pub mod transport;

pub use encoder::{encode_farbfeld, encode_farbfeld_from_rgba16, encode_farbfeld_image};
pub use error::FarbfeldError;
pub use image::{FarbfeldImage, CHANNELS_PER_PIXEL};
pub use parser::{
    parse_farbfeld, parse_farbfeld_header, peek_farbfeld_dimensions, FarbfeldHeader,
    BYTES_PER_PIXEL, HEADER_LEN, MAGIC,
};
pub use stream::{FarbfeldStreamReader, FarbfeldStreamWriter};
pub use transport::{ByteCursor, ByteSink, ByteSource, SourceFault};

verus! {

/// Codec id for farbfeld image frames.
pub const CODEC_ID_STR: &'static str = "farbfeld";

} // verus!
