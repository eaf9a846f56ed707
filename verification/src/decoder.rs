//! Decoding for a media framework: one file per packet, one picture per packet.

use vstd::prelude::*;
use vstd::string::StringExecFns;

use crate::encoder::encode_le_samples;
use crate::error::{outcome, FarbfeldError};
use crate::format::{body_size, le_bytes};
use crate::frame::{DecodedFrame, Idle, Plane};
use crate::parser::{file_outcome, parse_farbfeld};

verus! {

/// What decoding a packet gives: the stride and the little-endian bytes of the
/// plane, or the message of the refusal.
pub open spec fn decode_outcome(data: Seq<u8>) -> Result<(usize, Seq<u8>), Seq<char>> {
    match file_outcome(data) {
        Err(text) => Err(text),
        Ok((width, height, samples)) => if width * 8 > usize::MAX {
            Err("farbfeld: stride overflow"@)
        } else {
            Ok(((width * 8) as usize, le_bytes(samples)))
        },
    }
}

/// A decoder that holds at most one picture until it is fetched.
pub struct FarbfeldDecoder {
    pending: Option<DecodedFrame>,
    eof: bool,
}

impl View for FarbfeldDecoder {
    type V = (Option<(Option<i64>, (usize, Seq<u8>))>, bool);

    /// The picture that waits to be fetched, and whether the input has ended.
    closed spec fn view(&self) -> (Option<(Option<i64>, (usize, Seq<u8>))>, bool) {
        (
            match self.pending {
                Some(frame) => Some(frame@),
                None => None,
            },
            self.eof,
        )
    }
}

impl FarbfeldDecoder {
    /// A decoder that has seen nothing.
    pub fn new() -> (r: Self)
        ensures
            r@ == (None::<(Option<i64>, (usize, Seq<u8>))>, false),
    {
        FarbfeldDecoder { pending: None, eof: false }
    }

    /// Decodes one complete file.
    ///
    /// The picture replaces one that was not fetched. A refused file changes
    /// nothing.
    pub fn send_packet(&mut self, data: &[u8], pts: Option<i64>) -> (r: Result<(), FarbfeldError>)
        ensures
            match decode_outcome(data@) {
                Ok(plane) => {
                    &&& r is Ok
                    &&& final(self)@ == (Some((pts, plane)), old(self)@.1)
                },
                Err(text) => {
                    &&& outcome(r) == Err::<(), _>(text)
                    &&& final(self)@ == old(self)@
                },
            },
    {
        let image = match parse_farbfeld(data) {
            Ok(image) => image,
            Err(e) => return Err(e),
        };
        let stride: usize = match (image.width as usize).checked_mul(8) {
            Some(stride) => stride,
            None => {
                return Err(FarbfeldError::invalid(String::from_str("farbfeld: stride overflow")));
            },
        };
        proof {
            assert(stride * image.height == body_size(image.width as nat, image.height as nat))
                by (nonlinear_arith)
                requires
                    stride == image.width * 8,
            ;
        }
        let body_len: usize = stride * image.height as usize;
        let mut plane: Vec<u8> = vec![0u8; body_len];
        encode_le_samples(image.pixels.as_slice(), plane.as_mut_slice());
        assert(plane@ == le_bytes(image.pixels@));
        self.pending = Some(DecodedFrame { pts, plane: Plane { stride, data: plane } });
        Ok(())
    }

    /// Fetches the picture that waits, or says why there is none.
    pub fn receive_frame(&mut self) -> (r: Result<DecodedFrame, Idle>)
        ensures
            final(self)@ == (None::<(Option<i64>, (usize, Seq<u8>))>, old(self)@.1),
            match old(self)@.0 {
                Some(frame) => r matches Ok(f) && f@ == frame,
                None => r == Err::<DecodedFrame, _>(
                    if old(self)@.1 {
                        Idle::Eof
                    } else {
                        Idle::NeedMore
                    },
                ),
            },
    {
        match self.pending.take() {
            Some(frame) => Ok(frame),
            None => {
                if self.eof {
                    Err(Idle::Eof)
                } else {
                    Err(Idle::NeedMore)
                }
            },
        }
    }

    /// Notes that the input has ended.
    pub fn flush(&mut self)
        ensures
            final(self)@ == (old(self)@.0, true),
    {
        self.eof = true;
    }
}

} // verus!
