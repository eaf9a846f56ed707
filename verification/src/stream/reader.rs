//! Reading row by row.

use vstd::arithmetic::div_mod::lemma_fundamental_div_mod_converse;
use vstd::prelude::*;
use vstd::string::StringExecFns;

use crate::error::{outcome, viewed_outcome, FarbfeldError};
use crate::format::{be_samples, body_size, join_sample, BYTES_PER_PIXEL, HEADER_LEN};
use crate::parser::{decode_be_samples, header_outcome, parse_farbfeld_header, FarbfeldHeader};
use crate::stream::{lemma_short, row_overflow_text};
use crate::text::{decimal, push_decimal};
use crate::transport::{fetch, ByteCursor, ByteSource, Supply};

verus! {

/// What a streaming reader has before it.
#[verifier::ext_equal]
pub struct ReaderState {
    /// The decoded header.
    pub header: FarbfeldHeader,
    /// Rows consumed so far.
    pub done: nat,
    /// What the source has still to deliver.
    pub supply: Supply,
}

/// The message for a row that the source does not deliver in full.
pub open spec fn row_truncated_text(wanted: nat, delivered: nat) -> Seq<char> {
    "farbfeld stream: row body: truncated input ("@ + decimal(wanted) + " bytes wanted, "@
        + decimal(delivered) + " delivered)"@
}

/// The message for a fault of the transport inside a row.
pub open spec fn row_fault_text(message: Seq<char>) -> Seq<char> {
    "farbfeld stream: row body: io error: "@ + message
}

/// The message for a slice that does not hold one row of bytes.
pub open spec fn row_out_bytes_text(got: nat, need: nat, width: u32) -> Seq<char> {
    "farbfeld stream: row out-slice has "@ + decimal(got) + " bytes, need "@ + decimal(need)
        + " ("@ + decimal(width as nat) + " × 8)"@
}

/// The message for a slice that does not hold one row of samples.
pub open spec fn row_out_samples_text(got: nat, need: nat, width: u32) -> Seq<char> {
    "farbfeld stream: row out-slice has "@ + decimal(got) + " samples, need "@ + decimal(need)
        + " ("@ + decimal(width as nat) + " × 4)"@
}

impl ReaderState {
    /// The state of a reader that has consumed the header from a source.
    pub open spec fn opened(header: FarbfeldHeader, source: Supply) -> ReaderState {
        ReaderState { header, done: 0, supply: source.after(16) }
    }

    /// Bytes of one row on disk.
    pub open spec fn row_size(self) -> nat {
        (self.header.width * 8) as nat
    }

    /// Rows that are still to come.
    pub open spec fn remaining(self) -> nat {
        (self.header.height - self.done) as nat
    }

    /// `n` rows, or those that are still to come where they are fewer.
    pub open spec fn capped(self, n: u32) -> nat {
        if n < self.remaining() {
            n as nat
        } else {
            self.remaining()
        }
    }

    /// The state `rows` whole rows further on.
    pub open spec fn advanced(self, rows: nat) -> ReaderState {
        ReaderState {
            done: self.done + rows,
            supply: self.supply.after((rows * self.row_size()) as int),
            ..self
        }
    }

    /// Whether the source delivers `rows` whole rows.
    pub open spec fn delivers(self, rows: nat) -> bool {
        rows * self.row_size() <= self.supply.pending.len()
    }

    /// The next `rows` rows, where the source delivers them.
    pub open spec fn ahead(self, rows: nat) -> Seq<u8> {
        self.supply.pending.take((rows * self.row_size()) as int)
    }

    /// Whole rows that the source delivers before it stops.
    pub open spec fn whole_rows(self) -> nat {
        self.supply.pending.len() / self.row_size()
    }

    /// The message for the first row that is not delivered in full.
    pub open spec fn stop_text(self) -> Seq<char> {
        match self.supply.fault {
            None => row_truncated_text(
                self.row_size(),
                self.supply.pending.len() % self.row_size(),
            ),
            Some((_, message)) => row_fault_text(message),
        }
    }

    /// What consuming one row gives: whether there was one, or why it stopped.
    pub open spec fn step_outcome(self) -> Result<bool, Seq<char>> {
        if self.remaining() == 0 {
            Ok(false)
        } else if self.delivers(1) {
            Ok(true)
        } else {
            Err(self.stop_text())
        }
    }

    /// The state after one row has been consumed, or the attempt to.
    pub open spec fn stepped(self) -> ReaderState {
        if self.remaining() == 0 {
            self
        } else if self.delivers(1) {
            self.advanced(1)
        } else {
            self.stopped()
        }
    }

    /// The state when the first undelivered row has been reached: the rows before
    /// it are consumed, and so are the bytes in it and the stop behind them.
    pub open spec fn stopped(self) -> ReaderState {
        ReaderState {
            done: self.done + self.whole_rows(),
            supply: self.supply.resumed(),
            ..self
        }
    }
}

/// What opening a source gives.
pub open spec fn open_outcome(source: Supply) -> Result<FarbfeldHeader, Seq<char>> {
    if source.pending.len() >= 16 {
        match header_outcome(source.pending.take(16)) {
            Err(text) => Err(text),
            Ok(header) => if header.width * 8 > usize::MAX {
                Err(row_overflow_text())
            } else {
                Ok(header)
            },
        }
    } else {
        match source.fault {
            Some((false, message)) => Err("farbfeld: header: io error: "@ + message),
            _ => Err("farbfeld: header: truncated input (16 bytes wanted)"@),
        }
    }
}

/// What a source has left when a stream has been opened on it, or refused: the
/// 16 bytes of a header are consumed, or what there is of them and the stop
/// behind it.
pub open spec fn after_open(source: Supply) -> Supply {
    if source.pending.len() >= 16 {
        source.after(16)
    } else {
        source.resumed()
    }
}

/// Consumes the 16-byte header of a stream from `source`.
///
/// It is refused where it is short or wrong, or where the body or a row that it
/// announces does not fit in `usize`.
pub fn read_header<R: ByteSource>(source: &mut R) -> (r: Result<FarbfeldHeader, FarbfeldError>)
    ensures
        outcome(r) == open_outcome(old(source).supply()),
        r matches Ok(header) ==> header.body_len == body_size(
            header.width as nat,
            header.height as nat,
        ),
        final(source).supply() == after_open(old(source).supply()),
        final(source).backing() == old(source).backing(),
        old(source).lent() matches Some(cursor) ==> (final(source).lent() matches Some(now)
            && *final(now) == *final(cursor)),
{
    let mut header_buf: Vec<u8> = Vec::new();
    match fetch(source, HEADER_LEN, &mut header_buf) {
        Ok(got) => {
            if got < HEADER_LEN {
                return Err(
                    FarbfeldError::invalid(
                        String::from_str("farbfeld: header: truncated input (16 bytes wanted)"),
                    ),
                );
            }
        },
        Err(e) => {
            if e.unexpected_end {
                return Err(
                    FarbfeldError::invalid(
                        String::from_str("farbfeld: header: truncated input (16 bytes wanted)"),
                    ),
                );
            }
            let mut msg = String::from_str("farbfeld: header: io error: ");
            msg.append(e.message.as_str());
            return Err(FarbfeldError::invalid(msg));
        },
    }
    assert(header_buf@ == old(source).supply().pending.take(16));
    let header = match parse_farbfeld_header(header_buf.as_slice()) {
        Ok(header) => header,
        Err(e) => return Err(e),
    };
    if (header.width as usize).checked_mul(BYTES_PER_PIXEL).is_none() {
        return Err(FarbfeldError::invalid(String::from_str("farbfeld: row size overflows usize")));
    }
    Ok(header)
}

/// Row-at-a-time farbfeld reader.
pub struct FarbfeldStreamReader<R: ByteSource> {
    inner: R,
    header: FarbfeldHeader,
    rows_read: u32,
    /// Bytes of one row on disk: `width * 8`.
    row_bytes: usize,
    /// The last row read. It grows only as far as bytes are delivered.
    row_buf: Vec<u8>,
}

impl<R: ByteSource> View for FarbfeldStreamReader<R> {
    type V = ReaderState;

    closed spec fn view(&self) -> ReaderState {
        ReaderState {
            header: self.header,
            done: self.rows_read as nat,
            supply: self.inner.supply(),
        }
    }
}

impl<R: ByteSource> FarbfeldStreamReader<R> {
    /// The row length that the reader keeps is that of its width.
    pub closed spec fn row_fits(&self) -> bool {
        self.row_bytes == self.header.width * 8
    }

    /// The bytes behind the source, which reading leaves as they are.
    pub closed spec fn backing(&self) -> Seq<u8> {
        self.inner.backing()
    }

    /// The cursor that the source moves for its owner, where one is lent to it.
    pub closed spec fn lent(&self) -> Option<&mut ByteCursor> {
        self.inner.lent()
    }

    /// The lengths that the reader keeps are those of its dimensions, and no
    /// more rows are consumed than the image has.
    pub open spec fn wf(&self) -> bool {
        &&& self.row_fits()
        &&& self@.header.body_len == body_size(
            self@.header.width as nat,
            self@.header.height as nat,
        )
        &&& self@.done <= self@.header.height
    }

    /// A reader that is let go lets go of its source: a cursor that was lent to it
    /// is left behind the last byte consumed.
    pub proof fn law_letting_go(self)
        requires
            has_resolved(self),
        ensures
            exists|source: R|
                #![trigger source.supply()]
                {
                    &&& source.supply() == self@.supply
                    &&& source.backing() == self.backing()
                    &&& has_resolved(source)
                    &&& self.lent() matches Some(cursor) ==> (source.lent() matches Some(now)
                        && *final(now) == *final(cursor))
                },
    {
        assert(self.inner.supply() == self@.supply);
    }

    /// Opens a stream by consuming the 16-byte header from `inner`.
    ///
    /// It is refused where the header is short or wrong, or where the body or a
    /// row does not fit in `usize`. A refused source is let go: a cursor that was
    /// lent to it is left behind the bytes of the header.
    pub fn new(inner: R) -> (r: Result<Self, FarbfeldError>)
        ensures
            match r {
                Ok(reader) => {
                    &&& open_outcome(inner.supply()) == Ok::<_, Seq<char>>(reader@.header)
                    &&& reader.wf()
                    &&& reader@ == ReaderState::opened(reader@.header, inner.supply())
                    &&& reader.backing() == inner.backing()
                    &&& inner.lent() matches Some(cursor) ==> (reader.lent() matches Some(now)
                        && *final(now) == *final(cursor))
                },
                Err(e) => {
                    &&& open_outcome(inner.supply()) == Err::<FarbfeldHeader, _>(e.text())
                    &&& exists|source: R|
                        #![trigger source.supply()]
                        {
                            &&& source.supply() == after_open(inner.supply())
                            &&& source.backing() == inner.backing()
                            &&& has_resolved(source)
                            &&& inner.lent() matches Some(cursor) ==> (source.lent() matches Some(
                                now,
                            ) && *final(now) == *final(cursor))
                        }
                },
            },
    {
        let mut source = inner;
        let header = match read_header(&mut source) {
            Ok(header) => header,
            Err(e) => {
                assert(has_resolved(source));
                return Err(e);
            },
        };
        Ok(
            FarbfeldStreamReader {
                inner: source,
                header,
                rows_read: 0,
                row_bytes: header.width as usize * BYTES_PER_PIXEL,
                row_buf: Vec::new(),
            },
        )
    }

    /// The decoded header.
    pub fn header(&self) -> (r: &FarbfeldHeader)
        ensures
            *r == self@.header,
    {
        &self.header
    }

    /// Picture width in pixels.
    pub fn width(&self) -> (r: u32)
        ensures
            r == self@.header.width,
    {
        self.header.width
    }

    /// Picture height in pixels.
    pub fn height(&self) -> (r: u32)
        ensures
            r == self@.header.height,
    {
        self.header.height
    }

    /// Number of rows already consumed.
    pub fn rows_read(&self) -> (r: u32)
        ensures
            r == self@.done,
    {
        self.rows_read
    }

    /// Number of rows still to come.
    pub fn rows_remaining(&self) -> (r: u32)
        requires
            self.wf(),
        ensures
            r == self@.remaining(),
            self@.done + r == self@.header.height,
    {
        self.header.height - self.rows_read
    }

    /// Reads the bytes of the next row into the row buffer.
    ///
    /// Returns whether there were any: a row of width zero has none.
    fn read_row_bytes(&mut self) -> (r: Result<bool, FarbfeldError>)
        requires
            old(self).wf(),
        ensures
            final(self).wf(),
            final(self).backing() == old(self).backing(),
            old(self).lent() matches Some(cursor) ==> (final(self).lent() matches Some(now)
                && *final(now) == *final(cursor)),
            match r {
                Ok(nonempty) => {
                    &&& old(self)@.delivers(1)
                    &&& nonempty == (old(self)@.row_size() > 0)
                    &&& nonempty ==> final(self).row_buf@ == old(self)@.ahead(1)
                    &&& final(self)@ == (ReaderState {
                        done: old(self)@.done,
                        ..old(self)@.advanced(1)
                    })
                },
                Err(e) => {
                    &&& !old(self)@.delivers(1)
                    &&& e.text() == old(self)@.stop_text()
                    &&& final(self)@ == old(self)@.stopped()
                },
            },
    {
        if self.row_bytes == 0 {
            return Ok(false);
        }
        proof {
            if self@.supply.pending.len() < self.row_bytes {
                lemma_short(self@.supply.pending.len(), self.row_bytes as nat);
            }
        }
        self.row_buf.clear();
        match fetch(&mut self.inner, self.row_bytes, &mut self.row_buf) {
            Ok(read) => {
                if read != self.row_bytes {
                    let mut msg = String::from_str("farbfeld stream: row body: truncated input (");
                    push_decimal(&mut msg, self.row_bytes as u64);
                    msg.append(" bytes wanted, ");
                    push_decimal(&mut msg, read as u64);
                    msg.append(" delivered)");
                    return Err(FarbfeldError::invalid(msg));
                }
                Ok(true)
            },
            Err(e) => {
                let mut msg = String::from_str("farbfeld stream: row body: io error: ");
                msg.append(e.message.as_str());
                Err(FarbfeldError::invalid(msg))
            },
        }
    }

    /// Skips the next row without decoding it.
    ///
    /// Returns `Ok(false)` once all rows have been consumed.
    pub fn skip_row(&mut self) -> (r: Result<bool, FarbfeldError>)
        requires
            old(self).wf(),
        ensures
            final(self).wf(),
            final(self).backing() == old(self).backing(),
            old(self).lent() matches Some(cursor) ==> (final(self).lent() matches Some(now)
                && *final(now) == *final(cursor)),
            outcome(r) == old(self)@.step_outcome(),
            final(self)@ == old(self)@.stepped(),
    {
        if self.rows_read >= self.header.height {
            return Ok(false);
        }
        match self.read_row_bytes() {
            Ok(_) => {},
            Err(e) => return Err(e),
        }
        self.rows_read += 1;
        Ok(true)
    }

    /// Skips the next `n` rows, or all that remain where they are fewer, and
    /// returns how many were skipped.
    pub fn skip_rows(&mut self, n: u32) -> (r: Result<u32, FarbfeldError>)
        requires
            old(self).wf(),
        ensures
            final(self).wf(),
            final(self).backing() == old(self).backing(),
            old(self).lent() matches Some(cursor) ==> (final(self).lent() matches Some(now)
                && *final(now) == *final(cursor)),
            if old(self)@.delivers(old(self)@.capped(n)) {
                &&& r == Ok::<u32, FarbfeldError>(old(self)@.capped(n) as u32)
                &&& final(self)@ == old(self)@.advanced(old(self)@.capped(n))
            } else {
                &&& outcome(r) == Err::<u32, _>(old(self)@.stop_text())
                &&& final(self)@ == old(self)@.stopped()
            },
    {
        let remaining: u32 = self.rows_remaining();
        let want: u32 = if n < remaining {
            n
        } else {
            remaining
        };
        let mut done: u32 = 0;
        assert(self@ == old(self)@.advanced(0));
        while done < want
            invariant
                done <= want,
                want == old(self)@.capped(n),
                old(self)@.done + old(self)@.remaining() == old(self)@.header.height,
                old(self)@.delivers(done as nat),
                self.wf(),
                self.backing() == old(self).backing(),
                old(self).lent() matches Some(cursor) ==> (self.lent() matches Some(now)
                    && *final(now) == *final(cursor)),
                self@ == old(self)@.advanced(done as nat),
            decreases want - done,
        {
            proof {
                lemma_advance(old(self)@, done as nat);
                if !old(self)@.delivers(done as nat + 1) {
                    lemma_delivers_fewer(old(self)@, done as nat + 1, want as nat);
                }
            }
            match self.skip_row() {
                Ok(skipped) => {
                    assert(skipped);
                },
                Err(e) => return Err(e),
            }
            done += 1;
        }
        Ok(done)
    }

    /// Reads the bytes of the next row into `out`, in on-disk order.
    ///
    /// `out` must be exactly `width * 8` bytes long. Returns `Ok(false)` once
    /// all rows have been consumed.
    pub fn read_row_raw(&mut self, out: &mut [u8]) -> (r: Result<bool, FarbfeldError>)
        requires
            old(self).wf(),
        ensures
            final(self).wf(),
            final(self).backing() == old(self).backing(),
            old(self).lent() matches Some(cursor) ==> (final(self).lent() matches Some(now)
                && *final(now) == *final(cursor)),
            if old(self)@.remaining() > 0 && old(out)@.len() != old(self)@.row_size() {
                &&& outcome(r) == Err::<bool, _>(
                    row_out_bytes_text(
                        old(out)@.len(),
                        old(self)@.row_size(),
                        old(self)@.header.width,
                    ),
                )
                &&& final(self)@ == old(self)@
                &&& final(out)@ == old(out)@
            } else {
                &&& outcome(r) == old(self)@.step_outcome()
                &&& final(self)@ == old(self)@.stepped()
                &&& final(out)@ == (if r == Ok::<bool, FarbfeldError>(true) {
                    old(self)@.ahead(1)
                } else {
                    old(out)@
                })
            },
    {
        if self.rows_read >= self.header.height {
            return Ok(false);
        }
        if out.len() != self.row_bytes {
            let mut msg = String::from_str("farbfeld stream: row out-slice has ");
            push_decimal(&mut msg, out.len() as u64);
            msg.append(" bytes, need ");
            push_decimal(&mut msg, self.row_bytes as u64);
            msg.append(" (");
            push_decimal(&mut msg, self.header.width as u64);
            msg.append(" × 8)");
            return Err(FarbfeldError::invalid(msg));
        }
        match self.read_row_bytes() {
            Ok(nonempty) => {
                if nonempty {
                    copy_bytes(self.row_buf.as_slice(), out);
                }
            },
            Err(e) => return Err(e),
        }
        self.rows_read += 1;
        Ok(true)
    }

    /// Reads the next row into `out` as native-endian samples.
    ///
    /// `out` must be exactly `width * 4` samples long, four per pixel in
    /// `R, G, B, A` order. Returns `Ok(false)` once all rows have been consumed.
    pub fn read_row(&mut self, out: &mut [u16]) -> (r: Result<bool, FarbfeldError>)
        requires
            old(self).wf(),
        ensures
            final(self).wf(),
            final(self).backing() == old(self).backing(),
            old(self).lent() matches Some(cursor) ==> (final(self).lent() matches Some(now)
                && *final(now) == *final(cursor)),
            if old(self)@.remaining() > 0 && old(out)@.len() * 2 != old(self)@.row_size() {
                &&& outcome(r) == Err::<bool, _>(
                    row_out_samples_text(
                        old(out)@.len(),
                        old(self)@.row_size() / 2,
                        old(self)@.header.width,
                    ),
                )
                &&& final(self)@ == old(self)@
                &&& final(out)@ == old(out)@
            } else {
                &&& outcome(r) == old(self)@.step_outcome()
                &&& final(self)@ == old(self)@.stepped()
                &&& final(out)@ == (if r == Ok::<bool, FarbfeldError>(true) {
                    be_samples(old(self)@.ahead(1))
                } else {
                    old(out)@
                })
            },
    {
        if self.rows_read >= self.header.height {
            return Ok(false);
        }
        let want_samples: usize = self.header.width as usize * 4;
        if out.len() != want_samples {
            let mut msg = String::from_str("farbfeld stream: row out-slice has ");
            push_decimal(&mut msg, out.len() as u64);
            msg.append(" samples, need ");
            push_decimal(&mut msg, want_samples as u64);
            msg.append(" (");
            push_decimal(&mut msg, self.header.width as u64);
            msg.append(" × 4)");
            return Err(FarbfeldError::invalid(msg));
        }
        match self.read_row_bytes() {
            Ok(nonempty) => {
                if nonempty {
                    decode_be_samples(self.row_buf.as_slice(), out);
                }
            },
            Err(e) => return Err(e),
        }
        self.rows_read += 1;
        Ok(true)
    }

    /// Reads all rows that remain into one flat row-major plane.
    ///
    /// The plane grows by the rows that are delivered, never by the size that
    /// the header announces, so that an image whose body is missing costs no
    /// more memory than the bytes that are there.
    pub fn read_all_rows(&mut self) -> (r: Result<Vec<u16>, FarbfeldError>)
        requires
            old(self).wf(),
        ensures
            final(self).wf(),
            final(self).backing() == old(self).backing(),
            old(self).lent() matches Some(cursor) ==> (final(self).lent() matches Some(now)
                && *final(now) == *final(cursor)),
            if old(self)@.delivers(old(self)@.remaining()) {
                &&& viewed_outcome(r) == Ok::<_, Seq<char>>(
                    be_samples(old(self)@.ahead(old(self)@.remaining())),
                )
                &&& final(self)@ == old(self)@.advanced(old(self)@.remaining())
            } else {
                &&& viewed_outcome(r) == Err::<Seq<u16>, _>(old(self)@.stop_text())
                &&& final(self)@ == old(self)@.stopped()
            },
    {
        if self.header.width == 0 {
            proof {
                let rows = self@.remaining();
                assert(rows * self@.row_size() == 0) by (nonlinear_arith)
                    requires
                        self@.row_size() == 0,
                ;
                assert(be_samples(self@.ahead(rows)) == Seq::<u16>::empty());
                assert(self@.supply.pending.skip(0) == self@.supply.pending);
            }
            self.rows_read = self.header.height;
            return Ok(Vec::new());
        }
        let mut out: Vec<u16> = Vec::new();
        let ghost start = self@;
        let ghost mut done: nat = 0;
        assert(self@ == start.advanced(0));
        while self.rows_read < self.header.height
            invariant
                self.wf(),
                self.backing() == old(self).backing(),
                old(self).lent() matches Some(cursor) ==> (self.lent() matches Some(now)
                    && *final(now) == *final(cursor)),
                start == old(self)@,
                start.row_size() > 0,
                start.done <= start.header.height,
                done <= start.remaining(),
                start.delivers(done),
                self@ == start.advanced(done),
                out@ == be_samples(start.ahead(done)),
            decreases self.header.height - self.rows_read,
        {
            proof {
                lemma_advance(start, done);
                if !start.delivers(done + 1) {
                    lemma_delivers_fewer(start, done + 1, start.remaining());
                }
            }
            match self.read_row_bytes() {
                Ok(_) => {},
                Err(e) => return Err(e),
            }
            out.reserve(self.row_buf.len() / 2);
            append_be_samples(self.row_buf.as_slice(), &mut out);
            self.rows_read += 1;
            proof {
                done = done + 1;
            }
        }
        Ok(out)
    }

    /// Surrenders the wrapped source, at the byte behind the last row consumed.
    ///
    /// Bytes behind the body are the caller's concern: a farbfeld file has none.
    pub fn into_inner(self) -> (r: R)
        ensures
            r.supply() == self@.supply,
            r.backing() == self.backing(),
            self.lent() matches Some(cursor) ==> (r.lent() matches Some(now) && *final(now)
                == *final(cursor)),
    {
        self.inner
    }
}

/// Copies `src` over `dst`.
fn copy_bytes(src: &[u8], dst: &mut [u8])
    requires
        src@.len() == old(dst)@.len(),
    ensures
        final(dst)@ == src@,
{
    let mut i: usize = 0;
    while i < src.len()
        invariant
            i <= src@.len(),
            src@.len() == dst@.len(),
            forall|j: int| 0 <= j < i ==> dst@[j] == src@[j],
        decreases src.len() - i,
    {
        dst[i] = src[i];
        i += 1;
    }
}

/// Appends the samples that big-endian `body` denotes.
fn append_be_samples(body: &[u8], out: &mut Vec<u16>)
    requires
        body@.len() % 2 == 0,
    ensures
        final(out)@ == old(out)@ + be_samples(body@),
{
    let mut i: usize = 0;
    while i < body.len() / 2
        invariant
            i <= body.len() / 2,
            out@ == old(out)@ + be_samples(body@).take(i as int),
        decreases body.len() / 2 - i,
    {
        out.push(join_sample(body[2 * i], body[2 * i + 1]));
        i += 1;
    }
}

/// What one more row means, seen from `k` rows further on.
proof fn lemma_advance(s: ReaderState, k: nat)
    requires
        s.delivers(k),
    ensures
        s.advanced(k).delivers(1) == s.delivers(k + 1),
        s.delivers(k + 1) ==> s.advanced(k).advanced(1) == s.advanced(k + 1),
        s.delivers(k + 1) ==> s.ahead(k + 1) == s.ahead(k) + s.advanced(k).ahead(1),
        s.delivers(k + 1) ==> be_samples(s.ahead(k + 1)) == be_samples(s.ahead(k)) + be_samples(
            s.advanced(k).ahead(1),
        ),
        !s.delivers(k + 1) ==> s.advanced(k).stop_text() == s.stop_text(),
        !s.delivers(k + 1) ==> s.whole_rows() == k && s.advanced(k).whole_rows() == 0,
{
    let row = s.row_size();
    assert((k + 1) * row == k * row + row) by (nonlinear_arith);
    assert(k * row == 2 * (k * (s.header.width * 4))) by (nonlinear_arith)
        requires
            row == s.header.width * 8,
    ;
    let cut = s.supply.pending.skip((k * row) as int);
    if s.delivers(k + 1) {
        assert(s.ahead(k + 1) == s.ahead(k) + s.advanced(k).ahead(1));
        assert(s.advanced(k).advanced(1).supply == s.advanced(k + 1).supply);
        assert(be_samples(s.ahead(k + 1)) == be_samples(s.ahead(k)) + be_samples(
            s.advanced(k).ahead(1),
        ));
    } else {
        lemma_short(cut.len(), row);
        lemma_fundamental_div_mod_converse(
            s.supply.pending.len() as int,
            row as int,
            k as int,
            cut.len() as int,
        );
    }
}

/// A source that does not deliver `fewer` rows does not deliver `more`.
proof fn lemma_delivers_fewer(s: ReaderState, fewer: nat, more: nat)
    requires
        fewer <= more,
    ensures
        s.delivers(more) ==> s.delivers(fewer),
{
    assert(fewer * s.row_size() <= more * s.row_size()) by (nonlinear_arith)
        requires
            fewer <= more,
    ;
}

} // verus!
