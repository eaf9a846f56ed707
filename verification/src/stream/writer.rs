//! Writing row by row.

use vstd::arithmetic::div_mod::lemma_fundamental_div_mod_converse;
use vstd::prelude::*;
use vstd::string::StringExecFns;

use crate::encoder::encode_be_samples;
use crate::error::{outcome, FarbfeldError};
use crate::format::{be32_split, be_bytes, header_bytes, BYTES_PER_PIXEL, MAGIC};
use crate::stream::{lemma_short, row_overflow_text};
use crate::text::{decimal, push_decimal};
use crate::transport::{write_all, Account, ByteSink};

verus! {

/// What a streaming writer has behind it.
#[verifier::ext_equal]
pub struct WriterState {
    /// Picture width in pixels.
    pub width: u32,
    /// Picture height in pixels.
    pub height: u32,
    /// Rows written so far.
    pub done: nat,
    /// What the sink has accepted and will.
    pub account: Account,
}

/// The message for a body whose length does not fit in `usize`.
pub open spec fn body_overflow_text() -> Seq<char> {
    "farbfeld: body size overflows usize"@
}

/// The message for a row behind the last one.
pub open spec fn too_many_rows_text(operation: Seq<char>, height: u32) -> Seq<char> {
    "farbfeld stream: "@ + operation + " called after all "@ + decimal(height as nat)
        + " rows already written"@
}

/// The message for a slice that is not one row of samples.
pub open spec fn row_in_samples_text(got: nat, need: nat, width: u32) -> Seq<char> {
    "farbfeld stream: row in-slice has "@ + decimal(got) + " samples, need "@ + decimal(need)
        + " ("@ + decimal(width as nat) + " × 4)"@
}

/// The message for a slice that is not one row of bytes.
pub open spec fn row_in_bytes_text(got: nat, need: nat, width: u32) -> Seq<char> {
    "farbfeld stream: row in-slice has "@ + decimal(got) + " bytes, need "@ + decimal(need)
        + " ("@ + decimal(width as nat) + " × 8)"@
}

/// The message for a slice that is not the rows of samples that remain.
pub open spec fn plane_samples_text(got: nat, need: nat, rows: nat, width: u32) -> Seq<char> {
    "farbfeld stream: plane in-slice has "@ + decimal(got) + " samples, need "@ + decimal(need)
        + " ("@ + decimal(rows) + " rows × "@ + decimal(width as nat) + " × 4)"@
}

/// The message for a slice that is not the rows of bytes that remain.
pub open spec fn plane_bytes_text(got: nat, need: nat, rows: nat, width: u32) -> Seq<char> {
    "farbfeld stream: plane in-slice has "@ + decimal(got) + " bytes, need "@ + decimal(need)
        + " ("@ + decimal(rows) + " rows × "@ + decimal(width as nat) + " × 8)"@
}

/// The message for a file that is closed before its last row.
pub open spec fn unfinished_text(done: nat, height: u32) -> Seq<char> {
    "farbfeld stream: finish called with "@ + decimal(done) + " of "@ + decimal(height as nat)
        + " rows written"@
}

/// The message for bytes that the sink does not accept; `label` says which.
pub open spec fn refused_text(label: Seq<char>, refusal: Seq<char>) -> Seq<char> {
    label + ": io error: "@ + refusal
}

impl WriterState {
    /// The state of a writer that has sent the header to a sink.
    pub open spec fn opened(width: u32, height: u32, sink: Account) -> WriterState {
        WriterState { width, height, done: 0, account: sink.after(header_bytes(width, height)) }
    }

    /// Bytes of one row on disk.
    pub open spec fn row_size(self) -> nat {
        (self.width * 8) as nat
    }

    /// Rows that are still to come.
    pub open spec fn remaining(self) -> nat {
        (self.height - self.done) as nat
    }

    /// Bytes of the rows that are still to come.
    pub open spec fn remaining_size(self) -> nat {
        self.remaining() * self.row_size()
    }

    /// The state after `body` has gone out as `rows` further rows.
    pub open spec fn appended(self, body: Seq<u8>, rows: nat) -> WriterState {
        WriterState { done: self.done + rows, account: self.account.after(body), ..self }
    }

    /// The state after as much of `body` as there is room for has gone out, and
    /// the sink has refused the rest: the rows that went out whole are counted.
    pub open spec fn filled(self, body: Seq<u8>) -> WriterState {
        WriterState {
            done: self.done + self.account.room->0 / self.row_size(),
            account: self.account.filled(body),
            ..self
        }
    }

    /// What writing `body` gives.
    pub open spec fn write_outcome(self, body: Seq<u8>) -> Result<(), Seq<char>> {
        if self.account.accepts(body.len()) {
            Ok(())
        } else {
            Err(refused_text("farbfeld stream: row body"@, self.account.refusal))
        }
    }

    /// The state after `body`, which is `rows` rows, has been written.
    pub open spec fn after_write(self, body: Seq<u8>, rows: nat) -> WriterState {
        if self.account.accepts(body.len()) {
            self.appended(body, rows)
        } else {
            self.filled(body)
        }
    }
}

/// What opening a sink gives: the error message, where it is refused.
pub open spec fn create_outcome(width: u32, height: u32, sink: Account) -> Result<(), Seq<char>> {
    if width * 8 > usize::MAX {
        Err(row_overflow_text())
    } else if width * 8 * height > usize::MAX {
        Err(body_overflow_text())
    } else if !sink.accepts(8) {
        Err(refused_text("farbfeld stream: magic"@, sink.refusal))
    } else if !sink.accepts(12) {
        Err(refused_text("farbfeld stream: width"@, sink.refusal))
    } else if !sink.accepts(16) {
        Err(refused_text("farbfeld stream: height"@, sink.refusal))
    } else {
        Ok(())
    }
}

/// What a sink has behind it and before it when a file has been opened on it, or
/// refused: nothing goes out where the body does not fit in `usize`, and where
/// the sink does not accept the header it keeps as much of it as it has room for.
pub open spec fn after_create(width: u32, height: u32, sink: Account) -> Account {
    let header = header_bytes(width, height);
    if width * 8 > usize::MAX || width * 8 * height > usize::MAX {
        sink
    } else if sink.accepts(header.len()) {
        sink.after(header)
    } else {
        sink.filled(header)
    }
}

/// Row-at-a-time farbfeld writer.
pub struct FarbfeldStreamWriter<W: ByteSink> {
    inner: W,
    width: u32,
    height: u32,
    rows_written: u32,
    /// One row in on-disk order: `width * 8` bytes.
    row_buf: Vec<u8>,
}

impl<W: ByteSink> View for FarbfeldStreamWriter<W> {
    type V = WriterState;

    closed spec fn view(&self) -> WriterState {
        WriterState {
            width: self.width,
            height: self.height,
            done: self.rows_written as nat,
            account: self.inner.account(),
        }
    }
}

/// Writes all of `bytes`; a refusal becomes an error that begins with `label`.
fn write_labelled<W: ByteSink>(sink: &mut W, bytes: &[u8], label: &str) -> (r: Result<
    (),
    FarbfeldError,
>)
    ensures
        old(sink).lent() matches Some(buffer) ==> (final(sink).lent() matches Some(now)
            && final(now)@ == final(buffer)@),
        if old(sink).account().accepts(bytes@.len()) {
            &&& r is Ok
            &&& final(sink).account() == old(sink).account().after(bytes@)
        } else {
            &&& outcome(r) == Err::<(), _>(refused_text(label@, old(sink).account().refusal))
            &&& final(sink).account() == old(sink).account().filled(bytes@)
        },
{
    match write_all(sink, bytes) {
        Ok(()) => Ok(()),
        Err(e) => {
            let mut msg = String::from_str(label);
            msg.append(": io error: ");
            msg.append(e.as_str());
            Err(FarbfeldError::invalid(msg))
        },
    }
}

/// Writes the 16-byte header of a file to `sink`.
///
/// Nothing is written where the body of the file does not fit in `usize`.
pub fn write_header<W: ByteSink>(sink: &mut W, width: u32, height: u32) -> (r: Result<
    (),
    FarbfeldError,
>)
    ensures
        outcome(r) == create_outcome(width, height, old(sink).account()),
        final(sink).account() == after_create(width, height, old(sink).account()),
        old(sink).lent() matches Some(buffer) ==> (final(sink).lent() matches Some(now)
            && final(now)@ == final(buffer)@),
{
    let row_bytes: usize = match (width as usize).checked_mul(BYTES_PER_PIXEL) {
        Some(row_bytes) => row_bytes,
        None => {
            return Err(
                FarbfeldError::invalid(String::from_str("farbfeld: row size overflows usize")),
            );
        },
    };
    if row_bytes.checked_mul(height as usize).is_none() {
        return Err(FarbfeldError::invalid(String::from_str("farbfeld: body size overflows usize")));
    }
    let ghost start = sink.account();
    let ghost header = header_bytes(width, height);
    match write_labelled(sink, MAGIC, "farbfeld stream: magic") {
        Ok(()) => {},
        Err(e) => {
            assert(sink.account() == start.filled(header));
            return Err(e);
        },
    }
    match write_labelled(sink, &be32_split(width), "farbfeld stream: width") {
        Ok(()) => {},
        Err(e) => {
            assert(sink.account() == start.filled(header));
            return Err(e);
        },
    }
    match write_labelled(sink, &be32_split(height), "farbfeld stream: height") {
        Ok(()) => {},
        Err(e) => {
            assert(sink.account() == start.filled(header));
            return Err(e);
        },
    }
    assert(sink.account() == start.after(header));
    Ok(())
}

impl<W: ByteSink> FarbfeldStreamWriter<W> {
    /// The row buffer holds one row.
    pub closed spec fn buffer_fits(&self) -> bool {
        self.row_buf.len() == self.width * 8
    }

    /// The buffer that the sink fills for its owner, where one is lent to it.
    pub closed spec fn lent(&self) -> Option<&mut Vec<u8>> {
        self.inner.lent()
    }

    /// The row buffer holds one row, the body fits in `usize`, and no more rows
    /// are written than the image has.
    pub open spec fn wf(&self) -> bool {
        &&& self.buffer_fits()
        &&& self@.width * 8 * self@.height <= usize::MAX
        &&& self@.done <= self@.height
    }

    /// A writer that is let go lets go of its sink: a buffer that was lent to it
    /// is left with what it accepted.
    pub proof fn law_letting_go(self)
        requires
            has_resolved(self),
        ensures
            exists|sink: W|
                #![trigger sink.account()]
                {
                    &&& sink.account() == self@.account
                    &&& has_resolved(sink)
                    &&& self.lent() matches Some(buffer) ==> (sink.lent() matches Some(now)
                        && final(now)@ == final(buffer)@)
                },
    {
        assert(self.inner.account() == self@.account);
    }

    /// Opens a stream by writing the 16-byte header to `inner`.
    ///
    /// It is refused where the body does not fit in `usize`, before any byte is
    /// written, or where the sink does not accept the header. A refused sink is
    /// let go: a buffer that was lent to it is left with what it accepted.
    pub fn new(inner: W, width: u32, height: u32) -> (r: Result<Self, FarbfeldError>)
        ensures
            match r {
                Ok(writer) => {
                    &&& create_outcome(width, height, inner.account()) is Ok
                    &&& writer.wf()
                    &&& writer@ == WriterState::opened(width, height, inner.account())
                    &&& inner.lent() matches Some(buffer) ==> (writer.lent() matches Some(now)
                        && final(now)@ == final(buffer)@)
                },
                Err(e) => {
                    &&& create_outcome(width, height, inner.account()) == Err::<(), _>(e.text())
                    &&& exists|sink: W|
                        #![trigger sink.account()]
                        {
                            &&& sink.account() == after_create(
                                width,
                                height,
                                inner.account(),
                            )
                            &&& has_resolved(sink)
                            &&& inner.lent() matches Some(buffer) ==> (sink.lent() matches Some(
                                now,
                            ) && final(now)@ == final(buffer)@)
                        }
                },
            },
    {
        let mut sink = inner;
        match write_header(&mut sink, width, height) {
            Ok(()) => {},
            Err(e) => {
                assert(has_resolved(sink));
                return Err(e);
            },
        }
        Ok(
            FarbfeldStreamWriter {
                inner: sink,
                width,
                height,
                rows_written: 0,
                row_buf: vec![0u8; width as usize * BYTES_PER_PIXEL],
            },
        )
    }

    /// Picture width in pixels.
    pub fn width(&self) -> (r: u32)
        ensures
            r == self@.width,
    {
        self.width
    }

    /// Picture height in pixels.
    pub fn height(&self) -> (r: u32)
        ensures
            r == self@.height,
    {
        self.height
    }

    /// Number of rows already written.
    pub fn rows_written(&self) -> (r: u32)
        ensures
            r == self@.done,
    {
        self.rows_written
    }

    /// Appends one row of native-endian samples.
    ///
    /// `row` must be exactly `width * 4` samples long.
    pub fn write_row(&mut self, row: &[u16]) -> (r: Result<(), FarbfeldError>)
        requires
            old(self).wf(),
        ensures
            final(self).wf(),
            old(self).lent() matches Some(buffer) ==> (final(self).lent() matches Some(now)
                && final(now)@ == final(buffer)@),
            if old(self)@.remaining() == 0 {
                &&& outcome(r) == Err::<(), _>(
                    too_many_rows_text("write_row"@, old(self)@.height),
                )
                &&& final(self)@ == old(self)@
            } else if row@.len() * 2 != old(self)@.row_size() {
                &&& outcome(r) == Err::<(), _>(
                    row_in_samples_text(
                        row@.len(),
                        old(self)@.row_size() / 2,
                        old(self)@.width,
                    ),
                )
                &&& final(self)@ == old(self)@
            } else {
                &&& outcome(r) == old(self)@.write_outcome(be_bytes(row@))
                &&& final(self)@ == old(self)@.after_write(be_bytes(row@), 1)
            },
    {
        if self.rows_written >= self.height {
            return Err(too_many_rows("write_row", self.height));
        }
        let want: usize = self.width as usize * 4;
        if row.len() != want {
            let mut msg = String::from_str("farbfeld stream: row in-slice has ");
            push_decimal(&mut msg, row.len() as u64);
            msg.append(" samples, need ");
            push_decimal(&mut msg, want as u64);
            msg.append(" (");
            push_decimal(&mut msg, self.width as u64);
            msg.append(" × 4)");
            return Err(FarbfeldError::invalid(msg));
        }
        let ghost body = be_bytes(row@);
        if !self.row_buf.is_empty() {
            proof {
                if !self@.account.accepts(body.len()) {
                    lemma_short(self@.account.room->0, self@.row_size());
                }
            }
            encode_be_samples(row, self.row_buf.as_mut_slice());
            assert(self.row_buf@ == body);
            match write_labelled(
                &mut self.inner,
                self.row_buf.as_slice(),
                "farbfeld stream: row body",
            ) {
                Ok(()) => {},
                Err(e) => return Err(e),
            }
        }
        self.rows_written += 1;
        assert(self@.account == old(self)@.account.after(body));
        Ok(())
    }

    /// Appends one row of bytes that are already in on-disk order.
    ///
    /// `row` must be exactly `width * 8` bytes long; it goes out verbatim.
    pub fn write_row_raw(&mut self, row: &[u8]) -> (r: Result<(), FarbfeldError>)
        requires
            old(self).wf(),
        ensures
            final(self).wf(),
            old(self).lent() matches Some(buffer) ==> (final(self).lent() matches Some(now)
                && final(now)@ == final(buffer)@),
            if old(self)@.remaining() == 0 {
                &&& outcome(r) == Err::<(), _>(
                    too_many_rows_text("write_row_raw"@, old(self)@.height),
                )
                &&& final(self)@ == old(self)@
            } else if row@.len() != old(self)@.row_size() {
                &&& outcome(r) == Err::<(), _>(
                    row_in_bytes_text(row@.len(), old(self)@.row_size(), old(self)@.width),
                )
                &&& final(self)@ == old(self)@
            } else {
                &&& outcome(r) == old(self)@.write_outcome(row@)
                &&& final(self)@ == old(self)@.after_write(row@, 1)
            },
    {
        if self.rows_written >= self.height {
            return Err(too_many_rows("write_row_raw", self.height));
        }
        let want: usize = self.row_buf.len();
        if row.len() != want {
            let mut msg = String::from_str("farbfeld stream: row in-slice has ");
            push_decimal(&mut msg, row.len() as u64);
            msg.append(" bytes, need ");
            push_decimal(&mut msg, want as u64);
            msg.append(" (");
            push_decimal(&mut msg, self.width as u64);
            msg.append(" × 8)");
            return Err(FarbfeldError::invalid(msg));
        }
        if !row.is_empty() {
            proof {
                if !self@.account.accepts(row@.len()) {
                    lemma_short(self@.account.room->0, self@.row_size());
                }
            }
            match write_labelled(&mut self.inner, row, "farbfeld stream: row body") {
                Ok(()) => {},
                Err(e) => return Err(e),
            }
        }
        self.rows_written += 1;
        assert(self@.account == old(self)@.account.after(row@));
        Ok(())
    }

    /// Appends all rows that remain, given as one flat plane of native-endian
    /// samples.
    ///
    /// `samples` must be exactly as long as those rows are.
    pub fn write_all_rows(&mut self, samples: &[u16]) -> (r: Result<(), FarbfeldError>)
        requires
            old(self).wf(),
        ensures
            final(self).wf(),
            old(self).lent() matches Some(buffer) ==> (final(self).lent() matches Some(now)
                && final(now)@ == final(buffer)@),
            if samples@.len() * 2 != old(self)@.remaining_size() {
                &&& outcome(r) == Err::<(), _>(
                    plane_samples_text(
                        samples@.len(),
                        old(self)@.remaining_size() / 2,
                        old(self)@.remaining(),
                        old(self)@.width,
                    ),
                )
                &&& final(self)@ == old(self)@
            } else {
                &&& outcome(r) == old(self)@.write_outcome(be_bytes(samples@))
                &&& final(self)@ == old(self)@.after_write(
                    be_bytes(samples@),
                    old(self)@.remaining(),
                )
            },
    {
        let remaining: u32 = self.height - self.rows_written;
        let row_samples: usize = self.width as usize * 4;
        let ghost start = self@;
        proof {
            lemma_remaining_fits(start);
            assert(remaining * row_samples * 2 == start.remaining_size()) by (nonlinear_arith)
                requires
                    remaining == start.remaining(),
                    row_samples * 2 == start.row_size(),
                    start.remaining_size() == start.remaining() * start.row_size(),
            ;
        }
        let want: usize = remaining as usize * row_samples;
        if samples.len() != want {
            let mut msg = String::from_str("farbfeld stream: plane in-slice has ");
            push_decimal(&mut msg, samples.len() as u64);
            msg.append(" samples, need ");
            push_decimal(&mut msg, want as u64);
            msg.append(" (");
            push_decimal(&mut msg, remaining as u64);
            msg.append(" rows × ");
            push_decimal(&mut msg, self.width as u64);
            msg.append(" × 4)");
            return Err(FarbfeldError::invalid(msg));
        }
        let ghost body = be_bytes(samples@);
        if row_samples == 0 {
            self.rows_written = self.height;
            assert(self@.account == start.account.after(body));
            return Ok(());
        }
        let mut k: u32 = 0;
        assert(0 * start.row_size() == 0) by (nonlinear_arith);
        assert(self@ == start.appended(body.take(0), 0));
        while k < remaining
            invariant
                k <= remaining,
                remaining == start.remaining(),
                start == old(self)@,
                start.done <= start.height,
                row_samples > 0,
                row_samples * 2 == start.row_size(),
                body == be_bytes(samples@),
                samples.len() == remaining * row_samples,
                body.len() == start.remaining() * start.row_size(),
                start.account.accepts(k as nat * start.row_size()),
                self.wf(),
                old(self).lent() matches Some(buffer) ==> (self.lent() matches Some(now)
                    && final(now)@ == final(buffer)@),
                self@ == start.appended(body.take((k * start.row_size()) as int), k as nat),
            decreases remaining - k,
        {
            proof {
                lemma_write_on(start, body, k as nat);
                assert((k + 1) * row_samples <= remaining * row_samples) by (nonlinear_arith)
                    requires
                        k + 1 <= remaining,
                ;
                assert((k + 1) * row_samples == k * row_samples + row_samples)
                    by (nonlinear_arith);
                assert(2 * (k * row_samples) == k * start.row_size()) by (nonlinear_arith)
                    requires
                        row_samples * 2 == start.row_size(),
                ;
                assert((k + 1) * start.row_size() == k * start.row_size() + start.row_size())
                    by (nonlinear_arith);
            }
            let from: usize = k as usize * row_samples;
            let row = &samples[from..from + row_samples];
            assert(be_bytes(row@) == body.subrange(
                (k * start.row_size()) as int,
                ((k + 1) * start.row_size()) as int,
            ));
            match self.write_row(row) {
                Ok(()) => {},
                Err(e) => return Err(e),
            }
            k += 1;
        }
        assert(body.take(body.len() as int) == body);
        Ok(())
    }

    /// Appends all rows that remain, given as one flat plane of bytes that are
    /// already in on-disk order.
    ///
    /// `bytes` must be exactly as long as those rows are; it goes out verbatim.
    pub fn write_all_rows_raw(&mut self, bytes: &[u8]) -> (r: Result<(), FarbfeldError>)
        requires
            old(self).wf(),
        ensures
            final(self).wf(),
            old(self).lent() matches Some(buffer) ==> (final(self).lent() matches Some(now)
                && final(now)@ == final(buffer)@),
            if bytes@.len() != old(self)@.remaining_size() {
                &&& outcome(r) == Err::<(), _>(
                    plane_bytes_text(
                        bytes@.len(),
                        old(self)@.remaining_size(),
                        old(self)@.remaining(),
                        old(self)@.width,
                    ),
                )
                &&& final(self)@ == old(self)@
            } else {
                &&& outcome(r) == old(self)@.write_outcome(bytes@)
                &&& final(self)@ == old(self)@.after_write(bytes@, old(self)@.remaining())
            },
    {
        let remaining: u32 = self.height - self.rows_written;
        let row_bytes: usize = self.row_buf.len();
        let ghost start = self@;
        proof {
            lemma_remaining_fits(start);
        }
        let want: usize = remaining as usize * row_bytes;
        if bytes.len() != want {
            let mut msg = String::from_str("farbfeld stream: plane in-slice has ");
            push_decimal(&mut msg, bytes.len() as u64);
            msg.append(" bytes, need ");
            push_decimal(&mut msg, want as u64);
            msg.append(" (");
            push_decimal(&mut msg, remaining as u64);
            msg.append(" rows × ");
            push_decimal(&mut msg, self.width as u64);
            msg.append(" × 8)");
            return Err(FarbfeldError::invalid(msg));
        }
        if row_bytes == 0 {
            assert(remaining * row_bytes == 0) by (nonlinear_arith)
                requires
                    row_bytes == 0,
            ;
            self.rows_written = self.height;
            assert(self@.account == start.account.after(bytes@));
            return Ok(());
        }
        let mut k: u32 = 0;
        assert(0 * start.row_size() == 0) by (nonlinear_arith);
        assert(self@ == start.appended(bytes@.take(0), 0));
        while k < remaining
            invariant
                k <= remaining,
                remaining == start.remaining(),
                start == old(self)@,
                start.done <= start.height,
                row_bytes > 0,
                row_bytes == start.row_size(),
                bytes.len() == remaining * row_bytes,
                start.account.accepts(k as nat * start.row_size()),
                self.wf(),
                old(self).lent() matches Some(buffer) ==> (self.lent() matches Some(now)
                    && final(now)@ == final(buffer)@),
                self@ == start.appended(bytes@.take((k * start.row_size()) as int), k as nat),
            decreases remaining - k,
        {
            proof {
                lemma_write_on(start, bytes@, k as nat);
                assert((k + 1) * row_bytes <= remaining * row_bytes) by (nonlinear_arith)
                    requires
                        k + 1 <= remaining,
                ;
                assert((k + 1) * row_bytes == k * row_bytes + row_bytes) by (nonlinear_arith);
            }
            let from: usize = k as usize * row_bytes;
            let row = &bytes[from..from + row_bytes];
            match self.write_row_raw(row) {
                Ok(()) => {},
                Err(e) => return Err(e),
            }
            k += 1;
        }
        assert(bytes@.take(bytes@.len() as int) == bytes@);
        Ok(())
    }

    /// Confirms that all rows were written and surrenders the sink.
    ///
    /// The sink of an unfinished file is let go: a buffer that was lent to it is
    /// left with what it accepted.
    pub fn finish(self) -> (r: Result<W, FarbfeldError>)
        ensures
            match r {
                Ok(sink) => {
                    &&& self@.done == self@.height
                    &&& sink.account() == self@.account
                    &&& self.lent() matches Some(buffer) ==> (sink.lent() matches Some(now)
                        && final(now)@ == final(buffer)@)
                },
                Err(e) => {
                    &&& self@.done != self@.height
                    &&& e.text() == unfinished_text(self@.done, self@.height)
                    &&& exists|sink: W|
                        #![trigger sink.account()]
                        {
                            &&& sink.account() == self@.account
                            &&& has_resolved(sink)
                            &&& self.lent() matches Some(buffer) ==> (sink.lent() matches Some(
                                now,
                            ) && final(now)@ == final(buffer)@)
                        }
                },
            },
    {
        if self.rows_written != self.height {
            let mut msg = String::from_str("farbfeld stream: finish called with ");
            push_decimal(&mut msg, self.rows_written as u64);
            msg.append(" of ");
            push_decimal(&mut msg, self.height as u64);
            msg.append(" rows written");
            assert(has_resolved(self.inner));
            return Err(FarbfeldError::invalid(msg));
        }
        Ok(self.inner)
    }
}

/// The error for a row behind the last one.
fn too_many_rows(operation: &str, height: u32) -> (r: FarbfeldError)
    ensures
        r.text() == too_many_rows_text(operation@, height),
{
    let mut msg = String::from_str("farbfeld stream: ");
    msg.append(operation);
    msg.append(" called after all ");
    push_decimal(&mut msg, height as u64);
    msg.append(" rows already written");
    FarbfeldError::invalid(msg)
}

/// The rows that remain fit in `usize` where the whole body does.
proof fn lemma_remaining_fits(s: WriterState)
    requires
        s.done <= s.height,
        s.width * 8 * s.height <= usize::MAX,
    ensures
        s.remaining_size() <= usize::MAX,
{
    assert(s.remaining() * s.row_size() <= s.width * 8 * s.height) by (nonlinear_arith)
        requires
            s.remaining() <= s.height,
            s.row_size() == s.width * 8,
    ;
}

/// What writing one more row means, seen from `k` rows further on.
proof fn lemma_write_on(s: WriterState, body: Seq<u8>, k: nat)
    requires
        s.row_size() > 0,
        k < s.remaining(),
        body.len() == s.remaining() * s.row_size(),
        s.account.accepts(k * s.row_size()),
    ensures
        ({
            let row = s.row_size();
            let here = s.appended(body.take((k * row) as int), k);
            let next = body.subrange((k * row) as int, ((k + 1) * row) as int);
            &&& next.len() == row
            &&& here.account.accepts(row) == s.account.accepts((k + 1) * row)
            &&& here.account.accepts(row) ==> here.appended(next, 1) == s.appended(
                body.take(((k + 1) * row) as int),
                k + 1,
            )
            &&& !here.account.accepts(row) ==> here.filled(next) == s.filled(body)
            &&& !here.account.accepts(row) ==> !s.account.accepts(body.len())
        }),
{
    let row = s.row_size();
    let here = s.appended(body.take((k * row) as int), k);
    let next = body.subrange((k * row) as int, ((k + 1) * row) as int);
    assert((k + 1) * row == k * row + row) by (nonlinear_arith);
    assert((k + 1) * row <= s.remaining() * row) by (nonlinear_arith)
        requires
            k + 1 <= s.remaining(),
    ;
    assert(0 <= k * row) by (nonlinear_arith);
    if here.account.accepts(row) {
        assert(here.appended(next, 1) =~= s.appended(body.take(((k + 1) * row) as int), k + 1));
    } else {
        let room = s.account.room->0;
        lemma_short(here.account.room->0, row);
        lemma_fundamental_div_mod_converse(
            room as int,
            row as int,
            k as int,
            here.account.room->0 as int,
        );
        assert(here.filled(next) =~= s.filled(body));
    }
}

} // verus!
