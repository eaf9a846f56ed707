//! What the streaming writer sends to its sink, byte by byte.

use vstd::prelude::*;

use crate::encoder::encode_farbfeld_image;
use crate::error::{outcome, FarbfeldError};
use crate::format::{be_bytes, header_bytes};
use crate::image::FarbfeldImage;
use crate::laws::encoding::{begins_with_header, law_image_on_disk, lemma_made_header};
use crate::stream::writer::{
    after_create, create_outcome, write_header, FarbfeldStreamWriter, WriterState,
};
use crate::text::decimal;
use crate::transport::{Account, ByteSink};

verus! {

/// Whether `after` is the account when all of `bytes` has been accepted.
pub open spec fn accepted(before: Account, bytes: Seq<u8>, after: Account) -> bool {
    &&& after.written == before.written + bytes
    &&& match (before.room, after.room) {
        (Some(room), Some(left)) => left == room - bytes.len(),
        (None, None) => true,
        _ => false,
    }
    &&& after.refusal == before.refusal
    &&& after.later == before.later
}

/// Whether `after` is the account when only the front of `bytes` has been
/// accepted, as much as there was room for, and the rest has been refused.
pub open spec fn cut_short(before: Account, bytes: Seq<u8>, after: Account) -> bool {
    &&& before.room matches Some(room) && {
        &&& room < bytes.len()
        &&& after.written == before.written + bytes.take(room as int)
    }
    &&& after.room == (before.later)(0).room
    &&& after.refusal == (before.later)(0).refusal
    &&& forall|i: nat| #[trigger] (after.later)(i) == (before.later)(i + 1)
}

/// Whether sending `rows` rows of `size` bytes each, `bytes` in all, from
/// `before` returns `r` and leaves `after`.
///
/// All bytes arrive behind what the sink had, and the rows are counted; or the
/// sink does not have the room, and only the rows that arrived whole are counted.
pub open spec fn sends_rows(
    before: WriterState,
    bytes: Seq<u8>,
    rows: nat,
    r: Result<(), FarbfeldError>,
    after: WriterState,
) -> bool {
    let size = before.width * 8;
    &&& after.width == before.width
    &&& after.height == before.height
    &&& match r {
        Ok(()) => after.done == before.done + rows && accepted(before.account, bytes, after.account),
        Err(FarbfeldError::InvalidData(message)) => {
            &&& cut_short(before.account, bytes, after.account)
            &&& message@ == "farbfeld stream: row body"@ + ": io error: "@ + before.account.refusal
            &&& before.done <= after.done
            &&& (after.done - before.done) * size <= before.account.room->0 < (after.done
                - before.done + 1) * size
        },
    }
}

/// Whether `bytes` are the samples, high byte first.
pub open spec fn high_byte_first(samples: Seq<u16>, bytes: Seq<u8>) -> bool {
    &&& bytes.len() == 2 * samples.len()
    &&& forall|i: int|
        0 <= i < samples.len() ==> {
            &&& bytes[2 * i] == #[trigger] samples[i] / 256
            &&& bytes[2 * i + 1] == samples[i] % 256
        }
}

/// What is said of a row behind the last one.
pub open spec fn says_all_rows_are_written(
    message: Seq<char>,
    operation: Seq<char>,
    height: u32,
) -> bool {
    message == "farbfeld stream: "@ + operation + " called after all "@ + decimal(height as nat)
        + " rows already written"@
}

/// The next state of a writer, in its parts.
proof fn lemma_sends(s: WriterState, bytes: Seq<u8>, rows: nat, r: Result<(), FarbfeldError>)
    requires
        bytes.len() == rows * s.row_size(),
        outcome(r) == s.write_outcome(bytes),
    ensures
        sends_rows(s, bytes, rows, r, s.after_write(bytes, rows)),
{
    if !s.account.accepts(bytes.len()) {
        let room = s.account.room->0 as int;
        let size = s.row_size() as int;
        assert(size > 0) by (nonlinear_arith)
            requires
                rows * size > room,
                room >= 0,
                size >= 0,
        ;
        vstd::arithmetic::div_mod::lemma_fundamental_div_mod(room, size);
        assert(size * (room / size) == (room / size) * size) by (nonlinear_arith);
        assert((room / size + 1) * size == (room / size) * size + size) by (nonlinear_arith);
    }
}

/// Writing a row of samples sends them, high byte first, and counts the row. It is
/// refused behind the last row and where the row is not `width * 4` samples long,
/// and then nothing is sent.
pub proof fn law_row_is_written<W: ByteSink>(
    writer: &mut FarbfeldStreamWriter<W>,
    row: &[u16],
    r: Result<(), FarbfeldError>,
)
    requires
        old(writer).wf(),
        call_ensures(FarbfeldStreamWriter::<W>::write_row, (writer, row), r),
    ensures
        call_requires(FarbfeldStreamWriter::<W>::write_row, (writer, row)),
        final(writer).wf(),
        ({
            let s = old(writer)@;
            let t = final(writer)@;
            if s.done >= s.height {
                &&& r matches Err(FarbfeldError::InvalidData(message))
                    && says_all_rows_are_written(message@, "write_row"@, s.height)
                &&& t == s
            } else if row@.len() != s.width * 4 {
                &&& r matches Err(FarbfeldError::InvalidData(message)) && message@
                    == "farbfeld stream: row in-slice has "@ + decimal(row@.len())
                    + " samples, need "@ + decimal((s.width * 4) as nat) + " ("@ + decimal(
                    s.width as nat,
                ) + " × 4)"@
                &&& t == s
            } else {
                exists|bytes: Seq<u8>| #[trigger]
                    high_byte_first(row@, bytes) && sends_rows(s, bytes, 1, r, t)
            }
        }),
{
    let s = old(writer)@;
    if s.done < s.height && row@.len() == s.width * 4 {
        assert(high_byte_first(row@, be_bytes(row@)));
        lemma_sends(s, be_bytes(row@), 1, r);
    }
}

/// Where a row was written it follows what the sink had: sample `i` lies `2 * i`
/// bytes behind that, high byte first, and there is nothing else.
pub proof fn law_written_row_on_disk<W: ByteSink>(
    writer: &mut FarbfeldStreamWriter<W>,
    row: &[u16],
)
    requires
        old(writer).wf(),
        call_ensures(FarbfeldStreamWriter::<W>::write_row, (writer, row), Ok(())),
    ensures
        call_requires(FarbfeldStreamWriter::<W>::write_row, (writer, row)),
        row@.len() == old(writer)@.width * 4,
        final(writer)@.done == old(writer)@.done + 1,
        samples_follow(old(writer)@.account.written, row@, final(writer)@.account.written),
{
    law_row_is_written(writer, row, Ok(()));
    let before = old(writer)@.account.written;
    let after = final(writer)@.account.written;
    assert(after.take(before.len() as int) =~= before);
    let bytes = choose|bytes: Seq<u8>| #[trigger]
        high_byte_first(row@, bytes) && sends_rows(old(writer)@, bytes, 1, Ok(()), final(writer)@);
    assert(after.skip(before.len() as int) =~= bytes);
}

/// Writing a row of bytes sends them as they are, and counts the row. It is
/// refused behind the last row and where the row is not `width * 8` bytes long,
/// and then nothing is sent.
pub proof fn law_raw_row_is_written<W: ByteSink>(
    writer: &mut FarbfeldStreamWriter<W>,
    row: &[u8],
    r: Result<(), FarbfeldError>,
)
    requires
        old(writer).wf(),
        call_ensures(FarbfeldStreamWriter::<W>::write_row_raw, (writer, row), r),
    ensures
        call_requires(FarbfeldStreamWriter::<W>::write_row_raw, (writer, row)),
        final(writer).wf(),
        ({
            let s = old(writer)@;
            let t = final(writer)@;
            if s.done >= s.height {
                &&& r matches Err(FarbfeldError::InvalidData(message))
                    && says_all_rows_are_written(message@, "write_row_raw"@, s.height)
                &&& t == s
            } else if row@.len() != s.width * 8 {
                &&& r matches Err(FarbfeldError::InvalidData(message)) && message@
                    == "farbfeld stream: row in-slice has "@ + decimal(row@.len())
                    + " bytes, need "@ + decimal((s.width * 8) as nat) + " ("@ + decimal(
                    s.width as nat,
                ) + " × 8)"@
                &&& t == s
            } else {
                sends_rows(s, row@, 1, r, t)
            }
        }),
{
    let s = old(writer)@;
    if s.done < s.height && row@.len() == s.width * 8 {
        lemma_sends(s, row@, 1, r);
    }
}

/// Writing all rows that remain as samples sends them, high byte first, and counts
/// the rows. It is refused where there are not exactly the samples of those rows,
/// and then nothing is sent.
pub proof fn law_all_rows_are_written<W: ByteSink>(
    writer: &mut FarbfeldStreamWriter<W>,
    samples: &[u16],
    r: Result<(), FarbfeldError>,
)
    requires
        old(writer).wf(),
        call_ensures(FarbfeldStreamWriter::<W>::write_all_rows, (writer, samples), r),
    ensures
        call_requires(FarbfeldStreamWriter::<W>::write_all_rows, (writer, samples)),
        final(writer).wf(),
        ({
            let s = old(writer)@;
            let t = final(writer)@;
            let left = s.height - s.done;
            if samples@.len() != left * (s.width * 4) {
                &&& r matches Err(FarbfeldError::InvalidData(message)) && message@
                    == "farbfeld stream: plane in-slice has "@ + decimal(samples@.len())
                    + " samples, need "@ + decimal((left * (s.width * 4)) as nat) + " ("@
                    + decimal(left as nat) + " rows × "@ + decimal(s.width as nat) + " × 4)"@
                &&& t == s
            } else {
                exists|bytes: Seq<u8>| #[trigger]
                    high_byte_first(samples@, bytes) && sends_rows(s, bytes, left as nat, r, t)
            }
        }),
{
    let s = old(writer)@;
    let left = s.height - s.done;
    assert(left * (s.width * 8) == 2 * (left * (s.width * 4))) by (nonlinear_arith);
    if samples@.len() == left * (s.width * 4) {
        assert(high_byte_first(samples@, be_bytes(samples@)));
        lemma_sends(s, be_bytes(samples@), left as nat, r);
    }
}

/// Writing all rows that remain as bytes sends them as they are, and counts the
/// rows. It is refused where there are not exactly the bytes of those rows, and
/// then nothing is sent.
pub proof fn law_all_raw_rows_are_written<W: ByteSink>(
    writer: &mut FarbfeldStreamWriter<W>,
    bytes: &[u8],
    r: Result<(), FarbfeldError>,
)
    requires
        old(writer).wf(),
        call_ensures(FarbfeldStreamWriter::<W>::write_all_rows_raw, (writer, bytes), r),
    ensures
        call_requires(FarbfeldStreamWriter::<W>::write_all_rows_raw, (writer, bytes)),
        final(writer).wf(),
        ({
            let s = old(writer)@;
            let t = final(writer)@;
            let left = s.height - s.done;
            if bytes@.len() != left * (s.width * 8) {
                &&& r matches Err(FarbfeldError::InvalidData(message)) && message@
                    == "farbfeld stream: plane in-slice has "@ + decimal(bytes@.len())
                    + " bytes, need "@ + decimal((left * (s.width * 8)) as nat) + " ("@ + decimal(
                    left as nat,
                ) + " rows × "@ + decimal(s.width as nat) + " × 8)"@
                &&& t == s
            } else {
                sends_rows(s, bytes@, left as nat, r, t)
            }
        }),
{
    let s = old(writer)@;
    let left = s.height - s.done;
    if bytes@.len() == left * (s.width * 8) {
        lemma_sends(s, bytes@, left as nat, r);
    }
}

/// Whether opening a file on `before` returns `r` and leaves `after`.
///
/// Nothing is sent where a row or the body does not fit in `usize`. Else the 16
/// bytes of the header are; where the sink does not have the room, it is said
/// which part of the header was refused.
pub open spec fn creates(
    width: u32,
    height: u32,
    before: Account,
    r: Result<(), FarbfeldError>,
    after: Account,
) -> bool {
    if width * 8 > usize::MAX {
        &&& r matches Err(FarbfeldError::InvalidData(message)) && message@
            == "farbfeld: row size overflows usize"@
        &&& after == before
    } else if width * 8 * height > usize::MAX {
        &&& r matches Err(FarbfeldError::InvalidData(message)) && message@
            == "farbfeld: body size overflows usize"@
        &&& after == before
    } else {
        exists|header: Seq<u8>| #[trigger]
            begins_with_header(header, width, height) && header.len() == 16 && match r {
                Ok(()) => accepted(before, header, after) && (before.room matches Some(room)
                    ==> room >= 16),
                Err(FarbfeldError::InvalidData(message)) => {
                    let room = before.room->0;
                    &&& cut_short(before, header, after)
                    &&& message@ == (if room < 8 {
                        "farbfeld stream: magic"@
                    } else if room < 12 {
                        "farbfeld stream: width"@
                    } else {
                        "farbfeld stream: height"@
                    }) + ": io error: "@ + before.refusal
                },
            }
    }
}

/// What opening a file does to a sink, in its parts.
proof fn lemma_creates(width: u32, height: u32, sink: Account, r: Result<(), FarbfeldError>)
    requires
        outcome(r) == create_outcome(width, height, sink),
    ensures
        creates(width, height, sink, r, after_create(width, height, sink)),
{
    let header = header_bytes(width, height);
    lemma_made_header(width, height, Seq::empty());
    assert(begins_with_header(header, width, height));
}

/// Writing the header of a file opens it.
pub proof fn law_stream_header_is_written<W: ByteSink>(
    sink: &mut W,
    width: u32,
    height: u32,
    r: Result<(), FarbfeldError>,
)
    requires
        call_ensures(write_header::<W>, (sink, width, height), r),
    ensures
        call_requires(write_header::<W>, (sink, width, height)),
        creates(width, height, old(sink).account(), r, final(sink).account()),
{
    lemma_creates(width, height, old(sink).account(), r);
}

/// Opening a stream for writing: the writer has the given dimensions and has
/// written no row, and its sink has the header behind what it had. A refusal is
/// one of the header.
pub proof fn law_file_is_opened<W: ByteSink>(
    inner: W,
    width: u32,
    height: u32,
    r: Result<FarbfeldStreamWriter<W>, FarbfeldError>,
)
    requires
        call_ensures(FarbfeldStreamWriter::<W>::new, (inner, width, height), r),
    ensures
        call_requires(FarbfeldStreamWriter::<W>::new, (inner, width, height)),
        match r {
            Ok(writer) => {
                &&& creates(width, height, inner.account(), Ok(()), writer@.account)
                &&& writer@.width == width
                &&& writer@.height == height
                &&& writer@.done == 0
                &&& writer.wf()
            },
            Err(e) => exists|sink: W|
                creates(width, height, inner.account(), Err(e), #[trigger] sink.account()),
        },
{
    match r {
        Ok(_) => {
            lemma_creates(width, height, inner.account(), Ok(()));
        },
        Err(e) => {
            lemma_creates(width, height, inner.account(), Err(e));
        },
    }
}

/// A vector that is lent for a file which is refused keeps what it held: it has room
/// for any header, so that only the dimensions can be refused.
pub proof fn law_refused_file_leaves_the_vector(
    buffer: &mut Vec<u8>,
    width: u32,
    height: u32,
    r: Result<FarbfeldStreamWriter<&mut Vec<u8>>, FarbfeldError>,
)
    requires
        call_ensures(FarbfeldStreamWriter::<&mut Vec<u8>>::new, (buffer, width, height), r),
    ensures
        r is Err <==> width * 8 > usize::MAX || width * 8 * height > usize::MAX,
        r is Err ==> final(buffer)@ == old(buffer)@,
{
    if r is Err {
        let sink = choose|sink: &mut Vec<u8>|
            #![trigger sink.account()]
            {
                &&& sink.account() == buffer.account()
                &&& has_resolved(sink)
                &&& final(sink)@ == final(buffer)@
            };
        assert(sink.account() == buffer.account());
        assert(has_resolved(sink));
    }
}

/// What a writer tells of itself is what it holds, and it gives its sink back
/// exactly where all rows have been written.
pub proof fn law_writer_tells<W: ByteSink>(
    writer: FarbfeldStreamWriter<W>,
    width: u32,
    height: u32,
    written: u32,
    r: Result<W, FarbfeldError>,
)
    requires
        call_ensures(FarbfeldStreamWriter::<W>::width, (&writer,), width),
        call_ensures(FarbfeldStreamWriter::<W>::height, (&writer,), height),
        call_ensures(FarbfeldStreamWriter::<W>::rows_written, (&writer,), written),
        call_ensures(FarbfeldStreamWriter::<W>::finish, (writer,), r),
    ensures
        call_requires(FarbfeldStreamWriter::<W>::width, (&writer,)),
        call_requires(FarbfeldStreamWriter::<W>::height, (&writer,)),
        call_requires(FarbfeldStreamWriter::<W>::rows_written, (&writer,)),
        call_requires(FarbfeldStreamWriter::<W>::finish, (writer,)),
        width == writer@.width,
        height == writer@.height,
        written == writer@.done,
        match r {
            Ok(sink) => written == height && sink.account() == writer@.account,
            Err(FarbfeldError::InvalidData(message)) => written != height && message@
                == "farbfeld stream: finish called with "@ + decimal(written as nat) + " of "@
                + decimal(height as nat) + " rows written"@,
        },
{
}

/// Whether `after` is `before` and then the samples, high byte first.
pub open spec fn samples_follow(before: Seq<u8>, samples: Seq<u16>, after: Seq<u8>) -> bool {
    &&& before.len() <= after.len()
    &&& after.take(before.len() as int) == before
    &&& high_byte_first(samples, after.skip(before.len() as int))
}

/// Rows that are sent one after the other, each behind the last, are the samples
/// of the picture in order.
///
/// `written` is what the sink has before the first row, after the first, and so on
/// to the last; `rows` are the rows.
pub proof fn law_rows_follow_each_other(written: Seq<Seq<u8>>, rows: Seq<Seq<u16>>)
    requires
        written.len() == rows.len() + 1,
        forall|k: int|
            0 <= k < rows.len() ==> samples_follow(written[k], #[trigger] rows[k], written[k + 1]),
    ensures
        samples_follow(written.first(), rows.flatten(), written.last()),
    decreases rows.len(),
{
    if rows.len() == 0 {
        assert(written.first().take(written.first().len() as int) =~= written.first());
    } else {
        let n = rows.len() - 1;
        let front = rows.drop_last();
        assert forall|k: int| 0 <= k < front.len() implies samples_follow(
            written.drop_last()[k],
            #[trigger] front[k],
            written.drop_last()[k + 1],
        ) by {
            assert(front[k] == rows[k]);
        }
        law_rows_follow_each_other(written.drop_last(), front);
        front.lemma_flatten_push(rows.last());
        assert(rows =~= front.push(rows.last()));
        assert(samples_follow(written[n], rows[n], written[n + 1]));
        lemma_samples_follow(written[0], front.flatten(), written[n], rows[n], written[n + 1]);
    }
}

/// Samples that follow each other are one run of samples.
proof fn lemma_samples_follow(a: Seq<u8>, x: Seq<u16>, b: Seq<u8>, y: Seq<u16>, c: Seq<u8>)
    requires
        samples_follow(a, x, b),
        samples_follow(b, y, c),
    ensures
        samples_follow(a, x + y, c),
{
    let (m, n) = (a.len() as int, b.len() as int);
    assert forall|j: int| 0 <= j < n implies c[j] == b[j] by {
        assert(c.take(n)[j] == c[j]);
    }
    assert(c.take(m) =~= b.take(m));
    let all = c.skip(m);
    assert forall|i: int| 0 <= i < (x + y).len() implies all[2 * i] == #[trigger] (x + y)[i] / 256
        && all[2 * i + 1] == (x + y)[i] % 256 by {
        if i < x.len() {
            assert(all[2 * i] == b.skip(m)[2 * i]);
            assert(all[2 * i + 1] == b.skip(m)[2 * i + 1]);
            assert(x[i] == (x + y)[i]);
        } else {
            let k = i - x.len();
            assert(all[2 * i] == c.skip(n)[2 * k]);
            assert(all[2 * i + 1] == c.skip(n)[2 * k + 1]);
            assert(y[k] == (x + y)[i]);
        }
    }
}

/// A sink that was sent the header of a picture and then its samples, high byte
/// first, has the file that encoding the picture as a whole gives behind what it
/// had.
pub proof fn law_sent_picture_is_the_file(
    image: &FarbfeldImage,
    file: Vec<u8>,
    before: Seq<u8>,
    opened: Seq<u8>,
    after: Seq<u8>,
)
    requires
        call_ensures(encode_farbfeld_image, (image,), Ok(file)),
        opened.len() == before.len() + 16,
        opened.take(before.len() as int) == before,
        begins_with_header(opened.skip(before.len() as int), image.width, image.height),
        samples_follow(opened, image.pixels@, after),
    ensures
        call_requires(encode_farbfeld_image, (image,)),
        after == before + file@,
{
    law_image_on_disk(image, Ok(file));
    lemma_sent(image.width, image.height, image.pixels@, file@, before, opened, after);
}

/// A picture that is streamed row by row is the file that encoding it as a whole
/// gives, behind what the sink had.
///
/// `states` are the writer when it was opened, after the first row, and so on to the
/// last; each row was written behind what the sink had before it.
pub proof fn law_streamed_picture_is_the_file(
    image: &FarbfeldImage,
    file: Vec<u8>,
    sink: Account,
    states: Seq<WriterState>,
    rows: Seq<Seq<u16>>,
)
    requires
        call_ensures(encode_farbfeld_image, (image,), Ok(file)),
        rows.flatten() == image.pixels@,
        states.len() == rows.len() + 1,
        creates(image.width, image.height, sink, Ok(()), states.first().account),
        forall|k: int|
            0 <= k < rows.len() ==> samples_follow(
                states[k].account.written,
                #[trigger] rows[k],
                states[k + 1].account.written,
            ),
    ensures
        states.last().account.written == sink.written + file@,
{
    let written = Seq::new(states.len(), |k: int| states[k].account.written);
    law_rows_follow_each_other(written, rows);
    let opened = states.first().account.written;
    lemma_opened(image.width, image.height, sink, states.first().account);
    law_sent_picture_is_the_file(
        image,
        file,
        sink.written,
        opened,
        states.last().account.written,
    );
}

/// A file that was opened has the header behind what the sink had.
proof fn lemma_opened(width: u32, height: u32, before: Account, after: Account)
    requires
        creates(width, height, before, Ok(()), after),
    ensures
        after.written.len() == before.written.len() + 16,
        after.written.take(before.written.len() as int) == before.written,
        begins_with_header(after.written.skip(before.written.len() as int), width, height),
{
    let header = choose|header: Seq<u8>| #[trigger]
        begins_with_header(header, width, height) && header.len() == 16 && accepted(
            before,
            header,
            after,
        );
    assert(after.written.take(before.written.len() as int) =~= before.written);
    assert(after.written.skip(before.written.len() as int) =~= header);
}

/// A header and samples that follow it are a file that is made of the same.
proof fn lemma_sent(
    width: u32,
    height: u32,
    samples: Seq<u16>,
    file: Seq<u8>,
    before: Seq<u8>,
    opened: Seq<u8>,
    after: Seq<u8>,
)
    requires
        begins_with_header(file, width, height),
        file.len() == 16 + 2 * samples.len(),
        forall|i: int|
            0 <= i < samples.len() ==> {
                &&& file[16 + 2 * i] == #[trigger] samples[i] / 256
                &&& file[16 + 2 * i + 1] == samples[i] % 256
            },
        opened.len() == before.len() + 16,
        opened.take(before.len() as int) == before,
        begins_with_header(opened.skip(before.len() as int), width, height),
        samples_follow(opened, samples, after),
    ensures
        after == before + file,
{
    let m = before.len() as int;
    let header = opened.skip(m);
    let body = after.skip(m + 16);
    lemma_same_header(header, file, width, height);
    lemma_same_body(samples, body, file);
    assert(file =~= header + body);
    assert(opened =~= before + header);
    assert(after =~= opened + body);
    assert(after =~= before + file);
}

/// Dimensions have one header.
proof fn lemma_same_header(header: Seq<u8>, file: Seq<u8>, width: u32, height: u32)
    requires
        header.len() == 16,
        begins_with_header(header, width, height),
        begins_with_header(file, width, height),
    ensures
        header == file.take(16),
{
    let front = file.take(16);
    lemma_same_digits(header[8], header[9], header[10], header[11], width);
    lemma_same_digits(file[8], file[9], file[10], file[11], width);
    lemma_same_digits(header[12], header[13], header[14], header[15], height);
    lemma_same_digits(file[12], file[13], file[14], file[15], height);
    assert forall|i: int| 0 <= i < 16 implies header[i] == front[i] by {
        if i < 8 {
            assert(header.take(8)[i] == header[i]);
            assert(file.take(8)[i] == file[i]);
        }
    }
    assert(header =~= front);
}

/// A number has one way to be written in four bytes.
proof fn lemma_same_digits(b0: u8, b1: u8, b2: u8, b3: u8, v: u32)
    requires
        b0 * 0x100_0000 + b1 * 0x1_0000 + b2 * 0x100 + b3 == v,
    ensures
        b0 == v / 0x100_0000,
        b1 == v / 0x1_0000 % 0x100,
        b2 == v / 0x100 % 0x100,
        b3 == v % 0x100,
{
    assert(v / 0x100_0000 == b0);
    assert(v / 0x1_0000 == b0 * 0x100 + b1);
    assert(v / 0x100 == b0 * 0x1_0000 + b1 * 0x100 + b2);
}

/// Samples have one body.
proof fn lemma_same_body(samples: Seq<u16>, body: Seq<u8>, file: Seq<u8>)
    requires
        high_byte_first(samples, body),
        file.len() == 16 + 2 * samples.len(),
        forall|i: int|
            0 <= i < samples.len() ==> {
                &&& file[16 + 2 * i] == #[trigger] samples[i] / 256
                &&& file[16 + 2 * i + 1] == samples[i] % 256
            },
    ensures
        body == file.skip(16),
{
    assert forall|j: int| 0 <= j < body.len() implies body[j] == file.skip(16)[j] by {
        let i = j / 2;
        assert(file[16 + 2 * i] == samples[i] / 256);
    }
    assert(body =~= file.skip(16));
}

} // verus!
