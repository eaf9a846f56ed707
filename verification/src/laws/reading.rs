//! What the streaming reader takes from its source and hands out, byte by byte.

use vstd::prelude::*;

use crate::error::{outcome, FarbfeldError};
use crate::laws::encoding::begins_with_header;
use crate::laws::parsing::{lemma_header_fields, reads_header};
use crate::parser::{header_height, header_width, FarbfeldHeader, MAGIC};
use crate::stream::lemma_short;
use crate::stream::reader::{
    after_open, open_outcome, read_header, FarbfeldStreamReader, ReaderState,
};
use crate::text::decimal;
use crate::transport::{ByteCursor, ByteSource, Supply};

verus! {

/// Whether `after` is what is left of `before` when `n` bytes have been taken.
pub open spec fn taken(before: Supply, n: int, after: Supply) -> bool {
    &&& n <= before.pending.len()
    &&& after.pending == before.pending.skip(n)
    &&& after.fault == before.fault
    &&& after.later == before.later
}

/// Whether `after` is what is left of `before` when all bytes up to the next stop
/// have been taken and the stop itself has been met.
pub open spec fn stopped(before: Supply, after: Supply) -> bool {
    &&& after.pending == (before.later)(0).pending
    &&& after.fault == (before.later)(0).fault
    &&& forall|i: nat| #[trigger] (after.later)(i) == (before.later)(i + 1)
}

/// What is said of a row for which the source has too few bytes: how many were
/// wanted and how many came, or the fault that came instead.
pub open spec fn says_row_is_short(message: Seq<char>, source: Supply, wanted: nat, came: nat) -> bool {
    match source.fault {
        None => message == "farbfeld stream: row body: truncated input ("@ + decimal(wanted)
            + " bytes wanted, "@ + decimal(came) + " delivered)"@,
        Some((_, fault)) => message == "farbfeld stream: row body: io error: "@ + fault,
    }
}

/// Whether consuming one row from `before` returns `r` and leaves `after`.
///
/// There is no row behind the last one. A row of `width * 8` bytes is taken where
/// the source has them; where it has fewer they are gone, and no row is counted.
pub open spec fn takes_a_row(
    before: ReaderState,
    r: Result<bool, FarbfeldError>,
    after: ReaderState,
) -> bool {
    let size = before.header.width * 8;
    let there = before.supply.pending.len();
    &&& after.header == before.header
    &&& match r {
        Ok(true) => {
            &&& before.done < before.header.height
            &&& after.done == before.done + 1
            &&& taken(before.supply, size, after.supply)
        },
        Ok(false) => before.done >= before.header.height && after == before,
        Err(FarbfeldError::InvalidData(message)) => {
            &&& before.done < before.header.height
            &&& there < size
            &&& says_row_is_short(message@, before.supply, size as nat, there)
            &&& after.done == before.done
            &&& stopped(before.supply, after.supply)
        },
    }
}

/// Skipping a row takes one.
pub proof fn law_row_is_skipped<R: ByteSource>(
    reader: &mut FarbfeldStreamReader<R>,
    r: Result<bool, FarbfeldError>,
)
    requires
        old(reader).wf(),
        call_ensures(FarbfeldStreamReader::<R>::skip_row, (reader,), r),
    ensures
        call_requires(FarbfeldStreamReader::<R>::skip_row, (reader,)),
        takes_a_row(old(reader)@, r, final(reader)@),
        final(reader).wf(),
        final(reader).backing() == old(reader).backing(),
{
    lemma_step(old(reader)@);
}

/// The next state of a reader, in its parts.
proof fn lemma_step(s: ReaderState)
    ensures
        !s.delivers(1) ==> s.supply.pending.len() < s.header.width * 8 && s.stopped().done == s.done
            && s.supply.pending.len() % s.row_size() == s.supply.pending.len(),
        s.delivers(1) <==> s.supply.pending.len() >= s.header.width * 8,
{
    if !s.delivers(1) {
        lemma_short(s.supply.pending.len(), s.row_size());
    }
}

/// Reading a row as samples takes one, and sample `i` is then made of the bytes
/// `2 * i` and `2 * i + 1` of the row, high byte first. A slice of any other
/// length than `width * 4` is refused, with the stream where it was. The slice
/// changes only where a row was taken.
pub proof fn law_row_is_read<R: ByteSource>(
    reader: &mut FarbfeldStreamReader<R>,
    out: &mut [u16],
    r: Result<bool, FarbfeldError>,
)
    requires
        old(reader).wf(),
        call_ensures(FarbfeldStreamReader::<R>::read_row, (reader, out), r),
    ensures
        call_requires(FarbfeldStreamReader::<R>::read_row, (reader, out)),
        final(reader).wf(),
        final(reader).backing() == old(reader).backing(),
        ({
            let s = old(reader)@;
            let width = s.header.width;
            if s.done < s.header.height && old(out)@.len() != width * 4 {
                &&& r matches Err(FarbfeldError::InvalidData(message)) && message@
                    == "farbfeld stream: row out-slice has "@ + decimal(old(out)@.len())
                    + " samples, need "@ + decimal((width * 4) as nat) + " ("@ + decimal(
                    width as nat,
                ) + " × 4)"@
                &&& final(reader)@ == s
                &&& final(out)@ == old(out)@
            } else {
                &&& takes_a_row(s, r, final(reader)@)
                &&& final(out)@.len() == old(out)@.len()
                &&& forall|i: int|
                    0 <= i < final(out)@.len() ==> #[trigger] final(out)@[i] == (if r == Ok::<
                        bool,
                        FarbfeldError,
                    >(true) {
                        s.supply.pending[2 * i] * 256 + s.supply.pending[2 * i + 1]
                    } else {
                        old(out)@[i] as int
                    })
            }
        }),
{
    lemma_step(old(reader)@);
}

/// Reading a row as bytes takes one, and byte `i` is then byte `i` of the row. A
/// slice of any other length than `width * 8` is refused, with the stream where
/// it was. The slice changes only where a row was taken.
pub proof fn law_raw_row_is_read<R: ByteSource>(
    reader: &mut FarbfeldStreamReader<R>,
    out: &mut [u8],
    r: Result<bool, FarbfeldError>,
)
    requires
        old(reader).wf(),
        call_ensures(FarbfeldStreamReader::<R>::read_row_raw, (reader, out), r),
    ensures
        call_requires(FarbfeldStreamReader::<R>::read_row_raw, (reader, out)),
        final(reader).wf(),
        final(reader).backing() == old(reader).backing(),
        ({
            let s = old(reader)@;
            let width = s.header.width;
            if s.done < s.header.height && old(out)@.len() != width * 8 {
                &&& r matches Err(FarbfeldError::InvalidData(message)) && message@
                    == "farbfeld stream: row out-slice has "@ + decimal(old(out)@.len())
                    + " bytes, need "@ + decimal((width * 8) as nat) + " ("@ + decimal(
                    width as nat,
                ) + " × 8)"@
                &&& final(reader)@ == s
                &&& final(out)@ == old(out)@
            } else {
                &&& takes_a_row(s, r, final(reader)@)
                &&& final(out)@ == (if r == Ok::<bool, FarbfeldError>(true) {
                    s.supply.pending.take(width * 8)
                } else {
                    old(out)@
                })
            }
        }),
{
    lemma_step(old(reader)@);
}

/// Skipping `n` rows skips the smaller of `n` and the rows that remain, where the
/// source has the bytes of them all, and returns that number. Where it has not,
/// the rows that are there whole are counted, and all bytes up to the stop are
/// gone.
pub proof fn law_rows_are_skipped<R: ByteSource>(
    reader: &mut FarbfeldStreamReader<R>,
    n: u32,
    r: Result<u32, FarbfeldError>,
)
    requires
        old(reader).wf(),
        call_ensures(FarbfeldStreamReader::<R>::skip_rows, (reader, n), r),
    ensures
        call_requires(FarbfeldStreamReader::<R>::skip_rows, (reader, n)),
        final(reader).wf(),
        final(reader).backing() == old(reader).backing(),
        ({
            let s = old(reader)@;
            let t = final(reader)@;
            let left = s.header.height - s.done;
            let size = s.header.width * 8;
            let there = s.supply.pending.len();
            &&& t.header == s.header
            &&& match r {
                Ok(k) => {
                    &&& k <= n
                    &&& k <= left
                    &&& k == n || k == left
                    &&& t.done == s.done + k
                    &&& taken(s.supply, k * size, t.supply)
                },
                Err(FarbfeldError::InvalidData(message)) => {
                    &&& there < n * size
                    &&& there < left * size
                    &&& says_row_is_short(
                        message@,
                        s.supply,
                        size as nat,
                        (there - (t.done - s.done) * size) as nat,
                    )
                    &&& s.done <= t.done
                    &&& (t.done - s.done) * size <= there < (t.done - s.done + 1) * size
                    &&& stopped(s.supply, t.supply)
                },
            }
        }),
{
    let s = old(reader)@;
    if !s.delivers(s.capped(n)) {
        lemma_whole_rows(s, s.capped(n));
        assert(s.capped(n) * s.row_size() <= n * s.row_size()) by (nonlinear_arith)
            requires
                s.capped(n) <= n,
        ;
        assert(s.capped(n) * s.row_size() <= s.remaining() * s.row_size()) by (nonlinear_arith)
            requires
                s.capped(n) <= s.remaining(),
        ;
    }
}

/// The whole rows that a source has, where it does not have all that are wanted.
proof fn lemma_whole_rows(s: ReaderState, rows: nat)
    requires
        !s.delivers(rows),
    ensures
        s.row_size() > 0,
        s.whole_rows() * s.row_size() <= s.supply.pending.len() < (s.whole_rows() + 1)
            * s.row_size(),
        s.supply.pending.len() % s.row_size() == s.supply.pending.len() - s.whole_rows()
            * s.row_size(),
{
    let there = s.supply.pending.len() as int;
    let size = s.row_size() as int;
    assert(size > 0) by (nonlinear_arith)
        requires
            rows * size > there,
            there >= 0,
            size >= 0,
    ;
    vstd::arithmetic::div_mod::lemma_fundamental_div_mod(there, size);
    assert(size * (there / size) == (there / size) * size) by (nonlinear_arith);
    assert((there / size + 1) * size == (there / size) * size + size) by (nonlinear_arith);
}

/// Reading all rows that remain gives their samples: sample `i` is made of the
/// bytes `2 * i` and `2 * i + 1` that come next, high byte first. Where the source
/// does not have them all, the rows that are there whole are counted, and all
/// bytes up to the stop are gone.
pub proof fn law_all_rows_are_read<R: ByteSource>(
    reader: &mut FarbfeldStreamReader<R>,
    r: Result<Vec<u16>, FarbfeldError>,
)
    requires
        old(reader).wf(),
        call_ensures(FarbfeldStreamReader::<R>::read_all_rows, (reader,), r),
    ensures
        call_requires(FarbfeldStreamReader::<R>::read_all_rows, (reader,)),
        final(reader).wf(),
        final(reader).backing() == old(reader).backing(),
        ({
            let s = old(reader)@;
            let t = final(reader)@;
            let left = s.header.height - s.done;
            let size = s.header.width * 8;
            let there = s.supply.pending.len();
            &&& t.header == s.header
            &&& match r {
                Ok(samples) => {
                    &&& 2 * samples@.len() == left * size
                    &&& t.done == s.header.height
                    &&& taken(s.supply, left * size, t.supply)
                    &&& forall|i: int|
                        0 <= i < samples@.len() ==> #[trigger] samples@[i] == s.supply.pending[2
                            * i] * 256 + s.supply.pending[2 * i + 1]
                },
                Err(FarbfeldError::InvalidData(message)) => {
                    &&& there < left * size
                    &&& says_row_is_short(
                        message@,
                        s.supply,
                        size as nat,
                        (there - (t.done - s.done) * size) as nat,
                    )
                    &&& s.done <= t.done
                    &&& (t.done - s.done) * size <= there < (t.done - s.done + 1) * size
                    &&& stopped(s.supply, t.supply)
                },
            }
        }),
{
    let s = old(reader)@;
    let rows = s.remaining();
    assert(rows * s.row_size() == 2 * (rows * (s.header.width * 4))) by (nonlinear_arith)
        requires
            s.row_size() == s.header.width * 8,
    ;
    if !s.delivers(rows) {
        lemma_whole_rows(s, rows);
    }
}

/// Whether opening a stream on `before` returns `r` and leaves `after`.
///
/// The first 16 bytes are taken and read as a header. Where there are fewer they
/// are gone, and the message says so, or names the fault that came instead. A row
/// that does not fit in `usize` is refused too.
pub open spec fn opens(
    before: Supply,
    r: Result<FarbfeldHeader, FarbfeldError>,
    after: Supply,
) -> bool {
    if before.pending.len() >= 16 {
        &&& taken(before, 16, after)
        &&& match r {
            Ok(header) => reads_header(before.pending.take(16), r) && header.width * 8
                <= usize::MAX,
            Err(FarbfeldError::InvalidData(message)) => {
                ||| reads_header(before.pending.take(16), r)
                ||| exists|width: u32, height: u32| #[trigger]
                    begins_with_header(before.pending.take(16), width, height) && width * 8
                        > usize::MAX && width * height * 8 <= usize::MAX && message@
                        == "farbfeld: row size overflows usize"@
            },
        }
    } else {
        &&& stopped(before, after)
        &&& r matches Err(FarbfeldError::InvalidData(message)) && match before.fault {
            Some((false, fault)) => message@ == "farbfeld: header: io error: "@ + fault,
            _ => message@ == "farbfeld: header: truncated input (16 bytes wanted)"@,
        }
    }
}

/// Reading the header of a stream opens it.
pub proof fn law_stream_header_is_read<R: ByteSource>(
    source: &mut R,
    r: Result<FarbfeldHeader, FarbfeldError>,
)
    requires
        call_ensures(read_header::<R>, (source,), r),
    ensures
        call_requires(read_header::<R>, (source,)),
        opens(old(source).supply(), r, final(source).supply()),
        final(source).backing() == old(source).backing(),
{
    lemma_opens(old(source).supply(), r);
}

/// What the header of a stream says, in its parts.
proof fn lemma_opens(source: Supply, r: Result<FarbfeldHeader, FarbfeldError>)
    requires
        outcome(r) == open_outcome(source),
    ensures
        opens(source, r, after_open(source)),
{
    assert(MAGIC@ =~= seq![0x66u8, 0x61, 0x72, 0x62, 0x66, 0x65, 0x6c, 0x64]);
    let bytes = source.pending.take(16);
    if source.pending.len() >= 16 {
        lemma_header_fields(bytes);
        let (width, height) = (header_width(bytes), header_height(bytes));
        assert(0 <= width * height) by (nonlinear_arith);
        assert(bytes.take(8).len() == 8);
        if bytes.take(8) == MAGIC@ {
            assert(begins_with_header(bytes, width, height));
        }
    }
}

/// Opening a stream for reading: the reader has the header that the source begins
/// with, has consumed no row and has the bytes behind the header before it. A
/// refusal is one of the header.
pub proof fn law_stream_is_opened<R: ByteSource>(
    inner: R,
    r: Result<FarbfeldStreamReader<R>, FarbfeldError>,
)
    requires
        call_ensures(FarbfeldStreamReader::<R>::new, (inner,), r),
    ensures
        call_requires(FarbfeldStreamReader::<R>::new, (inner,)),
        match r {
            Ok(reader) => {
                &&& opens(inner.supply(), Ok(reader@.header), reader@.supply)
                &&& reader@.done == 0
                &&& reader.wf()
                &&& reader.backing() == inner.backing()
            },
            Err(e) => exists|after: Supply| #[trigger] opens(inner.supply(), Err(e), after),
        },
{
    let after = after_open(inner.supply());
    match r {
        Ok(reader) => {
            lemma_opens(inner.supply(), Ok(reader@.header));
        },
        Err(e) => {
            lemma_opens(inner.supply(), Err(e));
            assert(opens(inner.supply(), Err(e), after));
        },
    }
}

/// A cursor that is lent for a stream which is refused is left behind the bytes of
/// the header, or at its end where it has fewer, and runs over the same bytes.
pub proof fn law_refused_stream_leaves_the_cursor(
    cursor: &mut ByteCursor,
    r: Result<FarbfeldStreamReader<&mut ByteCursor>, FarbfeldError>,
)
    requires
        call_ensures(FarbfeldStreamReader::<&mut ByteCursor>::new, (cursor,), r),
    ensures
        r is Err ==> {
            let pending = (*old(cursor)).supply().pending;
            &&& (*final(cursor)).backing() == (*old(cursor)).backing()
            &&& (*final(cursor)).supply().pending == (if pending.len() >= 16 {
                pending.skip(16)
            } else {
                Seq::empty()
            })
        },
{
    if r is Err {
        let before = cursor.supply();
        let source = choose|source: &mut ByteCursor|
            #![trigger source.supply()]
            {
                &&& source.supply() == after_open(before)
                &&& source.backing() == cursor.backing()
                &&& has_resolved(source)
                &&& *final(source) == *final(cursor)
            };
        assert(source.supply() == after_open(before));
        assert(has_resolved(source));
        assert(before.resumed().pending =~= Seq::<u8>::empty());
    }
}

/// What a reader tells of itself is what it holds: its header, the rows it has
/// consumed and those that remain, and the source that it gives back.
pub proof fn law_reader_tells<R: ByteSource>(
    reader: FarbfeldStreamReader<R>,
    header: &FarbfeldHeader,
    width: u32,
    height: u32,
    read: u32,
    remaining: u32,
    inner: R,
)
    requires
        reader.wf(),
        call_ensures(FarbfeldStreamReader::<R>::header, (&reader,), header),
        call_ensures(FarbfeldStreamReader::<R>::width, (&reader,), width),
        call_ensures(FarbfeldStreamReader::<R>::height, (&reader,), height),
        call_ensures(FarbfeldStreamReader::<R>::rows_read, (&reader,), read),
        call_ensures(FarbfeldStreamReader::<R>::rows_remaining, (&reader,), remaining),
        call_ensures(FarbfeldStreamReader::<R>::into_inner, (reader,), inner),
    ensures
        call_requires(FarbfeldStreamReader::<R>::header, (&reader,)),
        call_requires(FarbfeldStreamReader::<R>::width, (&reader,)),
        call_requires(FarbfeldStreamReader::<R>::height, (&reader,)),
        call_requires(FarbfeldStreamReader::<R>::rows_read, (&reader,)),
        call_requires(FarbfeldStreamReader::<R>::rows_remaining, (&reader,)),
        call_requires(FarbfeldStreamReader::<R>::into_inner, (reader,)),
        *header == reader@.header,
        width == reader@.header.width,
        height == reader@.header.height,
        reader@.header.body_len == width * height * 8,
        read == reader@.done,
        read + remaining == height,
        inner.supply() == reader@.supply,
        inner.backing() == reader.backing(),
{
}

} // verus!
