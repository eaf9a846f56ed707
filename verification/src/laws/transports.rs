//! What sources deliver and sinks accept, byte by byte.

use vstd::prelude::*;

use crate::laws::reading::{stopped, taken};
use crate::laws::writing::{accepted, cut_short};
use crate::transport::{
    fetch, write_all, ByteCursor, ByteSink, ByteSource, SourceFault, Supply,
};

verus! {

/// Whether taking up to `limit` bytes from `before` returns `r`, leaves `after`,
/// and makes `out` of `start`.
///
/// All bytes that arrive are appended, in order. All that were asked for arrive
/// where the source has them; else all that it has up to its next stop, and the
/// stop is met: an end gives their number, and a fault is reported.
pub open spec fn fetches(
    before: Supply,
    limit: usize,
    start: Seq<u8>,
    r: Result<usize, SourceFault>,
    out: Seq<u8>,
    after: Supply,
) -> bool {
    if limit <= before.pending.len() {
        &&& r == Ok::<usize, SourceFault>(limit)
        &&& out == start + before.pending.take(limit as int)
        &&& taken(before, limit as int, after)
    } else {
        &&& out == start + before.pending
        &&& stopped(before, after)
        &&& match (r, before.fault) {
            (Ok(n), None) => n == before.pending.len(),
            (Err(e), Some((unexpected_end, message))) => e.unexpected_end == unexpected_end
                && e.message@ == message,
            _ => false,
        }
    }
}

/// Fetching takes as many bytes as were asked for, or all up to the next stop.
pub proof fn law_bytes_are_fetched<R: ByteSource>(
    source: &mut R,
    limit: usize,
    out: &mut Vec<u8>,
    r: Result<usize, SourceFault>,
)
    requires
        call_ensures(fetch::<R>, (source, limit, out), r),
    ensures
        call_requires(fetch::<R>, (source, limit, out)),
        fetches(old(source).supply(), limit, old(out)@, r, final(out)@, final(source).supply()),
        final(source).backing() == old(source).backing(),
{
    let pending = old(source).supply().pending;
    assert(pending.take(pending.len() as int) =~= pending);
}

/// Sending gets all bytes accepted, behind what the sink had, where it has the
/// room; else as many as there is room for, and the refusal is reported.
pub proof fn law_bytes_are_sent<W: ByteSink>(sink: &mut W, bytes: &[u8], r: Result<(), String>)
    requires
        call_ensures(write_all::<W>, (sink, bytes), r),
    ensures
        call_requires(write_all::<W>, (sink, bytes)),
        match r {
            Ok(()) => {
                &&& accepted(old(sink).account(), bytes@, final(sink).account())
                &&& old(sink).account().room matches Some(room) ==> bytes@.len() <= room
            },
            Err(message) => {
                &&& cut_short(old(sink).account(), bytes@, final(sink).account())
                &&& message@ == old(sink).account().refusal
            },
        },
{
}

/// A cursor over bytes delivers those from its position on, and then ends for
/// good. It starts at the first of them and tells what it runs over and where it
/// is.
pub proof fn law_cursor_tells(
    bytes: Vec<u8>,
    fresh: ByteCursor,
    cursor: &ByteCursor,
    contents: &Vec<u8>,
    position: usize,
)
    requires
        call_ensures(ByteCursor::new, (bytes,), fresh),
        call_ensures(ByteCursor::get_ref, (cursor,), contents),
        call_ensures(ByteCursor::position, (cursor,), position),
    ensures
        call_requires(ByteCursor::new, (bytes,)),
        call_requires(ByteCursor::get_ref, (cursor,)),
        call_requires(ByteCursor::position, (cursor,)),
        fresh.backing() == bytes@,
        fresh.supply().pending == bytes@,
        contents@ == cursor.backing(),
        position <= contents@.len(),
        cursor.supply().pending == contents@.skip(position as int),
        cursor.supply().fault is None,
        forall|i: nat| (#[trigger] (cursor.supply().later)(i)).pending.len() == 0,
        forall|i: nat| (#[trigger] (cursor.supply().later)(i)).fault is None,
{
    assert(bytes@.skip(0) =~= bytes@);
}

/// A cursor delivers what was asked for or, where it is less, what it has left;
/// the bytes that it runs over stay as they are.
pub proof fn law_cursor_delivers(
    cursor: &mut ByteCursor,
    limit: usize,
    out: &mut Vec<u8>,
    r: Result<usize, SourceFault>,
)
    requires
        call_ensures(<ByteCursor as ByteSource>::read, (cursor, limit, out), r),
    ensures
        call_requires(<ByteCursor as ByteSource>::read, (cursor, limit, out)),
        r matches Ok(n) && {
            &&& n <= limit
            &&& n <= (*old(cursor)).supply().pending.len()
            &&& n == limit || n == (*old(cursor)).supply().pending.len()
            &&& final(out)@ == old(out)@ + (*old(cursor)).supply().pending.take(n as int)
            &&& (*final(cursor)).supply().pending == (*old(cursor)).supply().pending.skip(n as int)
        },
        (*final(cursor)).backing() == (*old(cursor)).backing(),
{
    let pending = (*old(cursor)).supply().pending;
    assert(pending.skip(0) =~= pending);
}

/// A cursor that is lent delivers as the cursor itself does.
pub proof fn law_lent_cursor_delivers(
    lent: &mut &mut ByteCursor,
    limit: usize,
    out: &mut Vec<u8>,
    r: Result<usize, SourceFault>,
)
    requires
        call_ensures(<&mut ByteCursor as ByteSource>::read, (lent, limit, out), r),
    ensures
        call_requires(<&mut ByteCursor as ByteSource>::read, (lent, limit, out)),
        r matches Ok(n) && {
            &&& n <= limit
            &&& n <= (**old(lent)).supply().pending.len()
            &&& n == limit || n == (**old(lent)).supply().pending.len()
            &&& final(out)@ == old(out)@ + (**old(lent)).supply().pending.take(n as int)
            &&& (**final(lent)).supply().pending == (**old(lent)).supply().pending.skip(n as int)
        },
        (**final(lent)).backing() == (**old(lent)).backing(),
{
    let pending = (**old(lent)).supply().pending;
    assert(pending.skip(0) =~= pending);
}

/// A copy of a fault is the same fault.
pub proof fn law_fault_is_copied(fault: &SourceFault, copy: SourceFault)
    requires
        call_ensures(<SourceFault as Clone>::clone, (fault,), copy),
    ensures
        copy.unexpected_end == fault.unexpected_end,
        copy.message@ == fault.message@,
{
}

/// A vector is a sink of any room: it accepts all it is offered, and what it has
/// accepted is what it holds.
pub proof fn law_vector_accepts(sink: &mut Vec<u8>, bytes: &[u8], r: Result<usize, String>)
    requires
        call_ensures(<Vec<u8> as ByteSink>::write, (sink, bytes), r),
    ensures
        call_requires(<Vec<u8> as ByteSink>::write, (sink, bytes)),
        (*old(sink)).account().written == old(sink)@,
        (*old(sink)).account().room is None,
        r matches Ok(n) && n == bytes@.len(),
        final(sink)@ == old(sink)@ + bytes@,
{
    assert(bytes@.take(bytes@.len() as int) =~= bytes@);
}

/// A vector that is lent accepts as the vector itself does.
pub proof fn law_lent_vector_accepts(
    lent: &mut &mut Vec<u8>,
    bytes: &[u8],
    r: Result<usize, String>,
)
    requires
        call_ensures(<&mut Vec<u8> as ByteSink>::write, (lent, bytes), r),
    ensures
        call_requires(<&mut Vec<u8> as ByteSink>::write, (lent, bytes)),
        (*old(lent)).account().written == (**old(lent))@,
        (*old(lent)).account().room is None,
        r matches Ok(n) && n == bytes@.len(),
        (**final(lent))@ == (**old(lent))@ + bytes@,
{
    assert(bytes@.take(bytes@.len() as int) =~= bytes@);
}

/// Any source delivers the bytes that it has up to its next stop, in order and
/// some at a time, at least one where any is left and asked for. When none is left
/// it stops, with the fault that it has, or with zero where it has none.
pub proof fn law_source_delivers<R: ByteSource>(
    source: &mut R,
    limit: usize,
    out: &mut Vec<u8>,
    r: Result<usize, SourceFault>,
)
    requires
        call_ensures(<R as ByteSource>::read, (source, limit, out), r),
    ensures
        call_requires(<R as ByteSource>::read, (source, limit, out)),
        final(source).backing() == old(source).backing(),
        match r {
            Ok(n) => {
                &&& n <= limit
                &&& final(out)@ == old(out)@ + old(source).supply().pending.take(n as int)
                &&& if n == 0 && limit > 0 {
                    &&& old(source).supply().pending.len() == 0
                    &&& old(source).supply().fault is None
                    &&& stopped(old(source).supply(), final(source).supply())
                } else {
                    taken(old(source).supply(), n as int, final(source).supply())
                }
            },
            Err(e) => {
                &&& limit > 0
                &&& old(source).supply().pending.len() == 0
                &&& old(source).supply().fault == Some((e.unexpected_end, e.message@))
                &&& final(out)@ == old(out)@
                &&& stopped(old(source).supply(), final(source).supply())
            },
        },
{
}

/// Any sink accepts bytes in order and some at a time, at least one where there is
/// room and any is offered. Where there is no room it refuses, in its own words, or
/// with zero.
pub proof fn law_sink_accepts<W: ByteSink>(sink: &mut W, bytes: &[u8], r: Result<usize, String>)
    requires
        call_ensures(<W as ByteSink>::write, (sink, bytes), r),
    ensures
        call_requires(<W as ByteSink>::write, (sink, bytes)),
        match r {
            Ok(n) => {
                &&& n <= bytes@.len()
                &&& if n == 0 && bytes@.len() > 0 {
                    &&& cut_short(old(sink).account(), bytes@, final(sink).account())
                    &&& old(sink).account().room == Some(0nat)
                    &&& old(sink).account().refusal == "failed to write whole buffer"@
                } else {
                    accepted(old(sink).account(), bytes@.take(n as int), final(sink).account())
                }
            },
            Err(message) => {
                &&& cut_short(old(sink).account(), bytes@, final(sink).account())
                &&& old(sink).account().room == Some(0nat)
                &&& old(sink).account().refusal == message@
            },
        },
{
    let written = old(sink).account().written;
    assert(written + bytes@.take(0) =~= written);
}

} // verus!
