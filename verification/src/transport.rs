//! Where streamed bytes come from and go to.
//!
//! [`ByteSource`] and [`ByteSink`] stand between the streaming reader and
//! writer and a transport that may deliver or accept fewer bytes than asked.
//! [`fetch`] and [`write_all`] repeat such short transfers until they are
//! complete. [`ByteCursor`] is a source over bytes in memory, and a `Vec<u8>`
//! is a sink that grows; either can be lent to a stream.

use vstd::prelude::*;
use vstd::string::StringExecFns;

verus! {

/// Why a source could not deliver.
#[derive(Debug, PartialEq, Eq)]
pub struct SourceFault {
    /// The transport itself reported an unexpected end of its input.
    pub unexpected_end: bool,
    /// What the transport says of the fault.
    pub message: String,
}

impl View for SourceFault {
    type V = (bool, Seq<char>);

    /// Whether the fault is an unexpected end, and its message.
    open spec fn view(&self) -> (bool, Seq<char>) {
        (self.unexpected_end, self.message@)
    }
}

impl Clone for SourceFault {
    /// The same fault again.
    fn clone(&self) -> (r: Self)
        ensures
            r@ == self@,
    {
        SourceFault { unexpected_end: self.unexpected_end, message: self.message.clone() }
    }
}

/// What a source does up to its next stop.
#[verifier::ext_equal]
pub struct Stretch {
    /// The bytes that are delivered first.
    pub pending: Seq<u8>,
    /// What follows the last of them: a fault, or the end of the input.
    pub fault: Option<(bool, Seq<char>)>,
}

/// What a source has before it.
///
/// A stop need not be the last of it: an input that has ended can grow, and a
/// fault can pass. A source that is asked again goes on with the next stretch.
#[verifier::ext_equal]
pub struct Supply {
    /// The bytes that are still to be delivered before the next stop.
    pub pending: Seq<u8>,
    /// What follows the last of them: a fault, or the end of the input.
    pub fault: Option<(bool, Seq<char>)>,
    /// The stretches behind that stop.
    pub later: spec_fn(nat) -> Stretch,
}

/// What a sink does up to its next refusal.
#[verifier::ext_equal]
pub struct Allowance {
    /// How many bytes are accepted first, where that is limited.
    pub room: Option<nat>,
    /// What the sink says of the byte that it does not accept.
    pub refusal: Seq<char>,
}

/// What a sink has behind it and before it.
///
/// A refusal need not be the last word: a sink that is asked again goes on with
/// the next allowance.
#[verifier::ext_equal]
pub struct Account {
    /// The bytes accepted so far.
    pub written: Seq<u8>,
    /// How many more bytes will be accepted before the next refusal, where that
    /// is limited.
    pub room: Option<nat>,
    /// What the sink says of the byte that it does not accept.
    pub refusal: Seq<char>,
    /// The allowances behind that refusal.
    pub later: spec_fn(nat) -> Allowance,
}

impl Supply {
    /// Bytes in memory: they are delivered, and then the input ends for good.
    pub open spec fn of(bytes: Seq<u8>) -> Supply {
        Supply {
            pending: bytes,
            fault: None,
            later: |i: nat| Stretch { pending: Seq::empty(), fault: None },
        }
    }

    /// What is left after `n` bytes.
    pub open spec fn after(self, n: int) -> Supply {
        Supply { pending: self.pending.skip(n), ..self }
    }

    /// What is left after the next stop, with all bytes before it delivered.
    pub open spec fn resumed(self) -> Supply {
        Supply {
            pending: (self.later)(0).pending,
            fault: (self.later)(0).fault,
            later: |i: nat| (self.later)(i + 1),
        }
    }
}

impl Account {
    /// Whether `n` more bytes will be accepted.
    pub open spec fn accepts(self, n: nat) -> bool {
        self.room matches Some(room) ==> n <= room
    }

    /// The account after `bytes` have been accepted.
    pub open spec fn after(self, bytes: Seq<u8>) -> Account {
        Account {
            written: self.written + bytes,
            room: match self.room {
                Some(room) => Some((room - bytes.len()) as nat),
                None => None,
            },
            ..self
        }
    }

    /// The account after a refusal: what has been accepted stays so.
    pub open spec fn refused(self) -> Account {
        Account {
            written: self.written,
            room: (self.later)(0).room,
            refusal: (self.later)(0).refusal,
            later: |i: nat| (self.later)(i + 1),
        }
    }

    /// The account after as much of `bytes` as there is room for has been
    /// accepted and the rest has been refused.
    pub open spec fn filled(self, bytes: Seq<u8>) -> Account {
        self.after(bytes.take(self.room->0 as int)).refused()
    }
}

/// Whether `state` can be what a transport says of itself, where it does not
/// say: nothing is ruled out.
pub closed spec fn possible<T, S>(transport: T, state: S) -> bool {
    true
}

/// A transport that delivers bytes in order, some at a time.
pub trait ByteSource: Sized {
    /// What is still to be delivered. A source that leaves this out has some
    /// supply, which depends on the source alone.
    closed spec fn supply(&self) -> Supply {
        choose|supply: Supply| possible(*self, supply)
    }

    /// The bytes behind the source, delivered ones too, where it keeps any:
    /// reading leaves them as they are. A source that leaves this out has some
    /// such bytes, which depend on the source alone.
    closed spec fn backing(&self) -> Seq<u8> {
        choose|backing: Seq<u8>| possible(*self, backing)
    }

    /// The cursor that the source moves for its owner, where one is lent to it. A
    /// source that leaves this out has none.
    closed spec fn lent(&self) -> Option<&mut ByteCursor> {
        None
    }

    /// Appends between one and `limit` bytes to `out` and returns their number.
    ///
    /// Zero is returned at the end of the input, and where nothing was asked
    /// for. An end or a fault comes only when every byte before it is out.
    fn read(&mut self, limit: usize, out: &mut Vec<u8>) -> (r: Result<usize, SourceFault>)
        ensures
            final(self).backing() == old(self).backing(),
            old(self).lent() matches Some(cursor) ==> (final(self).lent() matches Some(now)
                && *final(now) == *final(cursor)),
            match r {
                Ok(n) => {
                    &&& n <= limit
                    &&& n <= old(self).supply().pending.len()
                    &&& final(out)@ == old(out)@ + old(self).supply().pending.take(n as int)
                    &&& if n == 0 && limit > 0 {
                        &&& old(self).supply().pending.len() == 0
                        &&& old(self).supply().fault is None
                        &&& final(self).supply() == old(self).supply().resumed()
                    } else {
                        final(self).supply() == old(self).supply().after(n as int)
                    }
                },
                Err(e) => {
                    &&& limit > 0
                    &&& old(self).supply().pending.len() == 0
                    &&& old(self).supply().fault == Some(e@)
                    &&& final(out)@ == old(out)@
                    &&& final(self).supply() == old(self).supply().resumed()
                },
            },
    ;
}

/// A transport that accepts bytes in order, some at a time.
pub trait ByteSink: Sized {
    /// What has been accepted and will be. A sink that leaves this out has some
    /// account, which depends on the sink alone.
    closed spec fn account(&self) -> Account {
        choose|account: Account| possible(*self, account)
    }

    /// The buffer that the sink fills for its owner, where one is lent to it. A
    /// sink that leaves this out has none.
    closed spec fn lent(&self) -> Option<&mut Vec<u8>> {
        None
    }

    /// Accepts between one and all of `bytes` and returns their number.
    ///
    /// A sink without room accepts nothing: it returns an error, or zero, which
    /// stands for the refusal `failed to write whole buffer`.
    fn write(&mut self, bytes: &[u8]) -> (r: Result<usize, String>)
        ensures
            old(self).lent() matches Some(buffer) ==> (final(self).lent() matches Some(now)
                && final(now)@ == final(buffer)@),
            match r {
                Ok(n) => {
                    &&& n <= bytes@.len()
                    &&& old(self).account().accepts(n as nat)
                    &&& if n == 0 && bytes@.len() > 0 {
                        &&& !old(self).account().accepts(1)
                        &&& old(self).account().refusal == "failed to write whole buffer"@
                        &&& final(self).account() == old(self).account().refused()
                    } else {
                        final(self).account() == old(self).account().after(bytes@.take(n as int))
                    }
                },
                Err(e) => {
                    &&& bytes@.len() > 0
                    &&& !old(self).account().accepts(1)
                    &&& old(self).account().refusal == e@
                    &&& final(self).account() == old(self).account().refused()
                },
            },
    ;
}

/// Reads until `limit` bytes have arrived or the source has no more.
///
/// Fewer than `limit` bytes mean the end of the input, and nothing is asked of
/// the source behind that end, or behind a fault. The buffer grows only by what
/// is delivered.
pub fn fetch<R: ByteSource>(source: &mut R, limit: usize, out: &mut Vec<u8>) -> (r: Result<
    usize,
    SourceFault,
>)
    ensures
        final(source).backing() == old(source).backing(),
        old(source).lent() matches Some(cursor) ==> (final(source).lent() matches Some(now)
            && *final(now) == *final(cursor)),
        match r {
            Ok(n) => {
                &&& n <= limit
                &&& n <= old(source).supply().pending.len()
                &&& final(out)@ == old(out)@ + old(source).supply().pending.take(n as int)
                &&& if n < limit {
                    &&& n == old(source).supply().pending.len()
                    &&& old(source).supply().fault is None
                    &&& final(source).supply() == old(source).supply().resumed()
                } else {
                    final(source).supply() == old(source).supply().after(n as int)
                }
            },
            Err(e) => {
                &&& old(source).supply().pending.len() < limit
                &&& old(source).supply().fault == Some(e@)
                &&& final(out)@ == old(out)@ + old(source).supply().pending
                &&& final(source).supply() == old(source).supply().resumed()
            },
        },
{
    let mut got: usize = 0;
    assert(source.supply() == source.supply().after(0));
    while got < limit
        invariant
            got <= limit,
            got <= old(source).supply().pending.len(),
            out@ == old(out)@ + old(source).supply().pending.take(got as int),
            source.supply() == old(source).supply().after(got as int),
            source.backing() == old(source).backing(),
            old(source).lent() matches Some(cursor) ==> (source.lent() matches Some(now)
                && *final(now) == *final(cursor)),
        decreases limit - got,
    {
        match source.read(limit - got, out) {
            Ok(n) => {
                if n == 0 {
                    return Ok(got);
                }
                got = got + n;
            },
            Err(e) => {
                return Err(e);
            },
        }
    }
    Ok(got)
}

/// Writes until the sink has accepted all of `bytes` or refuses the next one.
///
/// Nothing is offered to the sink behind a refusal.
pub fn write_all<W: ByteSink>(sink: &mut W, bytes: &[u8]) -> (r: Result<(), String>)
    ensures
        old(sink).lent() matches Some(buffer) ==> (final(sink).lent() matches Some(now)
            && final(now)@ == final(buffer)@),
        match r {
            Ok(()) => {
                &&& old(sink).account().accepts(bytes@.len())
                &&& final(sink).account() == old(sink).account().after(bytes@)
            },
            Err(e) => {
                &&& !old(sink).account().accepts(bytes@.len())
                &&& e@ == old(sink).account().refusal
                &&& final(sink).account() == old(sink).account().filled(bytes@)
            },
        },
{
    let mut sent: usize = 0;
    assert(sink.account() == sink.account().after(bytes@.take(0)));
    while sent < bytes.len()
        invariant
            sent <= bytes.len(),
            old(sink).account().accepts(sent as nat),
            sink.account() == old(sink).account().after(bytes@.take(sent as int)),
            old(sink).lent() matches Some(buffer) ==> (sink.lent() matches Some(now)
                && final(now)@ == final(buffer)@),
        decreases bytes.len() - sent,
    {
        let rest = &bytes[sent..bytes.len()];
        match sink.write(rest) {
            Ok(n) => {
                if n == 0 {
                    return Err(String::from_str("failed to write whole buffer"));
                }
                assert(bytes@.take(sent as int) + rest@.take(n as int) == bytes@.take(sent + n));
                sent = sent + n;
            },
            Err(e) => {
                return Err(e);
            },
        }
    }
    assert(bytes@.take(sent as int) == bytes@);
    Ok(())
}

/// A source over bytes in memory.
#[derive(Debug)]
pub struct ByteCursor {
    bytes: Vec<u8>,
    position: usize,
}

impl ByteCursor {
    /// The bytes that the cursor runs over.
    pub closed spec fn contents(&self) -> Seq<u8> {
        self.bytes@
    }

    /// The number of bytes that have been delivered.
    pub closed spec fn delivered(&self) -> int {
        self.position as int
    }

    #[verifier::type_invariant]
    spec fn within(&self) -> bool {
        self.position <= self.bytes@.len()
    }

    /// A cursor at the first of the given bytes.
    pub fn new(bytes: Vec<u8>) -> (r: Self)
        ensures
            r.contents() == bytes@,
            r.delivered() == 0,
            r.supply() == Supply::of(bytes@),
    {
        ByteCursor { bytes, position: 0 }
    }

    /// The bytes that the cursor runs over.
    pub fn get_ref(&self) -> (r: &Vec<u8>)
        ensures
            r@ == self.contents(),
    {
        &self.bytes
    }

    /// The number of bytes that have been delivered.
    pub fn position(&self) -> (r: usize)
        ensures
            r == self.delivered(),
            r == self.contents().len() - self.supply().pending.len(),
    {
        proof {
            use_type_invariant(self);
        }
        self.position
    }
}

impl ByteSource for ByteCursor {
    open spec fn supply(&self) -> Supply {
        Supply::of(self.contents().skip(self.delivered()))
    }

    open spec fn backing(&self) -> Seq<u8> {
        self.contents()
    }

    fn read(&mut self, limit: usize, out: &mut Vec<u8>) -> (r: Result<usize, SourceFault>)
        ensures
            r matches Ok(n) && (n == limit || n == (*old(self)).supply().pending.len()),
    {
        proof {
            use_type_invariant(&*self);
        }
        let start: usize = self.position;
        let left: usize = self.bytes.len() - start;
        let n: usize = if limit < left {
            limit
        } else {
            left
        };
        out.extend_from_slice(&self.bytes[start..start + n]);
        self.position = start + n;
        Ok(n)
    }
}

impl ByteSource for &mut ByteCursor {
    open spec fn supply(&self) -> Supply {
        (**self).supply()
    }

    open spec fn backing(&self) -> Seq<u8> {
        (**self).backing()
    }

    open spec fn lent(&self) -> Option<&mut ByteCursor> {
        Some(*self)
    }

    fn read(&mut self, limit: usize, out: &mut Vec<u8>) -> (r: Result<usize, SourceFault>)
        ensures
            r matches Ok(n) && (n == limit || n == (*old(self)).supply().pending.len()),
    {
        (**self).read(limit, out)
    }
}

impl ByteSink for Vec<u8> {
    open spec fn account(&self) -> Account {
        Account {
            written: self@,
            room: None,
            refusal: Seq::empty(),
            later: |i: nat| Allowance { room: None, refusal: Seq::empty() },
        }
    }

    fn write(&mut self, bytes: &[u8]) -> (r: Result<usize, String>)
        ensures
            r matches Ok(n) && n == bytes@.len(),
    {
        self.extend_from_slice(bytes);
        Ok(bytes.len())
    }
}

impl ByteSink for &mut Vec<u8> {
    open spec fn account(&self) -> Account {
        (**self).account()
    }

    open spec fn lent(&self) -> Option<&mut Vec<u8>> {
        Some(*self)
    }

    fn write(&mut self, bytes: &[u8]) -> (r: Result<usize, String>)
        ensures
            r matches Ok(n) && n == bytes@.len(),
    {
        (**self).write(bytes)
    }
}

} // verus!
