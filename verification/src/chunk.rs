//! Chunked byte streams.
//!
//! A payload travels as a sequence of chunks, each a length of four bytes, the lowest first,
//! and that many bytes; a chunk of length zero ends the stream.

use vstd::prelude::*;

verus! {

/// The largest chunk that a reader accepts.
pub const CHUNK_MAX: u32 = 4_194_304;

/// The size that writers aim for.
pub const CHUNK_SIZE: usize = 1_048_576;

/// What is wrong with a stream.
#[derive(Debug, Clone, Copy, PartialEq, Eq, Structural)]
pub enum ChunkError {
    /// The bytes end before the chunk does.
    Io,
    TooLarge(u32),
}

impl ChunkError {
    /// The text of the error.
    pub fn message(&self) -> (s: String)
        ensures
            match self {
                ChunkError::Io => s@ == "chunk io: failed to fill whole buffer"@,
                ChunkError::TooLarge(n) => s@ == "chunk too large: "@ + crate::text::decimal(
                    *n as nat,
                ),
            },
    {
        match self {
            ChunkError::Io => "chunk io: failed to fill whole buffer".to_owned(),
            ChunkError::TooLarge(n) => {
                let mut s: String = "chunk too large: ".to_owned();
                crate::text::push_decimal(&mut s, *n as u64);
                s
            },
        }
    }
}

/// A place in a sequence of bytes that is being read.
#[derive(Debug)]
pub struct ByteCursor {
    pub bytes: Vec<u8>,
    pub pos: usize,
}

impl ByteCursor {
    /// What has not been read.
    pub open spec fn rest(&self) -> Seq<u8> {
        if self.pos <= self.bytes@.len() {
            self.bytes@.skip(self.pos as int)
        } else {
            Seq::empty()
        }
    }

    /// The start of a sequence of bytes.
    pub fn new(bytes: Vec<u8>) -> (c: ByteCursor)
        ensures
            c.rest() == bytes@,
    {
        let c = ByteCursor { bytes, pos: 0 };
        assert(c.rest() =~= bytes@);
        c
    }

    /// Reads at most a number of bytes.
    pub fn read_up_to(&mut self, n: usize) -> (v: Vec<u8>)
        ensures
            n <= old(self).rest().len() ==> v@ == old(self).rest().take(n as int)
                && final(self).rest() == old(self).rest().skip(n as int),
            n > old(self).rest().len() ==> v@ == old(self).rest() && final(self).rest().len() == 0,
    {
        let mut v: Vec<u8> = Vec::new();
        let start: usize = self.pos;
        let ghost rest = self.rest();
        while v.len() < n && self.pos < self.bytes.len()
            invariant
                self.bytes == old(self).bytes,
                start == old(self).pos,
                self.pos == start + v@.len(),
                v@.len() <= n,
                v@.len() > 0 ==> self.pos <= self.bytes@.len(),
                forall|i: int| 0 <= i < v@.len() ==> #[trigger] v@[i] == self.bytes@[start + i],
            decreases n - v.len(),
        {
            v.push(self.bytes[self.pos]);
            self.pos = self.pos + 1;
        }
        proof {
            if n <= rest.len() {
                assert(v@ =~= rest.take(n as int));
                assert(self.rest() =~= rest.skip(n as int));
            } else {
                assert(v@ =~= rest);
            }
        }
        v
    }

    /// Reads a number of bytes, or everything that is left and fails.
    pub fn read_exact(&mut self, n: usize) -> (r: Option<Vec<u8>>)
        ensures
            match r {
                Some(v) => {
                    &&& n <= old(self).rest().len()
                    &&& v@ == old(self).rest().take(n as int)
                    &&& final(self).rest() == old(self).rest().skip(n as int)
                },
                None => n > old(self).rest().len() && final(self).rest().len() == 0,
            },
    {
        let v: Vec<u8> = self.read_up_to(n);
        if v.len() == n {
            Some(v)
        } else {
            None
        }
    }
}

/// The four bytes of a length, the lowest first.
pub open spec fn le_bytes(n: nat) -> Seq<u8> {
    seq![
        (n % 256) as u8,
        (n / 256 % 256) as u8,
        (n / 65536 % 256) as u8,
        (n / 16777216 % 256) as u8,
    ]
}

/// The number that four bytes spell, the lowest first.
pub open spec fn le_value(b: Seq<u8>) -> nat {
    (b[0] + 256 * b[1] + 65536 * b[2] + 16777216 * b[3]) as nat
}

/// A length below the range of four bytes is read back as it was written.
pub proof fn le_round_trip(n: nat)
    requires
        n <= u32::MAX,
    ensures
        le_value(le_bytes(n)) == n,
        le_bytes(n).len() == 4,
{
    assert(n == n % 256 + 256 * (n / 256 % 256) + 65536 * (n / 65536 % 256) + 16777216 * (n
        / 16777216 % 256)) by {
        assert(n / 65536 == (n / 256) / 256);
        assert(n / 16777216 == (n / 65536) / 256);
        assert(n / 16777216 < 256);
    }
}

/// Appends a length.
pub fn push_le(w: &mut Vec<u8>, n: u32)
    ensures
        final(w)@ == old(w)@ + le_bytes(n as nat),
{
    w.push((n % 256) as u8);
    w.push((n / 256 % 256) as u8);
    w.push((n / 65536 % 256) as u8);
    w.push((n / 16777216 % 256) as u8);
    assert(w@ =~= old(w)@ + le_bytes(n as nat));
}

/// The number that four bytes spell.
pub fn le_number(b: &Vec<u8>) -> (n: u32)
    requires
        b@.len() == 4,
    ensures
        n == le_value(b@),
{
    let b0: u32 = b[0] as u32;
    let b1: u32 = b[1] as u32;
    let b2: u32 = b[2] as u32;
    let b3: u32 = b[3] as u32;
    b0 + 256 * b1 + 65536 * b2 + 16777216 * b3
}

/// Appends bytes.
pub fn push_all(w: &mut Vec<u8>, bytes: &[u8])
    ensures
        final(w)@ == old(w)@ + bytes@,
{
    let mut i: usize = 0;
    assert(w@ =~= old(w)@ + bytes@.take(0));
    while i < bytes.len()
        invariant
            i <= bytes.len(),
            w@ == old(w)@ + bytes@.take(i as int),
        decreases bytes.len() - i,
    {
        w.push(bytes[i]);
        assert(w@ =~= old(w)@ + bytes@.take(i + 1));
        i = i + 1;
    }
    assert(bytes@.take(i as int) =~= bytes@);
}

/// A chunk on the wire.
pub open spec fn chunk_bytes(payload: Seq<u8>) -> Seq<u8> {
    le_bytes(payload.len()) + payload
}

/// Writes one chunk. The empty chunk is the end of the stream and is written by [`finish`].
pub fn write_chunk(w: &mut Vec<u8>, bytes: &[u8]) -> (r: Result<(), ChunkError>)
    requires
        bytes@.len() > 0,
    ensures
        match r {
            Ok(_) => bytes@.len() <= CHUNK_MAX && final(w)@ == old(w)@ + chunk_bytes(bytes@),
            Err(e) => {
                &&& bytes@.len() > CHUNK_MAX
                &&& e == ChunkError::TooLarge(bytes@.len() as u32)
                &&& final(w)@ == old(w)@
            },
        },
{
    if bytes.len() > CHUNK_MAX as usize {
        return Err(ChunkError::TooLarge(#[verifier::truncate] (bytes.len() as u32)));
    }
    push_le(w, bytes.len() as u32);
    push_all(w, bytes);
    assert(w@ =~= old(w)@ + chunk_bytes(bytes@));
    Ok(())
}

/// Ends a stream.
pub fn finish(w: &mut Vec<u8>) -> (r: Result<(), ChunkError>)
    ensures
        r is Ok,
        final(w)@ == old(w)@ + le_bytes(0),
{
    push_le(w, 0);
    Ok(())
}

/// What a length that has been read announces.
#[derive(Debug, Clone, Copy, PartialEq, Eq, Structural)]
pub enum Announced {
    End,
    Bytes(u32),
    TooLarge(u32),
}

/// What a length announces.
pub open spec fn announced(n: nat) -> Announced {
    if n == 0 {
        Announced::End
    } else if n > CHUNK_MAX {
        Announced::TooLarge(n as u32)
    } else {
        Announced::Bytes(n as u32)
    }
}

/// Reads the announcement of a chunk.
pub fn chunk_header(b: &Vec<u8>) -> (a: Announced)
    requires
        b@.len() == 4,
    ensures
        a == announced(le_value(b@)),
{
    let len: u32 = le_number(b);
    if len == 0 {
        Announced::End
    } else if len > CHUNK_MAX {
        Announced::TooLarge(len)
    } else {
        Announced::Bytes(len)
    }
}

/// What stands next in a stream: the end, a chunk, or a fault; and what follows it.
pub open spec fn next_chunk(s: Seq<u8>) -> Result<(Option<Seq<u8>>, Seq<u8>), ChunkError> {
    if s.len() < 4 {
        Err(ChunkError::Io)
    } else {
        let rest = s.skip(4);
        match announced(le_value(s.take(4))) {
            Announced::End => Ok((None, rest)),
            Announced::TooLarge(n) => Err(ChunkError::TooLarge(n)),
            Announced::Bytes(n) => if rest.len() < n {
                Err(ChunkError::Io)
            } else {
                Ok((Some(rest.take(n as int)), rest.skip(n as int)))
            },
        }
    }
}

/// What is left to read after a fault: what follows a length that is too large, and nothing where
/// the bytes ended.
pub open spec fn after_fault(s: Seq<u8>, e: ChunkError) -> Seq<u8> {
    match e {
        ChunkError::TooLarge(_) => s.skip(4),
        ChunkError::Io => Seq::empty(),
    }
}

/// Reads the next chunk; nothing where the stream ends.
pub fn read_chunk(r: &mut ByteCursor) -> (c: Result<Option<Vec<u8>>, ChunkError>)
    ensures
        match c {
            Ok(None) => next_chunk(old(r).rest()) == Ok::<(Option<Seq<u8>>, Seq<u8>), ChunkError>(
                (None, final(r).rest()),
            ),
            Ok(Some(v)) => next_chunk(old(r).rest()) == Ok::<
                (Option<Seq<u8>>, Seq<u8>),
                ChunkError,
            >((Some(v@), final(r).rest())),
            Err(e) => {
                &&& next_chunk(old(r).rest()) == Err::<(Option<Seq<u8>>, Seq<u8>), ChunkError>(e)
                &&& final(r).rest() == after_fault(old(r).rest(), e)
            },
        },
        final(r).rest().len() <= old(r).rest().len(),
{
    let head: Vec<u8> = match r.read_exact(4) {
        None => {
            return Err(ChunkError::Io);
        },
        Some(h) => h,
    };
    match chunk_header(&head) {
        Announced::End => Ok(None),
        Announced::TooLarge(n) => Err(ChunkError::TooLarge(n)),
        Announced::Bytes(n) => match r.read_exact(n as usize) {
            None => Err(ChunkError::Io),
            Some(v) => Ok(Some(v)),
        },
    }
}

/// A payload as a stream: chunks of the size that writers aim for, and the end.
pub open spec fn stream_of(payload: Seq<u8>) -> Seq<u8>
    decreases payload.len(),
{
    if payload.len() == 0 {
        le_bytes(0)
    } else if payload.len() <= CHUNK_SIZE {
        chunk_bytes(payload) + le_bytes(0)
    } else {
        chunk_bytes(payload.take(CHUNK_SIZE as int)) + stream_of(payload.skip(CHUNK_SIZE as int))
    }
}

/// Writes everything that is left to read as a stream, the end included. Returns the number
/// of bytes of the payload.
pub fn copy_into_chunks(r: &mut ByteCursor, w: &mut Vec<u8>) -> (n: Result<u64, ChunkError>)
    ensures
        n == Ok::<u64, ChunkError>(old(r).rest().len() as u64),
        final(w)@ == old(w)@ + stream_of(old(r).rest()),
        final(r).rest().len() == 0,
{
    let mut total: u64 = 0;
    let ghost all = r.rest();
    let ghost w0 = w@;
    let size: usize = r.bytes.len();
    assert(all.len() <= size);
    loop
        invariant
            all == old(r).rest(),
            w0 == old(w)@,
            all.len() <= usize::MAX,
            total + r.rest().len() == all.len(),
            w@ + stream_of(r.rest()) == w0 + stream_of(all),
        ensures
            r.rest().len() == 0,
            total == all.len(),
            w@ + stream_of(r.rest()) == w0 + stream_of(all),
        decreases r.rest().len(),
    {
        let ghost rest = r.rest();
        let ghost w1 = w@;
        let buf: Vec<u8> = r.read_up_to(CHUNK_SIZE);
        if buf.len() == 0 {
            break;
        }
        match write_chunk(w, buf.as_slice()) {
            Err(e) => {
                assert(false);
                return Err(e);
            },
            Ok(_) => {},
        }
        total = total + buf.len() as u64;
        proof {
            if rest.len() <= CHUNK_SIZE {
                assert(buf@ =~= rest);
                assert(r.rest().len() == 0);
                assert(w@ + stream_of(r.rest()) =~= w1 + stream_of(rest));
            } else {
                assert(w@ + stream_of(r.rest()) =~= w1 + stream_of(rest));
            }
        }
    }
    let f = finish(w);
    assert(w@ =~= w0 + stream_of(all));
    Ok(total)
}

/// What a stream carries: the payload and what follows the stream, or a fault and the payload
/// up to it.
pub open spec fn carried(s: Seq<u8>) -> (Seq<u8>, Result<Seq<u8>, ChunkError>)
    decreases s.len(),
{
    match next_chunk(s) {
        Err(e) => (Seq::empty(), Err(e)),
        Ok((None, rest)) => (Seq::empty(), Ok(rest)),
        Ok((Some(c), rest)) => {
            let more = carried(rest);
            (c + more.0, more.1)
        },
    }
}

/// What is left to read after the fault of a stream.
pub open spec fn left_by_fault(s: Seq<u8>) -> Seq<u8>
    decreases s.len(),
{
    match next_chunk(s) {
        Err(e) => after_fault(s, e),
        Ok((None, rest)) => rest,
        Ok((Some(_), rest)) => left_by_fault(rest),
    }
}

/// Reads a stream to its end. Returns the number of bytes of the payload.
pub fn copy_from_chunks(r: &mut ByteCursor, w: &mut Vec<u8>) -> (n: Result<u64, ChunkError>)
    ensures
        final(w)@ == old(w)@ + carried(old(r).rest()).0,
        match n {
            Ok(total) => {
                &&& total == carried(old(r).rest()).0.len()
                &&& carried(old(r).rest()).1 == Ok::<Seq<u8>, ChunkError>(final(r).rest())
            },
            Err(e) => {
                &&& carried(old(r).rest()).1 == Err::<Seq<u8>, ChunkError>(e)
                &&& final(r).rest() == left_by_fault(old(r).rest())
            },
        },
{
    let mut total: u64 = 0;
    let ghost all = r.rest();
    let ghost w0 = w@;
    let size: usize = r.bytes.len();
    assert(all.len() <= size);
    loop
        invariant
            all == old(r).rest(),
            w0 == old(w)@,
            all.len() <= usize::MAX,
            total + r.rest().len() <= all.len(),
            w@ + carried(r.rest()).0 == w0 + carried(all).0,
            total + carried(r.rest()).0.len() == carried(all).0.len(),
            carried(r.rest()).1 == carried(all).1,
            left_by_fault(r.rest()) == left_by_fault(all),
        decreases r.rest().len(),
    {
        let ghost rest = r.rest();
        let ghost w1 = w@;
        match read_chunk(r) {
            Err(e) => {
                assert(w@ =~= w0 + carried(all).0);
                return Err(e);
            },
            Ok(None) => {
                assert(w@ =~= w0 + carried(all).0);
                return Ok(total);
            },
            Ok(Some(chunk)) => {
                push_all(w, chunk.as_slice());
                proof {
                    assert(w@ + carried(r.rest()).0 =~= w1 + carried(rest).0);
                }
                total = total + chunk.len() as u64;
            },
        }
    }
}

/// What is written as a stream is read back as it was, and the stream ends where it ends.
pub proof fn stream_round_trip(payload: Seq<u8>, after: Seq<u8>)
    ensures
        carried(stream_of(payload) + after) == (payload, Ok::<Seq<u8>, ChunkError>(after)),
    decreases payload.len(),
{
    if payload.len() == 0 {
        end_is_read(after);
        assert(carried(stream_of(payload) + after).0 =~= payload);
    } else if payload.len() <= CHUNK_SIZE {
        grouped(chunk_bytes(payload), le_bytes(0), after);
        chunk_is_read(payload, le_bytes(0) + after);
        end_is_read(after);
        assert(payload + Seq::<u8>::empty() =~= payload);
    } else {
        let first = payload.take(CHUNK_SIZE as int);
        let more = payload.skip(CHUNK_SIZE as int);
        grouped(chunk_bytes(first), stream_of(more), after);
        chunk_is_read(first, stream_of(more) + after);
        stream_round_trip(more, after);
        assert(first + more =~= payload);
    }
}

proof fn grouped(a: Seq<u8>, b: Seq<u8>, c: Seq<u8>)
    ensures
        (a + b) + c == a + (b + c),
{
    assert((a + b) + c =~= a + (b + c));
}

proof fn end_is_read(after: Seq<u8>)
    ensures
        carried(le_bytes(0) + after) == (Seq::<u8>::empty(), Ok::<Seq<u8>, ChunkError>(after)),
{
    let s = le_bytes(0) + after;
    le_round_trip(0);
    assert(s.take(4) =~= le_bytes(0));
    assert(s.skip(4) =~= after);
}

/// A chunk of a legal size is read as it was written.
pub proof fn chunk_is_read(payload: Seq<u8>, after: Seq<u8>)
    requires
        0 < payload.len() <= CHUNK_MAX,
    ensures
        next_chunk(chunk_bytes(payload) + after) == Ok::<
            (Option<Seq<u8>>, Seq<u8>),
            ChunkError,
        >((Some(payload), after)),
        carried(chunk_bytes(payload) + after) == (
            payload + carried(after).0,
            carried(after).1,
        ),
{
    let s = chunk_bytes(payload) + after;
    le_round_trip(payload.len());
    assert(s.take(4) =~= le_bytes(payload.len()));
    assert(s.skip(4) =~= payload + after);
    assert(s.skip(4).take(payload.len() as int) =~= payload);
    assert(s.skip(4).skip(payload.len() as int) =~= after);
}

/// A stream that is read piece by piece, a chunk at a time.
#[derive(Debug)]
pub struct ChunkReader {
    inner: ByteCursor,
    buf: Vec<u8>,
    pos: usize,
    done: bool,
}

impl ChunkReader {
    #[verifier::type_invariant]
    spec fn within(&self) -> bool {
        self.pos <= self.buf@.len()
    }

    /// What is left of the chunk that was read last.
    pub closed spec fn buffered(&self) -> Seq<u8> {
        self.buf@.skip(self.pos as int)
    }

    /// What stands after that chunk.
    pub closed spec fn unread(&self) -> Seq<u8> {
        self.inner.rest()
    }

    /// Whether the end of the stream has been read.
    pub closed spec fn ended(&self) -> bool {
        self.done
    }

    /// What the reader will still give out, and the fault that it will meet, if any.
    pub open spec fn ahead(&self) -> (Seq<u8>, Option<ChunkError>) {
        if self.ended() {
            (self.buffered(), None)
        } else {
            let c = carried(self.unread());
            (
                self.buffered() + c.0,
                match c.1 {
                    Ok(_) => None,
                    Err(e) => Some(e),
                },
            )
        }
    }

    /// A reader at the start of a stream.
    pub fn new(inner: ByteCursor) -> (r: Self)
        ensures
            r.buffered().len() == 0,
            r.unread() == inner.rest(),
            !r.ended(),
    {
        ChunkReader { inner, buf: Vec::new(), pos: 0, done: false }
    }

    /// Where the stream ends in the bytes below the reader: what follows the end, or the fault that
    /// comes before it.
    pub open spec fn beyond(&self) -> Result<Seq<u8>, ChunkError> {
        if self.ended() {
            Ok(self.unread())
        } else {
            carried(self.unread()).1
        }
    }

    /// Reads at most a number of bytes; none at the end of the stream. Nothing behind the end of
    /// the stream is touched, and once nothing was given out nothing is read any more.
    pub fn read(&mut self, n: usize) -> (v: Result<Vec<u8>, ChunkError>)
        ensures
            v is Ok ==> reads_on(*old(self), *final(self)),
            old(self).buffered().len() > 0 ==> final(self).ended() == old(self).ended()
                && final(self).unread() == old(self).unread(),
            match v {
                Ok(out) => {
                    &&& old(self).ahead() == (
                        out@ + final(self).ahead().0,
                        final(self).ahead().1,
                    )
                    &&& out@.len() <= n
                    &&& out@.len() == 0 && n > 0 ==> final(self).ended()
                    &&& out@.len() == 0 && n > 0 ==> final(self).buffered().len() == 0
                },
                Err(e) => {
                    &&& old(self).ahead() == (Seq::<u8>::empty(), Some(e))
                    &&& !final(self).ended()
                    &&& final(self).buffered().len() == 0
                    &&& final(self).unread() == after_fault(old(self).unread(), e)
                },
            },
    {
        proof {
            use_type_invariant(&*self);
        }
        let ghost before = self.ahead();
        if self.pos >= self.buf.len() {
            assert(self.buffered() =~= Seq::<u8>::empty());
            if self.done {
                assert(before.0 =~= Seq::<u8>::empty() + self.ahead().0);
                return Ok(Vec::new());
            }
            let mut inner = ByteCursor { bytes: Vec::new(), pos: 0 };
            std::mem::swap(&mut inner, &mut self.inner);
            let ghost rest = inner.rest();
            let got = read_chunk(&mut inner);
            self.inner = inner;
            match got {
                Err(e) => {
                    assert(before.0 =~= Seq::<u8>::empty());
                    return Err(e);
                },
                Ok(None) => {
                    self.done = true;
                    assert(self.buffered() =~= Seq::<u8>::empty());
                    assert(before.0 =~= Seq::<u8>::empty() + self.ahead().0);
                    return Ok(Vec::new());
                },
                Ok(Some(chunk)) => {
                    let ghost c = chunk@;
                    self.pos = 0;
                    self.buf = chunk;
                    assert(self.buffered() =~= c);
                    assert(self.ahead().0 =~= before.0);
                },
            }
        }
        let ghost mid = self.ahead();
        let held: usize = self.buf.len();
        let left: usize = held - self.pos;
        let take: usize = if left < n {
            left
        } else {
            n
        };
        let mut out: Vec<u8> = Vec::new();
        let start: usize = self.pos;
        let mut i: usize = 0;
        while i < take
            invariant
                i <= take,
                start + take <= held == self.buf@.len(),
                out@ == self.buf@.subrange(start as int, start + i),
            decreases take - i,
        {
            out.push(self.buf[start + i]);
            assert(self.buf@.subrange(start as int, start + i + 1) =~= self.buf@.subrange(
                start as int,
                start + i,
            ).push(self.buf@[start + i]));
            i = i + 1;
        }
        let ghost before_move = self.buffered();
        self.pos = start + take;
        assert(before_move =~= out@ + self.buffered());
        assert(mid.0 =~= out@ + self.ahead().0);
        Ok(out)
    }

    /// Whether nothing can be given out until more of the stream has come.
    pub fn wants_more(&self) -> (b: bool)
        ensures
            b == (!self.ended() && self.buffered().len() == 0 && self.unread().len() == 0),
    {
        proof {
            use_type_invariant(self);
        }
        !self.done && self.pos == self.buf.len() && self.inner.pos >= self.inner.bytes.len()
    }

    /// Whether the end of the stream has been read.
    pub fn at_end(&self) -> (b: bool)
        ensures
            b == self.ended(),
    {
        self.done
    }

    /// Takes in bytes that follow those that are there.
    pub fn feed(&mut self, bytes: &[u8])
        ensures
            final(self).unread() == old(self).unread() + bytes@,
            final(self).buffered() == old(self).buffered(),
            final(self).ended() == old(self).ended(),
    {
        proof {
            use_type_invariant(&*self);
        }
        let mut inner = ByteCursor { bytes: Vec::new(), pos: 0 };
        std::mem::swap(&mut inner, &mut self.inner);
        let held: usize = inner.bytes.len();
        let mut rest: Vec<u8> = inner.read_up_to(held);
        push_all(&mut rest, bytes);
        self.inner = ByteCursor::new(rest);
    }

    /// The bytes below the reader, at the place where it stands.
    pub fn into_inner(self) -> (c: ByteCursor)
        ensures
            c.rest() == self.unread(),
    {
        self.inner
    }

    /// Reads the rest of the stream and drops it. What is left below the reader is what follows the
    /// stream, also where its end had been read before.
    pub fn drain(&mut self) -> (r: Result<(), ChunkError>)
        ensures
            final(self).buffered() == old(self).buffered(),
            old(self).ended() ==> final(self).unread() == old(self).unread(),
            match r {
                Ok(_) => drained(*old(self), *final(self)),
                Err(e) => {
                    &&& !old(self).ended()
                    &&& !final(self).ended()
                    &&& old(self).beyond() == Err::<Seq<u8>, ChunkError>(e)
                    &&& final(self).unread() == left_by_fault(old(self).unread())
                },
            },
    {
        proof {
            use_type_invariant(&*self);
        }
        if self.done {
            return Ok(());
        }
        let mut inner = ByteCursor { bytes: Vec::new(), pos: 0 };
        std::mem::swap(&mut inner, &mut self.inner);
        let ghost all = inner.rest();
        let mut fault: Option<ChunkError> = None;
        let mut done: bool = false;
        while !done && fault.is_none()
            invariant
                !done && fault is None ==> carried(inner.rest()).1 == carried(all).1
                    && left_by_fault(inner.rest()) == left_by_fault(all),
                done ==> fault is None && carried(all).1 == Ok::<Seq<u8>, ChunkError>(inner.rest()),
                fault matches Some(e) ==> carried(all).1 == Err::<Seq<u8>, ChunkError>(e)
                    && inner.rest() == left_by_fault(all),
            decreases
                    inner.rest().len() + (if done || fault is Some {
                        0int
                    } else {
                        1int
                    }),
        {
            match read_chunk(&mut inner) {
                Err(e) => {
                    fault = Some(e);
                },
                Ok(None) => {
                    done = true;
                },
                Ok(Some(_)) => {},
            }
        }
        self.inner = inner;
        match fault {
            Some(e) => Err(e),
            None => {
                self.done = true;
                Ok(())
            },
        }
    }
}

/// Whether a reader goes on from another within the same stream: it ends where the other ends, and
/// once the end was read nothing more is.
pub open spec fn reads_on(a: ChunkReader, b: ChunkReader) -> bool {
    &&& b.beyond() == a.beyond()
    &&& a.ended() ==> b.ended() && b.unread() == a.unread()
}

/// Whether a reader was brought to the end of its stream.
pub open spec fn drained(a: ChunkReader, b: ChunkReader) -> bool {
    &&& b.ended()
    &&& a.beyond() == Ok::<Seq<u8>, ChunkError>(b.unread())
}

/// A reader that has ended and given everything out gives nothing out and takes nothing in, however
/// often it is read.
pub proof fn the_end_is_final(a: ChunkReader, b: ChunkReader, out: Seq<u8>)
    requires
        a.ended(),
        a.buffered().len() == 0,
        reads_on(a, b),
        a.ahead() == (out + b.ahead().0, b.ahead().1),
    ensures
        out.len() == 0,
        b.ended(),
        b.buffered().len() == 0,
        b.unread() == a.unread(),
        a.ahead().1 is None,
{
    assert((out + b.ahead().0).len() == 0);
}

/// A drain finds its way back: after any number of reads of a stream, what it leaves is exactly
/// what follows the stream. A second one leaves it there.
pub proof fn drain_resynchronises(
    states: Seq<ChunkReader>,
    end: ChunkReader,
    again: ChunkReader,
    after: Seq<u8>,
)
    requires
        states.len() > 0,
        !states[0].ended(),
        carried(states[0].unread()).1 == Ok::<Seq<u8>, ChunkError>(after),
        forall|i: int|
            0 <= i < states.len() - 1 ==> reads_on(#[trigger] states[i], states[i + 1]),
        drained(states.last(), end),
        drained(end, again),
    ensures
        end.unread() == after,
        again.unread() == after,
    decreases states.len(),
{
    if states.len() > 1 {
        let first = states.drop_last();
        let n = states.len() - 2;
        assert(reads_on(states[n], states[n + 1]));
        assert(first.last() == states[n]);
        assert forall|i: int| 0 <= i < first.len() - 1 implies reads_on(
            #[trigger] first[i],
            first[i + 1],
        ) by {
            assert(reads_on(states[i], states[i + 1]));
        }
        drain_resynchronises(first, end, again, after);
    }
}

} // verus!
