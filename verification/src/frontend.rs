//! The connection front end: line framing over the receive buffer, the
//! protocol state machine, the turns of the task that serves a connection,
//! and the state machines behind the acceptor and the TLS stream.

use vstd::prelude::*;
use crate::text::lemma_position;
use crate::text::lemma_position_bounds;
use crate::text::position;

pub mod acceptor;
pub mod client;
pub mod reply;
pub mod state;
pub mod stream;

verus! {

/// How many bytes a connection holds back while it waits for a line feed.
pub const CAPACITY: usize = 4096;

/// The byte that ends a line.
pub const LINE_FEED: u8 = 10;

/// The lines that a byte stream completes, without their line feeds, and the
/// bytes after the last line feed.
pub open spec fn frame(bytes: Seq<u8>) -> (Seq<Seq<u8>>, Seq<u8>)
    decreases bytes.len(),
{
    let p = position(bytes, LINE_FEED);
    if 0 <= p < bytes.len() {
        let (lines, rest) = frame(bytes.skip(p + 1));
        (seq![bytes.take(p)] + lines, rest)
    } else {
        (seq![], bytes)
    }
}

/// What a connection has seen after a run of reads: the lines handed on so
/// far and the bytes still held back, starting from `held` with no line
/// handed on.
pub open spec fn feed_all(held: Seq<u8>, chunks: Seq<Seq<u8>>) -> (Seq<Seq<u8>>, Seq<u8>)
    decreases chunks.len(),
{
    if chunks.len() == 0 {
        (seq![], held)
    } else {
        let (lines, rest) = feed_all(held, chunks.drop_last());
        let (more, left) = frame(rest + chunks.last());
        (lines + more, left)
    }
}

/// All chunks of a run of reads, one after the other.
pub open spec fn joined(chunks: Seq<Seq<u8>>) -> Seq<u8>
    decreases chunks.len(),
{
    if chunks.len() == 0 {
        seq![]
    } else {
        joined(chunks.drop_last()) + chunks.last()
    }
}

/// Bytes without a line feed complete no line.
pub proof fn lemma_frame_open(bytes: Seq<u8>)
    requires
        !bytes.contains(LINE_FEED),
    ensures
        frame(bytes) == (Seq::<Seq<u8>>::empty(), bytes),
{
    lemma_position_bounds(bytes, LINE_FEED);
    let p = position(bytes, LINE_FEED);
    if p < bytes.len() {
        assert(bytes[p] == LINE_FEED);
    }
}

/// Framing a stream in two parts gives what framing it at once gives: the
/// lines of the first part, then those of what it held back followed by the
/// second part.
pub proof fn lemma_frame_append(a: Seq<u8>, b: Seq<u8>)
    ensures
        frame(a + b).0 == frame(a).0 + frame(frame(a).1 + b).0,
        frame(a + b).1 == frame(frame(a).1 + b).1,
    decreases a.len(),
{
    lemma_position_bounds(a, LINE_FEED);
    let p = position(a, LINE_FEED);
    if 0 <= p < a.len() {
        assert forall|j: int| 0 <= j < p implies (a + b)[j] != LINE_FEED by {
            assert((a + b)[j] == a[j]);
        }
        assert((a + b)[p] == a[p]);
        lemma_position(a + b, LINE_FEED, p);
        assert((a + b).skip(p + 1) == a.skip(p + 1) + b);
        assert((a + b).take(p) == a.take(p));
        lemma_frame_append(a.skip(p + 1), b);
        let tail = frame(a.skip(p + 1));
        assert(seq![a.take(p)] + (tail.0 + frame(tail.1 + b).0) == (seq![a.take(p)] + tail.0)
            + frame(tail.1 + b).0);
    } else {
        assert(frame(a).0 + frame(a + b).0 == frame(a + b).0);
    }
}

/// Line framing loses nothing: however a byte stream is cut into reads, the
/// lines handed on are, in order, the lines of the whole stream, and what is
/// held back is what follows its last line feed.
pub proof fn lemma_framing_lossless(chunks: Seq<Seq<u8>>)
    ensures
        feed_all(Seq::<u8>::empty(), chunks) == frame(joined(chunks)),
    decreases chunks.len(),
{
    let empty = Seq::<u8>::empty();
    if chunks.len() == 0 {
        assert(frame(empty) == (Seq::<Seq<u8>>::empty(), empty)) by {
            lemma_frame_open(empty);
        }
    } else {
        lemma_framing_lossless(chunks.drop_last());
        lemma_frame_append(joined(chunks.drop_last()), chunks.last());
    }
}

/// The receive buffer of one connection: the bytes read since the last line
/// feed.
pub struct LineBuffer {
    held: Vec<u8>,
}

impl LineBuffer {
    #[verifier::type_invariant]
    spec fn within_capacity(self) -> bool {
        self.held@.len() <= CAPACITY && !self.held@.contains(LINE_FEED)
    }

    /// The bytes held back.
    pub closed spec fn pending(&self) -> Seq<u8> {
        self.held@
    }

    /// An empty buffer.
    pub fn new() -> (buffer: LineBuffer)
        ensures
            buffer.pending() == Seq::<u8>::empty(),
    {
        LineBuffer { held: Vec::new() }
    }

    /// How many more bytes fit. Never more than `CAPACITY`; zero means that a
    /// line has outgrown the buffer.
    pub fn free(&self) -> (n: usize)
        ensures
            n == CAPACITY - self.pending().len(),
            !self.pending().contains(LINE_FEED),
    {
        proof {
            use_type_invariant(self);
        }
        CAPACITY - self.held.len()
    }

    /// Whether a line has outgrown the buffer: it is full and holds no line
    /// feed, so no read can complete the line. The connection is to be
    /// closed with `BadFormat`.
    pub fn is_full(&self) -> (full: bool)
        ensures
            full == (self.pending().len() == CAPACITY),
    {
        proof {
            use_type_invariant(self);
        }
        self.held.len() == CAPACITY
    }

    /// Takes in what one read returned and hands on the lines that it
    /// completes, in order and without their line feeds. What follows the
    /// last line feed is held back for the next read.
    pub fn feed(&mut self, chunk: &[u8]) -> (lines: Vec<Vec<u8>>)
        requires
            old(self).pending().len() + chunk@.len() <= CAPACITY,
        ensures
            lines@.map_values(|l: Vec<u8>| l@) == frame(old(self).pending() + chunk@).0,
            final(self).pending() == frame(old(self).pending() + chunk@).1,
    {
        proof {
            use_type_invariant(&*self);
        }
        let ghost stream = self.held@ + chunk@;
        let mut lines: Vec<Vec<u8>> = Vec::new();
        let mut line: Vec<u8> = Vec::new();
        std::mem::swap(&mut self.held, &mut line);
        let mut start: usize = 0;
        let mut i: usize = 0;
        assert(chunk@.subrange(0, chunk@.len() as int) == chunk@);
        while i < chunk.len()
            invariant
                i <= chunk.len(),
                start <= i,
                self.held@.len() == 0,
                line@.len() + chunk@.len() - start <= CAPACITY,
                !line@.contains(LINE_FEED),
                start > 0 ==> line@.len() == 0,
                forall|j: int| start <= j < i ==> chunk@[j] != LINE_FEED,
                lines@.map_values(|l: Vec<u8>| l@) + frame(
                    line@ + chunk@.subrange(start as int, chunk@.len() as int),
                ).0 == frame(stream).0,
                frame(line@ + chunk@.subrange(start as int, chunk@.len() as int)).1 == frame(
                    stream,
                ).1,
            decreases chunk.len() - i,
        {
            if chunk[i] == LINE_FEED {
                let mut k: usize = start;
                let ghost head = line@;
                while k < i
                    invariant
                        start <= k <= i <= chunk.len(),
                        line@ == head + chunk@.subrange(start as int, k as int),
                    decreases i - k,
                {
                    line.push(chunk[k]);
                    k += 1;
                }
                proof {
                    let rest = head + chunk@.subrange(start as int, chunk@.len() as int);
                    assert forall|j: int| 0 <= j < line@.len() implies rest[j] != LINE_FEED by {
                        if j < head.len() {
                            assert(head.contains(rest[j]));
                        } else {
                            assert(rest[j] == chunk@[start + j - head.len()]);
                        }
                    }
                    assert(rest[line@.len() as int] == chunk@[i as int]);
                    lemma_position(rest, LINE_FEED, line@.len() as int);
                    assert(rest.take(line@.len() as int) == line@);
                    assert(rest.skip(line@.len() as int + 1) == chunk@.subrange(
                        i + 1,
                        chunk@.len() as int,
                    ));
                    assert(Seq::<u8>::empty() + chunk@.subrange(i + 1, chunk@.len() as int)
                        == chunk@.subrange(i + 1, chunk@.len() as int));
                }
                let ghost before = lines@.map_values(|l: Vec<u8>| l@);
                let ghost done = line@;
                let mut whole: Vec<u8> = Vec::new();
                std::mem::swap(&mut line, &mut whole);
                lines.push(whole);
                proof {
                    assert(lines@.map_values(|l: Vec<u8>| l@) == before.push(done));
                    let tail = frame(chunk@.subrange(i + 1, chunk@.len() as int)).0;
                    assert(before.push(done) + tail == before + (seq![done] + tail));
                    assert(!line@.contains(LINE_FEED));
                }
                start = i + 1;
            }
            i += 1;
        }
        let mut k: usize = start;
        let ghost head = line@;
        while k < chunk.len()
            invariant
                start <= k <= chunk.len(),
                line@ == head + chunk@.subrange(start as int, k as int),
                head.len() + chunk@.len() - start <= CAPACITY,
            decreases chunk.len() - k,
        {
            line.push(chunk[k]);
            k += 1;
        }
        proof {
            assert forall|j: int| 0 <= j < line@.len() implies line@[j] != LINE_FEED by {
                if j < head.len() {
                    assert(head.contains(line@[j]));
                } else {
                    assert(line@[j] == chunk@[start + j - head.len()]);
                }
            }
            lemma_frame_open(line@);
        }
        self.held = line;
        lines
    }
}

/// The peer of a connection has an address that is not IPv4.
#[derive(Debug, PartialEq, Eq)]
pub struct UnsupportenAddr;

/// The octets of a peer's address; `v4` holds them if the address is an IPv4
/// address. A peer with any other address is refused.
pub fn peer_octets(v4: Option<[u8; 4]>) -> (r: Result<[u8; 4], UnsupportenAddr>)
    ensures
        r == match v4 {
            Some(octets) => Ok::<[u8; 4], UnsupportenAddr>(octets),
            None => Err::<[u8; 4], UnsupportenAddr>(UnsupportenAddr),
        },
{
    match v4 {
        Some(octets) => Ok(octets),
        None => Err(UnsupportenAddr),
    }
}

impl UnsupportenAddr {
    /// What to tell the operator.
    pub fn message(&self) -> (text: &'static str)
        ensures
            text@ == "IPv6 is not supported yet"@,
    {
        "IPv6 is not supported yet"
    }
}

} // verus!
