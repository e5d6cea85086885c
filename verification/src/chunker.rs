//! Streaming chunking driver and the common cut-point interface.
//!
//! The driver owns the scan buffer, one strategy and the downstream sink.
//! `write` appends producer bytes and emits every chunk the strategy cuts;
//! `flush` emits the trailing bytes as a final short chunk.  The driver
//! maintains the conservation invariant: the concatenation of emitted chunks
//! followed by the bytes still pending in the buffer equals exactly the
//! bytes accepted from the producer.

use core::ops::Range;
use vstd::prelude::*;

use crate::buffer::{BUFFER_SIZE, ChunkerBuf};
use crate::fast::FastChunker;
use crate::leap::LeapChunker;
use crate::rabin::RabinChunker;
use crate::sink::ChunkSink;
use crate::supercdc::SuperChunker;
use crate::ultra::UltraChunker;

verus! {

/// Largest chunk any strategy may emit; the driver compacts the buffer so
/// that a whole chunk of this size always fits behind the scan cursor.
pub const MAX_SIZE: usize = 1024 * 64;

/// The cut-point interface every chunking strategy implements.
///
/// A strategy scans the unexamined bytes `[pos, clen)` of the buffer.  When
/// it finds a cut it advances `pos` to the cut point, records the chunk
/// length in `chunk_len`, and returns the chunk's range; the driver then
/// emits those bytes and resets `chunk_len`.  When no cut can be decided from
/// the bytes at hand it returns `None`, possibly after advancing `pos` and
/// `chunk_len` toward a future cut.
pub trait Chunking: Sized + Send + Sync {
    /// The strategy's internal state is well formed.
    spec fn wf(&self) -> bool;

    /// Joint invariant between the strategy and the in-flight chunk length;
    /// the driver re-establishes it with `chunk_len == 0` after each emitted
    /// chunk.
    spec fn inv(&self, chunk_len: int) -> bool;

    /// Which algorithm the strategy implements; fixed for its lifetime.
    spec fn tag(&self) -> ChunkingAlgorithm;

    /// Smallest chunk the strategy cuts on its own.
    spec fn min_chunk(&self) -> int;

    /// Largest chunk the strategy cuts.
    spec fn max_chunk(&self) -> int;

    /// The size bounds every strategy guarantees.
    proof fn properties(&self)
        ensures
            1 <= self.min_chunk(),
            self.min_chunk() <= self.max_chunk(),
            self.max_chunk() <= MAX_SIZE as int;

    /// Abandons any scan in progress, for a driver that discards its
    /// in-flight chunk.
    fn reset(&mut self)
        requires
            old(self).wf(),
        ensures
            final(self).wf(),
            final(self).inv(0),
            final(self).tag() == old(self).tag(),
            final(self).min_chunk() == old(self).min_chunk(),
            final(self).max_chunk() == old(self).max_chunk();

    /// Advances the scan and reports the next finished chunk, if any.
    fn next_write_range(&mut self, buf: &mut ChunkerBuf) -> (r: Option<Range<usize>>)
        requires
            old(self).wf(),
            old(buf).wf(),
            old(buf).pos < old(buf).clen,
            old(self).inv(old(buf).chunk_len as int),
        ensures
            final(self).wf(),
            final(buf).wf(),
            final(self).tag() == old(self).tag(),
            final(self).min_chunk() == old(self).min_chunk(),
            final(self).max_chunk() == old(self).max_chunk(),
            final(buf).bytes() == old(buf).bytes(),
            final(buf).clen == old(buf).clen,
            old(buf).pos <= final(buf).pos,
            match r {
                Some(range) => {
                    &&& range.start == old(buf).pos - old(buf).chunk_len
                    &&& range.end == final(buf).pos
                    &&& range.start < range.end
                    &&& final(buf).chunk_len == range.end - range.start
                    &&& final(self).min_chunk() <= final(buf).chunk_len as int
                    &&& final(buf).chunk_len as int <= final(self).max_chunk()
                    &&& final(self).inv(0)
                },
                None => {
                    &&& final(buf).pos - final(buf).chunk_len == old(buf).pos - old(buf).chunk_len
                    &&& final(buf).chunk_len as int <= final(self).max_chunk()
                    &&& final(self).inv(final(buf).chunk_len as int)
                    &&& (final(buf).pos > old(buf).pos || final(buf).clen - final(buf).pos
                        + final(buf).chunk_len < final(self).max_chunk())
                },
            };
}

/// The algorithm used to cut a byte stream into chunks.
#[derive(Debug, Copy, Clone, PartialEq, Eq, Structural)]
pub enum ChunkingAlgorithm {
    Rabin,
    Leap,
    Super,
    Ultra,
    Fast,
}

impl Default for ChunkingAlgorithm {
    /// The default algorithm is SuperCDC.
    fn default() -> (r: Self)
        ensures
            r is Super,
    {
        ChunkingAlgorithm::Super
    }
}

/// Smallest chunk the named algorithm cuts on its own; a final flushed chunk
/// may be shorter.
pub open spec fn algorithm_min(a: ChunkingAlgorithm) -> int {
    match a {
        ChunkingAlgorithm::Rabin => crate::rabin::MIN_SIZE as int,
        ChunkingAlgorithm::Leap => crate::leap::MIN_CHUNK_SIZE as int,
        ChunkingAlgorithm::Super => crate::supercdc::MIN_SIZE as int,
        ChunkingAlgorithm::Ultra => crate::ultra::MIN_CHUNK_SIZE as int,
        ChunkingAlgorithm::Fast => crate::fast::MIN_SIZE as int,
    }
}

/// Largest chunk the named algorithm ever cuts.
pub open spec fn algorithm_max(a: ChunkingAlgorithm) -> int {
    match a {
        ChunkingAlgorithm::Rabin => crate::rabin::MAX_SIZE as int,
        ChunkingAlgorithm::Leap => crate::leap::MAX_CHUNK_SIZE as int,
        ChunkingAlgorithm::Super => crate::supercdc::MAX_SIZE as int,
        ChunkingAlgorithm::Ultra => crate::ultra::MAX_CHUNK_SIZE as int,
        ChunkingAlgorithm::Fast => crate::fast::MAX_SIZE as int,
    }
}

/// One concrete strategy per algorithm tag.
pub enum Strategy {
    Rabin(RabinChunker),
    Leap(LeapChunker),
    Super(SuperChunker),
    Ultra(UltraChunker),
    Fast(FastChunker),
}

impl Chunking for Strategy {
    open spec fn wf(&self) -> bool {
        match self {
            Strategy::Rabin(c) => c.wf(),
            Strategy::Leap(c) => c.wf(),
            Strategy::Super(c) => c.wf(),
            Strategy::Ultra(c) => c.wf(),
            Strategy::Fast(c) => c.wf(),
        }
    }

    open spec fn inv(&self, chunk_len: int) -> bool {
        match self {
            Strategy::Rabin(c) => c.inv(chunk_len),
            Strategy::Leap(c) => c.inv(chunk_len),
            Strategy::Super(c) => c.inv(chunk_len),
            Strategy::Ultra(c) => c.inv(chunk_len),
            Strategy::Fast(c) => c.inv(chunk_len),
        }
    }

    /// The tag names the variant, so which algorithm a strategy value
    /// implements is visible in contracts.
    open spec fn tag(&self) -> ChunkingAlgorithm {
        match self {
            Strategy::Rabin(c) => c.tag(),
            Strategy::Leap(c) => c.tag(),
            Strategy::Super(c) => c.tag(),
            Strategy::Ultra(c) => c.tag(),
            Strategy::Fast(c) => c.tag(),
        }
    }

    open spec fn min_chunk(&self) -> int {
        match self {
            Strategy::Rabin(c) => c.min_chunk(),
            Strategy::Leap(c) => c.min_chunk(),
            Strategy::Super(c) => c.min_chunk(),
            Strategy::Ultra(c) => c.min_chunk(),
            Strategy::Fast(c) => c.min_chunk(),
        }
    }

    open spec fn max_chunk(&self) -> int {
        match self {
            Strategy::Rabin(c) => c.max_chunk(),
            Strategy::Leap(c) => c.max_chunk(),
            Strategy::Super(c) => c.max_chunk(),
            Strategy::Ultra(c) => c.max_chunk(),
            Strategy::Fast(c) => c.max_chunk(),
        }
    }

    proof fn properties(&self) {
        match self {
            Strategy::Rabin(c) => c.properties(),
            Strategy::Leap(c) => c.properties(),
            Strategy::Super(c) => c.properties(),
            Strategy::Ultra(c) => c.properties(),
            Strategy::Fast(c) => c.properties(),
        }
    }

    fn reset(&mut self) {
        match self {
            Strategy::Rabin(c) => c.reset(),
            Strategy::Leap(c) => c.reset(),
            Strategy::Super(c) => c.reset(),
            Strategy::Ultra(c) => c.reset(),
            Strategy::Fast(c) => c.reset(),
        }
    }

    fn next_write_range(&mut self, buf: &mut ChunkerBuf) -> (r: Option<Range<usize>>) {
        match self {
            Strategy::Rabin(c) => c.next_write_range(buf),
            Strategy::Leap(c) => c.next_write_range(buf),
            Strategy::Super(c) => c.next_write_range(buf),
            Strategy::Ultra(c) => c.next_write_range(buf),
            Strategy::Fast(c) => c.next_write_range(buf),
        }
    }
}

/// Builds the strategy for an algorithm tag.
pub fn chunker_by_algorithm(algorithm: ChunkingAlgorithm) -> (r: Strategy)
    ensures
        r.wf(),
        r.inv(0),
        r.tag() == algorithm,
        r.min_chunk() == algorithm_min(algorithm),
        r.max_chunk() == algorithm_max(algorithm),
{
    match algorithm {
        ChunkingAlgorithm::Rabin => Strategy::Rabin(RabinChunker::new()),
        ChunkingAlgorithm::Leap => Strategy::Leap(LeapChunker::new()),
        ChunkingAlgorithm::Super => Strategy::Super(SuperChunker::new()),
        ChunkingAlgorithm::Ultra => Strategy::Ultra(UltraChunker::new()),
        ChunkingAlgorithm::Fast => Strategy::Fast(FastChunker::new()),
    }
}

/// Streaming driver: consumes a byte stream, emits chunks to the sink.
pub struct Chunker {
    dst: ChunkSink,
    buffer: ChunkerBuf,
    chunker: Strategy,
    consumed: Ghost<Seq<u8>>,
}

impl Chunker {
    /// Bytes accepted from the producer, after any content the sink already
    /// held at construction.
    pub closed spec fn consumed_bytes(&self) -> Seq<u8> {
        self.consumed@
    }

    /// The chunks emitted to the sink so far.
    pub closed spec fn emitted(&self) -> Seq<Seq<u8>> {
        self.dst@
    }

    /// The bytes accepted but not yet emitted: the in-flight chunk plus the
    /// unexamined tail of the buffer.
    pub closed spec fn pending_bytes(&self) -> Seq<u8> {
        self.buffer.pending()
    }

    /// Room left in the scan buffer.
    pub closed spec fn free_space(&self) -> int {
        BUFFER_SIZE - self.buffer.clen
    }

    /// The algorithm the driver was built with; the selection is immutable
    /// over the driver's lifetime.
    pub closed spec fn algorithm(&self) -> ChunkingAlgorithm {
        self.chunker.tag()
    }

    /// Smallest chunk the selected strategy cuts on its own.
    pub closed spec fn strategy_min(&self) -> int {
        self.chunker.min_chunk()
    }

    /// Largest chunk the selected strategy cuts.
    pub closed spec fn strategy_max(&self) -> int {
        self.chunker.max_chunk()
    }

    /// The driver invariant.  Emitted chunks and pending bytes together are
    /// exactly the consumed stream; every emitted chunk is non-empty and no
    /// longer than `MAX_SIZE`; the buffer always keeps room for a maximal
    /// chunk behind the scan cursor; and between calls the driver is
    /// quiescent: either fewer than `MAX_SIZE` bytes could still form a
    /// chunk, or everything appended has been scanned.
    pub closed spec fn wf(&self) -> bool {
        &&& self.buffer.wf()
        &&& self.chunker.wf()
        &&& self.chunker.inv(self.buffer.chunk_len as int)
        &&& self.buffer.chunk_len <= MAX_SIZE
        &&& self.buffer.pos - self.buffer.chunk_len + MAX_SIZE < BUFFER_SIZE
        &&& (self.buffer.clen - self.buffer.pos + self.buffer.chunk_len < MAX_SIZE
            || self.buffer.pos == self.buffer.clen)
        &&& self.dst@.flatten() + self.buffer.pending() == self.consumed@
        &&& forall|i: int|
            0 <= i < self.dst@.len() ==> 1 <= (#[trigger] self.dst@[i].len()) && self.dst@[i].len()
                <= MAX_SIZE
    }

    /// A driver bound to the given sink and strategy.
    pub fn new(dst: ChunkSink, chunker: Strategy) -> (r: Chunker)
        requires
            chunker.wf(),
            chunker.inv(0),
            forall|i: int|
                0 <= i < dst@.len() ==> 1 <= (#[trigger] dst@[i].len()) && dst@[i].len()
                    <= MAX_SIZE,
        ensures
            r.wf(),
            r.consumed_bytes() == dst@.flatten(),
            r.emitted() == dst@,
            r.pending_bytes().len() == 0,
            r.free_space() == BUFFER_SIZE as int,
            r.algorithm() == chunker.tag(),
            r.strategy_min() == chunker.min_chunk(),
            r.strategy_max() == chunker.max_chunk(),
    {
        let buffer = ChunkerBuf::new();
        let r = Chunker { dst, buffer, chunker, consumed: Ghost(dst@.flatten()) };
        proof {
            r.chunker.properties();
            assert(r.buffer.pending() =~= Seq::<u8>::empty());
            assert(r.dst@.flatten() + r.buffer.pending() =~= r.dst@.flatten());
        }
        r
    }

    /// A driver for the named algorithm, writing into `dst`.
    pub fn with_algorithm(dst: ChunkSink, algorithm: ChunkingAlgorithm) -> (r: Chunker)
        requires
            forall|i: int|
                0 <= i < dst@.len() ==> 1 <= (#[trigger] dst@[i].len()) && dst@[i].len()
                    <= MAX_SIZE,
        ensures
            r.wf(),
            r.consumed_bytes() == dst@.flatten(),
            r.emitted() == dst@,
            r.pending_bytes().len() == 0,
            r.free_space() == BUFFER_SIZE as int,
            r.algorithm() == algorithm,
            r.strategy_min() == algorithm_min(algorithm),
            r.strategy_max() == algorithm_max(algorithm),
    {
        Chunker::new(dst, chunker_by_algorithm(algorithm))
    }

    /// Flushes the trailing bytes and surrenders the sink.
    pub fn into_inner(self) -> (r: ChunkSink)
        requires
            self.wf(),
        ensures
            r@.flatten() == self.consumed_bytes(),
            self.pending_bytes().len() == 0 ==> r@ == self.emitted(),
            self.pending_bytes().len() > 0 ==> r@ == self.emitted().push(self.pending_bytes()),
            forall|i: int|
                0 <= i < r@.len() ==> 1 <= (#[trigger] r@[i].len()) && r@[i].len() <= MAX_SIZE,
    {
        let mut this = self;
        this.flush();
        let Chunker { dst, buffer: _, chunker: _, consumed: _ } = this;
        dst
    }

    /// Consumes as much of `data` as fits in the buffer, emitting every
    /// chunk the strategy cuts from the bytes at hand, and returns how many
    /// bytes were accepted.  The producer re-submits the rest.
    ///
    /// Every newly emitted chunk lies between the strategy's minimum and
    /// maximum chunk sizes, and the consumed stream is extended by exactly
    /// the accepted prefix of `data`.
    pub fn write(&mut self, data: &[u8]) -> (n: usize)
        requires
            old(self).wf(),
        ensures
            final(self).wf(),
            data@.len() == 0 ==> n == 0 && *final(self) == *old(self),
            data@.len() > 0 ==> n == vstd::math::min(
                old(self).free_space(),
                data@.len() as int,
            ) && 1 <= n,
            final(self).consumed_bytes()
                == old(self).consumed_bytes() + data@.subrange(0, n as int),
            final(self).algorithm() == old(self).algorithm(),
            final(self).strategy_min() == old(self).strategy_min(),
            final(self).strategy_max() == old(self).strategy_max(),
            old(self).emitted().len() <= final(self).emitted().len(),
            final(self).emitted().subrange(0, old(self).emitted().len() as int)
                == old(self).emitted(),
            forall|i: int|
                old(self).emitted().len() <= i < final(self).emitted().len()
                    ==> old(self).strategy_min() <= (#[trigger] final(self).emitted()[i].len())
                    && final(self).emitted()[i].len() as int <= old(self).strategy_max(),
    {
        if data.len() == 0 {
            proof {
                assert(self.consumed_bytes()
                    =~= old(self).consumed_bytes() + data@.subrange(0, 0));
            }
            return 0;
        }
        proof {
            self.chunker.properties();
        }
        let ghost old_emitted_len = self.dst@.len() as int;

        let in_len = self.buffer.append(data);
        proof {
            self.consumed@ = self.consumed@ + data@.subrange(0, in_len as int);
            let oldb = old(self).buffer;
            assert forall|j: int| 0 <= j < oldb.clen implies self.buffer.bytes()[j]
                == oldb.bytes()[j] by {
                assert(self.buffer.bytes().subrange(0, oldb.clen as int)[j] == oldb.valid()[j]);
            }
            assert forall|j: int|
                oldb.clen <= j < self.buffer.clen implies self.buffer.bytes()[j] == data@[j
                - oldb.clen] by {
                assert(self.buffer.bytes().subrange(oldb.clen as int, self.buffer.clen as int)[j
                    - oldb.clen] == data@.subrange(0, in_len as int)[j - oldb.clen]);
            }
            assert(self.buffer.pending() =~= oldb.pending() + data@.subrange(0, in_len as int));
            assert(self.dst@.flatten() + self.buffer.pending() =~= self.consumed@);
        }

        loop
            invariant
                self.buffer.wf(),
                self.chunker.wf(),
                self.chunker.inv(self.buffer.chunk_len as int),
                self.buffer.chunk_len <= MAX_SIZE,
                self.buffer.pos - self.buffer.chunk_len + MAX_SIZE < BUFFER_SIZE,
                self.dst@.flatten() + self.buffer.pending() == self.consumed@,
                self.chunker.tag() == old(self).chunker.tag(),
                self.chunker.min_chunk() == old(self).chunker.min_chunk(),
                self.chunker.max_chunk() == old(self).chunker.max_chunk(),
                1 <= self.chunker.min_chunk(),
                self.chunker.min_chunk() <= self.chunker.max_chunk(),
                self.chunker.max_chunk() <= MAX_SIZE as int,
                self.consumed@ == old(self).consumed_bytes() + data@.subrange(0, in_len as int),
                old_emitted_len == old(self).emitted().len(),
                old_emitted_len <= self.dst@.len(),
                self.dst@.subrange(0, old_emitted_len) == old(self).dst@,
                forall|i: int|
                    0 <= i < self.dst@.len() ==> 1 <= (#[trigger] self.dst@[i].len())
                        && self.dst@[i].len() <= MAX_SIZE,
                forall|i: int|
                    old_emitted_len <= i < self.dst@.len() ==> self.chunker.min_chunk() <= (
                    #[trigger] self.dst@[i].len()) && self.dst@[i].len() as int
                        <= self.chunker.max_chunk(),
            ensures
                self.buffer.clen - self.buffer.pos + self.buffer.chunk_len < MAX_SIZE
                    || self.buffer.pos == self.buffer.clen,
            decreases
                    self.buffer.clen - (self.buffer.pos - self.buffer.chunk_len),
                    self.buffer.clen - self.buffer.pos,
        {
            if !self.buffer.has_something() {
                break;
            }
            let ghost pend0 = self.buffer.pending();
            let r = self.chunker.next_write_range(&mut self.buffer);
            proof {
                self.chunker.properties();
                assert(self.buffer.pending() =~= pend0);
            }
            match r {
                Some(range) => {
                    let ghost pre_dst = self.dst@;
                    let chunk = self.buffer.copy_range(range.start, range.end);
                    let written = self.dst.write(chunk);
                    assert(written == self.buffer.chunk_len);
                    self.buffer.chunk_len = 0;
                    proof {
                        assert(pend0 =~= chunk@ + self.buffer.pending());
                        pre_dst.lemma_flatten_push(chunk@);
                        assert(self.dst@.flatten() =~= pre_dst.flatten() + chunk@);
                        assert(self.dst@.flatten() + self.buffer.pending() =~= self.consumed@);
                        assert(self.dst@.subrange(0, old_emitted_len)
                            =~= pre_dst.subrange(0, old_emitted_len));
                    }
                    if self.buffer.pos + MAX_SIZE >= BUFFER_SIZE {
                        let ghost keep = self.buffer.pending();
                        self.buffer.reset_position();
                        proof {
                            assert(self.buffer.pending() =~= keep);
                        }
                    }
                },
                None => {
                    if self.buffer.possible_size() < MAX_SIZE {
                        break;
                    }
                },
            }
        }
        proof {
            assert(self.dst@.subrange(0, old_emitted_len) =~= old(self).dst@);
        }
        in_len
    }

    /// Surrenders the chunks emitted so far and keeps going: afterwards the
    /// chunker accounts only for the bytes still pending in the buffer.  A
    /// caller that performs real output drains the sink this way between
    /// pushes.
    pub fn take_chunks(&mut self) -> (r: Vec<Vec<u8>>)
        requires
            old(self).wf(),
        ensures
            final(self).wf(),
            r.deep_view() == old(self).emitted(),
            final(self).emitted().len() == 0,
            final(self).consumed_bytes() == old(self).pending_bytes(),
            final(self).pending_bytes() == old(self).pending_bytes(),
            final(self).free_space() == old(self).free_space(),
            final(self).algorithm() == old(self).algorithm(),
            final(self).strategy_min() == old(self).strategy_min(),
            final(self).strategy_max() == old(self).strategy_max(),
    {
        let r = self.dst.take_chunks();
        proof {
            self.consumed@ = self.buffer.pending();
            assert(self.dst@.flatten() + self.buffer.pending() =~= self.consumed@);
        }
        r
    }

    /// Emits the bytes still pending in the buffer, if any, as one final
    /// chunk, and resets the buffer.  Afterwards the concatenation of all
    /// emitted chunks equals the consumed stream exactly.
    pub fn flush(&mut self)
        requires
            old(self).wf(),
        ensures
            final(self).wf(),
            final(self).consumed_bytes() == old(self).consumed_bytes(),
            final(self).emitted().flatten() == final(self).consumed_bytes(),
            final(self).pending_bytes().len() == 0,
            final(self).free_space() == BUFFER_SIZE as int,
            final(self).algorithm() == old(self).algorithm(),
            final(self).strategy_min() == old(self).strategy_min(),
            final(self).strategy_max() == old(self).strategy_max(),
            old(self).pending_bytes().len() == 0 ==> final(self).emitted() == old(self).emitted(),
            old(self).pending_bytes().len() > 0
                ==> final(self).emitted() == old(self).emitted().push(old(self).pending_bytes()),
    {
        proof {
            self.chunker.properties();
        }
        let start = self.buffer.pos - self.buffer.chunk_len;
        if start < self.buffer.clen {
            let ghost pre_dst = self.dst@;
            let chunk = self.buffer.copy_range(start, self.buffer.clen);
            let _written = self.dst.write(chunk);
            proof {
                assert(chunk@ =~= self.buffer.pending());
                pre_dst.lemma_flatten_push(chunk@);
                assert(self.dst@.flatten() =~= pre_dst.flatten() + chunk@);
                assert(self.dst@.flatten() =~= self.consumed@);
            }
        } else {
            proof {
                assert(self.buffer.pending() =~= Seq::<u8>::empty());
                assert(self.dst@.flatten() =~= self.dst@.flatten() + self.buffer.pending());
            }
        }
        self.chunker.reset();
        self.buffer.pos = 0;
        self.buffer.clen = 0;
        self.buffer.chunk_len = 0;
        proof {
            assert(self.buffer.pending() =~= Seq::<u8>::empty());
            assert(self.dst@.flatten() + self.buffer.pending() =~= self.dst@.flatten());
            assert(self.dst@.flatten() =~= self.consumed@);
        }
    }
}

} // verus!
