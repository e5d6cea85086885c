//! In-memory chunk sink.
//!
//! The driver hands the sink exactly one chunk per `write` call; the sink
//! keeps each chunk separate, which is how a downstream consumer learns the
//! chunk boundaries.  A caller that performs real output drains the recorded
//! chunks between pushes.

use vstd::prelude::*;

verus! {

/// Records every chunk the driver emits, in order.
pub struct ChunkSink {
    chunks: Vec<Vec<u8>>,
}

impl View for ChunkSink {
    type V = Seq<Seq<u8>>;

    closed spec fn view(&self) -> Seq<Seq<u8>> {
        self.chunks.deep_view()
    }
}

impl ChunkSink {
    /// An empty sink.
    pub fn new() -> (r: ChunkSink)
        ensures
            r@ == Seq::<Seq<u8>>::empty(),
    {
        let r = ChunkSink { chunks: Vec::new() };
        proof {
            assert(r@ =~= Seq::<Seq<u8>>::empty());
        }
        r
    }

    /// Accepts one whole chunk; returns how many bytes were consumed, which
    /// is always all of them.
    pub fn write(&mut self, chunk: Vec<u8>) -> (n: usize)
        ensures
            final(self)@ == old(self)@.push(chunk@),
            n == chunk@.len(),
    {
        let n = chunk.len();
        self.chunks.push(chunk);
        proof {
            assert(self@ =~~= old(self)@.push(chunk@));
        }
        n
    }

    /// How many chunks have been recorded.
    pub fn len(&self) -> (n: usize)
        ensures
            n == self@.len(),
    {
        self.chunks.len()
    }

    /// Reads one recorded chunk.
    pub fn chunk(&self, i: usize) -> (c: &Vec<u8>)
        requires
            i < self@.len(),
        ensures
            c@ == self@[i as int],
    {
        &self.chunks[i]
    }

    /// Surrenders the recorded chunks, leaving the sink empty.
    pub fn take_chunks(&mut self) -> (r: Vec<Vec<u8>>)
        ensures
            r.deep_view() == old(self)@,
            final(self)@ == Seq::<Seq<u8>>::empty(),
    {
        let mut r: Vec<Vec<u8>> = Vec::new();
        core::mem::swap(&mut r, &mut self.chunks);
        proof {
            assert(self@ =~= Seq::<Seq<u8>>::empty());
        }
        r
    }
}

} // verus!
