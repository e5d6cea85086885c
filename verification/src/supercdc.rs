//! SuperCDC chunking strategy.
//!
//! A gear-table rolling hash with two masks: a strict mask while the chunk
//! is below the normal size and a relaxed one above it, which pulls the
//! chunk-size distribution toward the normal size.  The gear table is
//! derived deterministically from a fixed seed, so the strategy cuts the
//! same stream the same way in every process.

use core::ops::Range;
use vstd::prelude::*;

use crate::buffer::ChunkerBuf;
use crate::chunker::Chunking;

verus! {

pub const MIN_SIZE: usize = 2 * 1024;
pub const NORMAL_SIZE: usize = 2 * 1024 + 8 * 1024;
pub const MAX_SIZE: usize = 64 * 1024;

/// Strict mask, applied while the chunk is below the normal size.
pub const MASK_S: u64 = 0x0003_5907_0353_0000;

/// Relaxed mask, applied from the normal size on.
pub const MASK_L: u64 = 0x0000_1907_0343_0000;

/// The gear hash carries a 64-byte window implicitly, so the scan starts
/// that far before the minimum size.
pub const SCAN_START: usize = 2 * 1024 - 64;

/// Seed of the gear table.
pub const GEAR_SEED: u64 = 0x9e37_79b9_7f4a_7c15;

/// One step of the xorshift generator that fills the gear table.
pub open spec fn xorshift_step(x: u64) -> u64 {
    let a = x ^ (x << 13u64);
    let b = a ^ (a >> 7u64);
    b ^ (b << 17u64)
}

/// The generator state after `j` steps.
pub open spec fn gear_state(j: nat) -> u64
    decreases j,
{
    if j == 0 {
        GEAR_SEED
    } else {
        xorshift_step(gear_state((j - 1) as nat))
    }
}

/// The gear-table entry for byte `b`.
pub open spec fn gear_spec(b: int) -> u64 {
    gear_state((b + 1) as nat)
}

/// The gear hash rolls one byte: shift left, add the byte's gear entry.
pub open spec fn sc_step(h: u64, b: u8) -> u64 {
    vstd::wrapping::u64_specs::wrapping_add(h << 1u64, gear_spec(b as int))
}

/// The hash before byte `n` of the scan slice is processed.
pub open spec fn sc_state(s: Seq<u8>, n: nat) -> u64
    decreases n,
{
    if n <= SCAN_START {
        0u64
    } else {
        sc_step(sc_state(s, (n - 1) as nat), s[n - 1])
    }
}

/// The mask in force for a chunk of `len` bytes.
pub open spec fn sc_mask(len: int) -> u64 {
    if len < NORMAL_SIZE {
        MASK_S
    } else {
        MASK_L
    }
}

/// Whether processing byte `n` of the scan slice fires a cut, giving a
/// chunk of `n + 1` bytes.
pub open spec fn sc_cut_after(s: Seq<u8>, n: nat) -> bool {
    let h = sc_step(sc_state(s, n), s[n as int]);
    n + 1 >= MIN_SIZE && ((h & sc_mask((n + 1) as int)) == 0 || n + 1 >= MAX_SIZE)
}

/// The first cut at or after position `n` of the scan slice, if the bytes
/// at hand decide one.
pub open spec fn sc_find_from(s: Seq<u8>, n: nat) -> Option<int>
    decreases vstd::math::min(MAX_SIZE as int, s.len() as int) - n,
{
    if n >= vstd::math::min(MAX_SIZE as int, s.len() as int) {
        None
    } else if sc_cut_after(s, n) {
        Some((n + 1) as int)
    } else {
        sc_find_from(s, (n + 1) as nat)
    }
}

/// The length of the next chunk the gear scan cuts from the slice, if the
/// bytes at hand decide one.  The result is a function of the bytes alone.
pub open spec fn super_cut_spec(s: Seq<u8>) -> Option<int> {
    sc_find_from(s, SCAN_START as nat)
}

/// A slice at least `MAX_SIZE` long always yields a cut: at the latest, the
/// forced cut at the maximum chunk size fires.
proof fn lemma_full_slice_cuts(s: Seq<u8>, n: nat)
    requires
        s.len() >= MAX_SIZE,
        n < MAX_SIZE,
    ensures
        sc_find_from(s, n) is Some,
    decreases MAX_SIZE - n,
{
    if sc_cut_after(s, n) {
    } else {
        lemma_full_slice_cuts(s, (n + 1) as nat);
    }
}

/// The scan state at position `n` depends only on the first `n` bytes of
/// the slice.
proof fn lemma_state_prefix(s1: Seq<u8>, s2: Seq<u8>, n: nat)
    requires
        s1.len() <= s2.len(),
        s1 == s2.subrange(0, s1.len() as int),
        n <= s1.len(),
    ensures
        sc_state(s1, n) == sc_state(s2, n),
    decreases n,
{
    if n > SCAN_START {
        lemma_state_prefix(s1, s2, (n - 1) as nat);
        assert(s1[n - 1] == s2[n - 1]);
    }
}

proof fn lemma_find_prefix(s1: Seq<u8>, s2: Seq<u8>, n: nat)
    requires
        s1.len() <= s2.len(),
        s1 == s2.subrange(0, s1.len() as int),
        sc_find_from(s1, n) is Some,
    ensures
        sc_find_from(s2, n) == sc_find_from(s1, n),
    decreases vstd::math::min(MAX_SIZE as int, s1.len() as int) - n,
{
    assert(n < vstd::math::min(MAX_SIZE as int, s1.len() as int));
    lemma_state_prefix(s1, s2, n);
    assert(s1[n as int] == s2[n as int]);
    assert(sc_cut_after(s1, n) == sc_cut_after(s2, n));
    if !sc_cut_after(s1, n) {
        lemma_find_prefix(s1, s2, (n + 1) as nat);
    }
}

/// Cut stability, the heart of streaming equivalence: a cut the scan finds
/// in the bytes at hand stays exactly where it is when more bytes arrive,
/// so feeding a stream piecewise yields the same cut points as feeding it
/// whole.
pub proof fn lemma_cut_stable(s1: Seq<u8>, s2: Seq<u8>)
    requires
        s1.len() <= s2.len(),
        s1 == s2.subrange(0, s1.len() as int),
        super_cut_spec(s1) is Some,
    ensures
        super_cut_spec(s2) == super_cut_spec(s1),
{
    lemma_find_prefix(s1, s2, SCAN_START as nat);
}

/// SuperCDC strategy: the gear table plus the stateless scan.
pub struct SuperChunker {
    gear: Vec<u64>,
}

impl SuperChunker {
    /// A strategy with a freshly derived gear table.
    pub fn new() -> (r: SuperChunker)
        ensures
            r.wf(),
    {
        let mut gear: Vec<u64> = Vec::new();
        let mut x: u64 = GEAR_SEED;
        let mut i: usize = 0;
        while i < 256
            invariant
                i <= 256,
                x == gear_state(i as nat),
                gear@.len() == i,
                forall|j: int| 0 <= j < i ==> #[trigger] gear@[j] == gear_spec(j),
            decreases 256 - i,
        {
            let a = x ^ (x << 13u64);
            let b = a ^ (a >> 7u64);
            x = b ^ (b << 17u64);
            gear.push(x);
            i = i + 1;
        }
        SuperChunker { gear }
    }

    /// Advances the scan by one call: finds the next cut in the unexamined
    /// bytes and takes it, moving the cursors.  The emitted length is
    /// exactly `super_cut_spec` of the scan slice, a function of the bytes
    /// alone.
    pub fn find_cut(&self, buf: &mut ChunkerBuf) -> (r: Option<usize>)
        requires
            self.wf(),
            old(buf).wf(),
            old(buf).chunk_len == 0,
        ensures
            final(buf).wf(),
            final(buf).bytes() == old(buf).bytes(),
            final(buf).clen == old(buf).clen,
            match r {
                Some(n) => {
                    &&& super_cut_spec(old(buf).scan()) == Some(n as int)
                    &&& MIN_SIZE <= n <= MAX_SIZE
                    &&& final(buf).pos == old(buf).pos + n
                    &&& final(buf).chunk_len == n
                },
                None => {
                    &&& super_cut_spec(old(buf).scan()) is None
                    &&& old(buf).clen - old(buf).pos < MAX_SIZE
                    &&& *final(buf) == *old(buf)
                },
            },
    {
        let ghost s = buf.scan();
        let start = buf.pos;
        let len = buf.clen - buf.pos;
        let rem = if MAX_SIZE < len {
            MAX_SIZE
        } else {
            len
        };

        let mut hash: u64 = 0;
        let mut n: usize = SCAN_START;
        while n < rem
            invariant
                self.wf(),
                buf.wf(),
                *buf == *old(buf),
                s == buf.scan(),
                start == buf.pos,
                len == buf.clen - buf.pos,
                rem == vstd::math::min(MAX_SIZE as int, len as int),
                SCAN_START <= n,
                n <= rem || n == SCAN_START,
                hash == sc_state(s, n as nat),
                sc_find_from(s, SCAN_START as nat) == sc_find_from(s, n as nat),
            decreases rem - n,
        {
            let ch = buf.at(start + n);
            proof {
                assert(ch == s[n as int]);
            }
            hash = (hash << 1u64).wrapping_add(self.gear[ch as usize]);
            n = n + 1;
            proof {
                assert(sc_state(s, n as nat) == sc_step(sc_state(s, (n - 1) as nat), s[n - 1]));
            }
            if n >= MIN_SIZE {
                let mask = if n < NORMAL_SIZE {
                    MASK_S
                } else {
                    MASK_L
                };
                if (hash & mask) == 0 || n >= MAX_SIZE {
                    proof {
                        assert(sc_cut_after(s, (n - 1) as nat));
                    }
                    buf.chunk_len = n;
                    buf.pos = start + n;
                    return Some(n);
                }
            }
            proof {
                assert(!sc_cut_after(s, (n - 1) as nat));
            }
        }
        proof {
            if len >= MAX_SIZE {
                lemma_full_slice_cuts(s, SCAN_START as nat);
            }
        }
        None
    }
}

impl Chunking for SuperChunker {
    closed spec fn wf(&self) -> bool {
        &&& self.gear@.len() == 256
        &&& forall|j: int| 0 <= j < 256 ==> #[trigger] self.gear@[j] == gear_spec(j)
    }

    /// The scan restarts from the chunk start on every call, so no chunk may
    /// be in flight between calls.
    open spec fn inv(&self, chunk_len: int) -> bool {
        chunk_len == 0
    }

    open spec fn tag(&self) -> crate::chunker::ChunkingAlgorithm {
        crate::chunker::ChunkingAlgorithm::Super
    }

    open spec fn min_chunk(&self) -> int {
        MIN_SIZE as int
    }

    open spec fn max_chunk(&self) -> int {
        MAX_SIZE as int
    }

    proof fn properties(&self) {
    }

    fn reset(&mut self) {
    }

    fn next_write_range(&mut self, buf: &mut ChunkerBuf) -> (r: Option<Range<usize>>) {
        match self.find_cut(buf) {
            Some(length) => {
                let end = buf.pos;
                Some((end - length)..end)
            },
            None => None,
        }
    }
}

} // verus!
