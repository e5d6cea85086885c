//! FastCDC chunking strategy.
//!
//! Delegates the cut-point search to the FastCDC v2020 routine with
//! normalization level 2.  The scan is restarted from the chunk start on
//! every call; when the routine would simply take every byte offered because
//! it ran out of data, the strategy waits for more input instead, so that a
//! partial buffer never shifts the cut points.

use core::ops::Range;
use vstd::prelude::*;

use crate::buffer::ChunkerBuf;
use crate::chunker::Chunking;

verus! {

pub const MIN_SIZE: usize = 2 * 1024;
pub const AVG_SIZE: usize = 2 * 1024;
pub const MAX_SIZE: usize = 32 * 1024;

/// The cut point the FastCDC v2020 scan (normalization level 2, sizes
/// 2 KiB / 2 KiB / 32 KiB) returns for the `len` bytes of `data` starting at
/// `pos`: a function of the bytes and the bounds alone.
pub uninterp spec fn fastcdc_cut_of(data: Seq<u8>, pos: int, len: int) -> int;

/// Relies on fastcdc's `v2020::FastCDC::cut`: the cut point lies in
/// `[pos, pos + len]`; when at most `MIN_SIZE` bytes are offered they are
/// all taken, and otherwise the cut keeps at least `MIN_SIZE` and at most
/// `MAX_SIZE` of them.
#[verifier::external_body]
fn fastcdc_cut(data: &Vec<u8>, pos: usize, len: usize) -> (cut: usize)
    requires
        pos + len <= data@.len(),
    ensures
        cut as int == fastcdc_cut_of(data@, pos as int, len as int),
        pos <= cut <= pos + len,
        len <= MIN_SIZE ==> cut == pos + len,
        len > MIN_SIZE ==> pos + MIN_SIZE <= cut,
        len > MAX_SIZE ==> cut <= pos + MAX_SIZE,
{
    let (_, cut) = fastcdc::v2020::FastCDC::with_level(
        data,
        MIN_SIZE as u32,
        AVG_SIZE as u32,
        MAX_SIZE as u32,
        fastcdc::v2020::Normalization::Level2,
    ).cut(pos, len);
    cut
}

/// The decision the strategy takes on the bytes at hand: the reference cut
/// point, except that a cut lying exactly at the end of the available data
/// while less than a maximal chunk is in view merely marks exhaustion, and
/// the strategy waits for more input.
pub open spec fn fast_cut_spec(bytes: Seq<u8>, pos: int, clen: int) -> Option<int> {
    let cut = fastcdc_cut_of(bytes, pos, clen - pos);
    if cut == clen && clen - pos < MAX_SIZE {
        None
    } else {
        Some(cut - pos)
    }
}

/// FastCDC strategy; all state lives in the scan routine's arguments.
pub struct FastChunker;

impl FastChunker {
    /// A fresh strategy.
    pub fn new() -> (r: FastChunker)
        ensures
            r.wf(),
    {
        FastChunker
    }
}

impl FastChunker {
    /// Advances the scan by one call: asks the reference routine for the
    /// next cut and takes it, moving the cursors.  The emitted length is
    /// exactly `fast_cut_spec` of the buffer bytes, a function of the bytes
    /// alone.
    pub fn find_cut(&self, buf: &mut ChunkerBuf) -> (r: Option<usize>)
        requires
            old(buf).wf(),
            old(buf).chunk_len == 0,
        ensures
            final(buf).wf(),
            final(buf).bytes() == old(buf).bytes(),
            final(buf).clen == old(buf).clen,
            match r {
                Some(n) => {
                    &&& fast_cut_spec(old(buf).bytes(), old(buf).pos as int, old(buf).clen as int)
                        == Some(n as int)
                    &&& MIN_SIZE <= n <= MAX_SIZE
                    &&& final(buf).pos == old(buf).pos + n
                    &&& final(buf).chunk_len == n
                },
                None => {
                    &&& fast_cut_spec(old(buf).bytes(), old(buf).pos as int, old(buf).clen as int)
                        is None
                    &&& old(buf).clen - old(buf).pos < MAX_SIZE
                    &&& *final(buf) == *old(buf)
                },
            },
    {
        let pos = buf.pos;
        let len = buf.clen - buf.pos;
        let cut = fastcdc_cut(&buf.buf, pos, len);
        if cut == buf.clen && len < MAX_SIZE {
            None
        } else {
            let length = cut - pos;
            buf.chunk_len = length;
            buf.pos = cut;
            Some(length)
        }
    }
}

impl Chunking for FastChunker {
    open spec fn wf(&self) -> bool {
        true
    }

    /// The scan restarts from the chunk start on every call, so no chunk may
    /// be in flight between calls.
    open spec fn inv(&self, chunk_len: int) -> bool {
        chunk_len == 0
    }

    open spec fn tag(&self) -> crate::chunker::ChunkingAlgorithm {
        crate::chunker::ChunkingAlgorithm::Fast
    }

    open spec fn min_chunk(&self) -> int {
        MIN_SIZE as int
    }

    open spec fn max_chunk(&self) -> int {
        MAX_SIZE as int
    }

    proof fn properties(&self) {
    }

    fn reset(&mut self) {
    }

    fn next_write_range(&mut self, buf: &mut ChunkerBuf) -> (r: Option<Range<usize>>) {
        match self.find_cut(buf) {
            Some(length) => {
                let end = buf.pos;
                Some((end - length)..end)
            },
            None => None,
        }
    }
}

} // verus!
