//! Fixed-capacity byte buffer with the three scan cursors.
//!
//! `clen` counts the valid bytes at the head of the buffer, `pos` is the scan
//! cursor of the strategy, and `chunk_len` is the length of the chunk
//! currently being assembled, which ends at `pos`.  The in-flight chunk
//! occupies `[pos - chunk_len, pos)` and the unexamined bytes occupy
//! `[pos, clen)`.

use vstd::prelude::*;

verus! {

/// Capacity of the chunking buffer: eight times the largest chunk.
pub const BUFFER_SIZE: usize = 8 * 64 * 1024;

/// Byte buffer shared by the driver and the chunking strategies.
pub struct ChunkerBuf {
    /// Scan cursor into the valid data.
    pub pos: usize,
    /// Count of valid bytes at the head of the buffer.
    pub clen: usize,
    /// Length of the in-flight chunk, which ends at `pos`.
    pub chunk_len: usize,
    /// Backing storage; written only through this type's own methods.
    pub buf: Vec<u8>,
}

impl ChunkerBuf {
    /// Every byte the buffer holds, the stale tail included.
    pub open spec fn bytes(&self) -> Seq<u8> {
        self.buf@
    }

    /// The valid prefix: bytes appended and not yet discarded.
    pub open spec fn valid(&self) -> Seq<u8> {
        self.bytes().subrange(0, self.clen as int)
    }

    /// The in-flight chunk followed by the unexamined bytes.
    pub open spec fn pending(&self) -> Seq<u8> {
        self.bytes().subrange(self.pos - self.chunk_len, self.clen as int)
    }

    /// The unexamined bytes a strategy may scan: `[pos, clen)`.
    pub open spec fn scan(&self) -> Seq<u8> {
        self.bytes().subrange(self.pos as int, self.clen as int)
    }

    /// The cursor geometry every operation preserves.
    pub open spec fn wf(&self) -> bool {
        &&& self.bytes().len() == BUFFER_SIZE
        &&& self.chunk_len <= self.pos
        &&& self.pos <= self.clen
        &&& self.clen <= BUFFER_SIZE
    }

    /// An empty buffer at full capacity, zero-filled.
    pub fn new() -> (r: ChunkerBuf)
        ensures
            r.wf(),
            r.pos == 0,
            r.clen == 0,
            r.chunk_len == 0,
            r.bytes() == Seq::new(BUFFER_SIZE as nat, |i: int| 0u8),
    {
        let mut buf: Vec<u8> = Vec::new();
        let mut i: usize = 0;
        while i < BUFFER_SIZE
            invariant
                buf@ == Seq::new(i as nat, |j: int| 0u8),
                i <= BUFFER_SIZE,
            decreases BUFFER_SIZE - i,
        {
            buf.push(0u8);
            proof {
                assert(buf@ =~= Seq::new((i + 1) as nat, |j: int| 0u8));
            }
            i = i + 1;
        }
        ChunkerBuf { pos: 0, clen: 0, chunk_len: 0, buf }
    }

    /// Reads the byte at an absolute offset.
    pub fn at(&self, i: usize) -> (b: u8)
        requires
            self.wf(),
            i < BUFFER_SIZE,
        ensures
            b == self.bytes()[i as int],
    {
        self.buf[i]
    }

    /// Checks whether unexamined bytes remain.
    pub fn has_something(&self) -> (r: bool)
        ensures
            r == (self.pos < self.clen),
    {
        self.pos < self.clen
    }

    /// The largest chunk that could still be produced without more input.
    pub fn possible_size(&self) -> (r: usize)
        requires
            self.wf(),
        ensures
            r == self.clen - self.pos + self.chunk_len,
    {
        self.clen - self.pos + self.chunk_len
    }

    /// Copies into the buffer as much of `data` as fits, and returns how much
    /// that was.
    pub fn append(&mut self, data: &[u8]) -> (n: usize)
        requires
            old(self).wf(),
            old(self).clen < BUFFER_SIZE,
            data@.len() > 0,
        ensures
            final(self).wf(),
            n == vstd::math::min(BUFFER_SIZE - old(self).clen, data@.len() as int),
            1 <= n,
            final(self).pos == old(self).pos,
            final(self).chunk_len == old(self).chunk_len,
            final(self).clen == old(self).clen + n,
            final(self).bytes().subrange(0, old(self).clen as int) == old(self).valid(),
            final(self).bytes().subrange(old(self).clen as int, final(self).clen as int)
                == data@.subrange(0, n as int),
            final(self).bytes().subrange(final(self).clen as int, BUFFER_SIZE as int)
                == old(self).bytes().subrange(final(self).clen as int, BUFFER_SIZE as int),
    {
        let in_len: usize = if BUFFER_SIZE - self.clen < data.len() {
            BUFFER_SIZE - self.clen
        } else {
            data.len()
        };
        let start = self.clen;
        let mut i: usize = 0;
        while i < in_len
            invariant
                self.pos == old(self).pos,
                self.clen == old(self).clen,
                self.chunk_len == old(self).chunk_len,
                start == old(self).clen,
                i <= in_len,
                start + in_len <= BUFFER_SIZE,
                in_len <= data@.len(),
                self.buf@.len() == BUFFER_SIZE,
                forall|j: int| 0 <= j < start + i ==> self.buf@[j] ==
                    (if j < start { old(self).bytes()[j] } else { data@[j - start] }),
                forall|j: int| start + i <= j < BUFFER_SIZE ==>
                    self.buf@[j] == old(self).bytes()[j],
            decreases in_len - i,
        {
            let b = data[i];
            self.buf.set(start + i, b);
            i = i + 1;
        }
        self.clen = self.clen + in_len;
        proof {
            assert(self.bytes().subrange(0, old(self).clen as int)
                =~= old(self).valid());
            assert(self.bytes().subrange(old(self).clen as int, self.clen as int)
                =~= data@.subrange(0, in_len as int));
            assert(self.bytes().subrange(self.clen as int, BUFFER_SIZE as int)
                =~= old(self).bytes().subrange(self.clen as int, BUFFER_SIZE as int));
        }
        in_len
    }

    /// Relocates the unexamined bytes `[pos, clen)` to the head of the
    /// buffer, resetting `pos` and `clen`.  Legal only between chunks.
    pub fn reset_position(&mut self)
        requires
            old(self).wf(),
            old(self).chunk_len == 0,
        ensures
            final(self).wf(),
            final(self).pos == 0,
            final(self).chunk_len == 0,
            final(self).clen == old(self).clen - old(self).pos,
            final(self).valid() == old(self).bytes().subrange(
                old(self).pos as int,
                old(self).clen as int,
            ),
            final(self).bytes().subrange(final(self).clen as int, BUFFER_SIZE as int)
                == old(self).bytes().subrange(final(self).clen as int, BUFFER_SIZE as int),
    {
        let left_len = self.clen - self.pos;
        let p = self.pos;
        let mut i: usize = 0;
        while i < left_len
            invariant
                self.pos == old(self).pos,
                self.clen == old(self).clen,
                self.chunk_len == old(self).chunk_len,
                p == old(self).pos,
                i <= left_len,
                left_len == old(self).clen - old(self).pos,
                old(self).wf(),
                self.buf@.len() == BUFFER_SIZE,
                forall|j: int| 0 <= j < i ==> self.buf@[j] == old(self).bytes()[p + j],
                forall|j: int| i <= j < BUFFER_SIZE ==> self.buf@[j] == old(self).bytes()[j],
            decreases left_len - i,
        {
            let b = self.buf[p + i];
            self.buf.set(i, b);
            i = i + 1;
        }
        self.clen = left_len;
        self.pos = 0;
        proof {
            assert(self.valid() =~= old(self).bytes().subrange(
                old(self).pos as int,
                old(self).clen as int,
            ));
            assert(self.bytes().subrange(self.clen as int, BUFFER_SIZE as int)
                =~= old(self).bytes().subrange(self.clen as int, BUFFER_SIZE as int));
        }
    }

    /// Copies the bytes `[start, end)` out of the buffer.
    pub fn copy_range(&self, start: usize, end: usize) -> (v: Vec<u8>)
        requires
            self.wf(),
            start <= end,
            end <= BUFFER_SIZE,
        ensures
            v@ == self.bytes().subrange(start as int, end as int),
    {
        let mut v: Vec<u8> = Vec::new();
        let mut i: usize = start;
        while i < end
            invariant
                start <= i <= end,
                end <= BUFFER_SIZE,
                self.wf(),
                v@ == self.bytes().subrange(start as int, i as int),
            decreases end - i,
        {
            let b = self.buf[i];
            v.push(b);
            proof {
                assert(v@ =~= self.bytes().subrange(start as int, i + 1));
            }
            i = i + 1;
        }
        v
    }
}

} // verus!
