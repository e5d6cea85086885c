//! Rabin chunking strategy.
//!
//! A polynomial rolling hash over a circular 16-byte window decides the cut
//! points.  The strategy scans the unexamined bytes from the start of the
//! would-be chunk; a cut fires once the chunk has reached the minimum size
//! and the masked checksum vanishes, and is forced at the maximum size.
//! Constants and table derivation follow the pcompress lineage of the
//! algorithm.

use core::ops::Range;
use vstd::prelude::*;

use crate::buffer::ChunkerBuf;
use crate::chunker::Chunking;

verus! {

pub const PRIME: u64 = 153_191;
pub const MASK: u64 = 0xff_ffff_ffff;
pub const MIN_SIZE: usize = 16 * 1024;
pub const AVG_SIZE: usize = 32 * 1024;
pub const MAX_SIZE: usize = 64 * 1024;

/// Irreducible polynomial for the Rabin modulus.
pub const FP_POLY: u64 = 0xbfe6_b8a5_bf37_8d83;

/// The scan skips the first `MIN_SIZE` bytes, so the cut mask only has to
/// target `AVG_SIZE - MIN_SIZE`, which must be a power of two.
pub const CUT_MASK: u64 = 0x3fff;

pub const WIN_SIZE: usize = 16;
pub const WIN_MASK: usize = 15;
pub const WIN_SLIDE_OFFSET: usize = 64;
pub const WIN_SLIDE_POS: usize = MIN_SIZE - WIN_SLIDE_OFFSET;

/// Reduction modulo 2^40, the hash domain.
pub open spec fn mask40(x: int) -> int {
    x % 0x100_0000_0000
}

/// `PRIME^n` modulo 2^40.
pub open spec fn poly_pow_spec(n: nat) -> int
    decreases n,
{
    if n == 0 {
        1
    } else {
        mask40(poly_pow_spec((n - 1) as nat) * (PRIME as int))
    }
}

/// Contribution of the byte that leaves the window: `b * PRIME^16 mod 2^40`.
pub open spec fn out_map_spec(b: int) -> int {
    mask40(b * poly_pow_spec(WIN_SIZE as nat))
}

/// Bit `j` of the irreducible polynomial.
pub open spec fn fp_bit(j: nat) -> bool {
    (FP_POLY >> (j as u64)) & 1u64 == 1u64
}

/// Accumulator of the irreducible-polynomial table: after `j` rounds the
/// pair holds `(PRIME^j mod 2^40, table value so far)` for byte `b`.
pub open spec fn ir_state(b: int, j: nat) -> (int, int)
    decreases j,
{
    if j == 0 {
        (1, 1)
    } else {
        let (p, v) = ir_state(b, (j - 1) as nat);
        let v2 = if fp_bit((j - 1) as nat) {
            v + mask40(p * b)
        } else {
            v
        };
        (mask40(p * (PRIME as int)), v2)
    }
}

/// The irreducible-polynomial table entry for byte `b`.
pub open spec fn ir_spec(b: int) -> int {
    ir_state(b, WIN_SIZE as nat).1
}

proof fn lemma_mask40_exec(x: u64)
    ensures
        (x & 0xff_ffff_ffffu64) as int == mask40(x as int),
        x & 0xff_ffff_ffffu64 <= 0xff_ffff_ffffu64,
{
    assert(x & 0xff_ffff_ffffu64 == x % 0x100_0000_0000u64) by (bit_vector);
}

/// Subtracting then masking equals the mathematical reduction modulo 2^40,
/// whatever the operands: 2^40 divides 2^64.
proof fn lemma_wrapping_sub_mask(a: u64, b: u64)
    ensures
        (vstd::wrapping::u64_specs::wrapping_sub(a, b) & 0xff_ffff_ffffu64) as int
            == mask40(a as int - b as int),
        vstd::wrapping::u64_specs::wrapping_sub(a, b) & 0xff_ffff_ffffu64
            <= 0xff_ffff_ffffu64,
{
    let w = vstd::wrapping::u64_specs::wrapping_sub(a, b);
    lemma_mask40_exec(w);
    if (a as int - b as int) < 0 {
        assert(w as int == a as int - b as int + 0x1_0000_0000_0000_0000);
        vstd::arithmetic::div_mod::lemma_mod_multiples_vanish(
            0x100_0000,
            a as int - b as int,
            0x100_0000_0000,
        );
    }
}

proof fn lemma_win_step(x: usize)
    requires
        x < 16,
    ensures
        ((x + 1) as usize) & 15usize == (if x == 15 { 0usize } else { (x + 1) as usize }),
{
    assert(x < 16 ==> ((x + 1) as usize) & 15usize == (if x == 15 {
        0usize
    } else {
        (x + 1) as usize
    })) by (bit_vector);
}

proof fn lemma_term_bit(j: u64)
    requires
        j < 16,
    ensures
        ((1u64 << j) & FP_POLY != 0) == ((FP_POLY >> j) & 1u64 == 1u64),
        1u64 << (j + 1) == 2 * (1u64 << j),
        1u64 << j >= 1,
{
    assert(j < 16 ==> (((1u64 << j) & 0xbfe6_b8a5_bf37_8d83u64 != 0)
        == ((0xbfe6_b8a5_bf37_8d83u64 >> j) & 1u64 == 1u64))) by (bit_vector);
    assert(j < 16 ==> (1u64 << (j + 1) == 2 * (1u64 << j) && 1u64 << j >= 1)) by (bit_vector);
}

/// Pre-calculated chunker parameters: the power of the prime, the out-byte
/// map and the irreducible-polynomial table.
pub struct ChunkerParams {
    poly_pow: u64,
    out_map: Vec<u64>,
    ir: Vec<u64>,
}

impl ChunkerParams {
    /// The tables hold exactly the specified values; this pins them down
    /// completely, so any two well-formed parameter sets are equal.
    pub closed spec fn wf(&self) -> bool {
        &&& self.out_map@.len() == 256
        &&& self.ir@.len() == 256
        &&& self.poly_pow as int == poly_pow_spec(WIN_SIZE as nat)
        &&& forall|i: int|
            0 <= i < 256 ==> #[trigger] (self.out_map@[i] as int) == out_map_spec(i)
        &&& forall|i: int| 0 <= i < 256 ==> #[trigger] (self.ir@[i] as int) == ir_spec(i)
    }

    /// Builds the parameter tables.
    pub fn new() -> (r: ChunkerParams)
        ensures
            r.wf(),
    {
        let mut poly_pow: u64 = 1;
        let mut k: usize = 0;
        while k < WIN_SIZE
            invariant
                k <= WIN_SIZE,
                poly_pow as int == poly_pow_spec(k as nat),
                poly_pow <= 0xff_ffff_ffffu64,
            decreases WIN_SIZE - k,
        {
            proof {
                lemma_mask40_exec((poly_pow * PRIME) as u64);
            }
            poly_pow = (poly_pow * PRIME) & MASK;
            k = k + 1;
        }

        let mut out_map: Vec<u64> = Vec::new();
        let mut ir: Vec<u64> = Vec::new();
        let mut i: usize = 0;
        while i < 256
            invariant
                i <= 256,
                poly_pow as int == poly_pow_spec(WIN_SIZE as nat),
                poly_pow <= 0xff_ffff_ffffu64,
                out_map@.len() == i,
                ir@.len() == i,
                forall|j: int| 0 <= j < i ==> #[trigger] (out_map@[j] as int) == out_map_spec(j),
                forall|j: int| 0 <= j < i ==> #[trigger] (ir@[j] as int) == ir_spec(j),
            decreases 256 - i,
        {
            proof {
                assert((i as u64) * poly_pow <= 255 * 0xff_ffff_ffff) by (nonlinear_arith)
                    requires
                        i < 256,
                        poly_pow <= 0xff_ffff_ffffu64,
                ;
            }
            let om = (i as u64) * poly_pow;
            proof {
                lemma_mask40_exec(om);
            }
            out_map.push(om & MASK);

            proof {
                assert(1u64 << 0u64 == 1u64) by (bit_vector);
            }
            let mut term: u64 = 1;
            let mut pow: u64 = 1;
            let mut val: u64 = 1;
            let mut j: usize = 0;
            while j < WIN_SIZE
                invariant
                    j <= WIN_SIZE,
                    i < 256,
                    term == 1u64 << (j as u64),
                    pow as int == ir_state(i as int, j as nat).0,
                    val as int == ir_state(i as int, j as nat).1,
                    pow <= 0xff_ffff_ffffu64,
                    val <= 1 + j * 0xff_ffff_ffff,
                decreases WIN_SIZE - j,
            {
                proof {
                    lemma_term_bit(j as u64);
                    assert(pow * (i as u64) <= 255 * 0xff_ffff_ffff) by (nonlinear_arith)
                        requires
                            i < 256,
                            pow <= 0xff_ffff_ffffu64,
                    ;
                }
                let pi = pow * (i as u64);
                proof {
                    lemma_mask40_exec(pi);
                }
                if (term & FP_POLY) != 0 {
                    val = val + (pi & MASK);
                }
                let pp = pow * PRIME;
                proof {
                    lemma_mask40_exec(pp);
                }
                pow = pp & MASK;
                term = term * 2;
                j = j + 1;
            }
            ir.push(val);
            i = i + 1;
        }

        ChunkerParams { poly_pow, out_map, ir }
    }
}

/// Rolling-hash state (window, window index, hash) before byte `n` of the
/// scan slice is processed.  The scan starts at `WIN_SLIDE_POS`, skipping
/// the guaranteed-small prefix of the chunk.
pub open spec fn rb_state(s: Seq<u8>, n: nat) -> (Seq<u8>, int, int)
    decreases n,
{
    if n <= WIN_SLIDE_POS {
        (Seq::new(WIN_SIZE as nat, |i: int| 0u8), 0, 0)
    } else {
        rb_step(rb_state(s, (n - 1) as nat), s[n - 1])
    }
}

/// One byte enters the window, the oldest byte leaves, the hash rolls.
pub open spec fn rb_step(st: (Seq<u8>, int, int), ch: u8) -> (Seq<u8>, int, int) {
    let (win, idx, hash) = st;
    let out = win[idx];
    let h1 = mask40(hash * (PRIME as int)) + ch;
    let h2 = mask40(h1 - out_map_spec(out as int));
    (win.update(idx, ch), if idx == WIN_MASK as int { 0 } else { idx + 1 }, h2)
}

/// Whether processing byte `n` of the scan slice fires a cut, giving a chunk
/// of `n + 1` bytes: the chunk has reached the minimum size and the masked
/// checksum vanishes, or the maximum size is reached.
pub open spec fn rb_cut_after(s: Seq<u8>, n: nat) -> bool {
    let st = rb_state(s, n);
    let out = st.0[st.1];
    let stepped = rb_step(st, s[n as int]);
    n + 1 >= MIN_SIZE && (((stepped.2 as u64) ^ (ir_spec(out as int) as u64)) & CUT_MASK
        == 0 || n + 1 >= MAX_SIZE)
}

/// The first cut at or after position `n` of the scan slice, if the bytes at
/// hand decide one.
pub open spec fn rb_find_from(s: Seq<u8>, n: nat) -> Option<int>
    decreases vstd::math::min(MAX_SIZE as int, s.len() as int) - n,
{
    if n >= vstd::math::min(MAX_SIZE as int, s.len() as int) {
        None
    } else if rb_cut_after(s, n) {
        Some((n + 1) as int)
    } else {
        rb_find_from(s, (n + 1) as nat)
    }
}

/// The length of the next chunk the Rabin scan cuts from the slice, if the
/// bytes at hand decide one.  The result is a function of the bytes alone.
pub open spec fn find_border_spec(s: Seq<u8>) -> Option<int> {
    rb_find_from(s, WIN_SLIDE_POS as nat)
}

/// A slice at least `MAX_SIZE` long always yields a cut: at the latest, the
/// forced cut at the maximum chunk size fires.
proof fn lemma_full_slice_cuts(s: Seq<u8>, n: nat)
    requires
        s.len() >= MAX_SIZE,
        n < MAX_SIZE,
    ensures
        rb_find_from(s, n) is Some,
    decreases MAX_SIZE - n,
{
    if rb_cut_after(s, n) {
    } else {
        assert(n + 1 < MAX_SIZE);
        lemma_full_slice_cuts(s, (n + 1) as nat);
    }
}

/// Scans the unexamined bytes of the buffer for the next cut point and
/// returns the chunk length; the result is exactly `find_border_spec` of the
/// scan slice, so equal bytes always give an equal cut.
pub fn find_border(buf: &ChunkerBuf, params: &ChunkerParams) -> (r: Option<usize>)
    requires
        buf.wf(),
        params.wf(),
    ensures
        match r {
            Some(n) => {
                &&& find_border_spec(buf.scan()) == Some(n as int)
                &&& MIN_SIZE <= n
                &&& n <= MAX_SIZE
                &&& n <= buf.clen - buf.pos
            },
            None => {
                &&& find_border_spec(buf.scan()) is None
                &&& buf.clen - buf.pos < MAX_SIZE
            },
        },
{
    let ghost s = buf.scan();
    let start = buf.pos;
    let len = buf.clen - buf.pos;
    let rem = if MAX_SIZE < len {
        MAX_SIZE
    } else {
        len
    };

    let mut win: Vec<u8> = Vec::new();
    let mut w: usize = 0;
    while w < WIN_SIZE
        invariant
            w <= WIN_SIZE,
            win@ == Seq::new(w as nat, |i: int| 0u8),
        decreases WIN_SIZE - w,
    {
        win.push(0u8);
        proof {
            assert(win@ =~= Seq::new((w + 1) as nat, |i: int| 0u8));
        }
        w = w + 1;
    }

    let mut win_idx: usize = 0;
    let mut roll_hash: u64 = 0;
    let mut n: usize = WIN_SLIDE_POS;

    while n < rem
        invariant
            buf.wf(),
            params.wf(),
            s == buf.scan(),
            start == buf.pos,
            len == buf.clen - buf.pos,
            rem == vstd::math::min(MAX_SIZE as int, len as int),
            WIN_SLIDE_POS <= n,
            n <= rem || n == WIN_SLIDE_POS,
            win@ == rb_state(s, n as nat).0,
            win_idx as int == rb_state(s, n as nat).1,
            roll_hash as int == rb_state(s, n as nat).2,
            roll_hash <= 0xff_ffff_ffffu64,
            win@.len() == WIN_SIZE,
            win_idx < WIN_SIZE,
            rb_find_from(s, WIN_SLIDE_POS as nat) == rb_find_from(s, n as nat),
        decreases rem - n,
    {
        let ghost st = rb_state(s, n as nat);
        let ch = buf.at(start + n);
        proof {
            assert(ch == s[n as int]);
        }
        let out_b = win[win_idx];
        let out = out_b as usize;
        let pushed_out = params.out_map[out];

        proof {
            lemma_mask40_exec((roll_hash * PRIME) as u64);
        }
        roll_hash = (roll_hash * PRIME) & MASK;
        roll_hash = roll_hash + (ch as u64);
        proof {
            lemma_wrapping_sub_mask(roll_hash, pushed_out);
        }
        roll_hash = roll_hash.wrapping_sub(pushed_out) & MASK;

        win.set(win_idx, ch);
        proof {
            lemma_win_step(win_idx);
        }
        win_idx = (win_idx + 1) & WIN_MASK;
        n = n + 1;

        proof {
            assert(rb_state(s, n as nat) == rb_step(st, s[n - 1]));
            assert(win@ =~= rb_state(s, n as nat).0);
        }

        if n >= MIN_SIZE {
            let chksum = roll_hash ^ params.ir[out];
            if (chksum & CUT_MASK) == 0 || n >= MAX_SIZE {
                proof {
                    assert(rb_cut_after(s, (n - 1) as nat));
                    assert(rb_find_from(s, (n - 1) as nat) == Some(n as int));
                }
                return Some(n);
            }
        }
        proof {
            assert(!rb_cut_after(s, (n - 1) as nat));
            assert(rb_find_from(s, (n - 1) as nat) == rb_find_from(s, n as nat));
        }
    }
    proof {
        if len >= MAX_SIZE {
            lemma_full_slice_cuts(s, WIN_SLIDE_POS as nat);
        }
        assert(rb_find_from(s, n as nat) is None);
    }
    None
}

/// The scan state at position `n` depends only on the first `n` bytes of
/// the slice.
proof fn lemma_state_prefix(s1: Seq<u8>, s2: Seq<u8>, n: nat)
    requires
        s1.len() <= s2.len(),
        s1 == s2.subrange(0, s1.len() as int),
        n <= s1.len(),
    ensures
        rb_state(s1, n) == rb_state(s2, n),
    decreases n,
{
    if n > WIN_SLIDE_POS {
        lemma_state_prefix(s1, s2, (n - 1) as nat);
        assert(s1[n - 1] == s2[n - 1]);
    }
}

proof fn lemma_find_prefix(s1: Seq<u8>, s2: Seq<u8>, n: nat)
    requires
        s1.len() <= s2.len(),
        s1 == s2.subrange(0, s1.len() as int),
        rb_find_from(s1, n) is Some,
    ensures
        rb_find_from(s2, n) == rb_find_from(s1, n),
    decreases vstd::math::min(MAX_SIZE as int, s1.len() as int) - n,
{
    assert(n < vstd::math::min(MAX_SIZE as int, s1.len() as int));
    lemma_state_prefix(s1, s2, n);
    assert(s1[n as int] == s2[n as int]);
    assert(rb_cut_after(s1, n) == rb_cut_after(s2, n));
    if !rb_cut_after(s1, n) {
        lemma_find_prefix(s1, s2, (n + 1) as nat);
    }
}

/// Cut stability, the heart of streaming equivalence: a cut the scan finds
/// in the bytes at hand stays exactly where it is when more bytes arrive,
/// so feeding a stream piecewise yields the same cut points as feeding it
/// whole.
pub proof fn lemma_cut_stable(s1: Seq<u8>, s2: Seq<u8>)
    requires
        s1.len() <= s2.len(),
        s1 == s2.subrange(0, s1.len() as int),
        find_border_spec(s1) is Some,
    ensures
        find_border_spec(s2) == find_border_spec(s1),
{
    lemma_find_prefix(s1, s2, WIN_SLIDE_POS as nat);
}

/// Rabin strategy: the parameter tables plus the stateless scan.
pub struct RabinChunker {
    params: ChunkerParams,
}

impl RabinChunker {
    /// A strategy with freshly built parameter tables.
    pub fn new() -> (r: RabinChunker)
        ensures
            r.wf(),
    {
        RabinChunker { params: ChunkerParams::new() }
    }
}

impl RabinChunker {
    /// Advances the scan by one call: finds the next cut in the unexamined
    /// bytes and takes it, moving the cursors.  The emitted length is
    /// exactly `find_border_spec` of the scan slice, a function of the
    /// bytes alone.
    pub fn find_cut(&self, buf: &mut ChunkerBuf) -> (r: Option<usize>)
        requires
            self.wf(),
            old(buf).wf(),
            old(buf).chunk_len == 0,
        ensures
            final(buf).wf(),
            final(buf).bytes() == old(buf).bytes(),
            final(buf).clen == old(buf).clen,
            match r {
                Some(n) => {
                    &&& find_border_spec(old(buf).scan()) == Some(n as int)
                    &&& MIN_SIZE <= n <= MAX_SIZE
                    &&& final(buf).pos == old(buf).pos + n
                    &&& final(buf).chunk_len == n
                },
                None => {
                    &&& find_border_spec(old(buf).scan()) is None
                    &&& old(buf).clen - old(buf).pos < MAX_SIZE
                    &&& *final(buf) == *old(buf)
                },
            },
    {
        match find_border(&*buf, &self.params) {
            Some(length) => {
                let start = buf.pos;
                buf.chunk_len = length;
                buf.pos = start + length;
                Some(length)
            },
            None => None,
        }
    }
}

impl Chunking for RabinChunker {
    closed spec fn wf(&self) -> bool {
        self.params.wf()
    }

    /// The scan restarts from the chunk start on every call, so no chunk may
    /// be in flight between calls.
    open spec fn inv(&self, chunk_len: int) -> bool {
        chunk_len == 0
    }

    open spec fn tag(&self) -> crate::chunker::ChunkingAlgorithm {
        crate::chunker::ChunkingAlgorithm::Rabin
    }

    open spec fn min_chunk(&self) -> int {
        MIN_SIZE as int
    }

    open spec fn max_chunk(&self) -> int {
        MAX_SIZE as int
    }

    proof fn properties(&self) {
    }

    fn reset(&mut self) {
    }

    fn next_write_range(&mut self, buf: &mut ChunkerBuf) -> (r: Option<Range<usize>>) {
        match self.find_cut(buf) {
            Some(length) => {
                let end = buf.pos;
                Some((end - length)..end)
            },
            None => None,
        }
    }
}

} // verus!
