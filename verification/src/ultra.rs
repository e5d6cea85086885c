//! UltraCDC chunking strategy.
//!
//! Operates on 8-byte windows.  The "distance" of a window is the sum of
//! Hamming distances between each window byte and the anchor byte `0xAA`,
//! looked up in a precomputed 256x256 table.  A cut fires when the masked
//! distance vanishes, with a strict mask in the normal region and a relaxed
//! one in the long region; a run of 64 consecutive equal windows forces a
//! cut, and so does the maximum chunk size.  The scan keeps its state
//! between calls and resumes where it stopped when more bytes arrive.

use core::ops::Range;
use vstd::prelude::*;

use crate::buffer::ChunkerBuf;
use crate::chunker::Chunking;

verus! {

pub const KB: usize = 1024;

pub const MIN_CHUNK_SIZE: usize = 2 * KB;

pub const NORMAL_CHUNK_SIZE: usize = 2 * KB + 8 * KB;

pub const MAX_CHUNK_SIZE: usize = 64 * KB;

pub const WINDOW_SIZE: usize = 8;

/// Anchor byte against which window distances are measured.
pub const BYTE: usize = 0xaa;

/// Mask for the normal region, below `NORMAL_CHUNK_SIZE`.
pub const MASK_S: usize = 0x2f;

/// Mask for the long region, from `NORMAL_CHUNK_SIZE` on.
pub const MASK_L: usize = 0x2c;

/// A run of this many consecutive equal windows forces a cut.
pub const LEST: usize = 64;

/// Number of set bits in a byte.
pub open spec fn pop_spec(x: u8) -> int {
    (x & 1) + ((x >> 1u8) & 1) + ((x >> 2u8) & 1) + ((x >> 3u8) & 1) + ((x >> 4u8) & 1) + ((x
        >> 5u8) & 1) + ((x >> 6u8) & 1) + ((x >> 7u8) & 1)
}

/// Hamming distance between two bytes.
pub open spec fn dm_entry(a: u8, b: u8) -> int {
    pop_spec(a ^ b)
}

/// Distance of the first `k` window bytes against the anchor byte.
pub open spec fn dist_to(w: Seq<u8>, k: int) -> int
    decreases k,
{
    if k <= 0 {
        0
    } else {
        dist_to(w, k - 1) + dm_entry(0xaau8, w[k - 1])
    }
}

/// Distance of a whole window against the anchor byte.
pub open spec fn win_distance(w: Seq<u8>) -> int {
    dist_to(w, WINDOW_SIZE as int)
}

/// The window whose first `j` bytes come from `inw` and the rest from
/// `out`: the state of the sliding in `slide_one_byte`.
pub open spec fn hybrid(out: Seq<u8>, inw: Seq<u8>, j: int) -> Seq<u8> {
    Seq::new(
        WINDOW_SIZE as nat,
        |i: int|
            if i < j {
                inw[i]
            } else {
                out[i]
            },
    )
}

/// The first sliding position within the window pair at which the masked
/// distance vanishes.
pub open spec fn uc_scan_from(out: Seq<u8>, w: Seq<u8>, mask: usize, j: int) -> Option<int>
    decreases WINDOW_SIZE as int - j,
{
    if j >= WINDOW_SIZE {
        None
    } else if (win_distance(hybrid(out, w, j)) as usize) & mask == 0 {
        Some(j)
    } else {
        uc_scan_from(out, w, mask, j + 1)
    }
}

/// The state of the scan after one phase: the cut, if one fired, and the
/// cursors, window and counter the scan left behind.
pub struct ScanOutcome {
    pub cut: Option<int>,
    pub pos: int,
    pub chunk_len: int,
    pub out: Seq<u8>,
    pub count: int,
    pub anchored: bool,
}

/// One masked scan phase as a function of the buffer bytes and the scan
/// state alone: windows advance eight bytes at a time; a run of equal
/// windows forces a cut, and so does a vanishing masked distance at any
/// sliding position.
pub open spec fn uc_try(
    bytes: Seq<u8>,
    clen: int,
    limit: int,
    mask: usize,
    pos: int,
    cl: int,
    out: Seq<u8>,
    count: int,
    anchored: bool,
) -> ScanOutcome
    decreases clen - pos,
{
    if cl >= limit || pos + 8 > clen {
        ScanOutcome { cut: None, pos, chunk_len: cl, out, count, anchored }
    } else {
        let w = bytes.subrange(pos, pos + 8);
        if w == out {
            if count + 1 == LEST {
                ScanOutcome {
                    cut: Some(cl + 8),
                    pos: pos + 8,
                    chunk_len: cl + 8,
                    out,
                    count: 0,
                    anchored,
                }
            } else {
                uc_try(bytes, clen, limit, mask, pos + 8, cl + 8, out, count + 1, anchored)
            }
        } else {
            if uc_scan_from(out, w, mask, 0) is Some {
                ScanOutcome { cut: Some(cl), pos, chunk_len: cl, out, count: 0, anchored }
            } else {
                uc_try(bytes, clen, limit, mask, pos + 8, cl + 8, w, 0, anchored)
            }
        }
    }
}

/// The two masked phases and the forced cut at the maximum size, from an
/// anchored state.
pub open spec fn uc_phases(
    bytes: Seq<u8>,
    clen: int,
    pos: int,
    cl: int,
    out: Seq<u8>,
    count: int,
) -> ScanOutcome {
    let o1 = uc_try(bytes, clen, NORMAL_CHUNK_SIZE as int, MASK_S, pos, cl, out, count, true);
    if o1.cut is Some {
        ScanOutcome { anchored: false, ..o1 }
    } else {
        let o2 = uc_try(
            bytes,
            clen,
            MAX_CHUNK_SIZE as int,
            MASK_L,
            o1.pos,
            o1.chunk_len,
            o1.out,
            o1.count,
            true,
        );
        if o2.cut is Some {
            ScanOutcome { anchored: false, ..o2 }
        } else if o2.chunk_len >= MAX_CHUNK_SIZE {
            ScanOutcome { cut: Some(o2.chunk_len), anchored: false, ..o2 }
        } else {
            ScanOutcome { anchored: true, ..o2 }
        }
    }
}

/// One scan step as a function of the buffer bytes and the scan state
/// alone: the minimum-size skip, the one-time window anchor, and the
/// masked phases.  Re-chunking the same bytes from the same state
/// therefore gives the same cut.
pub open spec fn uc_generate(
    bytes: Seq<u8>,
    clen: int,
    pos: int,
    cl: int,
    out: Seq<u8>,
    count: int,
    anchored: bool,
) -> ScanOutcome {
    let add = if cl < MIN_CHUNK_SIZE {
        vstd::math::min(MIN_CHUNK_SIZE - cl, clen - pos)
    } else {
        0
    };
    let pos1 = pos + add;
    let cl1 = cl + add;
    if cl1 < MIN_CHUNK_SIZE {
        ScanOutcome { cut: None, pos: pos1, chunk_len: cl1, out, count, anchored }
    } else if !anchored {
        if pos1 + 8 > clen {
            ScanOutcome { cut: None, pos: pos1, chunk_len: cl1, out, count, anchored: false }
        } else {
            uc_phases(bytes, clen, pos1 + 8, cl1 + 8, bytes.subrange(pos1, pos1 + 8), count)
        }
    } else {
        uc_phases(bytes, clen, pos1, cl1, out, count)
    }
}

proof fn lemma_pop_bounds(x: u8)
    ensures
        0 <= pop_spec(x) <= 8,
{
    assert((x & 1) + ((x >> 1u8) & 1) + ((x >> 2u8) & 1) + ((x >> 3u8) & 1) + ((x >> 4u8) & 1) + ((
    x >> 5u8) & 1) + ((x >> 6u8) & 1) + ((x >> 7u8) & 1) <= 8) by (bit_vector);
}

proof fn lemma_dist_bounds(w: Seq<u8>, k: int)
    ensures
        0 <= dist_to(w, k) <= if k <= 0 {
            0
        } else {
            8 * k
        },
    decreases k,
{
    if k > 0 {
        lemma_dist_bounds(w, k - 1);
        lemma_pop_bounds(0xaau8 ^ w[k - 1]);
    }
}

/// The distance of the first `k` bytes contains the contribution of each of
/// those bytes.
proof fn lemma_dist_term(w: Seq<u8>, j: int, k: int)
    requires
        0 <= j < k,
    ensures
        dist_to(w, k) >= dm_entry(0xaau8, w[j]),
    decreases k,
{
    if j == k - 1 {
        lemma_dist_bounds(w, k - 1);
    } else {
        lemma_dist_term(w, j, k - 1);
        lemma_pop_bounds(0xaau8 ^ w[k - 1]);
    }
}

/// Replacing byte `j` of a window adjusts the distance by the difference of
/// the two bytes' contributions.
proof fn lemma_dist_update(w: Seq<u8>, j: int, b: u8, k: int)
    requires
        0 <= j < w.len(),
        k <= w.len(),
    ensures
        dist_to(w.update(j, b), k) == if j < k {
            dist_to(w, k) - dm_entry(0xaau8, w[j]) + dm_entry(0xaau8, b)
        } else {
            dist_to(w, k)
        },
    decreases k,
{
    if k > 0 {
        lemma_dist_update(w, j, b, k - 1);
        assert(w.update(j, b)[k - 1] == if j == k - 1 {
            b
        } else {
            w[k - 1]
        });
    }
}

/// Builds the 256x256 table of byte Hamming distances.
pub fn distance_map() -> (r: Vec<Vec<usize>>)
    ensures
        dm_wf(&r),
{
    let mut r: Vec<Vec<usize>> = Vec::new();
    let mut a: usize = 0;
    while a < 256
        invariant
            a <= 256,
            r@.len() == a,
            forall|x: int| 0 <= x < a ==> (#[trigger] r@[x]@.len()) == 256,
            forall|x: int, y: int|
                0 <= x < a && 0 <= y < 256 ==> ((#[trigger] r@[x]@[y]) as int) == dm_entry(
                    x as u8,
                    y as u8,
                ),
        decreases 256 - a,
    {
        let mut row: Vec<usize> = Vec::new();
        let mut b: usize = 0;
        while b < 256
            invariant
                a < 256,
                b <= 256,
                row@.len() == b,
                forall|y: int| 0 <= y < b ==> (#[trigger] row@[y] as int) == dm_entry(
                    a as u8,
                    y as u8,
                ),
            decreases 256 - b,
        {
            row.push(popcount8((a as u8) ^ (b as u8)));
            b = b + 1;
        }
        r.push(row);
        a = a + 1;
    }
    r
}

/// The distance table holds exactly the byte Hamming distances.
pub open spec fn dm_wf(dm: &Vec<Vec<usize>>) -> bool {
    &&& dm@.len() == 256
    &&& forall|a: int| 0 <= a < 256 ==> (#[trigger] dm@[a]@.len()) == 256
    &&& forall|a: int, b: int|
        0 <= a < 256 && 0 <= b < 256 ==> ((#[trigger] dm@[a]@[b]) as int) == dm_entry(
            a as u8,
            b as u8,
        )
}

/// Counts the set bits of a byte.
fn popcount8(x: u8) -> (r: usize)
    ensures
        r as int == pop_spec(x),
{
    proof {
        assert((x & 1) <= 1 && ((x >> 1u8) & 1) <= 1 && ((x >> 2u8) & 1) <= 1 && ((x >> 3u8) & 1)
            <= 1 && ((x >> 4u8) & 1) <= 1 && ((x >> 5u8) & 1) <= 1 && ((x >> 6u8) & 1) <= 1 && ((x
            >> 7u8) & 1) <= 1) by (bit_vector);
    }
    let mut r: usize = 0;
    if x & 1 != 0 {
        r = r + 1;
    }
    if (x >> 1u8) & 1 != 0 {
        r = r + 1;
    }
    if (x >> 2u8) & 1 != 0 {
        r = r + 1;
    }
    if (x >> 3u8) & 1 != 0 {
        r = r + 1;
    }
    if (x >> 4u8) & 1 != 0 {
        r = r + 1;
    }
    if (x >> 5u8) & 1 != 0 {
        r = r + 1;
    }
    if (x >> 6u8) & 1 != 0 {
        r = r + 1;
    }
    if (x >> 7u8) & 1 != 0 {
        r = r + 1;
    }
    r
}

/// Compares two 8-byte windows.
fn windows_equal(a: &Vec<u8>, b: &Vec<u8>) -> (r: bool)
    requires
        a@.len() == WINDOW_SIZE,
        b@.len() == WINDOW_SIZE,
    ensures
        r == (a@ == b@),
{
    let mut i: usize = 0;
    while i < WINDOW_SIZE
        invariant
            i <= WINDOW_SIZE,
            a@.len() == WINDOW_SIZE,
            b@.len() == WINDOW_SIZE,
            forall|j: int| 0 <= j < i ==> a@[j] == b@[j],
        decreases WINDOW_SIZE - i,
    {
        if a[i] != b[i] {
            return false;
        }
        i = i + 1;
    }
    proof {
        assert(a@ =~= b@);
    }
    true
}

/// UltraCDC strategy state: the two 8-byte windows, the distance table, the
/// running distance and the equal-window counter.
pub struct UltraChunker {
    out_window: Vec<u8>,
    in_window: Vec<u8>,
    distance_map: Vec<Vec<usize>>,
    distance: usize,
    equal_window_count: usize,
    anchored: bool,
}

impl UltraChunker {
    /// The window the running distance is measured against.
    pub closed spec fn out_win(&self) -> Seq<u8> {
        self.out_window@
    }

    /// The count of consecutive equal windows seen.
    pub closed spec fn equal_count(&self) -> int {
        self.equal_window_count as int
    }

    /// Whether a chunk scan is anchored and in progress.
    pub closed spec fn is_anchored(&self) -> bool {
        self.anchored
    }

    /// A fresh strategy with zeroed windows and a freshly built table: the
    /// whole scan state is pinned, so two fresh strategies cut alike.
    pub fn new() -> (r: UltraChunker)
        ensures
            r.wf(),
            r.inv(0),
            r.out_win() == Seq::new(WINDOW_SIZE as nat, |i: int| 0u8),
            r.equal_count() == 0,
            !r.is_anchored(),
    {
        let mut out_window: Vec<u8> = Vec::new();
        let mut in_window: Vec<u8> = Vec::new();
        let mut i: usize = 0;
        while i < WINDOW_SIZE
            invariant
                out_window@ == Seq::new(i as nat, |j: int| 0u8),
                in_window@.len() == i,
                i <= WINDOW_SIZE,
            decreases WINDOW_SIZE - i,
        {
            out_window.push(0u8);
            in_window.push(0u8);
            proof {
                assert(out_window@ =~= Seq::new((i + 1) as nat, |j: int| 0u8));
            }
            i = i + 1;
        }
        UltraChunker {
            out_window,
            in_window,
            distance_map: distance_map(),
            distance: 0,
            equal_window_count: 0,
            anchored: false,
        }
    }

    /// Recomputes the distance of the out-window from scratch.
    #[verifier::loop_isolation(false)]
    fn calculate_new_distance(&mut self)
        requires
            old(self).wf(),
        ensures
            final(self).wf(),
            final(self).out_window == old(self).out_window,
            final(self).in_window == old(self).in_window,
            final(self).distance_map == old(self).distance_map,
            final(self).equal_window_count == old(self).equal_window_count,
            final(self).anchored == old(self).anchored,
            final(self).distance as int == win_distance(old(self).out_window@),
    {
        let mut d: usize = 0;
        let mut i: usize = 0;
        while i < WINDOW_SIZE
            invariant
                self.wf(),
                i <= WINDOW_SIZE,
                d as int == dist_to(self.out_window@, i as int),
                d <= 8 * i,
            decreases WINDOW_SIZE - i,
        {
            let b = self.out_window[i];
            proof {
                lemma_pop_bounds(0xaau8 ^ b);
                assert((self.distance_map@[BYTE as int]@[b as int] as int) == dm_entry(
                    (BYTE as int) as u8,
                    (b as int) as u8,
                ));
            }
            d = d + self.distance_map[BYTE][b as usize];
            i = i + 1;
        }
        self.distance = d;
    }

    /// Slides one byte: the in-window byte at `index` replaces the
    /// out-window byte in the running distance.
    fn slide_one_byte(&mut self, index: usize)
        requires
            old(self).wf(),
            index < WINDOW_SIZE,
            old(self).distance as int == win_distance(
                hybrid(old(self).out_window@, old(self).in_window@, index as int),
            ),
        ensures
            final(self).wf(),
            final(self).out_window == old(self).out_window,
            final(self).in_window == old(self).in_window,
            final(self).distance_map == old(self).distance_map,
            final(self).equal_window_count == old(self).equal_window_count,
            final(self).anchored == old(self).anchored,
            final(self).distance as int == win_distance(
                hybrid(old(self).out_window@, old(self).in_window@, index as int + 1),
            ),
    {
        let old_b = self.out_window[index];
        let new_b = self.in_window[index];
        let ghost h = hybrid(self.out_window@, self.in_window@, index as int);
        proof {
            lemma_dist_bounds(h, WINDOW_SIZE as int);
            lemma_pop_bounds(0xaau8 ^ old_b);
            lemma_pop_bounds(0xaau8 ^ new_b);
            assert(h[index as int] == old_b);
            lemma_dist_term(h, index as int, WINDOW_SIZE as int);
            lemma_dist_update(h, index as int, new_b, WINDOW_SIZE as int);
            assert(h.update(index as int, new_b) =~= hybrid(
                self.out_window@,
                self.in_window@,
                index as int + 1,
            ));
        }
        proof {
            assert((self.distance_map@[BYTE as int]@[new_b as int] as int) == dm_entry(
                (BYTE as int) as u8,
                (new_b as int) as u8,
            ));
            assert((self.distance_map@[BYTE as int]@[old_b as int] as int) == dm_entry(
                (BYTE as int) as u8,
                (old_b as int) as u8,
            ));
        }
        self.distance = self.distance + self.distance_map[BYTE][new_b as usize];
        self.distance = self.distance - self.distance_map[BYTE][old_b as usize];
    }

    /// Scans 8-byte windows under `size_limit` and `mask`, resuming the
    /// running distance, and reports a cut when the masked distance
    /// vanishes, when 64 consecutive windows are equal, or not at all if the
    /// data runs out or the limit is reached.
    #[verifier::loop_isolation(false)]
    fn try_get_chunk(&mut self, buf: &mut ChunkerBuf, size_limit: usize, mask: usize) -> (r:
        Option<usize>)
        requires
            old(self).wf(),
            old(buf).wf(),
            old(self).distance as int == win_distance(old(self).out_window@),
            MIN_CHUNK_SIZE <= old(buf).chunk_len <= MAX_CHUNK_SIZE,
            (old(buf).chunk_len - MIN_CHUNK_SIZE) % 8 == 0,
            size_limit == NORMAL_CHUNK_SIZE || size_limit == MAX_CHUNK_SIZE,
        ensures
            final(self).wf(),
            final(buf).wf(),
            final(buf).bytes() == old(buf).bytes(),
            final(buf).clen == old(buf).clen,
            old(buf).pos <= final(buf).pos,
            final(buf).pos - final(buf).chunk_len == old(buf).pos - old(buf).chunk_len,
            MIN_CHUNK_SIZE <= final(buf).chunk_len <= MAX_CHUNK_SIZE,
            old(buf).chunk_len <= final(buf).chunk_len,
            (final(buf).chunk_len - MIN_CHUNK_SIZE) % 8 == 0,
            final(buf).chunk_len <= vstd::math::max(old(buf).chunk_len as int, size_limit as int),
            final(self).anchored == old(self).anchored,
            match r {
                Some(n) => {
                    &&& n == final(buf).chunk_len
                    &&& n <= size_limit
                },
                None => {
                    &&& final(self).distance as int == win_distance(final(self).out_window@)
                    &&& (final(buf).clen - final(buf).pos < 8 || final(buf).chunk_len
                        >= size_limit)
                },
            },
            ({
                let o = uc_try(
                    old(buf).bytes(),
                    old(buf).clen as int,
                    size_limit as int,
                    mask,
                    old(buf).pos as int,
                    old(buf).chunk_len as int,
                    old(self).out_window@,
                    old(self).equal_window_count as int,
                    old(self).anchored,
                );
                &&& final(buf).pos == o.pos
                &&& final(buf).chunk_len == o.chunk_len
                &&& final(self).out_window@ == o.out
                &&& final(self).equal_window_count == o.count
                &&& match r {
                    Some(n) => o.cut == Some(n as int),
                    None => o.cut is None,
                }
            }),
    {
        while buf.chunk_len < size_limit
            invariant
                self.wf(),
                buf.wf(),
                self.distance as int == win_distance(self.out_window@),
                buf.bytes() == old(buf).bytes(),
                buf.clen == old(buf).clen,
                old(buf).pos <= buf.pos,
                buf.pos - buf.chunk_len == old(buf).pos - old(buf).chunk_len,
                MIN_CHUNK_SIZE <= buf.chunk_len <= MAX_CHUNK_SIZE,
                old(buf).chunk_len <= buf.chunk_len,
                (buf.chunk_len - MIN_CHUNK_SIZE) % 8 == 0,
                self.anchored == old(self).anchored,
                buf.chunk_len <= vstd::math::max(old(buf).chunk_len as int, size_limit as int),
                size_limit <= MAX_CHUNK_SIZE,
                uc_try(
                    old(buf).bytes(),
                    old(buf).clen as int,
                    size_limit as int,
                    mask,
                    old(buf).pos as int,
                    old(buf).chunk_len as int,
                    old(self).out_window@,
                    old(self).equal_window_count as int,
                    old(self).anchored,
                ) == uc_try(
                    buf.bytes(),
                    buf.clen as int,
                    size_limit as int,
                    mask,
                    buf.pos as int,
                    buf.chunk_len as int,
                    self.out_window@,
                    self.equal_window_count as int,
                    self.anchored,
                ),
            decreases buf.clen - buf.pos,
        {
            if buf.pos + 8 > buf.clen {
                return None;
            }
            let ghost it_pos = buf.pos as int;
            let ghost it_cl = buf.chunk_len as int;
            let ghost it_out = self.out_window@;
            let ghost it_count = self.equal_window_count as int;
            let ghost it_w = buf.bytes().subrange(it_pos, it_pos + 8);
            let ghost snap = *self;
            let mut j: usize = 0;
            while j < WINDOW_SIZE
                invariant
                    j <= WINDOW_SIZE,
                    self.out_window == snap.out_window,
                    self.distance_map == snap.distance_map,
                    self.distance == snap.distance,
                    self.equal_window_count == snap.equal_window_count,
                    self.anchored == snap.anchored,
                    self.in_window@.len() == WINDOW_SIZE,
                    forall|t: int| 0 <= t < j ==> self.in_window@[t] == buf.bytes()[buf.pos + t],
                decreases WINDOW_SIZE - j,
            {
                let b = buf.at(buf.pos + j);
                self.in_window.set(j, b);
                j = j + 1;
            }
            proof {
                assert(self.in_window@ =~= it_w);
            }

            if windows_equal(&self.in_window, &self.out_window) {
                self.equal_window_count = self.equal_window_count + 1;
                if self.equal_window_count == LEST {
                    self.equal_window_count = 0;
                    buf.chunk_len = buf.chunk_len + 8;
                    buf.pos = buf.pos + 8;
                    proof {
                        assert(uc_try(
                            buf.bytes(),
                            buf.clen as int,
                            size_limit as int,
                            mask,
                            it_pos,
                            it_cl,
                            it_out,
                            it_count,
                            self.anchored,
                        ) == ScanOutcome {
                            cut: Some(it_cl + 8),
                            pos: it_pos + 8,
                            chunk_len: it_cl + 8,
                            out: it_out,
                            count: 0,
                            anchored: self.anchored,
                        });
                    }
                    return Some(buf.chunk_len);
                } else {
                    buf.pos = buf.pos + 8;
                    buf.chunk_len = buf.chunk_len + 8;
                    proof {
                        assert(uc_try(
                            buf.bytes(),
                            buf.clen as int,
                            size_limit as int,
                            mask,
                            it_pos,
                            it_cl,
                            it_out,
                            it_count,
                            self.anchored,
                        ) == uc_try(
                            buf.bytes(),
                            buf.clen as int,
                            size_limit as int,
                            mask,
                            buf.pos as int,
                            buf.chunk_len as int,
                            self.out_window@,
                            self.equal_window_count as int,
                            self.anchored,
                        ));
                    }
                }
            } else {
                self.equal_window_count = 0;
                let ghost outw = self.out_window@;
                let ghost inw = self.in_window@;
                proof {
                    assert(hybrid(outw, inw, 0) =~= outw);
                }
                let mut j: usize = 0;
                while j < WINDOW_SIZE
                    invariant
                        j <= WINDOW_SIZE,
                        self.wf(),
                        buf.wf(),
                        outw == self.out_window@,
                        inw == self.in_window@,
                        self.anchored == old(self).anchored,
                        self.equal_window_count == 0,
                        self.distance as int == win_distance(hybrid(outw, inw, j as int)),
                        MIN_CHUNK_SIZE <= buf.chunk_len,
                        uc_scan_from(outw, inw, mask, 0) == uc_scan_from(outw, inw, mask, j as int),
                    decreases WINDOW_SIZE - j,
                {
                    proof {
                        assert((win_distance(hybrid(outw, inw, j as int)) as usize)
                            == self.distance);
                    }
                    if self.distance & mask == 0 {
                        proof {
                            assert(uc_scan_from(outw, inw, mask, j as int) == Some(j as int));
                            assert(uc_try(
                                buf.bytes(),
                                buf.clen as int,
                                size_limit as int,
                                mask,
                                it_pos,
                                it_cl,
                                it_out,
                                it_count,
                                self.anchored,
                            ) == ScanOutcome {
                                cut: Some(it_cl),
                                pos: it_pos,
                                chunk_len: it_cl,
                                out: it_out,
                                count: 0,
                                anchored: self.anchored,
                            });
                        }
                        return Some(buf.chunk_len);
                    }
                    self.slide_one_byte(j);
                    j = j + 1;
                }
                proof {
                    assert(hybrid(outw, inw, WINDOW_SIZE as int) =~= inw);
                }
                let ghost snap2 = *self;
                let mut k: usize = 0;
                while k < WINDOW_SIZE
                    invariant
                        k <= WINDOW_SIZE,
                        self.out_window@.len() == WINDOW_SIZE,
                        self.in_window == snap2.in_window,
                        self.distance_map == snap2.distance_map,
                        self.distance == snap2.distance,
                        self.equal_window_count == snap2.equal_window_count,
                        self.anchored == snap2.anchored,
                        inw == self.in_window@,
                        forall|t: int| 0 <= t < k ==> self.out_window@[t] == inw[t],
                    decreases WINDOW_SIZE - k,
                {
                    let b = self.in_window[k];
                    self.out_window.set(k, b);
                    k = k + 1;
                }
                proof {
                    assert(self.out_window@ =~= inw);
                }
                buf.pos = buf.pos + 8;
                buf.chunk_len = buf.chunk_len + 8;
                proof {
                    assert(uc_scan_from(outw, inw, mask, 0) is None);
                    assert(uc_try(
                        buf.bytes(),
                        buf.clen as int,
                        size_limit as int,
                        mask,
                        it_pos,
                        it_cl,
                        it_out,
                        it_count,
                        self.anchored,
                    ) == uc_try(
                        buf.bytes(),
                        buf.clen as int,
                        size_limit as int,
                        mask,
                        buf.pos as int,
                        buf.chunk_len as int,
                        self.out_window@,
                        self.equal_window_count as int,
                        self.anchored,
                    ));
                }
            }
        }
        None
    }

    /// Advances the scan by one phase: the minimum-size skip, the window
    /// anchor, the masked scans, and the forced cut at the maximum size.
    /// The result and the scan state afterwards are exactly `uc_generate`
    /// of the buffer bytes and the state before, a function of the bytes
    /// alone: re-chunking the same stream cuts it the same way.
    #[verifier::loop_isolation(false)]
    pub fn generate_chunk(&mut self, buf: &mut ChunkerBuf) -> (r: Option<usize>)
        requires
            old(self).wf(),
            old(buf).wf(),
            old(buf).pos < old(buf).clen,
            old(self).inv(old(buf).chunk_len as int),
        ensures
            final(self).wf(),
            final(buf).wf(),
            final(buf).bytes() == old(buf).bytes(),
            final(buf).clen == old(buf).clen,
            old(buf).pos <= final(buf).pos,
            final(buf).pos - final(buf).chunk_len == old(buf).pos - old(buf).chunk_len,
            match r {
                Some(n) => {
                    &&& n == final(buf).chunk_len
                    &&& MIN_CHUNK_SIZE <= n <= MAX_CHUNK_SIZE
                    &&& final(self).inv(0)
                },
                None => {
                    &&& final(self).inv(final(buf).chunk_len as int)
                    &&& (final(buf).pos > old(buf).pos || final(buf).clen - final(buf).pos
                        + final(buf).chunk_len < MAX_CHUNK_SIZE)
                },
            },
            ({
                let o = uc_generate(
                    old(buf).bytes(),
                    old(buf).clen as int,
                    old(buf).pos as int,
                    old(buf).chunk_len as int,
                    old(self).out_win(),
                    old(self).equal_count(),
                    old(self).is_anchored(),
                );
                &&& final(buf).pos == o.pos
                &&& final(buf).chunk_len == o.chunk_len
                &&& final(self).out_win() == o.out
                &&& final(self).equal_count() == o.count
                &&& final(self).is_anchored() == o.anchored
                &&& match r {
                    Some(n) => o.cut == Some(n as int),
                    None => o.cut is None,
                }
            }),
    {
        if buf.chunk_len < MIN_CHUNK_SIZE {
            let avail = buf.clen - buf.pos;
            let need = MIN_CHUNK_SIZE - buf.chunk_len;
            let add = if need < avail {
                need
            } else {
                avail
            };
            buf.pos = buf.pos + add;
            buf.chunk_len = buf.chunk_len + add;
            if buf.chunk_len < MIN_CHUNK_SIZE {
                return None;
            }
        }

        if !self.anchored {
            if buf.pos + 8 > buf.clen {
                return None;
            }
            let ghost snap = *self;
            let mut i: usize = 0;
            while i < WINDOW_SIZE
                invariant
                    i <= WINDOW_SIZE,
                    self.out_window@.len() == WINDOW_SIZE,
                    self.in_window == snap.in_window,
                    self.distance_map == snap.distance_map,
                    self.distance == snap.distance,
                    self.equal_window_count == snap.equal_window_count,
                    self.anchored == snap.anchored,
                    forall|t: int| 0 <= t < i ==> self.out_window@[t] == buf.bytes()[buf.pos + t],
                decreases WINDOW_SIZE - i,
            {
                let b = buf.at(buf.pos + i);
                self.out_window.set(i, b);
                i = i + 1;
            }
            proof {
                assert(self.out_window@ =~= buf.bytes().subrange(buf.pos as int, buf.pos + 8));
            }
            buf.pos = buf.pos + 8;
            buf.chunk_len = buf.chunk_len + 8;
            self.calculate_new_distance();
            self.anchored = true;
        }

        let r1 = self.try_get_chunk(buf, NORMAL_CHUNK_SIZE, MASK_S);
        if let Some(result) = r1 {
            self.anchored = false;
            return Some(result);
        }
        let r2 = self.try_get_chunk(buf, MAX_CHUNK_SIZE, MASK_L);
        if let Some(result) = r2 {
            self.anchored = false;
            return Some(result);
        }
        if buf.chunk_len >= MAX_CHUNK_SIZE {
            self.anchored = false;
            return Some(buf.chunk_len);
        }
        None
    }
}

impl Chunking for UltraChunker {
    closed spec fn wf(&self) -> bool {
        &&& self.out_window@.len() == WINDOW_SIZE
        &&& self.in_window@.len() == WINDOW_SIZE
        &&& dm_wf(&self.distance_map)
        &&& self.equal_window_count < LEST
    }

    /// The in-flight chunk grows to the minimum size, is then anchored
    /// once, and grows in whole windows; while anchored the running
    /// distance is the distance of the out-window, so the scan resumes
    /// exactly where it stopped when more bytes arrive.
    closed spec fn inv(&self, chunk_len: int) -> bool {
        &&& 0 <= chunk_len <= MAX_CHUNK_SIZE as int
        &&& if self.anchored {
            &&& MIN_CHUNK_SIZE + 8 <= chunk_len
            &&& (chunk_len - MIN_CHUNK_SIZE as int) % 8 == 0
            &&& chunk_len <= MAX_CHUNK_SIZE as int - 8
            &&& self.distance as int == win_distance(self.out_window@)
        } else {
            chunk_len <= MIN_CHUNK_SIZE as int
        }
    }

    open spec fn tag(&self) -> crate::chunker::ChunkingAlgorithm {
        crate::chunker::ChunkingAlgorithm::Ultra
    }

    open spec fn min_chunk(&self) -> int {
        MIN_CHUNK_SIZE as int
    }

    open spec fn max_chunk(&self) -> int {
        MAX_CHUNK_SIZE as int
    }

    proof fn properties(&self) {
    }

    fn reset(&mut self) {
        self.anchored = false;
    }

    fn next_write_range(&mut self, buf: &mut ChunkerBuf) -> (r: Option<Range<usize>>) {
        match self.generate_chunk(buf) {
            Some(length) => {
                let end = buf.pos;
                Some((end - length)..end)
            },
            None => None,
        }
    }
}

} // verus!
