//! LeapCDC chunking strategy.
//!
//! A candidate cut point is accepted when two dozen 180-byte windows ending
//! just before it are all "qualified" by a 256x5 matrix of 2-bit values;
//! when a window fails, the scan leaps forward past every position that
//! window already disqualifies.  The matrix is derived at construction from
//! random samples: for each byte value, the signed dot products of the
//! byte's bit pattern with 255 random rows are bucketed, and the parities of
//! the positive counts give one bit per bucket; two such tables are
//! concatenated bitwise.  Two freshly constructed strategies therefore cut
//! the same stream differently; `with_matrix` rebuilds a strategy whose
//! cuts can be reproduced.
//!
//! The samples drawn here are uniform machine integers rather than Gaussian
//! variates: the derivation consumes only the signs of symmetric samples,
//! and floating point cannot enter verified code.  A matrix derived from
//! Gaussian samples elsewhere enters through `with_matrix` unchanged.

use core::ops::Range;
use vstd::prelude::*;

use crate::buffer::{BUFFER_SIZE, ChunkerBuf};
use crate::chunker::Chunking;

verus! {

pub const MIN_CHUNK_SIZE: usize = 1024 * 16;

pub const MAX_CHUNK_SIZE: usize = 1024 * 64;

pub const WINDOW_PRIMARY_COUNT: usize = 22;

pub const WINDOW_SECONDARY_COUNT: usize = 2;

pub const WINDOW_COUNT: usize = WINDOW_PRIMARY_COUNT + WINDOW_SECONDARY_COUNT;

pub const WINDOW_SIZE: usize = 180;

pub const WINDOW_MATRIX_SHIFT: usize = 42;

pub const MATRIX_WIDTH: usize = 8;

pub const MATRIX_HEIGHT: usize = 255;

/// Whether a candidate cut point passed the window checks, and if not, how
/// far the scan may safely leap forward.
pub enum PointStatus {
    Satisfied,
    Unsatisfied(usize),
}

/// The random rows the matrix derivation samples: full length, every entry
/// within the range of one machine integer.
pub open spec fn gm_wf(m: &Vec<Vec<i64>>) -> bool {
    &&& m@.len() == MATRIX_HEIGHT
    &&& forall|i: int| 0 <= i < MATRIX_HEIGHT ==> (#[trigger] m@[i]@.len()) == MATRIX_WIDTH
    &&& forall|i: int, j: int|
        0 <= i < MATRIX_HEIGHT && 0 <= j < MATRIX_WIDTH ==> -0x8000_0000 <= (#[trigger] m@[i]@[j])
            <= 0x7fff_ffff
}

/// The rows of a sampled matrix, as sequences.
pub open spec fn rows_view(m: &Vec<Vec<i64>>) -> Seq<Seq<i64>> {
    Seq::new(m@.len(), |i: int| m@[i]@)
}

/// Sampled rows in sequence form: full shape, every entry within the range
/// of one machine integer.
pub open spec fn gm_rows_wf(m: Seq<Seq<i64>>) -> bool {
    &&& m.len() == MATRIX_HEIGHT
    &&& forall|i: int| 0 <= i < MATRIX_HEIGHT ==> (#[trigger] m[i].len()) == MATRIX_WIDTH
    &&& forall|i: int, j: int|
        0 <= i < MATRIX_HEIGHT && 0 <= j < MATRIX_WIDTH ==> -0x8000_0000 <= (#[trigger] m[i][j])
            <= 0x7fff_ffff
}

/// Signed dot product of a byte's bit pattern with the first `k` entries of
/// a row: set bits count the entry positively, clear bits negatively.
pub open spec fn dot_to(byte: u8, row: Seq<i64>, k: int) -> int
    decreases k,
{
    if k <= 0 {
        0
    } else {
        dot_to(byte, row, k - 1) + if (byte >> ((k - 1) as u8)) & 1 == 1 {
            row[k - 1] as int
        } else {
            -(row[k - 1] as int)
        }
    }
}

/// Signed dot product of a byte's bit pattern with a whole row.
pub open spec fn dot_spec(byte: u8, row: Seq<i64>) -> int {
    dot_to(byte, row, MATRIX_WIDTH as int)
}

/// How many of the first `upto` rows lie in bucket `bucket` and have a
/// positive dot product with the byte.
pub open spec fn pos_count(byte: u8, m: Seq<Seq<i64>>, bucket: int, upto: int) -> int
    decreases upto,
{
    if upto <= 0 {
        0
    } else {
        pos_count(byte, m, bucket, upto - 1) + if (upto - 1) / 51 == bucket && dot_spec(
            byte,
            m[upto - 1],
        ) > 0 {
            1int
        } else {
            0int
        }
    }
}

/// The five bucket parities for one byte value: whether an odd number of
/// the bucket's rows have a positive dot product with the byte.
pub open spec fn byte_row_spec(byte: u8, m: Seq<Seq<i64>>) -> Seq<bool> {
    Seq::new(5, |k: int| pos_count(byte, m, k, MATRIX_HEIGHT as int) % 2 == 1)
}

/// One EF entry: the parities that the two sampled matrices give byte `v`
/// in column `j`, packed into a 2-bit value.
pub open spec fn ef_entry(h: Seq<Seq<i64>>, g: Seq<Seq<i64>>, v: int, j: int) -> u8 {
    ((if byte_row_spec(v as u8, h)[j] {
        2int
    } else {
        0int
    }) + (if byte_row_spec(v as u8, g)[j] {
        1int
    } else {
        0int
    })) as u8
}

/// The rows of an EF matrix, as sequences.
pub open spec fn ef_rows(m: &Vec<Vec<u8>>) -> Seq<Seq<u8>> {
    Seq::new(m@.len(), |i: int| m@[i]@)
}

/// The matrix rows are exactly the derivation from the two sampled
/// matrices.
pub open spec fn ef_derived(rows: Seq<Seq<u8>>, h: Seq<Seq<i64>>, g: Seq<Seq<i64>>) -> bool {
    &&& gm_rows_wf(h)
    &&& gm_rows_wf(g)
    &&& rows.len() == 256
    &&& forall|v: int| 0 <= v < 256 ==> (#[trigger] rows[v].len()) == 5
    &&& forall|v: int, j: int|
        0 <= v < 256 && 0 <= j < 5 ==> (#[trigger] rows[v][j]) == ef_entry(h, g, v, j)
}

/// A well-formed EF matrix: one row of five 2-bit values per byte value.
pub open spec fn ef_wf(m: &Vec<Vec<u8>>) -> bool {
    &&& m@.len() == 256
    &&& forall|i: int| 0 <= i < 256 ==> (#[trigger] m@[i]@.len()) == 5
    &&& forall|i: int, j: int| 0 <= i < 256 && 0 <= j < 5 ==> (#[trigger] m@[i]@[j]) < 4
}

/// Relies on rand::random: draws one machine integer.  Nothing is promised
/// of the value; everything downstream holds whatever comes back.
#[verifier::external_body]
fn random_i32() -> (r: i32) {
    rand::random::<i32>()
}

/// One row of random samples.
pub fn generate_row() -> (r: Vec<i64>)
    ensures
        r@.len() == MATRIX_WIDTH,
        forall|j: int| 0 <= j < MATRIX_WIDTH ==> -0x8000_0000 <= (#[trigger] r@[j]) <= 0x7fff_ffff,
{
    let mut r: Vec<i64> = Vec::new();
    let mut j: usize = 0;
    while j < MATRIX_WIDTH
        invariant
            j <= MATRIX_WIDTH,
            r@.len() == j,
            forall|k: int| 0 <= k < j ==> -0x8000_0000 <= (#[trigger] r@[k]) <= 0x7fff_ffff,
        decreases MATRIX_WIDTH - j,
    {
        let v = random_i32();
        r.push(v as i64);
        j = j + 1;
    }
    r
}

/// A matrix of random rows.
pub fn generate_matrix() -> (r: Vec<Vec<i64>>)
    ensures
        gm_wf(&r),
{
    let mut r: Vec<Vec<i64>> = Vec::new();
    let mut i: usize = 0;
    while i < MATRIX_HEIGHT
        invariant
            i <= MATRIX_HEIGHT,
            r@.len() == i,
            forall|k: int| 0 <= k < i ==> (#[trigger] r@[k]@.len()) == MATRIX_WIDTH,
            forall|k: int, j: int|
                0 <= k < i && 0 <= j < MATRIX_WIDTH ==> -0x8000_0000 <= (#[trigger] r@[k]@[j])
                    <= 0x7fff_ffff,
        decreases MATRIX_HEIGHT - i,
    {
        r.push(generate_row());
        i = i + 1;
    }
    r
}

/// Signed dot product of a byte's bit pattern with one random row: set bits
/// count the entry positively, clear bits negatively.
pub fn multiply_rows(byte: u8, numbers: &Vec<i64>) -> (r: i64)
    requires
        numbers@.len() == MATRIX_WIDTH,
        forall|j: int|
            0 <= j < MATRIX_WIDTH ==> -0x8000_0000 <= (#[trigger] numbers@[j]) <= 0x7fff_ffff,
    ensures
        r as int == dot_spec(byte, numbers@),
{
    let mut sum: i64 = 0;
    let mut j: usize = 0;
    while j < MATRIX_WIDTH
        invariant
            j <= MATRIX_WIDTH,
            numbers@.len() == MATRIX_WIDTH,
            forall|k: int|
                0 <= k < MATRIX_WIDTH ==> -0x8000_0000 <= (#[trigger] numbers@[k]) <= 0x7fff_ffff,
            -0x8000_0000 * j <= sum <= 0x8000_0000 * j,
            sum as int == dot_to(byte, numbers@, j as int),
        decreases MATRIX_WIDTH - j,
    {
        let n = numbers[j];
        if (byte >> (j as u8)) & 1 == 1 {
            sum = sum + n;
        } else {
            sum = sum - n;
        }
        j = j + 1;
    }
    sum
}

/// The five bucket parities for one byte value: for each bucket of 51 rows,
/// whether an odd number of dot products came out positive.
pub fn transform_byte_row(byte: u8, matrix: &Vec<Vec<i64>>) -> (r: Vec<bool>)
    requires
        gm_wf(matrix),
    ensures
        r@ == byte_row_spec(byte, rows_view(matrix)),
{
    let ghost mm = rows_view(matrix);
    let mut new_row: Vec<u8> = Vec::new();
    let mut k: usize = 0;
    while k < 5
        invariant
            k <= 5,
            new_row@.len() == k,
            forall|t: int| 0 <= t < k ==> (#[trigger] new_row@[t]) == 0,
        decreases 5 - k,
    {
        new_row.push(0u8);
        k = k + 1;
    }

    let mut index: usize = 0;
    while index < MATRIX_HEIGHT
        invariant
            index <= MATRIX_HEIGHT,
            gm_wf(matrix),
            mm == rows_view(matrix),
            new_row@.len() == 5,
            forall|t: int| 0 <= t < 5 ==> (#[trigger] new_row@[t]) <= index,
            forall|t: int|
                0 <= t < 5 ==> (#[trigger] new_row@[t]) as int == pos_count(
                    byte,
                    mm,
                    t,
                    index as int,
                ),
        decreases MATRIX_HEIGHT - index,
    {
        let value = multiply_rows(byte, &matrix[index]);
        proof {
            assert(mm[index as int] == matrix@[index as int]@);
        }
        if value > 0 {
            let bucket = index / 51;
            let cur = new_row[bucket];
            new_row.set(bucket, cur + 1);
        }
        index = index + 1;
    }

    let mut bits: Vec<bool> = Vec::new();
    let mut t: usize = 0;
    while t < 5
        invariant
            t <= 5,
            bits@.len() == t,
            new_row@.len() == 5,
            forall|k: int|
                0 <= k < 5 ==> (#[trigger] new_row@[k]) as int == pos_count(
                    byte,
                    mm,
                    k,
                    MATRIX_HEIGHT as int,
                ),
            forall|k: int| 0 <= k < t ==> (#[trigger] bits@[k]) == (new_row@[k] % 2 == 1),
        decreases 5 - t,
    {
        bits.push(new_row[t] % 2 == 1);
        t = t + 1;
    }
    proof {
        assert(bits@ =~= byte_row_spec(byte, mm));
    }
    bits
}

/// Applies the byte-row transform to every byte value of the base matrix.
pub fn transform_base_matrix(base_matrix: &Vec<Vec<u8>>, additional_matrix: &Vec<Vec<i64>>) -> (r:
    Vec<Vec<bool>>)
    requires
        base_matrix@.len() == 256,
        forall|i: int| 0 <= i < 256 ==> (#[trigger] base_matrix@[i]@.len()) == 5,
        gm_wf(additional_matrix),
    ensures
        r@.len() == 256,
        forall|i: int| 0 <= i < 256 ==> (#[trigger] r@[i]@.len()) == 5,
        forall|i: int|
            0 <= i < 256 ==> (#[trigger] r@[i])@ == byte_row_spec(
                base_matrix@[i]@[0],
                rows_view(additional_matrix),
            ),
{
    let mut r: Vec<Vec<bool>> = Vec::new();
    let mut i: usize = 0;
    while i < 256
        invariant
            i <= 256,
            r@.len() == i,
            base_matrix@.len() == 256,
            forall|k: int| 0 <= k < 256 ==> (#[trigger] base_matrix@[k]@.len()) == 5,
            gm_wf(additional_matrix),
            forall|k: int| 0 <= k < i ==> (#[trigger] r@[k]@.len()) == 5,
            forall|k: int|
                0 <= k < i ==> (#[trigger] r@[k])@ == byte_row_spec(
                    base_matrix@[k]@[0],
                    rows_view(additional_matrix),
                ),
        decreases 256 - i,
    {
        let row = &base_matrix[i];
        r.push(transform_byte_row(row[0], additional_matrix));
        i = i + 1;
    }
    r
}

/// Packs one bit from each table into a 2-bit value.
pub fn concatenate_bits(x: bool, y: bool) -> (r: u8)
    ensures
        r == (if x {
            2u8
        } else {
            0u8
        }) + (if y {
            1u8
        } else {
            0u8
        }),
{
    match (x, y) {
        (true, true) => 3,
        (true, false) => 2,
        (false, true) => 1,
        (false, false) => 0,
    }
}

/// Packs two rows of bits into one row of 2-bit values.
pub fn concatenate_bits_in_rows(row_x: &Vec<bool>, row_y: &Vec<bool>) -> (r: Vec<u8>)
    requires
        row_x@.len() == 5,
        row_y@.len() == 5,
    ensures
        r@.len() == 5,
        forall|j: int| 0 <= j < 5 ==> (#[trigger] r@[j]) < 4,
        forall|j: int|
            0 <= j < 5 ==> (#[trigger] r@[j]) == ((if row_x@[j] {
                2int
            } else {
                0int
            }) + (if row_y@[j] {
                1int
            } else {
                0int
            })) as u8,
{
    let mut r: Vec<u8> = Vec::new();
    let mut j: usize = 0;
    while j < 5
        invariant
            j <= 5,
            r@.len() == j,
            row_x@.len() == 5,
            row_y@.len() == 5,
            forall|k: int| 0 <= k < j ==> (#[trigger] r@[k]) < 4,
            forall|k: int|
                0 <= k < j ==> (#[trigger] r@[k]) == ((if row_x@[k] {
                    2int
                } else {
                    0int
                }) + (if row_y@[k] {
                    1int
                } else {
                    0int
                })) as u8,
        decreases 5 - j,
    {
        r.push(concatenate_bits(row_x[j], row_y[j]));
        j = j + 1;
    }
    r
}

/// Derives a fresh EF matrix from two independently sampled random
/// matrices: entry `[v][j]` packs the two bucket parities the sampled
/// matrices give byte `v` in column `j`.
pub fn generate_ef_matrix() -> (r: Vec<Vec<u8>>)
    ensures
        ef_wf(&r),
        exists|h: Seq<Seq<i64>>, g: Seq<Seq<i64>>| ef_derived(ef_rows(&r), h, g),
{
    let mut base_matrix: Vec<Vec<u8>> = Vec::new();
    let mut i: usize = 0;
    while i < 256
        invariant
            i <= 256,
            base_matrix@.len() == i,
            forall|k: int| 0 <= k < i ==> (#[trigger] base_matrix@[k]@.len()) == 5,
            forall|k: int| 0 <= k < i ==> (#[trigger] base_matrix@[k]@[0]) == k as u8,
        decreases 256 - i,
    {
        let mut row: Vec<u8> = Vec::new();
        let mut j: usize = 0;
        while j < 5
            invariant
                j <= 5,
                row@.len() == j,
                i < 256,
                forall|t: int| 0 <= t < j ==> (#[trigger] row@[t]) == i as u8,
            decreases 5 - j,
        {
            row.push(i as u8);
            j = j + 1;
        }
        base_matrix.push(row);
        i = i + 1;
    }

    let matrix_h = generate_matrix();
    let matrix_g = generate_matrix();
    let ghost hh = rows_view(&matrix_h);
    let ghost gg = rows_view(&matrix_g);

    let e_matrix = transform_base_matrix(&base_matrix, &matrix_h);
    let f_matrix = transform_base_matrix(&base_matrix, &matrix_g);

    let mut ef_matrix: Vec<Vec<u8>> = Vec::new();
    let mut k: usize = 0;
    while k < 256
        invariant
            k <= 256,
            ef_matrix@.len() == k,
            e_matrix@.len() == 256,
            f_matrix@.len() == 256,
            base_matrix@.len() == 256,
            forall|t: int| 0 <= t < 256 ==> (#[trigger] base_matrix@[t]@[0]) == t as u8,
            forall|t: int| 0 <= t < 256 ==> (#[trigger] e_matrix@[t]@.len()) == 5,
            forall|t: int| 0 <= t < 256 ==> (#[trigger] f_matrix@[t]@.len()) == 5,
            forall|t: int|
                0 <= t < 256 ==> (#[trigger] e_matrix@[t])@ == byte_row_spec(t as u8, hh),
            forall|t: int|
                0 <= t < 256 ==> (#[trigger] f_matrix@[t])@ == byte_row_spec(t as u8, gg),
            forall|t: int| 0 <= t < k ==> (#[trigger] ef_matrix@[t]@.len()) == 5,
            forall|t: int, j: int|
                0 <= t < k && 0 <= j < 5 ==> (#[trigger] ef_matrix@[t]@[j]) < 4,
            forall|t: int, j: int|
                0 <= t < k && 0 <= j < 5 ==> (#[trigger] ef_matrix@[t]@[j]) == ef_entry(
                    hh,
                    gg,
                    t,
                    j,
                ),
        decreases 256 - k,
    {
        ef_matrix.push(concatenate_bits_in_rows(&e_matrix[k], &f_matrix[k]));
        k = k + 1;
    }
    proof {
        assert(gm_rows_wf(hh));
        assert(gm_rows_wf(gg));
        assert(ef_derived(ef_rows(&ef_matrix), hh, gg));
    }
    ef_matrix
}

/// The 2-bit matrix entries of the first `k` probe bytes of the window
/// ending at `end`, combined by exclusive or.
pub open spec fn qual_acc(m: &Vec<Vec<u8>>, bytes: Seq<u8>, end: int, k: int) -> u8
    decreases k,
{
    if k <= 0 {
        0u8
    } else {
        qual_acc(m, bytes, end, k - 1) ^ m@[bytes[end - 1 - (k - 1) * (
        WINDOW_MATRIX_SHIFT as int)] as int]@[k - 1]
    }
}

/// LeapCDC strategy: the EF matrix.
pub struct LeapChunker {
    ef_matrix: Vec<Vec<u8>>,
}

impl LeapChunker {
    /// The matrix the strategy cuts by, row by row.
    pub closed spec fn matrix_view(&self) -> Seq<Seq<u8>> {
        ef_rows(&self.ef_matrix)
    }

    /// A strategy with a freshly derived random EF matrix.
    pub fn new() -> (r: LeapChunker)
        ensures
            r.wf(),
            exists|h: Seq<Seq<i64>>, g: Seq<Seq<i64>>| ef_derived(r.matrix_view(), h, g),
    {
        let m = generate_ef_matrix();
        let ghost (h, g) = choose|h: Seq<Seq<i64>>, g: Seq<Seq<i64>>|
            ef_derived(ef_rows(&m), h, g);
        let r = LeapChunker { ef_matrix: m };
        proof {
            assert(ef_derived(r.matrix_view(), h, g));
        }
        r
    }

    /// A strategy over a given EF matrix, for reproducible cuts; refused
    /// unless the matrix has a row of five 2-bit values per byte value.
    pub fn with_matrix(ef_matrix: Vec<Vec<u8>>) -> (r: Option<LeapChunker>)
        ensures
            r is Some ==> r->Some_0.wf() && r->Some_0.matrix_view() == ef_rows(&ef_matrix),
            ef_wf(&ef_matrix) ==> r is Some,
    {
        if ef_matrix.len() != 256 {
            return None;
        }
        let mut i: usize = 0;
        while i < 256
            invariant
                i <= 256,
                ef_matrix@.len() == 256,
                forall|k: int| 0 <= k < i ==> (#[trigger] ef_matrix@[k]@.len()) == 5,
                forall|k: int, j: int|
                    0 <= k < i && 0 <= j < 5 ==> (#[trigger] ef_matrix@[k]@[j]) < 4,
            decreases 256 - i,
        {
            if ef_matrix[i].len() != 5 {
                return None;
            }
            let mut j: usize = 0;
            while j < 5
                invariant
                    j <= 5,
                    i < 256,
                    ef_matrix@.len() == 256,
                    ef_matrix@[i as int]@.len() == 5,
                    forall|k: int| 0 <= k < i ==> (#[trigger] ef_matrix@[k]@.len()) == 5,
                    forall|k: int, t: int|
                        0 <= k < i && 0 <= t < 5 ==> (#[trigger] ef_matrix@[k]@[t]) < 4,
                    forall|t: int| 0 <= t < j ==> (#[trigger] ef_matrix@[i as int]@[t]) < 4,
                decreases 5 - j,
            {
                if ef_matrix[i][j] >= 4 {
                    return None;
                }
                j = j + 1;
            }
            i = i + 1;
        }
        Some(LeapChunker { ef_matrix })
    }

    /// Whether the window ending at `end` of the given bytes is qualified:
    /// the matrix entries of its five probe bytes do not cancel out.
    pub closed spec fn window_qualified(&self, bytes: Seq<u8>, end: int) -> bool {
        qual_acc(&self.ef_matrix, bytes, end, 5) != 0
    }

    /// The verdict on a candidate cut at `pos` of the given bytes: the
    /// first failing window of the primary range, then of the secondary
    /// range, determines the leap; when every window is qualified the
    /// point is satisfied.  A function of the matrix and the bytes alone.
    pub closed spec fn point_spec(&self, bytes: Seq<u8>, pos: int) -> PointStatus {
        match self.first_failing(bytes, pos, WINDOW_SECONDARY_COUNT as int, WINDOW_COUNT as int) {
            Some(i) => PointStatus::Unsatisfied((WINDOW_COUNT - i) as usize),
            None => match self.first_failing(
                bytes,
                pos,
                0,
                WINDOW_SECONDARY_COUNT as int,
            ) {
                Some(i) => PointStatus::Unsatisfied(
                    (WINDOW_COUNT - WINDOW_SECONDARY_COUNT - i) as usize,
                ),
                None => PointStatus::Satisfied,
            },
        }
    }

    /// The first window offset in `[i, hi)` whose window is not qualified.
    pub closed spec fn first_failing(&self, bytes: Seq<u8>, pos: int, i: int, hi: int) -> Option<
        int,
    >
        decreases hi - i,
    {
        if i >= hi {
            None
        } else if !self.window_qualified(bytes, pos - i) {
            Some(i)
        } else {
            self.first_failing(bytes, pos, i + 1, hi)
        }
    }

    /// The EF matrix in use, so that an equal strategy can be rebuilt.
    pub fn matrix(&self) -> (m: &Vec<Vec<u8>>)
        requires
            self.wf(),
        ensures
            ef_wf(m),
            ef_rows(m) == self.matrix_view(),
    {
        &self.ef_matrix
    }

    /// Whether the 180-byte window ending at `end` is qualified: the 2-bit
    /// matrix entries of five probe bytes of the window do not cancel out.
    pub fn is_window_qualified(&self, buf: &ChunkerBuf, end: usize) -> (r: bool)
        requires
            self.wf(),
            buf.wf(),
            WINDOW_SIZE <= end,
            end <= BUFFER_SIZE,
        ensures
            r == self.window_qualified(buf.bytes(), end as int),
    {
        let mut acc: u8 = 0;
        let mut index: usize = 0;
        while index < 5
            invariant
                self.wf(),
                buf.wf(),
                index <= 5,
                WINDOW_SIZE <= end <= BUFFER_SIZE,
                acc == qual_acc(&self.ef_matrix, buf.bytes(), end as int, index as int),
            decreases 5 - index,
        {
            let byte = buf.at(end - 1 - index * WINDOW_MATRIX_SHIFT);
            let v = self.ef_matrix[byte as usize][index];
            acc = acc ^ v;
            index = index + 1;
        }
        acc != 0
    }

    /// Checks the two dozen windows behind the scan position: the primary
    /// range first, then the secondary one.  A failed window yields the
    /// leap that skips every position it disqualifies.
    pub fn is_point_satisfied(&self, buf: &ChunkerBuf) -> (r: PointStatus)
        requires
            self.wf(),
            buf.wf(),
            MIN_CHUNK_SIZE <= buf.chunk_len,
        ensures
            r == self.point_spec(buf.bytes(), buf.pos as int),
            match r {
                PointStatus::Satisfied => true,
                PointStatus::Unsatisfied(leap) => 1 <= leap <= WINDOW_COUNT,
            },
    {
        let mut i: usize = WINDOW_SECONDARY_COUNT;
        while i < WINDOW_COUNT
            invariant
                self.wf(),
                buf.wf(),
                MIN_CHUNK_SIZE <= buf.chunk_len,
                WINDOW_SECONDARY_COUNT <= i <= WINDOW_COUNT,
                self.first_failing(
                    buf.bytes(),
                    buf.pos as int,
                    WINDOW_SECONDARY_COUNT as int,
                    WINDOW_COUNT as int,
                ) == self.first_failing(
                    buf.bytes(),
                    buf.pos as int,
                    i as int,
                    WINDOW_COUNT as int,
                ),
            decreases WINDOW_COUNT - i,
        {
            if !self.is_window_qualified(buf, buf.pos - i) {
                return PointStatus::Unsatisfied(WINDOW_COUNT - i);
            }
            i = i + 1;
        }
        let mut i: usize = 0;
        while i < WINDOW_SECONDARY_COUNT
            invariant
                self.wf(),
                buf.wf(),
                MIN_CHUNK_SIZE <= buf.chunk_len,
                i <= WINDOW_SECONDARY_COUNT,
                self.first_failing(
                    buf.bytes(),
                    buf.pos as int,
                    WINDOW_SECONDARY_COUNT as int,
                    WINDOW_COUNT as int,
                ) is None,
                self.first_failing(
                    buf.bytes(),
                    buf.pos as int,
                    0,
                    WINDOW_SECONDARY_COUNT as int,
                ) == self.first_failing(
                    buf.bytes(),
                    buf.pos as int,
                    i as int,
                    WINDOW_SECONDARY_COUNT as int,
                ),
            decreases WINDOW_SECONDARY_COUNT - i,
        {
            if !self.is_window_qualified(buf, buf.pos - i) {
                return PointStatus::Unsatisfied(WINDOW_COUNT - WINDOW_SECONDARY_COUNT - i);
            }
            i = i + 1;
        }
        PointStatus::Satisfied
    }
}

/// The outcome of one scan step: the cut, if one fired, and the cursors
/// afterwards.
pub struct LeapOutcome {
    pub cut: Option<int>,
    pub pos: int,
    pub chunk_len: int,
}

impl LeapChunker {
    /// The leap loop from a reached minimum, as a function of the matrix
    /// and the bytes alone: at each candidate the point is either satisfied
    /// or the scan leaps past the positions its failing window disqualifies,
    /// capped so the chunk never exceeds the maximum; the loop stops when
    /// fewer bytes remain than the leap needs, and the cut is forced at the
    /// maximum size.
    pub closed spec fn lp_scan(&self, bytes: Seq<u8>, clen: int, pos: int, cl: int) -> LeapOutcome
        decreases clen - pos,
    {
        if cl >= MAX_CHUNK_SIZE {
            LeapOutcome { cut: Some(cl), pos, chunk_len: cl }
        } else {
            match self.point_spec(bytes, pos) {
                PointStatus::Satisfied => LeapOutcome { cut: Some(cl), pos, chunk_len: cl },
                PointStatus::Unsatisfied(leap) => {
                    let step = vstd::math::min(leap as int, MAX_CHUNK_SIZE - cl);
                    if step < 1 || clen - pos < step {
                        LeapOutcome { cut: None, pos, chunk_len: cl }
                    } else {
                        self.lp_scan(bytes, clen, pos + step, cl + step)
                    }
                },
            }
        }
    }

    /// One scan step as the driver sees it: the minimum-size skip, then the
    /// leap loop.
    pub closed spec fn lp_generate(&self, bytes: Seq<u8>, clen: int, pos: int, cl: int)
        -> LeapOutcome {
        let add = if cl < MIN_CHUNK_SIZE {
            vstd::math::min(MIN_CHUNK_SIZE - cl, clen - pos)
        } else {
            0
        };
        if cl + add < MIN_CHUNK_SIZE {
            LeapOutcome { cut: None, pos: pos + add, chunk_len: cl + add }
        } else {
            self.lp_scan(bytes, clen, pos + add, cl + add)
        }
    }

    /// Advances the scan by one call.  The result and the cursors afterwards
    /// are exactly `lp_generate` of the buffer bytes and the cursors before:
    /// given its matrix, the strategy cuts the same bytes the same way.
    pub fn generate_cut(&self, buf: &mut ChunkerBuf) -> (r: Option<usize>)
        requires
            self.wf(),
            old(buf).wf(),
            old(buf).pos < old(buf).clen,
            old(buf).chunk_len <= MAX_CHUNK_SIZE,
        ensures
            final(buf).wf(),
            final(buf).bytes() == old(buf).bytes(),
            final(buf).clen == old(buf).clen,
            old(buf).pos <= final(buf).pos,
            final(buf).pos - final(buf).chunk_len == old(buf).pos - old(buf).chunk_len,
            final(buf).chunk_len <= MAX_CHUNK_SIZE,
            ({
                let o = self.lp_generate(
                    old(buf).bytes(),
                    old(buf).clen as int,
                    old(buf).pos as int,
                    old(buf).chunk_len as int,
                );
                &&& final(buf).pos == o.pos
                &&& final(buf).chunk_len == o.chunk_len
                &&& match r {
                    Some(n) => o.cut == Some(n as int) && n == final(buf).chunk_len
                        && MIN_CHUNK_SIZE <= n,
                    None => o.cut is None && (final(buf).pos > old(buf).pos || final(buf).clen
                        - final(buf).pos + final(buf).chunk_len < MAX_CHUNK_SIZE),
                }
            }),
    {
        let ghost o0 = self.lp_generate(
            old(buf).bytes(),
            old(buf).clen as int,
            old(buf).pos as int,
            old(buf).chunk_len as int,
        );
        if buf.chunk_len < MIN_CHUNK_SIZE {
            let avail = buf.clen - buf.pos;
            let need = MIN_CHUNK_SIZE - buf.chunk_len;
            let add = if need < avail {
                need
            } else {
                avail
            };
            buf.pos = buf.pos + add;
            buf.chunk_len = buf.chunk_len + add;
            if buf.chunk_len < MIN_CHUNK_SIZE {
                return None;
            }
        }
        proof {
            assert(o0 == self.lp_scan(
                buf.bytes(),
                buf.clen as int,
                buf.pos as int,
                buf.chunk_len as int,
            ));
        }

        loop
            invariant
                self.wf(),
                buf.wf(),
                buf.bytes() == old(buf).bytes(),
                buf.clen == old(buf).clen,
                old(buf).pos <= buf.pos,
                buf.pos - buf.chunk_len == old(buf).pos - old(buf).chunk_len,
                MIN_CHUNK_SIZE <= buf.chunk_len <= MAX_CHUNK_SIZE,
                o0 == self.lp_generate(
                    old(buf).bytes(),
                    old(buf).clen as int,
                    old(buf).pos as int,
                    old(buf).chunk_len as int,
                ),
                o0 == self.lp_scan(
                    buf.bytes(),
                    buf.clen as int,
                    buf.pos as int,
                    buf.chunk_len as int,
                ),
            decreases buf.clen - buf.pos,
        {
            if buf.chunk_len >= MAX_CHUNK_SIZE {
                return Some(buf.chunk_len);
            }

            match self.is_point_satisfied(&*buf) {
                PointStatus::Satisfied => {
                    return Some(buf.chunk_len);
                },
                PointStatus::Unsatisfied(leap) => {
                    let cap = MAX_CHUNK_SIZE - buf.chunk_len;
                    let step = if leap < cap {
                        leap
                    } else {
                        cap
                    };
                    if buf.clen - buf.pos < step {
                        return None;
                    }
                    let ghost pre = *buf;
                    buf.pos = buf.pos + step;
                    buf.chunk_len = buf.chunk_len + step;
                    proof {
                        assert(self.lp_scan(
                            pre.bytes(),
                            pre.clen as int,
                            pre.pos as int,
                            pre.chunk_len as int,
                        ) == self.lp_scan(
                            buf.bytes(),
                            buf.clen as int,
                            buf.pos as int,
                            buf.chunk_len as int,
                        ));
                    }
                },
            }
        }
    }
}

proof fn lemma_qual_acc_same(a: &LeapChunker, b: &LeapChunker, bytes: Seq<u8>, end: int, k: int)
    requires
        a.wf(),
        b.wf(),
        a.matrix_view() == b.matrix_view(),
    ensures
        qual_acc(&a.ef_matrix, bytes, end, k) == qual_acc(&b.ef_matrix, bytes, end, k),
    decreases k,
{
    if k > 0 {
        lemma_qual_acc_same(a, b, bytes, end, k - 1);
        let x = bytes[end - 1 - (k - 1) * (WINDOW_MATRIX_SHIFT as int)] as int;
        assert(ef_rows(&a.ef_matrix)[x] == ef_rows(&b.ef_matrix)[x]);
    }
}

proof fn lemma_first_failing_same(
    a: &LeapChunker,
    b: &LeapChunker,
    bytes: Seq<u8>,
    pos: int,
    i: int,
    hi: int,
)
    requires
        a.wf(),
        b.wf(),
        a.matrix_view() == b.matrix_view(),
    ensures
        a.first_failing(bytes, pos, i, hi) == b.first_failing(bytes, pos, i, hi),
    decreases hi - i,
{
    if i < hi {
        lemma_qual_acc_same(a, b, bytes, pos - i, 5);
        lemma_first_failing_same(a, b, bytes, pos, i + 1, hi);
    }
}

/// Two strategies over the same matrix judge every candidate cut point the
/// same way: the matrix alone decides the cuts, so a strategy rebuilt with
/// `with_matrix` reproduces them.
pub proof fn lemma_same_matrix_same_points(
    a: &LeapChunker,
    b: &LeapChunker,
    bytes: Seq<u8>,
    pos: int,
)
    requires
        a.wf(),
        b.wf(),
        a.matrix_view() == b.matrix_view(),
    ensures
        a.point_spec(bytes, pos) == b.point_spec(bytes, pos),
{
    lemma_first_failing_same(
        a,
        b,
        bytes,
        pos,
        WINDOW_SECONDARY_COUNT as int,
        WINDOW_COUNT as int,
    );
    lemma_first_failing_same(a, b, bytes, pos, 0, WINDOW_SECONDARY_COUNT as int);
}

impl Chunking for LeapChunker {
    closed spec fn wf(&self) -> bool {
        ef_wf(&self.ef_matrix)
    }

    /// The in-flight chunk never exceeds the maximum size: leaps are capped
    /// and the cut at the maximum is forced before any further leap.
    open spec fn inv(&self, chunk_len: int) -> bool {
        0 <= chunk_len <= MAX_CHUNK_SIZE as int
    }

    open spec fn tag(&self) -> crate::chunker::ChunkingAlgorithm {
        crate::chunker::ChunkingAlgorithm::Leap
    }

    open spec fn min_chunk(&self) -> int {
        MIN_CHUNK_SIZE as int
    }

    open spec fn max_chunk(&self) -> int {
        MAX_CHUNK_SIZE as int
    }

    proof fn properties(&self) {
    }

    fn reset(&mut self) {
    }

    fn next_write_range(&mut self, buf: &mut ChunkerBuf) -> (r: Option<Range<usize>>) {
        match self.generate_cut(buf) {
            Some(length) => {
                let end = buf.pos;
                Some((end - length)..end)
            },
            None => None,
        }
    }
}

} // verus!
