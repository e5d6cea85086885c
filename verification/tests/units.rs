//! Unit tests of the buffer, the parameter tables and the edit-locality
//! properties.

use cdc_chunker::buffer::{BUFFER_SIZE, ChunkerBuf};
use cdc_chunker::chunker::{Chunker, ChunkingAlgorithm};
use cdc_chunker::leap::{generate_ef_matrix, LeapChunker};
use cdc_chunker::sink::ChunkSink;
use cdc_chunker::ultra::distance_map;
use rand::RngCore;
use rand::SeedableRng;

fn random_data(len: usize, seed: u64) -> Vec<u8> {
    let mut data = vec![0u8; len];
    rand::rngs::StdRng::seed_from_u64(seed).fill_bytes(&mut data);
    data
}

fn chunk_data(data: &[u8], algorithm: ChunkingAlgorithm, piece: usize) -> Vec<Vec<u8>> {
    let mut ckr = Chunker::with_algorithm(ChunkSink::new(), algorithm);
    let mut off = 0;
    while off < data.len() {
        let end = (off + piece).min(data.len());
        let mut part = &data[off..end];
        while !part.is_empty() {
            let n = ckr.write(part);
            part = &part[n..];
        }
        off = end;
    }
    let mut sink = ckr.into_inner();
    sink.take_chunks()
}

/// The share of `ours` whose bytes appear as a whole chunk of `theirs`.
fn shared_ratio(ours: &[Vec<u8>], theirs: &[Vec<u8>]) -> f64 {
    let baseline: std::collections::HashSet<&[u8]> =
        theirs.iter().map(|c| c.as_slice()).collect();
    let shared = ours.iter().filter(|c| baseline.contains(c.as_slice())).count();
    shared as f64 / ours.len() as f64
}

#[test]
fn buffer_append_and_cursors() {
    let mut buf = ChunkerBuf::new();
    assert!(!buf.has_something());
    assert_eq!(buf.possible_size(), 0);

    let n = buf.append(&[1, 2, 3, 4]);
    assert_eq!(n, 4);
    assert_eq!(buf.clen, 4);
    assert!(buf.has_something());
    assert_eq!(buf.possible_size(), 4);
    assert_eq!(buf.at(0), 1);
    assert_eq!(buf.at(3), 4);

    // Only the capacity that is left is accepted.
    let big = vec![9u8; BUFFER_SIZE];
    let n = buf.append(&big);
    assert_eq!(n, BUFFER_SIZE - 4);
    assert_eq!(buf.clen, BUFFER_SIZE);
}

#[test]
fn buffer_reset_position() {
    let mut buf = ChunkerBuf::new();
    buf.append(&[10, 20, 30, 40, 50]);
    buf.pos = 3;
    buf.reset_position();
    assert_eq!(buf.pos, 0);
    assert_eq!(buf.clen, 2);
    assert_eq!(buf.at(0), 40);
    assert_eq!(buf.at(1), 50);
}

#[test]
fn distance_map_values() {
    let dm = distance_map();
    assert_eq!(dm.len(), 256);
    assert_eq!(dm[0].len(), 256);
    // The distance is the number of differing bits.
    assert_eq!(dm[0xaa][0xaa], 0);
    assert_eq!(dm[0x00][0xff], 8);
    assert_eq!(dm[0xaa][0x00], 4);
    assert_eq!(dm[0x0f][0x1f], 1);
}

#[test]
fn ef_matrix_shape() {
    let m = generate_ef_matrix();
    assert_eq!(m.len(), 256);
    for row in &m {
        assert_eq!(row.len(), 5);
        for &v in row {
            assert!(v < 4);
        }
    }
}

#[test]
fn leap_matrix_validation() {
    // A fresh random matrix is always accepted back, and a strategy can be
    // rebuilt from the matrix it carries.
    let leap = LeapChunker::with_matrix(generate_ef_matrix()).unwrap();
    assert!(LeapChunker::with_matrix(leap.matrix().clone()).is_some());
    // Wrong dimensions and out-of-range entries are refused.
    assert!(LeapChunker::with_matrix(vec![vec![0u8; 5]; 255]).is_none());
    assert!(LeapChunker::with_matrix(vec![vec![0u8; 4]; 256]).is_none());
    assert!(LeapChunker::with_matrix(vec![vec![4u8; 5]; 256]).is_none());
}

#[test]
fn leap_window_qualification() {
    // Matrix rows hold (byte + column) % 4: for an all-zero window the five
    // probed entries 0,1,2,3,0 cancel out, for an all-one window they do
    // not.
    let matrix: Vec<Vec<u8>> = (0..256usize)
        .map(|b| (0..5usize).map(|j| ((b + j) % 4) as u8).collect())
        .collect();
    let leap = LeapChunker::with_matrix(matrix).unwrap();

    let mut buf = ChunkerBuf::new();
    let zeros = vec![0u8; 1024];
    buf.append(&zeros);
    assert!(!leap.is_window_qualified(&buf, 512));

    let mut buf = ChunkerBuf::new();
    let ones = vec![1u8; 1024];
    buf.append(&ones);
    assert!(leap.is_window_qualified(&buf, 512));
}

#[test]
fn fast_cut_respects_maximum() {
    // All-zero data never satisfies the hash condition, so FastCDC falls
    // back to maximal chunks: exactly two 32 KiB chunks.
    let data = vec![0u8; 64 * 1024];
    let chunks = chunk_data(&data, ChunkingAlgorithm::Fast, 8192);
    assert_eq!(chunks.len(), 2);
    assert_eq!(chunks[0].len(), 32 * 1024);
    assert_eq!(chunks[1].len(), 32 * 1024);
}

#[test]
fn drain_between_pushes() {
    // Draining the sink between pushes yields the same chunk sequence as
    // collecting everything at the end.
    const DATA_LEN: usize = 300 * 1024;
    let data = random_data(DATA_LEN, 37);

    let collected = chunk_data(&data, ChunkingAlgorithm::Super, 8192);

    let mut ckr = Chunker::with_algorithm(ChunkSink::new(), ChunkingAlgorithm::Super);
    let mut drained: Vec<Vec<u8>> = Vec::new();
    let mut off = 0;
    while off < data.len() {
        let end = (off + 8192).min(data.len());
        let mut part = &data[off..end];
        while !part.is_empty() {
            let n = ckr.write(part);
            part = &part[n..];
        }
        drained.append(&mut ckr.take_chunks());
        off = end;
    }
    ckr.flush();
    drained.append(&mut ckr.take_chunks());

    assert_eq!(collected, drained);
}

#[test]
fn boundary_stability() {
    // A single-byte edit to a random input perturbs only the chunks around
    // the edit.
    const DATA_LEN: usize = 100 * 1024;
    let data = random_data(DATA_LEN, 23);
    let mut edited = data.clone();
    edited[50_000] ^= 0x01;

    let original = chunk_data(&data, ChunkingAlgorithm::Fast, 8192);
    let perturbed = chunk_data(&edited, ChunkingAlgorithm::Fast, 8192);
    let ratio = shared_ratio(&perturbed, &original);
    assert!(ratio >= 0.95, "only {} of chunks survived the edit", ratio);
}

#[test]
fn duplicate_insertion() {
    // Inserting 256 bytes into the middle of a random input leaves at
    // least 80% of the chunks byte-for-byte identical.
    const DATA_LEN: usize = 128 * 1024;
    let a = random_data(DATA_LEN, 29);
    let x = random_data(256, 31);
    let mut b = Vec::with_capacity(DATA_LEN + 256);
    b.extend_from_slice(&a[..64 * 1024]);
    b.extend_from_slice(&x);
    b.extend_from_slice(&a[64 * 1024..]);

    let chunks_a = chunk_data(&a, ChunkingAlgorithm::Fast, 8192);
    let chunks_b = chunk_data(&b, ChunkingAlgorithm::Fast, 8192);
    let ratio = shared_ratio(&chunks_b, &chunks_a);
    assert!(ratio >= 0.8, "only {} of chunks deduplicated", ratio);
}
