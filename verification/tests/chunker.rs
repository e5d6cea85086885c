//! Stream-level tests of the chunking driver over every algorithm.

use cdc_chunker::chunker::{Chunker, ChunkingAlgorithm, Strategy};
use cdc_chunker::leap::LeapChunker;
use cdc_chunker::sink::ChunkSink;
use rand::RngCore;
use rand::SeedableRng;

fn algorithms() -> Vec<ChunkingAlgorithm> {
    vec![
        ChunkingAlgorithm::Fast,
        ChunkingAlgorithm::Leap,
        ChunkingAlgorithm::Rabin,
        ChunkingAlgorithm::Super,
        ChunkingAlgorithm::Ultra,
    ]
}

fn random_data(len: usize, seed: u64) -> Vec<u8> {
    let mut data = vec![0u8; len];
    rand::rngs::StdRng::seed_from_u64(seed).fill_bytes(&mut data);
    data
}

/// A fixed EF matrix, for reproducible Leap runs: row `b` holds
/// `(b + j) % 4` in column `j`.
fn fixed_matrix() -> Vec<Vec<u8>> {
    (0..256usize)
        .map(|b| (0..5usize).map(|j| ((b + j) % 4) as u8).collect())
        .collect()
}

fn leap_with_fixed_matrix() -> Chunker {
    let strategy = LeapChunker::with_matrix(fixed_matrix()).unwrap();
    Chunker::new(ChunkSink::new(), Strategy::Leap(strategy))
}

/// Pushes `data` into the chunker in pieces of `piece` bytes, re-submitting
/// any residue, then flushes and returns the emitted chunks.
fn drive(mut ckr: Chunker, data: &[u8], piece: usize) -> Vec<Vec<u8>> {
    let mut off = 0;
    while off < data.len() {
        let end = (off + piece).min(data.len());
        let mut part = &data[off..end];
        while !part.is_empty() {
            let n = ckr.write(part);
            part = &part[n..];
        }
        off = end;
    }
    let mut sink = ckr.into_inner();
    sink.take_chunks()
}

fn chunk_data(data: &[u8], algorithm: ChunkingAlgorithm, piece: usize) -> Vec<Vec<u8>> {
    drive(Chunker::with_algorithm(ChunkSink::new(), algorithm), data, piece)
}

/// Conservation and contiguity: the chunks concatenate to the data, so
/// their lengths sum to the data's length and they tile it without gaps.
fn assert_covers(chunks: &[Vec<u8>], data: &[u8]) {
    let sum: usize = chunks.iter().map(|c| c.len()).sum();
    assert_eq!(sum, data.len());
    let mut pos = 0;
    for chunk in chunks {
        assert!(!chunk.is_empty());
        assert_eq!(&data[pos..pos + chunk.len()], &chunk[..]);
        pos += chunk.len();
    }
    assert_eq!(pos, data.len());
}

fn min_of(algorithm: ChunkingAlgorithm) -> usize {
    match algorithm {
        ChunkingAlgorithm::Rabin => 16 * 1024,
        ChunkingAlgorithm::Leap => 16 * 1024,
        ChunkingAlgorithm::Super => 2 * 1024,
        ChunkingAlgorithm::Ultra => 2 * 1024,
        ChunkingAlgorithm::Fast => 2 * 1024,
    }
}

fn max_of(algorithm: ChunkingAlgorithm) -> usize {
    match algorithm {
        ChunkingAlgorithm::Fast => 32 * 1024,
        _ => 64 * 1024,
    }
}

#[test]
fn chunker() {
    const DATA_LEN: usize = 765 * 1024;

    for algorithm in algorithms() {
        let data = random_data(DATA_LEN, 7);
        let chunks = chunk_data(&data, algorithm, 8192);
        assert_covers(&chunks, &data);
        println!("{:?} - OK", algorithm);
    }
}

#[test]
fn chunker_perf_simple() {
    const DATA_LEN: usize = 100 * 1024 * 1024;

    let data = random_data(DATA_LEN, 0);
    for algorithm in algorithms() {
        let now = std::time::Instant::now();
        let chunks = chunk_data(&data, algorithm, 8192);
        let time = now.elapsed();
        println!("{:?} perf: {} chunks in {:?}", algorithm, chunks.len(), time);
    }
}

#[test]
fn empty_stream() {
    for algorithm in algorithms() {
        let mut ckr = Chunker::with_algorithm(ChunkSink::new(), algorithm);
        let n = ckr.write(&[]);
        assert_eq!(n, 0);
        let mut sink = ckr.into_inner();
        assert_eq!(sink.take_chunks().len(), 0);
    }
}

#[test]
fn single_byte() {
    for algorithm in algorithms() {
        let chunks = chunk_data(&[0x42], algorithm, 1);
        assert_eq!(chunks.len(), 1);
        assert_eq!(chunks[0], vec![0x42]);
    }
}

#[test]
fn max_chunk_identical_bytes() {
    let data = vec![0u8; 64 * 1024];
    for algorithm in [
        ChunkingAlgorithm::Rabin,
        ChunkingAlgorithm::Fast,
        ChunkingAlgorithm::Super,
    ] {
        let chunks = chunk_data(&data, algorithm, 8192);
        assert_covers(&chunks, &data);
        assert!(chunks.len() <= 2, "{:?}: {} chunks", algorithm, chunks.len());
    }
    // A Leap strategy whose matrix disqualifies the all-zero window leaps
    // to the forced cut at the maximum size.
    let chunks = drive(leap_with_fixed_matrix(), &data, 8192);
    assert_covers(&chunks, &data);
    assert!(chunks.len() <= 2, "Leap: {} chunks", chunks.len());
    // Ultra cuts runs of identical content through the equal-window path.
    let chunks = chunk_data(&data, ChunkingAlgorithm::Ultra, 8192);
    assert_covers(&chunks, &data);
    for chunk in &chunks {
        assert!(chunk.len() <= 64 * 1024);
    }
}

#[test]
fn random_stream_bounds() {
    const DATA_LEN: usize = 765 * 1024;

    for algorithm in algorithms() {
        let data = random_data(DATA_LEN, 11);
        let chunks = chunk_data(&data, algorithm, 8192);
        assert_covers(&chunks, &data);
        let lo = DATA_LEN.div_ceil(max_of(algorithm));
        let hi = DATA_LEN.div_ceil(min_of(algorithm));
        assert!(
            chunks.len() >= lo && chunks.len() <= hi,
            "{:?}: {} chunks not in [{}, {}]",
            algorithm,
            chunks.len(),
            lo,
            hi
        );
        for (i, chunk) in chunks.iter().enumerate() {
            assert!(chunk.len() <= max_of(algorithm));
            if i + 1 < chunks.len() {
                assert!(chunk.len() >= min_of(algorithm));
            }
        }
    }
}

#[test]
fn streaming_equivalence_pieces() {
    const DATA_LEN: usize = 765 * 1024;
    let data = random_data(DATA_LEN, 13);

    for algorithm in [
        ChunkingAlgorithm::Rabin,
        ChunkingAlgorithm::Fast,
        ChunkingAlgorithm::Super,
        ChunkingAlgorithm::Ultra,
    ] {
        let whole = chunk_data(&data, algorithm, DATA_LEN);
        let pieces = chunk_data(&data, algorithm, 1024);
        assert_eq!(whole, pieces, "{:?}", algorithm);
    }
    let whole = drive(leap_with_fixed_matrix(), &data, DATA_LEN);
    let pieces = drive(leap_with_fixed_matrix(), &data, 1024);
    assert_eq!(whole, pieces, "Leap");
}

#[test]
fn residue_resubmit() {
    // More data than the buffer holds: one call accepts only a prefix, and
    // re-submitting the rest yields the same chunks as steady small pushes.
    const DATA_LEN: usize = 765 * 1024;
    let data = random_data(DATA_LEN, 17);

    for algorithm in [
        ChunkingAlgorithm::Rabin,
        ChunkingAlgorithm::Fast,
        ChunkingAlgorithm::Super,
        ChunkingAlgorithm::Ultra,
    ] {
        let one_shot = chunk_data(&data, algorithm, DATA_LEN);
        let pieces = chunk_data(&data, algorithm, 4096);
        assert_eq!(one_shot, pieces, "{:?}", algorithm);
    }
}

#[test]
fn rechunk_deterministic() {
    const DATA_LEN: usize = 300 * 1024;
    let data = random_data(DATA_LEN, 19);

    for algorithm in [
        ChunkingAlgorithm::Rabin,
        ChunkingAlgorithm::Fast,
        ChunkingAlgorithm::Super,
        ChunkingAlgorithm::Ultra,
    ] {
        let first = chunk_data(&data, algorithm, 8192);
        let second = chunk_data(&data, algorithm, 8192);
        assert_eq!(first, second, "{:?}", algorithm);
    }
}

#[test]
fn default_algorithm() {
    assert_eq!(ChunkingAlgorithm::default(), ChunkingAlgorithm::Super);
}
