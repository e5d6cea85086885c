//! Content-defined chunking core.
//!
//! A streaming driver ([`chunker::Chunker`]) appends producer bytes into a
//! fixed-capacity scan buffer ([`buffer::ChunkerBuf`]), asks a chunking
//! strategy for the next cut point, and forwards every finished chunk to a
//! sink ([`sink::ChunkSink`]) that records the chunk boundaries.  Five
//! strategies implement the common cut-point interface: Rabin, FastCDC,
//! SuperCDC, UltraCDC and LeapCDC.

pub mod buffer;
pub mod chunker;
pub mod fast;
pub mod laws;
pub mod leap;
pub mod rabin;
pub mod sink;
pub mod supercdc;
pub mod ultra;
