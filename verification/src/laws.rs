//! Stream-level laws of the chunk sequences the driver emits.
//!
//! `Chunker::flush` guarantees that the concatenation of the emitted chunks
//! equals the consumed stream; the lemmas here turn that single equation
//! into the chunk-boundary laws a downstream consumer relies on.

use vstd::prelude::*;

verus! {

/// The logical start offset of chunk `i`: the total length of the chunks
/// before it.
pub open spec fn chunk_start(chunks: Seq<Seq<u8>>, i: int) -> int
    decreases i,
{
    if i <= 0 {
        0
    } else {
        chunk_start(chunks, i - 1) + chunks[i - 1].len()
    }
}

/// The logical end offset of chunk `i`.
pub open spec fn chunk_end(chunks: Seq<Seq<u8>>, i: int) -> int {
    chunk_start(chunks, i) + chunks[i].len()
}

/// The start offset of chunk `k` is the length of the flattened prefix
/// before it.
proof fn lemma_start_is_prefix_len(chunks: Seq<Seq<u8>>, k: int)
    requires
        0 <= k <= chunks.len(),
    ensures
        chunk_start(chunks, k) == chunks.take(k).flatten().len(),
    decreases k,
{
    if k == 0 {
        assert(chunks.take(0) =~= Seq::<Seq<u8>>::empty());
    } else {
        lemma_start_is_prefix_len(chunks, k - 1);
        assert(chunks.take(k) =~= chunks.take(k - 1).push(chunks[k - 1]));
        chunks.take(k - 1).lemma_flatten_push(chunks[k - 1]);
    }
}

/// Contiguity: the chunks of a sequence tile `[0, L)` with no gaps and no
/// overlap, where `L` is the length of their concatenation.  Each chunk
/// ends exactly where the next one starts, the first starts at zero, and
/// the last ends at `L`.
pub proof fn lemma_chunks_tile(chunks: Seq<Seq<u8>>)
    ensures
        chunk_start(chunks, 0) == 0,
        forall|i: int|
            0 <= i < chunks.len() - 1 ==> chunk_end(chunks, i) == chunk_start(chunks, i + 1),
        chunks.len() > 0 ==> chunk_end(chunks, chunks.len() - 1) == chunks.flatten().len(),
{
    if chunks.len() > 0 {
        lemma_start_is_prefix_len(chunks, chunks.len() as int - 1);
        assert(chunks.take(chunks.len() as int) =~= chunks);
        lemma_start_is_prefix_len(chunks, chunks.len() as int);
    }
}

/// Conservation, stated over the chunk offsets: when the concatenation of
/// the chunks equals the stream, the sum of the chunk lengths equals the
/// stream's length.
pub proof fn lemma_conservation(chunks: Seq<Seq<u8>>, stream: Seq<u8>)
    requires
        chunks.flatten() == stream,
    ensures
        chunk_start(chunks, chunks.len() as int) == stream.len(),
{
    lemma_start_is_prefix_len(chunks, chunks.len() as int);
    assert(chunks.take(chunks.len() as int) =~= chunks);
}

/// Residue: a producer whose `write` was told that only the first `n` bytes
/// were accepted loses nothing by re-submitting the rest, for the stream
/// consumed over the two calls is the same as if all of `data` had been
/// accepted at once.
pub proof fn lemma_residue(consumed: Seq<u8>, data: Seq<u8>, n: int)
    requires
        0 <= n <= data.len(),
    ensures
        consumed + data.subrange(0, n) + data.subrange(n, data.len() as int) == consumed + data,
{
    assert(consumed + data.subrange(0, n) + data.subrange(n, data.len() as int) =~= consumed
        + data);
}

} // verus!
