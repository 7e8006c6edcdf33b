//! Content-defined chunking.
//!
//! This library partitions a byte buffer into variable-length chunks whose
//! boundaries are chosen by the content itself: a rolling hash is computed
//! byte by byte, and a position becomes a cut point when the hash's low bits
//! (selected by a mask derived from the requested average size) are all zero.
//! Because boundaries depend only on nearby bytes, a small edit to a large
//! buffer moves only the boundaries near the edit, which is what makes the
//! scheme useful for deduplicating storage.

mod chunker;
mod gear;
mod params;
mod props;

pub use chunker::as_ints;
pub use chunker::chunk_offsets;
pub use chunker::compute_chunks;
pub use chunker::compute_chunks_nocheck;
pub use chunker::cut_spec;
pub use chunker::cuts_from;
pub use params::ChunkError;
pub use props::lemma_chunks_stable;
pub use props::lemma_locality;
pub use props::lemma_offsets_cover;
pub use props::lemma_size_ceiling;
pub use props::lemma_size_floor;
pub use props::lemma_small_input_single_chunk;
pub use params::AVG_SIZE_FLOOR;
pub use params::MAX_SIZE_FLOOR;
pub use params::MIN_SIZE_FLOOR;
