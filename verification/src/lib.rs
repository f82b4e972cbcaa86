//! Chunked MD5 digests in the style of S3 multipart-upload ETags.
//!
//! The input is split into fixed-size chunks, each chunk is hashed on its
//! own, and the concatenation of the per-chunk hashes is hashed once more.
//! The result is the 16-byte combined hash together with the chunk count.


mod context;
mod digest;
mod format;
mod hashing;

pub use context::compute;
pub use context::compute_with_chunk_size;
pub use context::lemma_chunking_invariance;
pub use context::seen_after_pieces;
pub use context::Context;
pub use context::DEFAULT_CHUNK_SIZE;
pub use digest::Digest;
pub use format::dec_chars;
pub use format::etag_chars_lower;
pub use format::etag_chars_upper;
pub use format::hex_chars_lower;
pub use format::hex_chars_upper;
pub use format::hex_digit_lower;
pub use format::hex_digit_upper;
pub use format::is_dec_digit;
pub use format::lemma_dec_chars_injective;
pub use format::lemma_dec_chars_len;
pub use format::lemma_etag_chars_lower_injective;
pub use format::lemma_hex_chars_lower_injective;
pub use format::lemma_hex_chars_lower_len;
pub use hashing::chunk_at;
pub use hashing::chunk_count_of;
pub use hashing::combined_hashes_of;
pub use hashing::combined_up_to;
pub use hashing::digest_bytes_of;
pub use hashing::lemma_boundary_exact;
pub use hashing::lemma_chunk_count_bounds;
pub use hashing::spec_md5;
