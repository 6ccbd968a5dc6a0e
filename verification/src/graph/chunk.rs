//! The chunk splitter's parameters and the prose boundaries it divides content at.
//!
//! A chunk is the passage's bounded header followed by a contiguous run of its content. Content is
//! divided at the strongest boundary available: syntax nodes, then paragraphs, sentences and
//! lines.

use vstd::prelude::*;


verus! {

/// The recommended chunk size, in model tokens.
pub const DEFAULT_CHUNK_SIZE: usize = 512;

/// The recommended overlap between adjacent chunks, in model tokens.
pub const DEFAULT_CHUNK_OVERLAP: usize = 64;

/// The smallest accepted chunk size.
pub const MIN_CHUNK_SIZE: usize = 8;

/// The chunk parameters a build runs under, recorded with the store as part of the semantic-index
/// identity.
#[derive(Debug, Clone, Copy, PartialEq, Eq)]
pub struct ChunkParams {
    /// The bound on the whole embedded text of one chunk, header included, in model tokens.
    pub chunk_size: usize,
    /// The content carried from the tail of each chunk's predecessor, in model tokens.
    pub overlap: usize,
}

impl ChunkParams {
    /// Whether two parameter sets are the same.
    pub fn same_as(&self, other: &ChunkParams) -> (r: bool)
        ensures
            r == (*self == *other),
    {
        self.chunk_size == other.chunk_size && self.overlap == other.overlap
    }
}

impl Default for ChunkParams {
    fn default() -> (r: Self)
        ensures
            r.chunk_size == DEFAULT_CHUNK_SIZE,
            r.overlap == DEFAULT_CHUNK_OVERLAP,
    {
        ChunkParams { chunk_size: DEFAULT_CHUNK_SIZE, overlap: DEFAULT_CHUNK_OVERLAP }
    }
}

/// A passage's header, carried on every chunk.
#[derive(Debug, Clone, Copy)]
pub struct PassageHeader<'a> {
    /// The identity-bearing head: name words, kind, module-path words, and signature.
    pub identity: &'a str,
    /// The symbol's own documentation.
    pub documentation: Option<&'a str>,
}

/// One chunk: the text handed to the embedding model, and the content range it covers.
#[derive(Debug, PartialEq, Eq)]
pub struct Chunk {
    /// The embedded text: the bounded header, a newline, and the content run.
    pub text: String,
    /// The half-open byte range of the passage content this chunk covers.
    pub content_range: (usize, usize),
}

} // verus!
