//! Locating and carving a single GIF stream embedded in a larger byte buffer.
//!
//! The block parser walks the GIF89a grammar (header, logical screen
//! descriptor, optional color tables, extension and image blocks with their
//! sub-block chains, trailer) over a read-only byte view and produces an
//! ordered list of block descriptors, or a structural error carrying the
//! offset at which it was detected. The carver translates a parse of a
//! suffix of a host buffer into the absolute byte range `[start, end)` of
//! the embedded stream.

use vstd::prelude::*;

pub mod gifparser;

verus! {

use crate::gifparser::{
    GifParser,
    GifParseError,
    spec_parse,
    lemma_parse_coverage,
    lemma_tile_bounds,
};

/// Errors surfaced by the carver; parser failures are passed through
/// unchanged.
#[derive(Debug, Clone, Copy, PartialEq, Eq, Structural)]
pub enum Error {
    GifError(GifParseError),
}

/// Carves the byte span of one GIF stream embedded in `host` at
/// `start_offset`: parses the suffix beginning there and, on success,
/// returns the range `[start_offset, end)` whose end lies just past the
/// trailer of the stream. A parser failure is returned unchanged; nothing
/// is repaired or re-synchronized.
#[verifier::rlimit(100)]
pub fn carve(host: &[u8], start_offset: usize) -> (r: Result<(usize, usize), Error>)
    requires
        start_offset <= host@.len(),
        host@.len() + 2048 <= usize::MAX,
    ensures
        ({
            let candidate = host@.subrange(start_offset as int, host@.len() as int);
            match spec_parse(candidate) {
                Ok(blocks) => ({
                    let last = blocks.last();
                    r matches Ok(range) && range.0 == start_offset && range.1 == start_offset
                        + last.index + last.size
                }),
                Err((kind, off)) => r matches Err(e) && e matches Error::GifError(pe) && pe.kind
                    == kind && pe.offset == off,
            }
        }),
{
    let candidate = vstd::slice::slice_subrange(host, start_offset, host.len());
    let mut parser = GifParser::new();
    match parser.parse_gif_from_bytes(candidate) {
        Ok(blocks) => {
            proof {
                lemma_parse_coverage(candidate@);
                lemma_tile_bounds(candidate@, 0, blocks@);
            }
            let last = blocks[blocks.len() - 1];
            let end_index = start_offset + last.index + last.size;
            Ok((start_offset, end_index))
        },
        Err(e) => Err(Error::GifError(e)),
    }
}

} // verus!
