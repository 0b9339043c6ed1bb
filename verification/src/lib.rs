//! rs_zip: an LZMA-backed container library.
//!
//! Two sibling codecs share one compressed-stream abstraction:
//! a single-stream format that pads short payloads and prefixes the
//! original length, and a multi-file archive format that frames an
//! ordered list of (name, content) records inside one compressed stream.

use vstd::prelude::*;

pub mod archive;
pub mod cli;
pub mod file_io;
pub mod lzma;
pub mod single;
pub mod wire;

verus! {

/// The errors the library reports.
#[derive(Clone, Copy, Debug, PartialEq, Eq, Structural)]
pub enum RszError {
    /// Compression level outside 0..=9.
    InvalidArgument,
    /// Fewer than 8 bytes available where a u64 header was expected.
    TruncatedHeader,
    /// Entry metadata or content runs past the end of the decompressed stream.
    TruncatedArchive,
    /// A declared original size exceeds the actually decompressed bytes.
    CorruptArchive,
    /// An underlying read, write, open or create failure.
    Io,
}

} // verus!
