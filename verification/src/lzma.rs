//! The boundary to the external LZMA engine.
//!
//! Both codecs frame their own metadata around one compressed stream and
//! delegate the stream itself to xz2. The compressor's output bytes are a
//! function of the input bytes and the preset alone; they are given the
//! name `lzma_of`, and the decompressor is relied on to invert it exactly.

use crate::RszError;
use std::io::Read;
use std::io::Write;
use vstd::prelude::*;

verus! {

/// The finalized xz stream that the external compressor produces for the
/// given plaintext at the given preset.
pub uninterp spec fn lzma_of(data: Seq<u8>, preset: u32) -> Seq<u8>;

/// Relies on xz2::write::XzEncoder (new, write_all, finish): the finalized
/// stream depends on the plaintext and the preset alone. `new` panics on a
/// preset above 9, so that input is kept out. On a valid preset the easy
/// encoder writing to memory cannot refuse the work: its only error paths
/// are memory exhaustion and internal misuse, and running out of memory
/// aborts here just as allocation does.
#[verifier::external_body]
pub(crate) fn xz_compress(data: &[u8], preset: u32) -> (r: Vec<u8>)
    requires
        preset <= 9,
    ensures
        r@ == lzma_of(data@, preset),
{
    let mut encoder = xz2::write::XzEncoder::new(Vec::new(), preset);
    encoder.write_all(data).expect("lzma encoding failed");
    encoder.finish().expect("lzma encoding failed")
}

/// Relies on xz2::read::XzDecoder read to the end: decompression is
/// lossless, so a stream the encoder finalized gives back exactly the
/// plaintext that was compressed. Of any other input only the error kind
/// is stated.
#[verifier::external_body]
pub(crate) fn xz_decompress(stream: &[u8]) -> (r: Result<Vec<u8>, RszError>)
    ensures
        forall|d: Seq<u8>, p: u32|
            p <= 9 && stream@ == #[trigger] lzma_of(d, p) ==> r is Ok && r->Ok_0@ == d,
        r is Err ==> r->Err_0 == RszError::Io,
{
    let mut decoder = xz2::read::XzDecoder::new(stream);
    let mut plain = Vec::new();
    match decoder.read_to_end(&mut plain) {
        Ok(_) => Ok(plain),
        Err(_) => Err(RszError::Io),
    }
}

} // verus!
