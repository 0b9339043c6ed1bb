//! The single-stream codec.
//!
//! One payload is zero-padded up to `PAD_THRESHOLD` bytes when it is
//! shorter than that, an 8-byte little-endian header carries the original
//! length, and the padded plaintext is handed to the LZMA engine. Decoding
//! reads the header, decompresses the rest, and truncates back to the
//! original length, rejecting a header that claims more bytes than the
//! stream actually holds.

use crate::lzma::{lzma_of, xz_compress, xz_decompress};
use crate::wire::{push_bytes, push_u64_le, read_u64_le};
use crate::RszError;
use vstd::bytes::{lemma_auto_spec_u64_to_from_le_bytes, spec_u64_from_le_bytes, spec_u64_to_le_bytes};
use vstd::prelude::*;
use vstd::slice::{slice_subrange, slice_to_vec};

verus! {

/// Payloads shorter than this many bytes are zero-padded up to it before
/// compression.
pub const PAD_THRESHOLD: usize = 64;

/// The plaintext that is actually compressed: the payload itself when it
/// reaches the threshold, the payload extended with zero bytes to exactly
/// the threshold otherwise.
pub open spec fn spec_pad(d: Seq<u8>) -> Seq<u8> {
    if d.len() >= PAD_THRESHOLD {
        d
    } else {
        d + Seq::new((PAD_THRESHOLD - d.len()) as nat, |i: int| 0u8)
    }
}

/// The whole single-stream output: the original (pre-padding) length as an
/// 8-byte little-endian header, then the compressed padded plaintext.
pub open spec fn spec_encode_single(d: Seq<u8>, level: u32) -> Seq<u8> {
    spec_u64_to_le_bytes(d.len() as u64) + lzma_of(spec_pad(d), level)
}

/// The first 8 bytes of any single-stream output, read as a little-endian
/// u64, are the pre-padding payload length — never the padded length.
pub proof fn lemma_single_header(d: Seq<u8>, level: u32)
    requires
        d.len() <= u64::MAX,
    ensures
        spec_encode_single(d, level).len() >= 8,
        spec_u64_from_le_bytes(spec_encode_single(d, level).subrange(0, 8)) == d.len(),
{
    lemma_auto_spec_u64_to_from_le_bytes();
    assert(spec_encode_single(d, level).subrange(0, 8) =~= spec_u64_to_le_bytes(d.len() as u64));
}

/// Compress one payload into the single-stream format.
///
/// A level above 9 is rejected; every valid level succeeds, and the output
/// is exactly the header plus the compressed padded plaintext.
pub fn compress_lzma(input: &[u8], level: u32) -> (r: Result<Vec<u8>, RszError>)
    ensures
        level > 9 ==> r == Err::<Vec<u8>, RszError>(RszError::InvalidArgument),
        level <= 9 ==> r is Ok && r->Ok_0@ == spec_encode_single(input@, level),
{
    if level > 9 {
        return Err(RszError::InvalidArgument);
    }
    let original_size: u64 = input.len() as u64;
    let mut data: Vec<u8> = slice_to_vec(input);
    if data.len() < PAD_THRESHOLD {
        data.resize(PAD_THRESHOLD, 0u8);
        proof {
            assert(data@ =~= spec_pad(input@));
        }
    }
    assert(data@ == spec_pad(input@));
    let compressed = xz_compress(data.as_slice(), level);
    let mut out: Vec<u8> = Vec::new();
    push_u64_le(&mut out, original_size);
    push_bytes(&mut out, compressed.as_slice());
    Ok(out)
}

/// Truncate a decompressed plaintext back to the declared original size.
///
/// This is the hardening step of the decoder: a header that claims more
/// bytes than were actually decompressed is reported as `CorruptArchive`
/// instead of being read out of bounds.
pub fn single_from_plain(original_size: u64, plain: Vec<u8>) -> (r: Result<Vec<u8>, RszError>)
    ensures
        original_size <= plain@.len() ==> r is Ok && r->Ok_0@ == plain@.subrange(
            0,
            original_size as int,
        ),
        original_size > plain@.len() ==> r == Err::<Vec<u8>, RszError>(RszError::CorruptArchive),
{
    let len = plain.len();
    if original_size > len as u64 {
        return Err(RszError::CorruptArchive);
    }
    let mut out = plain;
    out.truncate(original_size as usize);
    Ok(out)
}

/// Decode one single-stream payload.
///
/// A stream shorter than the 8-byte header is rejected as
/// `TruncatedHeader`; a stream that `compress_lzma` produced for some
/// payload decodes to exactly that payload; every failure is one of
/// `TruncatedHeader`, `CorruptArchive` or `Io`.
pub fn decompress_lzma(stream: &[u8]) -> (r: Result<Vec<u8>, RszError>)
    ensures
        (r is Err && r->Err_0 == RszError::TruncatedHeader) <==> stream@.len() < 8,
        forall|d: Seq<u8>, p: u32|
            p <= 9 && d.len() <= u64::MAX && stream@ == #[trigger] spec_encode_single(d, p)
                ==> r is Ok && r->Ok_0@ == d,
        r is Err ==> (r->Err_0 == RszError::TruncatedHeader || r->Err_0 == RszError::CorruptArchive
            || r->Err_0 == RszError::Io),
{
    proof {
        lemma_auto_spec_u64_to_from_le_bytes();
    }
    if stream.len() < 8 {
        return Err(RszError::TruncatedHeader);
    }
    let original_size = read_u64_le(stream, 0);
    let rest = slice_subrange(stream, 8, stream.len());
    proof {
        assert forall|d: Seq<u8>, p: u32|
            p <= 9 && d.len() <= u64::MAX && stream@ == #[trigger] spec_encode_single(d, p)
            implies rest@ == lzma_of(spec_pad(d), p) && original_size == d.len() by {
            assert(stream@.subrange(0, 8) =~= spec_u64_to_le_bytes(d.len() as u64));
            assert(rest@ =~= lzma_of(spec_pad(d), p));
        }
    }
    let plain = match xz_decompress(rest) {
        Ok(p) => p,
        Err(e) => {
            return Err(e);
        },
    };
    let ghost plain_view = plain@;
    let r = single_from_plain(original_size, plain);
    proof {
        assert forall|d: Seq<u8>, p: u32|
            p <= 9 && d.len() <= u64::MAX && stream@ == #[trigger] spec_encode_single(d, p)
            implies r is Ok && r->Ok_0@ == d by {
            assert(plain_view == spec_pad(d));
            assert(spec_pad(d).len() >= d.len());
            assert(plain_view.subrange(0, d.len() as int) =~= d);
        }
    }
    r
}

} // verus!
