//! Detection and removal of payload compression.
//!
//! A payload is gzip data, zlib data or plain text; its first two bytes tell
//! which. The decompression itself is done by the `flate2` crate.

use std::io::Read;
use vstd::prelude::*;
use crate::bytes::copy_range;

verus! {

/// How a payload is packed.
#[derive(Debug, Clone, Copy, PartialEq, Eq, Structural)]
pub enum Compression {
    Gzip,
    Zlib,
    Plain,
}

/// Whether the bytes start as a gzip member does.
pub open spec fn has_gzip_magic(payload: Seq<u8>) -> bool {
    payload.len() >= 2 && payload[0] == 0x1f && payload[1] == 0x8b
}

/// Whether the bytes start as a zlib stream does: the deflate method with a
/// window of 32 KiB, and a second byte that makes the two a multiple of 31.
pub open spec fn has_zlib_magic(payload: Seq<u8>) -> bool {
    payload.len() >= 2 && payload[0] == 0x78 && (0x7800 + payload[1]) % 31 == 0
}

/// What the leading bytes of a payload say about its packing.
pub open spec fn compression_of(payload: Seq<u8>) -> Compression {
    if has_gzip_magic(payload) {
        Compression::Gzip
    } else if has_zlib_magic(payload) {
        Compression::Zlib
    } else {
        Compression::Plain
    }
}

/// Tells from its leading bytes how a payload is packed.
pub fn detect_compression(payload: &[u8]) -> (kind: Compression)
    ensures
        kind == compression_of(payload@),
{
    if payload.len() < 2 {
        return Compression::Plain;
    }
    let first: u8 = payload[0];
    let second: u16 = payload[1] as u16;
    if first == 0x1f && second == 0x8b {
        Compression::Gzip
    } else if first == 0x78 && (0x7800u16 + second) % 31 == 0 {
        Compression::Zlib
    } else {
        Compression::Plain
    }
}

/// What decoding `packed` as one gzip member yields: the data, or nothing
/// where `packed` is not a sound gzip member.
pub uninterp spec fn gzip_inflated(packed: Seq<u8>) -> Option<Seq<u8>>;

/// What decoding `packed` as one zlib stream yields: the data, or nothing
/// where `packed` is not a sound zlib stream.
pub uninterp spec fn zlib_inflated(packed: Seq<u8>) -> Option<Seq<u8>>;

/// Decodes one gzip member with `flate2::read::GzDecoder`, read to its end.
/// Trusted: the outcome depends on the bytes alone; it is the data when the
/// decoder reports success and nothing when it reports an error.
#[verifier::external_body]
fn gunzip(packed: &[u8]) -> (data: Option<Vec<u8>>)
    ensures
        match data {
            Some(bytes) => gzip_inflated(packed@) == Some(bytes@),
            None => gzip_inflated(packed@) is None,
        },
{
    let mut data = Vec::new();
    match flate2::read::GzDecoder::new(packed).read_to_end(&mut data) {
        Ok(_) => Some(data),
        Err(_) => None,
    }
}

/// Decodes one zlib stream with `flate2::read::ZlibDecoder`, read to its end.
/// Trusted: the outcome depends on the bytes alone; it is the data when the
/// decoder reports success and nothing when it reports an error.
#[verifier::external_body]
fn zlib_inflate(packed: &[u8]) -> (data: Option<Vec<u8>>)
    ensures
        match data {
            Some(bytes) => zlib_inflated(packed@) == Some(bytes@),
            None => zlib_inflated(packed@) is None,
        },
{
    let mut data = Vec::new();
    match flate2::read::ZlibDecoder::new(packed).read_to_end(&mut data) {
        Ok(_) => Some(data),
        Err(_) => None,
    }
}

/// The text that a payload carries: the payload itself where it is plain,
/// what its decoder yields where it is packed.
pub open spec fn unpacked_text(payload: Seq<u8>) -> Option<Seq<u8>> {
    match compression_of(payload) {
        Compression::Gzip => gzip_inflated(payload),
        Compression::Zlib => zlib_inflated(payload),
        Compression::Plain => Some(payload),
    }
}

/// Removes the compression from a payload, if it has any.
///
/// Yields nothing exactly when the payload announces gzip or zlib data and
/// its decoder rejects it.
pub fn decompress(payload: &[u8]) -> (text: Option<Vec<u8>>)
    ensures
        match text {
            Some(bytes) => unpacked_text(payload@) == Some(bytes@),
            None => unpacked_text(payload@) is None,
        },
{
    match detect_compression(payload) {
        Compression::Gzip => gunzip(payload),
        Compression::Zlib => zlib_inflate(payload),
        Compression::Plain => {
            let whole = copy_range(payload, 0, payload.len());
            assert(payload@.subrange(0, payload@.len() as int) == payload@);
            Some(whole)
        },
    }
}

} // verus!
