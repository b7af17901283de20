//! Compression: zstd for blobs, zlib for trees.

use std::io::{Read, Write};
use vstd::prelude::*;

verus! {

/// The zstd frame of a byte string at a level, or `None` where the encoder fails.
pub uninterp spec fn zstd_encoded(data: Seq<u8>, level: i32) -> Option<Seq<u8>>;

/// The content of a sequence of zstd frames, or `None` where the bytes are none.
pub uninterp spec fn zstd_decoded(data: Seq<u8>) -> Option<Seq<u8>>;

/// The zlib stream of a byte string at the default level.
pub uninterp spec fn zlib_encoded(data: Seq<u8>) -> Seq<u8>;

/// The content of the zlib stream at the start of a byte string, or `None` where
/// there is no complete, valid stream.
pub uninterp spec fn zlib_decoded(data: Seq<u8>) -> Option<Seq<u8>>;

/// The view of an optional byte vector.
pub open spec fn opt_view(v: Option<Vec<u8>>) -> Option<Seq<u8>> {
    match v {
        Some(b) => Some(b@),
        None => None,
    }
}

/// `zstd::encode_all` compresses the whole input into one frame. The frame
/// depends on the input and the level alone, and decodes to the input.
#[verifier::external_body]
pub(crate) fn zstd_encode(data: &[u8], level: i32) -> (r: Option<Vec<u8>>)
    ensures
        opt_view(r) == zstd_encoded(data@, level),
        r is Some ==> zstd_decoded(r->0@) == Some(data@),
{
    zstd::encode_all(data, level).ok()
}

/// `zstd::decode_all` decompresses the whole input; the result depends on the
/// input alone.
#[verifier::external_body]
pub(crate) fn zstd_decode(data: &[u8]) -> (r: Option<Vec<u8>>)
    ensures
        opt_view(r) == zstd_decoded(data@),
{
    zstd::decode_all(data).ok()
}

/// `flate2::write::ZlibEncoder` over a vector, at the default level: writes to a
/// vector do not fail. The stream depends on the input alone, and decodes to it.
#[verifier::external_body]
pub(crate) fn zlib_encode(data: &[u8]) -> (r: Vec<u8>)
    ensures
        r@ == zlib_encoded(data@),
        zlib_decoded(r@) == Some(data@),
{
    let mut encoder = flate2::write::ZlibEncoder::new(Vec::new(), flate2::Compression::default());
    encoder.write_all(data).unwrap();
    encoder.finish().unwrap()
}

/// `flate2::read::ZlibDecoder::read_to_end` decompresses the stream at the start
/// of the input; the result depends on the input alone.
#[verifier::external_body]
pub(crate) fn zlib_decode(data: &[u8]) -> (r: Option<Vec<u8>>)
    ensures
        opt_view(r) == zlib_decoded(data@),
{
    let mut out = Vec::new();
    flate2::read::ZlibDecoder::new(data).read_to_end(&mut out).ok().map(|_n| out)
}

} // verus!
