//! Zlib streams, made and read with `flate2`.
use vstd::prelude::*;
use std::io::{Read, Write};

verus! {

/// What `flate2`'s `ZlibDecoder` reads to the end from `data`: the
/// decompressed bytes, or nothing when reading fails.
pub uninterp spec fn zlib_inflate(data: Seq<u8>) -> Option<Seq<u8>>;

/// What `flate2`'s `ZlibEncoder` at the default level writes for `data`.
pub uninterp spec fn zlib_deflate(data: Seq<u8>) -> Seq<u8>;

/// Whether two bytes cannot start a zlib stream (RFC 1950): their value as
/// a big-endian number is no multiple of 31, or the compression method in
/// the low nibble of the first is not 8 (deflate).
pub open spec fn zlib_header_bad(cmf: u8, flg: u8) -> bool {
    (cmf as int * 256 + flg as int) % 31 != 0 || cmf % 16 != 8
}

/// Reads a zlib stream to the end with `flate2::read::ZlibDecoder`: the
/// named outcome; a stream that the encoder wrote for some bytes reads back
/// as those bytes, and one whose first two bytes are no zlib header is
/// refused (both of flate2's backends check the header first).
#[verifier::external_body]
pub(crate) fn inflate(data: &[u8]) -> (res: Option<Vec<u8>>)
    ensures
        data@.len() >= 2 && zlib_header_bad(data@[0], data@[1]) ==> res is None,
        res matches Some(v) ==> zlib_inflate(data@) == Some(v@)
            && forall|x: Seq<u8>| data@ == #[trigger] zlib_deflate(x) ==> v@ == x,
        res is None ==> zlib_inflate(data@) is None
            && forall|x: Seq<u8>| data@ != #[trigger] zlib_deflate(x),
{
    let mut out = Vec::new();
    match flate2::read::ZlibDecoder::new(data).read_to_end(&mut out) {
        Ok(_) => Some(out),
        Err(_) => None,
    }
}

/// Compresses with `flate2::write::ZlibEncoder` at the default level into a
/// fresh buffer: the named stream, which `ZlibDecoder` reads back as `data`.
/// Writing into a `Vec` cannot fail, so the stream is always there.
#[verifier::external_body]
pub(crate) fn deflate(data: &[u8]) -> (res: Option<Vec<u8>>)
    ensures
        res is Some,
        res matches Some(v) ==> v@ == zlib_deflate(data@) && zlib_inflate(v@) == Some(data@),
{
    let mut encoder = flate2::write::ZlibEncoder::new(Vec::new(), flate2::Compression::default());
    if encoder.write_all(data).is_err() {
        return None;
    }
    encoder.finish().ok()
}

} // verus!
