//! Trusted bindings to the zlib codec used by compressed containers.

use vstd::prelude::*;

verus! {

/// The bytes that zlib decompression yields for the stream `b`, when it
/// accepts `b`.
pub uninterp spec fn inflate_of(b: Seq<u8>) -> Seq<u8>;

/// Whether zlib decompression accepts the stream `b` whole.
pub uninterp spec fn inflate_ok(b: Seq<u8>) -> bool;

/// The zlib stream that compression at the best level produces for `b`.
pub uninterp spec fn deflate_best_of(b: Seq<u8>) -> Seq<u8>;

/// Relies on flate2's ZlibDecoder reading a byte slice to the end: its
/// outcome and output are functions of the input bytes alone.
#[verifier::external_body]
pub(crate) fn zlib_decompress(b: &[u8]) -> (r: Option<Vec<u8>>)
    ensures
        r is Some <==> inflate_ok(b@),
        r matches Some(v) ==> v@ == inflate_of(b@),
{
    let mut out = Vec::new();
    let mut decoder = flate2::read::ZlibDecoder::new(b);
    match std::io::Read::read_to_end(&mut decoder, &mut out) {
        Ok(_) => Some(out),
        Err(_) => None,
    }
}

/// Relies on flate2's ZlibEncoder at the best compression level, writing
/// into a growing vector: its output is a function of the input bytes
/// alone, and writing to a vector sink cannot fail.
#[verifier::external_body]
pub(crate) fn zlib_compress_best(b: &[u8]) -> (r: Vec<u8>)
    ensures
        r@ == deflate_best_of(b@),
{
    let mut encoder = flate2::write::ZlibEncoder::new(Vec::new(), flate2::Compression::best());
    std::io::Write::write_all(&mut encoder, b).expect("writing to a vector sink cannot fail");
    encoder.finish().expect("flushing to a vector sink cannot fail")
}

} // verus!
