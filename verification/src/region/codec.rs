//! Decompression of chunk payloads.

use flate2::read::ZlibDecoder;
use std::io::Read;
use vstd::prelude::*;

verus! {

/// What a zlib decoder makes of `data`: the bytes of the one stream that
/// `data` starts with, or the words in which the decoder says why it holds
/// none.
pub uninterp spec fn zlib_inflated(data: Seq<u8>) -> Result<Seq<u8>, Seq<char>>;

/// `flate2::read::ZlibDecoder` over `data`, read to its end: the
/// decompressed bytes, or the text of the decoder's error. The decoder is
/// made anew for each call and reads nothing but `data`, so the outcome is
/// a function of `data`.
#[verifier::external_body]
pub(crate) fn inflate(data: &[u8]) -> (r: Result<Vec<u8>, String>)
    ensures
        match r {
            Ok(raw) => zlib_inflated(data@) == Ok::<Seq<u8>, Seq<char>>(raw@),
            Err(detail) => zlib_inflated(data@) == Err::<Seq<u8>, Seq<char>>(detail@),
        },
{
    let mut raw = Vec::new();
    match ZlibDecoder::new(data).read_to_end(&mut raw) {
        Ok(_) => Ok(raw),
        Err(e) => Err(e.to_string()),
    }
}

} // verus!
