//! Compressed messages.

use std::io::Read;
use vstd::prelude::*;

verus! {

/// The text that a zlib stream decompresses to, where it is one and what it
/// holds is UTF-8.
pub uninterp spec fn zlib_text(data: Seq<u8>) -> Option<Seq<char>>;

/// Reads all of `flate2::read::ZlibDecoder` over `data` into a string. Whether
/// that succeeds, and with what, depends on the data alone.
#[verifier::external_body]
pub(crate) fn inflate_text(data: &[u8]) -> (result: Option<String>)
    ensures
        match result {
            Some(text) => zlib_text(data@) == Some(text@),
            None => zlib_text(data@) is None,
        },
{
    let mut text = String::new();
    match flate2::read::ZlibDecoder::new(data).read_to_string(&mut text) {
        Ok(_) => Some(text),
        Err(_) => None,
    }
}

} // verus!
