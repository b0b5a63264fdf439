use vstd::prelude::*;

verus! {

/// What inflating a zlib stream gives: the decompressed bytes, or `Err(true)`
/// when the input ends before the stream does and `Err(false)` when the
/// stream is corrupt (a bad block type, Huffman code, distance or checksum).
pub uninterp spec fn zlib_inflate_of(s: Seq<u8>) -> Result<Seq<u8>, bool>;

/// Relies on `miniz_oxide::inflate::decompress_to_vec_zlib`: its output, or its
/// failure status, is a function of the input bytes alone; the status
/// `FailedCannotMakeProgress` is the one it gives for input that stops early.
#[verifier::external_body]
pub(crate) fn inflate_zlib(data: &[u8]) -> (r: Result<Vec<u8>, bool>)
    ensures
        match zlib_inflate_of(data@) {
            Ok(v) => r is Ok && r->Ok_0@ == v,
            Err(t) => r == Err::<Vec<u8>, bool>(t),
        },
{
    match miniz_oxide::inflate::decompress_to_vec_zlib(data) {
        Ok(v) => Ok(v),
        Err(e) => match e.status {
            miniz_oxide::inflate::TINFLStatus::FailedCannotMakeProgress => Err(true),
            _ => Err(false),
        },
    }
}

} // verus!
