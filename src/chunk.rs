use vstd::prelude::*;

use crate::cursor::{be_u32, ByteCursor};
use crate::error::DecodeError;

verus! {

/// The CRC-32 (polynomial 0xEDB88320, as PNG and zlib use it) of a byte sequence.
pub uninterp spec fn crc32_of(s: Seq<u8>) -> u32;

/// Relies on `crc32fast::hash`: the CRC-32 of the bytes, which depends on them alone.
#[verifier::external_body]
fn crc32(b: &[u8]) -> (r: u32)
    ensures
        r == crc32_of(b@),
{
    crc32fast::hash(b)
}

/// Chunk type tags, as the big-endian reading of their four ASCII letters.
pub const IHDR: u32 = 0x4948_4452;
pub const PLTE: u32 = 0x504C_5445;
pub const IDAT: u32 = 0x4944_4154;
pub const IEND: u32 = 0x4945_4E44;
pub const TRNS: u32 = 0x7452_4E53;

/// The eight bytes that open every PNG stream.
pub open spec fn png_signature() -> Seq<u8> {
    seq![137u8, 80u8, 78u8, 71u8, 13u8, 10u8, 26u8, 10u8]
}

/// A chunk is critical when the first letter of its type is upper case (bit 5 clear).
pub open spec fn spec_is_critical(kind: u32) -> bool {
    (kind / 0x0100_0000) % 64 < 32
}

/// Whether a chunk of this type must be understood by a decoder.
pub fn is_critical(kind: u32) -> (r: bool)
    ensures
        r == spec_is_critical(kind),
{
    (kind / 0x0100_0000) % 64 < 32
}

/// What checking the signature of `s` gives.
pub open spec fn spec_check_signature(s: Seq<u8>) -> Result<(), DecodeError> {
    if exists|i: int| 0 <= i < 8 && i < s.len() && s[i] != png_signature()[i] {
        Err(DecodeError::BadSignature)
    } else if s.len() < 8 {
        Err(DecodeError::TruncatedStream)
    } else {
        Ok(())
    }
}

/// Checks that `s` opens with the PNG signature.
pub fn check_signature(s: &[u8]) -> (r: Result<(), DecodeError>)
    ensures
        r == spec_check_signature(s@),
        r is Ok <==> s@.len() >= 8 && s@.subrange(0, 8) == png_signature(),
{
    let sig: [u8; 8] = [137, 80, 78, 71, 13, 10, 26, 10];
    let mut i: usize = 0;
    while i < 8 && i < s.len()
        invariant
            i <= 8,
            sig@ == png_signature(),
            forall|j: int| 0 <= j < i ==> j < s@.len() && s@[j] == png_signature()[j],
        decreases 8 - i,
    {
        if s[i] != sig[i] {
            return Err(DecodeError::BadSignature);
        }
        i = i + 1;
    }
    if s.len() < 8 {
        Err(DecodeError::TruncatedStream)
    } else {
        assert(s@.subrange(0, 8) =~= png_signature());
        Ok(())
    }
}

/// One chunk: its type tag and a view of its data.
pub struct Chunk<'a> {
    pub kind: u32,
    pub data: &'a [u8],
}

/// Reading the chunk that starts at `pos` of `s`: its type, its data and the
/// offset just past it, or why there is no valid chunk there. The stored CRC
/// is checked only when `strict` holds.
pub open spec fn spec_next_chunk(s: Seq<u8>, pos: int, strict: bool) -> Result<
    (u32, Seq<u8>, int),
    DecodeError,
> {
    if pos + 8 > s.len() {
        Err(DecodeError::TruncatedStream)
    } else {
        let len = be_u32(s, pos);
        let kind = be_u32(s, pos + 4) as u32;
        if pos + 12 + len > s.len() {
            Err(DecodeError::TruncatedStream)
        } else if strict && be_u32(s, pos + 8 + len) != crc32_of(s.subrange(pos + 4, pos + 8 + len)) as int {
            Err(DecodeError::CrcMismatch)
        } else {
            Ok((kind, s.subrange(pos + 8, pos + 8 + len), pos + 12 + len))
        }
    }
}

/// A chunk that lies wholly within the stream but whose stored CRC differs
/// from the CRC of its type and data is rejected with `CrcMismatch`.
pub proof fn lemma_crc_mismatch_rejected(s: Seq<u8>, pos: int)
    requires
        0 <= pos,
        pos + 8 <= s.len(),
        pos + 12 + be_u32(s, pos) <= s.len(),
        be_u32(s, pos + 8 + be_u32(s, pos)) != crc32_of(s.subrange(pos + 4, pos + 8 + be_u32(s, pos))) as int,
    ensures
        spec_next_chunk(s, pos, true) == Err::<(u32, Seq<u8>, int), DecodeError>(DecodeError::CrcMismatch),
{
}

/// Reads the chunk at the cursor and checks its CRC; on success the cursor
/// stands just past the chunk.
pub fn next_chunk<'a>(cur: &mut ByteCursor<'a>, strict: bool) -> (r: Result<Chunk<'a>, DecodeError>)
    requires
        old(cur).wf(),
    ensures
        final(cur).wf(),
        final(cur).data() == old(cur).data(),
        match spec_next_chunk(old(cur).data(), old(cur).pos(), strict) {
            Ok((kind, data, next)) => r is Ok && r->Ok_0.kind == kind && r->Ok_0.data@ == data
                && final(cur).pos() == next,
            Err(e) => r == Err::<Chunk<'a>, DecodeError>(e),
        },
{
    let ghost s = cur.data();
    let start = cur.position();
    let len = match cur.read_u32() {
        Ok(v) => v,
        Err(_) => return Err(DecodeError::TruncatedStream),
    };
    let kind = match cur.read_u32() {
        Ok(v) => v,
        Err(_) => return Err(DecodeError::TruncatedStream),
    };
    if cur.remaining() < 4 || cur.remaining() - 4 < len as usize {
        return Err(DecodeError::TruncatedStream);
    }
    let data = match cur.read_bytes(len as usize) {
        Ok(d) => d,
        Err(_) => return Err(DecodeError::TruncatedStream),
    };
    let stored = match cur.read_u32() {
        Ok(v) => v,
        Err(_) => return Err(DecodeError::TruncatedStream),
    };
    if strict {
        let end = cur.position();
        let covered = cur.window(start + 4, end - 4);
        if stored != crc32(covered) {
            return Err(DecodeError::CrcMismatch);
        }
    }
    Ok(Chunk { kind, data })
}

} // verus!
