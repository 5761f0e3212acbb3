//! Big-endian words in byte strings.

use byteorder::BigEndian;
use byteorder::ReadBytesExt;
use vstd::prelude::*;
use vstd::slice::slice_subrange;

verus! {

/// The 32-bit number that the first four bytes spell, most significant byte
/// first.
pub open spec fn be_u32(bytes: Seq<u8>) -> u32 {
    (bytes[0] as int * 0x100_0000 + bytes[1] as int * 0x1_0000 + bytes[2] as int * 0x100
        + bytes[3] as int) as u32
}

/// The 32-bit number that the four bytes from `at` on spell.
pub open spec fn word(bytes: Seq<u8>, at: int) -> u32 {
    be_u32(bytes.subrange(at, at + 4))
}

/// `byteorder::ReadBytesExt::read_u32::<BigEndian>` on a byte slice: the
/// number that the first four bytes spell, most significant byte first, and
/// nothing where the slice has fewer than four bytes.
#[verifier::external_body]
fn read_u32_be(bytes: &[u8]) -> (r: Option<u32>)
    ensures
        bytes@.len() >= 4 ==> r == Some(be_u32(bytes@)),
        bytes@.len() < 4 ==> r is None,
{
    let mut cursor: &[u8] = bytes;
    cursor.read_u32::<BigEndian>().ok()
}

/// The word at an offset of a byte string, if the string has four bytes
/// there.
pub fn word_at(data: &[u8], at: usize) -> (r: Option<u32>)
    ensures
        r is Some <==> at + 4 <= data@.len(),
        r is Some ==> r->0 == word(data@, at as int),
{
    if at > data.len() {
        return None;
    }
    let tail = slice_subrange(data, at, data.len());
    let r = read_u32_be(tail);
    proof {
        if at + 4 <= data@.len() {
            let four = data@.subrange(at as int, at + 4);
            assert(tail@[0] == four[0]);
            assert(tail@[1] == four[1]);
            assert(tail@[2] == four[2]);
            assert(tail@[3] == four[3]);
        }
    }
    r
}

} // verus!
