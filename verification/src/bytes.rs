//! Byte-level helpers shared by the codecs: little-endian integers and
//! 32-byte identifiers.

use vstd::prelude::*;

verus! {

/// Length in bytes of an account identifier.
pub const KEY_LEN: usize = 32;

/// The value of four bytes read as a little-endian unsigned integer.
pub open spec fn u32_from_le(b: Seq<u8>) -> int
    recommends
        b.len() == 4,
{
    b[0] + 256 * b[1] + 65536 * b[2] + 16777216 * b[3]
}

/// The four bytes of `x`, least significant first.
pub open spec fn u32_to_le(x: u32) -> Seq<u8> {
    seq![
        (x % 256) as u8,
        ((x / 256) % 256) as u8,
        ((x / 65536) % 256) as u8,
        (x / 16777216) as u8,
    ]
}

/// The identifier that marks an empty slot: thirty-two zero bytes.
pub open spec fn empty_key() -> Seq<u8> {
    Seq::new(KEY_LEN as nat, |i: int| 0u8)
}

/// Reading back the little-endian bytes of `x` gives `x`.
pub proof fn lemma_u32_from_to_le(x: u32)
    ensures
        u32_to_le(x).len() == 4,
        u32_from_le(u32_to_le(x)) == x,
{
    assert(x == (x % 256) + 256 * ((x / 256) % 256) + 65536 * ((x / 65536) % 256) + 16777216 * (x
        / 16777216)) by (bit_vector);
    assert(x / 16777216 < 256) by (bit_vector);
}

/// Four bytes spell an integer that fits in `u32`, and its little-endian
/// bytes are those four bytes.
pub proof fn lemma_u32_to_from_le(b: Seq<u8>)
    requires
        b.len() == 4,
    ensures
        0 <= u32_from_le(b) <= u32::MAX,
        u32_to_le(u32_from_le(b) as u32) == b,
{
    let b0: u32 = b[0] as u32;
    let b1: u32 = b[1] as u32;
    let b2: u32 = b[2] as u32;
    let b3: u32 = b[3] as u32;
    let v: u32 = (b0 + 256 * b1 + 65536 * b2 + 16777216 * b3) as u32;
    assert(v == u32_from_le(b));
    assert(b0 < 256 && b1 < 256 && b2 < 256 && b3 < 256 && v == b0 + 256 * b1 + 65536 * b2
        + 16777216 * b3 ==> v % 256 == b0 && (v / 256) % 256 == b1 && (v / 65536) % 256 == b2 && v
        / 16777216 == b3) by (bit_vector);
    assert(u32_to_le(v) =~= b);
}

/// Reads the little-endian integer stored in `src[at..at + 4]`.
pub fn read_u32_le(src: &[u8], at: usize) -> (x: u32)
    requires
        at + 4 <= src@.len(),
    ensures
        x == u32_from_le(src@.subrange(at as int, at + 4)),
{
    let b0: u32 = src[at] as u32;
    let b1: u32 = src[at + 1] as u32;
    let b2: u32 = src[at + 2] as u32;
    let b3: u32 = src[at + 3] as u32;
    b0 + 256 * b1 + 65536 * b2 + 16777216 * b3
}

/// Stores `x` in `dst[at..at + 4]`, least significant byte first.
pub fn write_u32_le(dst: &mut [u8], at: usize, x: u32)
    requires
        at + 4 <= old(dst)@.len(),
    ensures
        final(dst)@.len() == old(dst)@.len(),
        final(dst)@.subrange(at as int, at + 4) == u32_to_le(x),
        forall|i: int|
            0 <= i < old(dst)@.len() && !(at <= i < at + 4) ==> final(dst)@[i] == old(dst)@[i],
{
    dst[at] = (x % 256) as u8;
    dst[at + 1] = ((x / 256) % 256) as u8;
    dst[at + 2] = ((x / 65536) % 256) as u8;
    dst[at + 3] = (x / 16777216) as u8;
    assert(dst@.subrange(at as int, at + 4) =~= u32_to_le(x));
}

/// Whether two identifiers hold the same bytes.
pub fn keys_equal(a: &[u8; 32], b: &[u8; 32]) -> (same: bool)
    ensures
        same == (a@ == b@),
{
    let mut i: usize = 0;
    while i < KEY_LEN
        invariant
            i <= KEY_LEN,
            forall|j: int| 0 <= j < i ==> a@[j] == b@[j],
        decreases KEY_LEN - i,
    {
        if a[i] != b[i] {
            return false;
        }
        i = i + 1;
    }
    assert(a@ =~= b@);
    true
}

/// Whether an identifier is the empty-slot marker.
pub fn is_empty_key(a: &[u8; 32]) -> (empty: bool)
    ensures
        empty == (a@ == empty_key()),
{
    let mut i: usize = 0;
    while i < KEY_LEN
        invariant
            i <= KEY_LEN,
            forall|j: int| 0 <= j < i ==> a@[j] == 0,
        decreases KEY_LEN - i,
    {
        if a[i] != 0 {
            assert(empty_key()[i as int] == 0);
            return false;
        }
        i = i + 1;
    }
    assert(a@ =~= empty_key());
    true
}

} // verus!
