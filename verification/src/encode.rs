//! Fixed-width integers written out as bytes.

use vstd::prelude::*;
use crate::cursor::{in_bounds, le_u32};

verus! {

/// Byte `k` of `value`, counted from the least significant.
pub open spec fn byte_of(value: int, k: int) -> u8 {
    if k == 0 {
        (value % 256) as u8
    } else if k == 1 {
        ((value / 256) % 256) as u8
    } else if k == 2 {
        ((value / 65536) % 256) as u8
    } else {
        ((value / 16777216) % 256) as u8
    }
}

/// The two bytes of `value`, least significant first.
pub open spec fn le_bytes_u16(value: u16) -> Seq<u8> {
    seq![byte_of(value as int, 0), byte_of(value as int, 1)]
}

/// The four bytes of `value`, least significant first.
pub open spec fn le_bytes_u32(value: u32) -> Seq<u8> {
    seq![
        byte_of(value as int, 0),
        byte_of(value as int, 1),
        byte_of(value as int, 2),
        byte_of(value as int, 3),
    ]
}

/// The four bytes of `value`, most significant first.
pub open spec fn be_bytes_u32(value: u32) -> Seq<u8> {
    seq![
        byte_of(value as int, 3),
        byte_of(value as int, 2),
        byte_of(value as int, 1),
        byte_of(value as int, 0),
    ]
}

/// Appends `value` as two bytes, least significant first.
pub fn push_u16_le(dst: &mut Vec<u8>, value: u16)
    ensures
        final(dst)@ == old(dst)@ + le_bytes_u16(value),
{
    dst.push((value % 256) as u8);
    dst.push((value / 256) as u8);
    assert(dst@ =~= old(dst)@ + le_bytes_u16(value));
}

/// Appends `value` as four bytes, least significant first.
pub fn push_u32_le(dst: &mut Vec<u8>, value: u32)
    ensures
        final(dst)@ == old(dst)@ + le_bytes_u32(value),
{
    dst.push((value % 256) as u8);
    dst.push(((value / 256) % 256) as u8);
    dst.push(((value / 65536) % 256) as u8);
    dst.push((value / 16777216) as u8);
    assert(dst@ =~= old(dst)@ + le_bytes_u32(value));
}

/// Appends `value` as four bytes, most significant first.
pub fn push_u32_be(dst: &mut Vec<u8>, value: u32)
    ensures
        final(dst)@ == old(dst)@ + be_bytes_u32(value),
{
    dst.push((value / 16777216) as u8);
    dst.push(((value / 65536) % 256) as u8);
    dst.push(((value / 256) % 256) as u8);
    dst.push((value % 256) as u8);
    assert(dst@ =~= old(dst)@ + be_bytes_u32(value));
}

/// Reading back the four little-endian bytes of a value gives the value.
pub proof fn lemma_le_u32_of_bytes(src: Seq<u8>, at: int, value: u32)
    requires
        in_bounds(src.len(), at, 4),
        src.subrange(at, at + 4) == le_bytes_u32(value),
    ensures
        le_u32(src, at) == value,
{
    let word = src.subrange(at, at + 4);
    assert(word[0] == src[at] && word[1] == src[at + 1] && word[2] == src[at + 2] && word[3]
        == src[at + 3]);
}


} // verus!
