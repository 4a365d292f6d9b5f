//! A forward-only cursor over a byte source: little-endian field reads and the
//! bounded copy on which every extractor is built.

use vstd::prelude::*;

verus! {

/// Number of bytes of a source of length `len` that lie at or after `pos`.
pub open spec fn remaining(len: nat, pos: nat) -> nat {
    if pos <= len {
        (len - pos) as nat
    } else {
        0
    }
}

/// Number of bytes that a bounded copy of at most `max` bytes transfers from
/// a source of length `len` whose cursor stands at `pos`.
pub open spec fn transfer_len(len: nat, pos: nat, max: nat) -> nat {
    if max <= remaining(len, pos) {
        max
    } else {
        remaining(len, pos)
    }
}

/// The bytes that such a copy transfers.
pub open spec fn transfer(src: Seq<u8>, pos: nat, max: nat) -> Seq<u8> {
    if pos <= src.len() {
        src.subrange(pos as int, (pos + transfer_len(src.len(), pos, max)) as int)
    } else {
        Seq::empty()
    }
}

/// Copies up to `max` bytes from `src`, starting at the cursor `pos`, to the
/// end of `dst`, and advances the cursor by the number of bytes transferred,
/// which is returned. A source that ends early is not an error: what exists
/// is copied.
pub fn copy_limited(src: &[u8], pos: &mut u64, dst: &mut Vec<u8>, max: u64) -> (copied: u64)
    ensures
        copied == transfer_len(src@.len(), *old(pos) as nat, max as nat),
        *final(pos) == *old(pos) + copied,
        final(dst)@ == old(dst)@ + transfer(src@, *old(pos) as nat, max as nat),
{
    let len: usize = src.len();
    let start: u64 = *pos;
    if start >= len as u64 {
        assert(transfer(src@, start as nat, max as nat) =~= Seq::<u8>::empty());
        assert(dst@ + Seq::<u8>::empty() =~= dst@);
        return 0;
    }
    let avail: u64 = len as u64 - start;
    let count: u64 = if max <= avail { max } else { avail };
    let from: usize = start as usize;
    let to: usize = (start + count) as usize;
    let mut i: usize = from;
    while i < to
        invariant
            from <= i <= to <= src@.len(),
            dst@ == old(dst)@ + src@.subrange(from as int, i as int),
        decreases to - i,
    {
        dst.push(src[i]);
        i += 1;
        assert(src@.subrange(from as int, i as int) =~= src@.subrange(from as int, i - 1).push(
            src@[i - 1],
        ));
    }
    *pos = start + count;
    count
}

/// A copy that asks for more than the source still holds takes exactly what
/// is left, up to the end of the source.
pub proof fn lemma_copy_truncates(src: Seq<u8>, pos: nat, max: nat)
    requires
        pos <= src.len(),
        max > src.len() - pos,
    ensures
        transfer_len(src.len(), pos, max) == src.len() - pos,
        transfer(src, pos, max) == src.subrange(pos as int, src.len() as int),
{
}

/// The unsigned 16-bit value stored little-endian at `at`.
pub open spec fn le_u16(src: Seq<u8>, at: int) -> int {
    src[at] + 256 * src[at + 1]
}

/// The unsigned 32-bit value stored little-endian at `at`.
pub open spec fn le_u32(src: Seq<u8>, at: int) -> int {
    src[at] + 256 * src[at + 1] + 65536 * src[at + 2] + 16777216 * src[at + 3]
}

/// Whether `count` bytes of a source of length `len` lie at `pos`.
pub open spec fn in_bounds(len: nat, pos: int, count: int) -> bool {
    0 <= pos && pos + count <= len
}

/// Reads a little-endian 32-bit field at the cursor and steps over it.
/// Where fewer than four bytes are left, nothing is read and the cursor
/// stays.
pub fn read_u32(src: &[u8], pos: &mut u64) -> (field: Option<u32>)
    ensures
        in_bounds(src@.len(), *old(pos) as int, 4) ==> field == Some(
            le_u32(src@, *old(pos) as int) as u32,
        ) && *final(pos) == *old(pos) + 4,
        !in_bounds(src@.len(), *old(pos) as int, 4) ==> field.is_none() && *final(pos) == *old(
            pos,
        ),
{
    let len: usize = src.len();
    let at: u64 = *pos;
    if at >= len as u64 || len as u64 - at < 4 {
        return None;
    }
    let value: u32 = u32_at(src, at as usize);
    *pos = at + 4;
    Some(value)
}

/// The little-endian 16-bit field stored at `at`.
pub fn u16_at(src: &[u8], at: usize) -> (field: u16)
    requires
        at + 2 <= src.len(),
    ensures
        field == le_u16(src@, at as int),
{
    src[at] as u16 + 256 * (src[at + 1] as u16)
}

/// The little-endian 32-bit field stored at `at`.
pub fn u32_at(src: &[u8], at: usize) -> (field: u32)
    requires
        at + 4 <= src.len(),
    ensures
        field == le_u32(src@, at as int),
{
    src[at] as u32 + 256 * (src[at + 1] as u32) + 65536 * (src[at + 2] as u32) + 16777216 * (
    src[at + 3] as u32)
}

} // verus!
