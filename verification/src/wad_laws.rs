//! What holds of every archive: a sentinel in the first slot leaves nothing
//! to extract, and unpacking a rebuilt archive gives the payloads back.

use vstd::prelude::*;
use crate::artifact::Piece;
use crate::cursor::transfer_len;
use crate::encode::{le_bytes_u32, lemma_le_u32_of_bytes};
use crate::error::FormatError;
use crate::wad::{
    directory, directory_bytes, entry_name, entry_offset, entry_piece, joined, laid_out,
    layout_fits, lemma_real_count_stops, lengths_before, lengths_of, real_count, rebuilt,
    slot_fits, wad_scan, WADFile, DIRECTORY_BYTES, DIRECTORY_SLOTS,
};

verus! {

/// An archive whose first slot is the sentinel holds no payload.
pub proof fn lemma_sentinel_first(src: Seq<u8>)
    requires
        src.len() >= DIRECTORY_BYTES,
        directory(src)[0].is_end(),
    ensures
        wad_scan(src) == Ok::<Seq<Piece>, FormatError>(Seq::empty()),
{
    lemma_real_count_stops(directory(src), 0, DIRECTORY_SLOTS as nat);
    assert(wad_scan(src).unwrap() =~= Seq::<Piece>::empty());
}

/// The payloads joined are as long as their lengths together, and payload
/// `i` lies in them behind the payloads before it.
pub proof fn lemma_joined(files: Seq<Seq<u8>>, i: int)
    requires
        0 <= i < files.len(),
    ensures
        joined(files).len() == lengths_before(lengths_of(files), files.len()),
        lengths_before(lengths_of(files), i as nat) + files[i].len() <= joined(files).len(),
        joined(files).subrange(
            lengths_before(lengths_of(files), i as nat) as int,
            (lengths_before(lengths_of(files), i as nat) + files[i].len()) as int,
        ) == files[i],
    decreases files.len(),
{
    let init = files.drop_last();
    let n = files.len();
    lemma_lengths_before_prefix(files, (n - 1) as nat);
    lemma_joined_len(init);
    if i == n - 1 {
        assert(joined(files).subrange(
            lengths_before(lengths_of(files), i as nat) as int,
            (lengths_before(lengths_of(files), i as nat) + files[i].len()) as int,
        ) =~= files[i]);
    } else {
        lemma_joined(init, i);
        lemma_lengths_before_prefix(files, i as nat);
        lemma_lengths_before_prefix(init, i as nat);
        assert(init.subrange(0, i) =~= files.subrange(0, i));
        assert(joined(files).subrange(
            lengths_before(lengths_of(files), i as nat) as int,
            (lengths_before(lengths_of(files), i as nat) + files[i].len()) as int,
        ) =~= joined(init).subrange(
            lengths_before(lengths_of(init), i as nat) as int,
            (lengths_before(lengths_of(init), i as nat) + init[i].len()) as int,
        ));
    }
}

/// The payloads joined are as long as their lengths together.
pub proof fn lemma_joined_len(files: Seq<Seq<u8>>)
    ensures
        joined(files).len() == lengths_before(lengths_of(files), files.len()),
    decreases files.len(),
{
    if files.len() > 0 {
        lemma_joined_len(files.drop_last());
        lemma_lengths_before_prefix(files, (files.len() - 1) as nat);
    }
}

/// The sum of the first lengths depends on those lengths alone.
pub proof fn lemma_lengths_before_prefix(files: Seq<Seq<u8>>, count: nat)
    requires
        count <= files.len(),
    ensures
        lengths_before(lengths_of(files), count) == lengths_before(
            lengths_of(files.subrange(0, count as int)),
            count,
        ),
        count < files.len() ==> lengths_before(lengths_of(files), count) == lengths_before(
            lengths_of(files.drop_last()),
            count,
        ),
    decreases count,
{
    if count > 0 {
        lemma_lengths_before_prefix(files, (count - 1) as nat);
        let shorter = files.subrange(0, count as int);
        lemma_lengths_before_prefix(shorter, (count - 1) as nat);
        assert(shorter.subrange(0, count - 1) =~= files.subrange(0, count - 1));
        if count < files.len() {
            let init = files.drop_last();
            lemma_lengths_before_prefix(init, (count - 1) as nat);
            assert(init.subrange(0, count - 1) =~= files.subrange(0, count - 1));
        }
    }
}

/// Reading the bytes of a directory gives its slots back.
pub proof fn lemma_directory_of_bytes(slots: Seq<WADFile>, rest: Seq<u8>)
    requires
        slots.len() == DIRECTORY_SLOTS,
    ensures
        directory(directory_bytes(slots) + rest) == slots,
{
    let src = directory_bytes(slots) + rest;
    assert forall|i: int| 0 <= i < DIRECTORY_SLOTS implies directory(src)[i] == slots[i] by {
        assert(src.subrange(8 * i, 8 * i + 4) =~= le_bytes_u32(slots[i].offset));
        assert(src.subrange(8 * i + 4, 8 * i + 8) =~= le_bytes_u32(slots[i].length));
        lemma_le_u32_of_bytes(src, 8 * i, slots[i].offset);
        lemma_le_u32_of_bytes(src, 8 * i + 4, slots[i].length);
    }
    assert(directory(src) =~= slots);
}

/// Of slots of which the first `count` are real and the next is not, the
/// real entries among the first `limit` are `count`, or `limit` if that is
/// fewer.
pub proof fn lemma_real_count_of_prefix(slots: Seq<WADFile>, count: nat, limit: nat)
    requires
        limit <= slots.len(),
        forall|i: int| 0 <= i < count && i < limit ==> !(#[trigger] slots[i]).is_end(),
        count < limit ==> slots[count as int].is_end(),
    ensures
        real_count(slots, limit) == if count <= limit {
            count
        } else {
            limit
        },
    decreases limit,
{
    if limit > 0 {
        lemma_real_count_of_prefix(slots, count, (limit - 1) as nat);
    }
}

/// Unpacking a rebuilt archive recovers the payloads: for at most 256
/// payloads whose layout fits the directory, the rebuilt archive parses,
/// holds as many pieces as there were payloads, and piece `i` has the bytes
/// of payload `i` and the name of entry `i`.
pub proof fn lemma_unpack_of_rebuilt(files: Seq<Seq<u8>>)
    requires
        files.len() <= DIRECTORY_SLOTS,
        layout_fits(lengths_of(files)),
    ensures
        wad_scan(rebuilt(files)) matches Ok(pieces) && pieces.len() == files.len() && forall|
            i: int,
        |
            0 <= i < files.len() ==> (#[trigger] pieces[i]).data == files[i] && pieces[i].name
                == entry_name(i as nat),
{
    let lengths = lengths_of(files);
    let slots = laid_out(lengths);
    let src = rebuilt(files);
    lemma_directory_of_bytes(slots, joined(files));
    lemma_joined_len(files);
    assert forall|i: int| 0 <= i < files.len() implies !(#[trigger] slots[i]).is_end() by {
        assert(slot_fits(lengths, i));
    }
    lemma_real_count_of_prefix(slots, files.len(), DIRECTORY_SLOTS as nat);
    let pieces = wad_scan(src).unwrap();
    assert forall|i: int| 0 <= i < files.len() implies (#[trigger] pieces[i]).data == files[i]
        && pieces[i].name == entry_name(i as nat) by {
        assert(slot_fits(lengths, i));
        lemma_joined(files, i);
        let start = entry_offset(lengths, i as nat);
        assert(pieces[i] == entry_piece(src, i));
        assert(directory(src)[i] == slots[i]);
        assert(transfer_len(src.len(), start, files[i].len()) == files[i].len());
        assert(src.subrange(start as int, (start + files[i].len()) as int) =~= joined(files).subrange(
            lengths_before(lengths, i as nat) as int,
            (lengths_before(lengths, i as nat) + files[i].len()) as int,
        ));
    }
}

} // verus!
