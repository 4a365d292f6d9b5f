//! The archive: a directory of 256 slots, each an offset and a length, and
//! behind it the payloads.

use vstd::prelude::*;
use crate::artifact::{artifact_names, names_of, piece_names, pieces_of, Artifact, Piece};
use crate::clock::{local_now, Timestamp};
use crate::cursor::{copy_limited, le_u32, read_u32, transfer};
use crate::decimal::{decimal, decimal_string};
use crate::encode::{byte_of, push_u32_le};
use crate::error::FormatError;

verus! {

/// Number of slots of a directory.
pub const DIRECTORY_SLOTS: usize = 256;

/// Number of bytes of a directory.
pub const DIRECTORY_BYTES: usize = 2048;

/// One slot of a directory: where a payload starts, counted from the start
/// of the archive, and how long it is.
#[derive(Clone, Copy, Debug, PartialEq, Eq, Structural)]
pub struct WADFile {
    pub offset: u32,
    pub length: u32,
}

impl WADFile {
    /// Whether the slot is the sentinel that ends the real entries.
    pub open spec fn is_end(self) -> bool {
        self.offset == 0 && self.length == 0
    }

    /// Whether the slot is the sentinel that ends the real entries.
    pub fn end(&self) -> (sentinel: bool)
        ensures
            sentinel == self.is_end(),
    {
        self.offset == 0 && self.length == 0
    }
}

/// A directory.
#[derive(Clone, Copy, Debug)]
pub struct WADHeader {
    pub files: [WADFile; 256],
}

/// The record of an unpacked archive: when it was made and the names of the
/// artifacts in directory order.
#[derive(Clone, Debug)]
pub struct Manifest {
    pub timestamp: Timestamp,
    pub files: Vec<String>,
}

impl Manifest {
    /// Makes the manifest of a parse from the time of its making and the
    /// artifacts.
    pub fn assemble(timestamp: Timestamp, artifacts: &Vec<Artifact>) -> (manifest: Manifest)
        ensures
            manifest.timestamp == timestamp,
            names_of(manifest.files@) == piece_names(pieces_of(artifacts@)),
    {
        Manifest { timestamp, files: artifact_names(artifacts) }
    }
}

/// The slot stored at `at`: two little-endian 32-bit fields.
pub open spec fn entry_at(src: Seq<u8>, at: int) -> WADFile {
    WADFile { offset: le_u32(src, at) as u32, length: le_u32(src, at + 4) as u32 }
}

/// The directory stored at the start of `src`.
pub open spec fn directory(src: Seq<u8>) -> Seq<WADFile> {
    Seq::new(DIRECTORY_SLOTS as nat, |i: int| entry_at(src, 8 * i))
}

/// Number of real entries among the first `limit` slots: the slots before
/// the first sentinel.
pub open spec fn real_count(slots: Seq<WADFile>, limit: nat) -> nat
    decreases limit,
{
    if limit == 0 {
        0
    } else {
        let before = real_count(slots, (limit - 1) as nat);
        if before == limit - 1 && !slots[limit - 1].is_end() {
            limit
        } else {
            before
        }
    }
}

/// Name of the artifact of entry `i`.
pub open spec fn entry_name(i: nat) -> Seq<char> {
    decimal(i) + ".bin"@
}

/// The artifact of entry `i` of the directory of `src`: the bytes that the
/// source holds from the entry's offset on, as many as its length says or as
/// many as there are.
pub open spec fn entry_piece(src: Seq<u8>, i: int) -> Piece {
    Piece {
        name: entry_name(i as nat),
        data: transfer(src, directory(src)[i].offset as nat, directory(src)[i].length as nat),
    }
}

/// What an archive holds: one piece for each real entry, in directory
/// order. A source shorter than a directory is a defect.
pub open spec fn wad_scan(src: Seq<u8>) -> Result<Seq<Piece>, FormatError> {
    if src.len() < DIRECTORY_BYTES {
        Err(FormatError::UnexpectedEof)
    } else {
        Ok(
            Seq::new(
                real_count(directory(src), DIRECTORY_SLOTS as nat),
                |i: int| entry_piece(src, i),
            ),
        )
    }
}

/// The real entries are those before the first sentinel.
pub proof fn lemma_real_count(slots: Seq<WADFile>, limit: nat)
    ensures
        real_count(slots, limit) <= limit,
        forall|i: int| 0 <= i < real_count(slots, limit) ==> !(#[trigger] slots[i]).is_end(),
        real_count(slots, limit) < limit ==> slots[real_count(slots, limit) as int].is_end(),
    decreases limit,
{
    if limit > 0 {
        lemma_real_count(slots, (limit - 1) as nat);
    }
}

/// Reads the directory at the start of `src`.
pub fn read_directory(src: &[u8]) -> (header: Result<WADHeader, FormatError>)
    ensures
        match header {
            Ok(h) => src@.len() >= DIRECTORY_BYTES && h.files@ == directory(src@),
            Err(e) => src@.len() < DIRECTORY_BYTES && e == FormatError::UnexpectedEof,
        },
{
    if src.len() < DIRECTORY_BYTES {
        return Err(FormatError::UnexpectedEof);
    }
    let mut header = WADHeader { files: [WADFile { offset: 0, length: 0 };256] };
    let mut pos: u64 = 0;
    let mut i: usize = 0;
    while i < DIRECTORY_SLOTS
        invariant
            0 <= i <= DIRECTORY_SLOTS,
            pos == 8 * i,
            src@.len() >= DIRECTORY_BYTES,
            forall|k: int| 0 <= k < i ==> header.files@[k] == entry_at(src@, 8 * k),
        decreases DIRECTORY_SLOTS - i,
    {
        let offset: u32 = match read_u32(src, &mut pos) {
            Some(value) => value,
            None => 0,
        };
        let length: u32 = match read_u32(src, &mut pos) {
            Some(value) => value,
            None => 0,
        };
        header.files[i] = WADFile { offset, length };
        i += 1;
    }
    assert(header.files@ =~= directory(src@));
    Ok(header)
}

/// Extracts the payload of every real entry of `header` from `src`.
pub fn extract_entries(src: &[u8], header: &WADHeader) -> (artifacts: Vec<Artifact>)
    ensures
        pieces_of(artifacts@) == Seq::new(
            real_count(header.files@, DIRECTORY_SLOTS as nat),
            |i: int|
                Piece {
                    name: entry_name(i as nat),
                    data: transfer(
                        src@,
                        header.files@[i].offset as nat,
                        header.files@[i].length as nat,
                    ),
                },
        ),
{
    let mut artifacts: Vec<Artifact> = Vec::new();
    let mut i: usize = 0;
    while i < DIRECTORY_SLOTS
        invariant
            0 <= i <= DIRECTORY_SLOTS,
            real_count(header.files@, i as nat) == i,
            artifacts@.len() == i,
            forall|k: int|
                0 <= k < i ==> (#[trigger] artifacts@[k])@ == (Piece {
                    name: entry_name(k as nat),
                    data: transfer(
                        src@,
                        header.files@[k].offset as nat,
                        header.files@[k].length as nat,
                    ),
                }),
        ensures
            real_count(header.files@, DIRECTORY_SLOTS as nat) == i,
        decreases DIRECTORY_SLOTS - i,
    {
        let entry: WADFile = header.files[i];
        if entry.end() {
            proof {
                lemma_real_count_stops(header.files@, i as nat, DIRECTORY_SLOTS as nat);
            }
            break ;
        }
        let mut pos: u64 = entry.offset as u64;
        let mut data: Vec<u8> = Vec::new();
        copy_limited(src, &mut pos, &mut data, entry.length as u64);
        let mut name: String = decimal_string(i as u64);
        name.append(".bin");
        artifacts.push(Artifact { name, data });
        i += 1;
    }
    assert(pieces_of(artifacts@) =~= Seq::new(
        real_count(header.files@, DIRECTORY_SLOTS as nat),
        |i: int|
            Piece {
                name: entry_name(i as nat),
                data: transfer(
                    src@,
                    header.files@[i].offset as nat,
                    header.files@[i].length as nat,
                ),
            },
    ));
    artifacts
}

/// Behind the first sentinel no slot is a real entry.
pub proof fn lemma_real_count_stops(slots: Seq<WADFile>, at: nat, limit: nat)
    requires
        at < limit,
        real_count(slots, at) == at,
        slots[at as int].is_end(),
    ensures
        real_count(slots, limit) == at,
    decreases limit,
{
    if limit > at + 1 {
        lemma_real_count_stops(slots, at, (limit - 1) as nat);
    }
}

/// Splits an archive into the payloads of its real entries. The result is
/// `wad_scan` of the source.
pub fn unpack(src: &[u8]) -> (unpacked: Result<Vec<Artifact>, FormatError>)
    ensures
        match (unpacked, wad_scan(src@)) {
            (Ok(artifacts), Ok(pieces)) => pieces_of(artifacts@) == pieces,
            (Err(e), Err(defect)) => e == defect,
            _ => false,
        },
{
    match read_directory(src) {
        Err(e) => Err(e),
        Ok(header) => {
            let artifacts = extract_entries(src, &header);
            assert(pieces_of(artifacts@) =~= wad_scan(src@).unwrap());
            Ok(artifacts)
        },
    }
}

/// Parses an archive held in memory. On success the artifacts are the
/// pieces of `wad_scan` and the manifest lists their names; the time in the
/// manifest is that of the call. A defect of the source is returned as
/// `wad_scan` gives it.
///
/// The time is read from the system clock once the source has parsed. That
/// call does not return where the system clock stands before 1970 or where
/// no local time type can be selected for the machine's time zone.
pub fn parse_wad(src: &[u8]) -> (parsed: Result<(Manifest, Vec<Artifact>), FormatError>)
    ensures
        match (parsed, wad_scan(src@)) {
            (Ok((manifest, artifacts)), Ok(pieces)) => pieces_of(artifacts@) == pieces
                && names_of(manifest.files@) == piece_names(pieces),
            (Err(e), Err(defect)) => e == defect,
            _ => false,
        },
{
    match unpack(src) {
        Err(e) => Err(e),
        Ok(artifacts) => {
            let manifest = Manifest::assemble(local_now(), &artifacts);
            Ok((manifest, artifacts))
        },
    }
}

/// Sum of the first `count` of the lengths.
pub open spec fn lengths_before(lengths: Seq<nat>, count: nat) -> nat
    decreases count,
{
    if count == 0 {
        0
    } else {
        lengths_before(lengths, (count - 1) as nat) + lengths[count - 1]
    }
}

/// Number of payloads that a directory lists, of `count` payloads.
pub open spec fn listed(count: nat) -> nat {
    if count <= DIRECTORY_SLOTS {
        count
    } else {
        DIRECTORY_SLOTS as nat
    }
}

/// Where payload `i` starts in a rebuilt archive: behind the directory and
/// the payloads before it, with no padding.
pub open spec fn entry_offset(lengths: Seq<nat>, i: nat) -> nat {
    DIRECTORY_BYTES as nat + lengths_before(lengths, i)
}

/// Whether the offset and the length of payload `i` fit the 32-bit fields of
/// a slot.
pub open spec fn slot_fits(lengths: Seq<nat>, i: int) -> bool {
    lengths[i] <= u32::MAX && entry_offset(lengths, i as nat) <= u32::MAX
}

/// Whether the offset and the length of every payload that the directory
/// lists fit its 32-bit fields.
pub open spec fn layout_fits(lengths: Seq<nat>) -> bool {
    forall|i: int| 0 <= i < listed(lengths.len()) ==> #[trigger] slot_fits(lengths, i)
}

/// The directory of a rebuilt archive: one slot for each payload in order,
/// up to 256, and zeros in the slots that are left.
pub open spec fn laid_out(lengths: Seq<nat>) -> Seq<WADFile> {
    Seq::new(
        DIRECTORY_SLOTS as nat,
        |i: int|
            if i < lengths.len() {
                WADFile { offset: entry_offset(lengths, i as nat) as u32, length: lengths[i] as u32 }
            } else {
                WADFile { offset: 0, length: 0 }
            },
    )
}

/// The bytes of a directory: for each slot the offset, then the length,
/// both little-endian.
pub open spec fn directory_bytes(slots: Seq<WADFile>) -> Seq<u8> {
    Seq::new(
        8 * slots.len(),
        |k: int|
            if k % 8 < 4 {
                byte_of(slots[k / 8].offset as int, k % 8)
            } else {
                byte_of(slots[k / 8].length as int, k % 8 - 4)
            },
    )
}

/// The payloads one behind the other.
pub open spec fn joined(files: Seq<Seq<u8>>) -> Seq<u8>
    decreases files.len(),
{
    if files.len() == 0 {
        Seq::empty()
    } else {
        joined(files.drop_last()) + files.last()
    }
}

/// The lengths of the payloads, in order.
pub open spec fn lengths_of(files: Seq<Seq<u8>>) -> Seq<nat> {
    files.map_values(|f: Seq<u8>| f.len())
}

/// The contents of the payloads, in order.
pub open spec fn payloads_of(files: Seq<Vec<u8>>) -> Seq<Seq<u8>> {
    files.map_values(|f: Vec<u8>| f@)
}

/// The archive rebuilt from the payloads: the directory, then all payloads
/// back to back in their order.
pub open spec fn rebuilt(files: Seq<Seq<u8>>) -> Seq<u8> {
    directory_bytes(laid_out(lengths_of(files))) + joined(files)
}

/// The lengths as numbers without a bound.
pub open spec fn lengths_view(lengths: Seq<u64>) -> Seq<nat> {
    lengths.map_values(|l: u64| l as nat)
}

/// Lays out the directory for payloads of the given lengths. Fails where an
/// offset or a length that the directory lists exceeds 32 bits.
pub fn layout_directory(lengths: &Vec<u64>) -> (header: Result<WADHeader, FormatError>)
    ensures
        match header {
            Ok(h) => layout_fits(lengths_view(lengths@)) && h.files@ == laid_out(
                lengths_view(lengths@),
            ),
            Err(e) => !layout_fits(lengths_view(lengths@)) && e == FormatError::TooLarge,
        },
{
    let ghost lens = lengths_view(lengths@);
    let mut header = WADHeader { files: [WADFile { offset: 0, length: 0 };256] };
    let count: usize = if lengths.len() <= DIRECTORY_SLOTS {
        lengths.len()
    } else {
        DIRECTORY_SLOTS
    };
    let mut offset: u64 = DIRECTORY_BYTES as u64;
    let mut i: usize = 0;
    while i < count
        invariant
            0 <= i <= count,
            count == listed(lens.len()),
            lens == lengths_view(lengths@),
            offset == entry_offset(lens, i as nat),
            i > 0 ==> offset <= 2 * u32::MAX,
            forall|k: int| 0 <= k < i ==> #[trigger] slot_fits(lens, k),
            forall|k: int| 0 <= k < i ==> header.files@[k] == laid_out(lens)[k],
            forall|k: int|
                i <= k < DIRECTORY_SLOTS ==> header.files@[k] == (WADFile { offset: 0, length: 0 }),
        decreases count - i,
    {
        let length: u64 = lengths[i];
        if length > u32::MAX as u64 || offset > u32::MAX as u64 {
            assert(!slot_fits(lens, i as int));
            return Err(FormatError::TooLarge);
        }
        header.files[i] = WADFile { offset: offset as u32, length: length as u32 };
        offset = offset + length;
        assert(slot_fits(lens, i as int));
        i += 1;
    }
    assert(header.files@ =~= laid_out(lens));
    Ok(header)
}

/// Appends the bytes of a directory.
pub fn write_directory(header: &WADHeader, dst: &mut Vec<u8>)
    ensures
        final(dst)@ == old(dst)@ + directory_bytes(header.files@),
{
    let mut i: usize = 0;
    assert(dst@ =~= old(dst)@ + directory_bytes(header.files@.subrange(0, 0)));
    while i < DIRECTORY_SLOTS
        invariant
            0 <= i <= DIRECTORY_SLOTS,
            dst@ == old(dst)@ + directory_bytes(header.files@.subrange(0, i as int)),
        decreases DIRECTORY_SLOTS - i,
    {
        let slot: WADFile = header.files[i];
        push_u32_le(dst, slot.offset);
        push_u32_le(dst, slot.length);
        i += 1;
        proof {
            let shorter = directory_bytes(header.files@.subrange(0, i - 1));
            let longer = directory_bytes(header.files@.subrange(0, i as int));
            assert(longer =~= shorter + crate::encode::le_bytes_u32(slot.offset)
                + crate::encode::le_bytes_u32(slot.length));
        }
    }
    assert(header.files@.subrange(0, DIRECTORY_SLOTS as int) =~= header.files@);
}

/// Rebuilds an archive from its payloads: a fresh directory in which the
/// first payload starts right behind the directory and each next one where
/// the one before it ends, then the payloads themselves. Fails, with
/// nothing built, where the directory cannot hold an offset or a length.
pub fn rebuild_wad(files: &Vec<Vec<u8>>) -> (archive: Result<Vec<u8>, FormatError>)
    ensures
        match archive {
            Ok(bytes) => layout_fits(lengths_of(payloads_of(files@))) && bytes@ == rebuilt(
                payloads_of(files@),
            ),
            Err(e) => !layout_fits(lengths_of(payloads_of(files@))) && e == FormatError::TooLarge,
        },
{
    let mut lengths: Vec<u64> = Vec::new();
    let mut i: usize = 0;
    while i < files.len()
        invariant
            0 <= i <= files@.len(),
            lengths@.len() == i,
            forall|k: int| 0 <= k < i ==> lengths@[k] == files@[k]@.len(),
        decreases files@.len() - i,
    {
        lengths.push(files[i].len() as u64);
        i += 1;
    }
    assert(lengths_view(lengths@) =~= lengths_of(payloads_of(files@)));
    let header: WADHeader = match layout_directory(&lengths) {
        Err(e) => {
            return Err(e);
        },
        Ok(header) => header,
    };
    let mut bytes: Vec<u8> = Vec::new();
    write_directory(&header, &mut bytes);
    let mut j: usize = 0;
    assert(payloads_of(files@).subrange(0, 0) =~= Seq::<Seq<u8>>::empty());
    assert(bytes@ =~= directory_bytes(header.files@) + joined(payloads_of(files@).subrange(0, 0)));
    while j < files.len()
        invariant
            0 <= j <= files@.len(),
            bytes@ == directory_bytes(header.files@) + joined(
                payloads_of(files@).subrange(0, j as int),
            ),
        decreases files@.len() - j,
    {
        bytes.extend_from_slice(files[j].as_slice());
        j += 1;
        proof {
            let all = payloads_of(files@);
            assert(all.subrange(0, j as int).drop_last() =~= all.subrange(0, j - 1));
            assert(all.subrange(0, j as int).last() == files@[j - 1]@);
            assert(bytes@ =~= directory_bytes(header.files@) + joined(all.subrange(0, j as int)));
        }
    }
    assert(payloads_of(files@).subrange(0, files@.len() as int) =~= payloads_of(files@));
    Ok(bytes)
}

} // verus!
