//! The level container: one fixed header of offsets and lengths, and behind
//! it the texture and audio blob, the collision data, the model and five
//! further blobs.

use vstd::prelude::*;
use crate::artifact::{names_of, piece_names, pieces_of, Artifact, Piece};
use crate::clock::{local_now, Timestamp};
use crate::cursor::{le_u16, le_u32, u16_at, u32_at};
use crate::decimal::{decimal, numbered_name};
use crate::encode::{
    be_bytes_u32, le_bytes_u16, le_bytes_u32, push_u16_le, push_u32_be, push_u32_le,
};
use crate::error::FormatError;
use crate::scan::{Scan, Scanner};
use crate::wad::{entry_at, WADFile};

verus! {

/// Number of bytes of the header.
pub const LEVEL_HEADER_BYTES: usize = 448;

/// Number of bytes of an image header.
pub const TIM_HEADER_BYTES: usize = 20;

/// Number of bytes of one texture tile.
pub const TILE_BYTES: u64 = 262144;

/// Number of bytes from the start of the blob to the reverb parameters.
pub const TEXTURE_BYTES: u64 = 524288;

/// Number of bytes of the reverb parameters.
pub const REVERB_BYTES: u64 = 24576;

/// Number of bytes from the start of the blob to the first audio buffer.
pub const AUDIO_START: u32 = 548864;

/// Number of bytes of a full audio buffer.
pub const AUDIO_BUFFER_BYTES: u32 = 65536;

/// Largest number of audio buffers.
pub const AUDIO_BUFFERS: usize = 8;

/// Sample rate written into the header of an audio buffer.
pub const SAMPLE_RATE: u32 = 11025;

/// Number of further blobs.
pub const BLOBS: usize = 5;

/// The header of a level container.
#[derive(Clone, Copy, Debug)]
pub struct LevelHeader {
    pub tex_and_audio: WADFile,
    pub collision_data: WADFile,
    pub model: WADFile,
    pub something: [WADFile; 5],
    pub some_offsets: [u32; 64],
    pub model_indices: [u16; 64],
}

/// Whether `header` is the header stored at the start of `src`: eight pairs
/// of offset and length, 64 raw offsets and 64 16-bit indices.
pub open spec fn is_level_header(src: Seq<u8>, header: LevelHeader) -> bool {
    &&& header.tex_and_audio == entry_at(src, 0)
    &&& header.collision_data == entry_at(src, 8)
    &&& header.model == entry_at(src, 16)
    &&& header.something@ == Seq::new(BLOBS as nat, |i: int| entry_at(src, 24 + 8 * i))
    &&& header.some_offsets@ == Seq::new(64, |i: int| le_u32(src, 64 + 4 * i) as u32)
    &&& header.model_indices@ == Seq::new(64, |i: int| le_u16(src, 320 + 2 * i) as u16)
}

/// Reads the slot stored at `at`.
pub fn slot_at(src: &[u8], at: usize) -> (slot: WADFile)
    requires
        at + 8 <= src.len(),
    ensures
        slot == entry_at(src@, at as int),
{
    WADFile { offset: u32_at(src, at), length: u32_at(src, at + 4) }
}

/// Reads the header at the start of `src`.
pub fn read_level_header(src: &[u8]) -> (header: Result<LevelHeader, FormatError>)
    ensures
        match header {
            Ok(h) => src@.len() >= LEVEL_HEADER_BYTES && is_level_header(src@, h),
            Err(e) => src@.len() < LEVEL_HEADER_BYTES && e == FormatError::UnexpectedEof,
        },
{
    if src.len() < LEVEL_HEADER_BYTES {
        return Err(FormatError::UnexpectedEof);
    }
    let mut header = LevelHeader {
        tex_and_audio: slot_at(src, 0),
        collision_data: slot_at(src, 8),
        model: slot_at(src, 16),
        something: [WADFile { offset: 0, length: 0 };5],
        some_offsets: [0u32;64],
        model_indices: [0u16;64],
    };
    let mut i: usize = 0;
    while i < BLOBS
        invariant
            0 <= i <= BLOBS,
            src@.len() >= LEVEL_HEADER_BYTES,
            header.tex_and_audio == entry_at(src@, 0),
            header.collision_data == entry_at(src@, 8),
            header.model == entry_at(src@, 16),
            forall|k: int| 0 <= k < i ==> header.something@[k] == entry_at(src@, 24 + 8 * k),
        decreases BLOBS - i,
    {
        header.something[i] = slot_at(src, 24 + 8 * i);
        i += 1;
    }
    let mut j: usize = 0;
    while j < 64
        invariant
            0 <= j <= 64,
            src@.len() >= LEVEL_HEADER_BYTES,
            header.tex_and_audio == entry_at(src@, 0),
            header.collision_data == entry_at(src@, 8),
            header.model == entry_at(src@, 16),
            forall|k: int| 0 <= k < BLOBS ==> header.something@[k] == entry_at(src@, 24 + 8 * k),
            forall|k: int| 0 <= k < j ==> header.some_offsets@[k] == le_u32(src@, 64 + 4 * k),
            forall|k: int| 0 <= k < j ==> header.model_indices@[k] == le_u16(src@, 320 + 2 * k),
        decreases 64 - j,
    {
        header.some_offsets[j] = u32_at(src, 64 + 4 * j);
        header.model_indices[j] = u16_at(src, 320 + 2 * j);
        j += 1;
    }
    assert(header.something@ =~= Seq::new(BLOBS as nat, |i: int| entry_at(src@, 24 + 8 * i)));
    assert(header.some_offsets@ =~= Seq::new(64, |i: int| le_u32(src@, 64 + 4 * i) as u32));
    assert(header.model_indices@ =~= Seq::new(64, |i: int| le_u16(src@, 320 + 2 * i) as u16));
    Ok(header)
}

/// Where a texture tile lies in video memory and how many pixels it spans.
#[derive(Clone, Copy, Debug, PartialEq, Eq, Structural)]
pub struct TileGeometry {
    pub x: u16,
    pub y: u16,
    pub width: u16,
    pub height: u16,
}

impl TileGeometry {
    /// Number of bytes of the pixels of the tile, at two bytes a pixel.
    pub open spec fn pixel_bytes(self) -> nat {
        (self.width * self.height * 2) as nat
    }

    /// Whether the size of the pixel block, which counts its own 12 header
    /// bytes, fits the 32-bit field that holds it.
    pub open spec fn encodable(self) -> bool {
        self.pixel_bytes() + 12 <= u32::MAX
    }

    /// Number of bytes of the pixels of the tile.
    pub fn pixel_len(&self) -> (len: u64)
        ensures
            len == self.pixel_bytes(),
            len <= 2 * 65535 * 65535,
    {
        let w: u64 = self.width as u64;
        let h: u64 = self.height as u64;
        assert(w * h <= 65535 * 65535) by (nonlinear_arith)
            requires
                w <= 65535,
                h <= 65535,
        ;
        w * h * 2
    }

    /// Whether an image header can be written for the tile.
    pub fn is_encodable(&self) -> (fits: bool)
        ensures
            fits == self.encodable(),
    {
        self.pixel_len() + 12 <= u32::MAX as u64
    }

    /// Whether `artifact` holds an image header and then exactly the pixels
    /// of the tile. Where it does not, the header of the image promises
    /// more or fewer bytes than follow it.
    pub fn describes(&self, artifact: &Artifact) -> (exact: bool)
        ensures
            exact == (artifact.data@.len() == TIM_HEADER_BYTES + self.pixel_bytes()),
    {
        artifact.data.len() as u64 == self.pixel_len() + TIM_HEADER_BYTES as u64
    }
}

/// The geometry of the first tile of a level.
pub fn first_tile() -> (tile: TileGeometry)
    ensures
        tile == (TileGeometry { x: 512, y: 0, width: 512, height: 256 }),
        tile.encodable(),
        tile.pixel_bytes() == TILE_BYTES,
{
    TileGeometry { x: 512, y: 0, width: 512, height: 256 }
}

/// The geometry of the second tile of a level.
pub fn second_tile() -> (tile: TileGeometry)
    ensures
        tile == (TileGeometry { x: 512, y: 256, width: 512, height: 256 }),
        tile.encodable(),
        tile.pixel_bytes() == TILE_BYTES,
{
    TileGeometry { x: 512, y: 256, width: 512, height: 256 }
}

/// The image header of a 16-bit tile without a colour table: the magic
/// number, the flags, the size of the pixel block, and the tile's place and
/// extent, all little-endian.
pub open spec fn tim_header(tile: TileGeometry) -> Seq<u8> {
    le_bytes_u32(0x10) + le_bytes_u32(0x02) + le_bytes_u32((tile.pixel_bytes() + 12) as u32)
        + le_bytes_u16(tile.x) + le_bytes_u16(tile.y) + le_bytes_u16(tile.width) + le_bytes_u16(
        tile.height,
    )
}

/// Appends the image header of a 16-bit tile at (`x`, `y`) that spans `w`
/// by `h` pixels.
pub fn write_16bpp_tim_header(dst: &mut Vec<u8>, x: u16, y: u16, w: u16, h: u16)
    requires
        (TileGeometry { x, y, width: w, height: h }).encodable(),
    ensures
        final(dst)@ == old(dst)@ + tim_header(TileGeometry { x, y, width: w, height: h }),
{
    let tile = TileGeometry { x, y, width: w, height: h };
    let pixel_data_size: u32 = (tile.pixel_len() + 12) as u32;
    push_u32_le(dst, 0x10);
    push_u32_le(dst, 0x02);
    push_u32_le(dst, pixel_data_size);
    push_u16_le(dst, x);
    push_u16_le(dst, y);
    push_u16_le(dst, w);
    push_u16_le(dst, h);
    assert(dst@ =~= old(dst)@ + tim_header(tile));
}

/// The header of an audio buffer of `len` bytes: the tag, the version, the
/// size and the sample rate big-endian, zeros elsewhere; 48 bytes.
pub open spec fn vag_header(len: u32) -> Seq<u8> {
    seq![0x56u8, 0x41u8, 0x47u8, 0x70u8] + be_bytes_u32(0x20) + Seq::new(4, |i: int| 0u8)
        + be_bytes_u32(len) + be_bytes_u32(SAMPLE_RATE) + Seq::new(28, |i: int| 0u8)
}

/// Appends `count` zero bytes.
pub fn push_zeros(dst: &mut Vec<u8>, count: usize)
    ensures
        final(dst)@ == old(dst)@ + Seq::new(count as nat, |i: int| 0u8),
{
    let mut i: usize = 0;
    assert(dst@ =~= old(dst)@ + Seq::new(0, |i: int| 0u8));
    while i < count
        invariant
            0 <= i <= count,
            dst@ == old(dst)@ + Seq::new(i as nat, |i: int| 0u8),
        decreases count - i,
    {
        dst.push(0);
        i += 1;
        assert(dst@ =~= old(dst)@ + Seq::new(i as nat, |i: int| 0u8));
    }
}

/// Appends the header of an audio buffer of `len` bytes.
pub fn write_vag_header(dst: &mut Vec<u8>, len: u32)
    ensures
        final(dst)@ == old(dst)@ + vag_header(len),
{
    dst.push(0x56);
    dst.push(0x41);
    dst.push(0x47);
    dst.push(0x70);
    assert(dst@ =~= old(dst)@ + seq![0x56u8, 0x41u8, 0x47u8, 0x70u8]);
    push_u32_be(dst, 0x20);
    push_zeros(dst, 4);
    push_u32_be(dst, len);
    push_u32_be(dst, SAMPLE_RATE);
    push_zeros(dst, 28);
    assert(dst@ =~= old(dst)@ + vag_header(len));
}

/// Number of bytes of audio in a texture and audio blob of `length` bytes:
/// what follows the textures and the reverb parameters.
pub open spec fn audio_bytes(length: u32) -> int {
    length - AUDIO_START
}

/// Number of audio buffers that `avail` bytes of audio make: one for every
/// 64 KiB begun, and no more than eight.
pub open spec fn audio_count(avail: nat) -> nat {
    let begun = (avail + AUDIO_BUFFER_BYTES - 1) / (AUDIO_BUFFER_BYTES as int);
    if begun <= AUDIO_BUFFERS {
        begun as nat
    } else {
        AUDIO_BUFFERS as nat
    }
}

/// Number of bytes of audio buffer `i`: what is left behind the buffers
/// before it, and no more than 64 KiB.
pub open spec fn buffer_len(avail: nat, i: nat) -> nat {
    if avail - AUDIO_BUFFER_BYTES * i >= AUDIO_BUFFER_BYTES {
        AUDIO_BUFFER_BYTES as nat
    } else {
        (avail - AUDIO_BUFFER_BYTES * i) as nat
    }
}

/// Name of the artifact of audio buffer `i`.
pub open spec fn buffer_name(i: nat) -> Seq<char> {
    "a_buf_"@ + decimal(i) + ".vag"@
}

/// Name of the artifact of further blob `i`.
pub open spec fn blob_name(i: nat) -> Seq<char> {
    "s_"@ + decimal(i) + ".bin"@
}

/// The state after the two texture tiles and the reverb parameters are
/// emitted: the tiles one behind the other from the start of the blob, each
/// behind its image header, the reverb parameters from 512 KiB on.
pub open spec fn with_textures(
    src: Seq<u8>,
    scan: Scan,
    blob: WADFile,
    first: TileGeometry,
    second: TileGeometry,
) -> Scan {
    scan.seek(blob.offset as nat).emit(
        src,
        "tex_0.tim"@,
        tim_header(first),
        TILE_BYTES as nat,
    ).emit(src, "tex_1.tim"@, tim_header(second), TILE_BYTES as nat).seek(
        (blob.offset + TEXTURE_BYTES) as nat,
    ).emit(src, "a_reverb.bin"@, Seq::empty(), REVERB_BYTES as nat)
}

/// The state after the first `count` audio buffers are emitted, each from
/// its fixed place in the blob and behind its header.
pub open spec fn with_audio(src: Seq<u8>, scan: Scan, blob: WADFile, count: nat) -> Scan
    decreases count,
{
    if count == 0 {
        scan
    } else {
        let i = (count - 1) as nat;
        let len = buffer_len(audio_bytes(blob.length) as nat, i);
        with_audio(src, scan, blob, i).seek(
            (blob.offset + AUDIO_START + AUDIO_BUFFER_BYTES * i) as nat,
        ).emit(src, buffer_name(i), vag_header(len as u32), len)
    }
}

/// The state after the blob that `slot` describes is emitted under `name`.
pub open spec fn with_blob(src: Seq<u8>, scan: Scan, slot: WADFile, name: Seq<char>) -> Scan {
    scan.seek(slot.offset as nat).emit(src, name, Seq::empty(), slot.length as nat)
}

/// The state after the first `count` further blobs are emitted.
pub open spec fn with_blobs(src: Seq<u8>, scan: Scan, slots: Seq<WADFile>, count: nat) -> Scan
    decreases count,
{
    if count == 0 {
        scan
    } else {
        let i = (count - 1) as nat;
        with_blob(src, with_blobs(src, scan, slots, i), slots[i as int], blob_name(i))
    }
}

/// The pieces of a level whose header is read: textures, reverb parameters,
/// audio buffers, collision data, model and the further blobs, in this
/// order.
pub open spec fn level_pieces(
    src: Seq<u8>,
    first: TileGeometry,
    second: TileGeometry,
) -> Seq<Piece> {
    let blob = entry_at(src, 0);
    let textures = with_textures(src, Scan::start(), blob, first, second);
    let audio = with_audio(
        src,
        textures,
        blob,
        audio_count(audio_bytes(blob.length) as nat),
    );
    let collision = with_blob(src, audio, entry_at(src, 8), "collision_data.bin"@);
    let model = with_blob(src, collision, entry_at(src, 16), "model.bin"@);
    with_blobs(
        src,
        model,
        Seq::new(BLOBS as nat, |i: int| entry_at(src, 24 + 8 * i)),
        BLOBS as nat,
    ).pieces
}

/// What a level container holds, with the given geometry of its two tiles:
/// its pieces, or the first defect met. A source shorter than the header, a
/// tile whose image header cannot be written and a blob too short to hold
/// textures and reverb parameters are defects.
pub open spec fn level_scan(src: Seq<u8>, first: TileGeometry, second: TileGeometry) -> Result<
    Seq<Piece>,
    FormatError,
> {
    if src.len() < LEVEL_HEADER_BYTES {
        Err(FormatError::UnexpectedEof)
    } else if !first.encodable() || !second.encodable() {
        Err(FormatError::TooLarge)
    } else if entry_at(src, 0).length < AUDIO_START {
        Err(FormatError::LengthUnderflow)
    } else {
        Ok(level_pieces(src, first, second))
    }
}

/// Emits the two texture tiles and the reverb parameters.
pub fn emit_textures(
    src: &[u8],
    scanner: &mut Scanner,
    blob: WADFile,
    first: TileGeometry,
    second: TileGeometry,
)
    requires
        first.encodable(),
        second.encodable(),
    ensures
        final(scanner)@ == with_textures(src@, old(scanner)@, blob, first, second),
{
    scanner.seek(blob.offset as u64);
    let mut header_0: Vec<u8> = Vec::new();
    write_16bpp_tim_header(&mut header_0, first.x, first.y, first.width, first.height);
    assert(header_0@ =~= tim_header(first));
    scanner.emit(src, String::from_str("tex_0.tim"), header_0, TILE_BYTES);
    let mut header_1: Vec<u8> = Vec::new();
    write_16bpp_tim_header(&mut header_1, second.x, second.y, second.width, second.height);
    assert(header_1@ =~= tim_header(second));
    scanner.emit(src, String::from_str("tex_1.tim"), header_1, TILE_BYTES);
    scanner.seek(blob.offset as u64 + TEXTURE_BYTES);
    scanner.emit(src, String::from_str("a_reverb.bin"), Vec::new(), REVERB_BYTES);
}

/// Emits the audio buffers: up to eight, each of what is left of the blob
/// and at most 64 KiB; none once nothing is left, and none behind one that
/// is not full.
pub fn emit_audio(src: &[u8], scanner: &mut Scanner, blob: WADFile) -> (count: usize)
    requires
        blob.length >= AUDIO_START,
    ensures
        count == audio_count(audio_bytes(blob.length) as nat),
        final(scanner)@ == with_audio(src@, old(scanner)@, blob, count as nat),
{
    let avail: u32 = blob.length - AUDIO_START;
    let mut i: usize = 0;
    while i < AUDIO_BUFFERS
        invariant_except_break
            avail >= AUDIO_BUFFER_BYTES * i,
        invariant
            0 <= i <= AUDIO_BUFFERS,
            avail == audio_bytes(blob.length),
            scanner@ == with_audio(src@, old(scanner)@, blob, i as nat),
        ensures
            i == audio_count(avail as nat),
            scanner@ == with_audio(src@, old(scanner)@, blob, i as nat),
        decreases AUDIO_BUFFERS - i,
    {
        let lb: u32 = (i as u32) * AUDIO_BUFFER_BYTES;
        let left: u32 = avail - lb;
        let len: u32 = if left < AUDIO_BUFFER_BYTES {
            left
        } else {
            AUDIO_BUFFER_BYTES
        };
        if len == 0 {
            break ;
        }
        scanner.seek(blob.offset as u64 + AUDIO_START as u64 + lb as u64);
        let mut header: Vec<u8> = Vec::new();
        write_vag_header(&mut header, len);
        assert(header@ =~= vag_header(len));
        scanner.emit(src, numbered_name("a_buf_", i as u64, ".vag"), header, len as u64);
        i += 1;
        if len < AUDIO_BUFFER_BYTES {
            break ;
        }
    }
    i
}

/// Emits the blob that `slot` describes under `name`.
pub fn emit_blob(src: &[u8], scanner: &mut Scanner, slot: WADFile, name: String)
    ensures
        final(scanner)@ == with_blob(src@, old(scanner)@, slot, name@),
{
    scanner.seek(slot.offset as u64);
    scanner.emit(src, name, Vec::new(), slot.length as u64);
}

/// Splits a level container into its pieces, with the given geometry of its
/// two tiles. The result is `level_scan` of the source; with the pieces
/// comes the header.
pub fn scan_level(src: &[u8], first: TileGeometry, second: TileGeometry) -> (scanned: Result<
    (LevelHeader, Vec<Artifact>),
    FormatError,
>)
    ensures
        match (scanned, level_scan(src@, first, second)) {
            (Ok((header, artifacts)), Ok(pieces)) => is_level_header(src@, header) && pieces_of(
                artifacts@,
            ) == pieces && pieces.len() == 10 + audio_count(
                audio_bytes(header.tex_and_audio.length) as nat,
            ),
            (Err(e), Err(defect)) => e == defect,
            _ => false,
        },
{
    let header: LevelHeader = match read_level_header(src) {
        Err(e) => {
            return Err(e);
        },
        Ok(header) => header,
    };
    if !first.is_encodable() || !second.is_encodable() {
        return Err(FormatError::TooLarge);
    }
    if header.tex_and_audio.length < AUDIO_START {
        return Err(FormatError::LengthUnderflow);
    }
    let mut scanner: Scanner = Scanner::new();
    emit_textures(src, &mut scanner, header.tex_and_audio, first, second);
    let count: usize = emit_audio(src, &mut scanner, header.tex_and_audio);
    emit_blob(src, &mut scanner, header.collision_data, String::from_str("collision_data.bin"));
    emit_blob(src, &mut scanner, header.model, String::from_str("model.bin"));
    let ghost model: Scan = scanner@;
    let mut i: usize = 0;
    while i < BLOBS
        invariant
            0 <= i <= BLOBS,
            scanner@ == with_blobs(src@, model, header.something@, i as nat),
        decreases BLOBS - i,
    {
        emit_blob(src, &mut scanner, header.something[i], numbered_name("s_", i as u64, ".bin"));
        i += 1;
    }
    proof {
        let blob = header.tex_and_audio;
        let textures = with_textures(src@, Scan::start(), blob, first, second);
        lemma_audio_pieces(src@, textures, blob, count as nat);
        let audio = with_audio(src@, textures, blob, count as nat);
        let collision = with_blob(src@, audio, header.collision_data, "collision_data.bin"@);
        let last = with_blob(src@, collision, header.model, "model.bin"@);
        lemma_blob_pieces(src@, last, header.something@, BLOBS as nat);
    }
    Ok((header, scanner.artifacts))
}

/// Emitting `count` audio buffers adds `count` pieces.
pub proof fn lemma_audio_pieces(src: Seq<u8>, scan: Scan, blob: WADFile, count: nat)
    ensures
        with_audio(src, scan, blob, count).pieces.len() == scan.pieces.len() + count,
    decreases count,
{
    if count > 0 {
        lemma_audio_pieces(src, scan, blob, (count - 1) as nat);
    }
}

/// Emitting `count` further blobs adds `count` pieces.
pub proof fn lemma_blob_pieces(src: Seq<u8>, scan: Scan, slots: Seq<WADFile>, count: nat)
    ensures
        with_blobs(src, scan, slots, count).pieces.len() == scan.pieces.len() + count,
    decreases count,
{
    if count > 0 {
        lemma_blob_pieces(src, scan, slots, (count - 1) as nat);
    }
}

/// The record of a parsed level container: when it was made, the names of
/// its artifacts and the raw offsets and indices of its header.
#[derive(Clone, Debug)]
pub struct LevelManifest {
    pub timestamp: Timestamp,
    pub tex_0: String,
    pub tex_1: String,
    pub reverb: String,
    pub audio_buffers: Vec<String>,
    pub collision_data: String,
    pub model: String,
    pub something: Vec<String>,
    pub some_offsets: Vec<u32>,
    pub model_indices: Vec<u16>,
}

impl LevelManifest {
    /// The names of the artifacts in the order of their extraction.
    pub open spec fn artifact_names(&self) -> Seq<Seq<char>> {
        seq![self.tex_0@, self.tex_1@, self.reverb@] + names_of(self.audio_buffers@)
            + seq![self.collision_data@, self.model@] + names_of(self.something@)
    }

    /// Makes the manifest of a parse from the time of its making, the header
    /// and the artifacts, which are the textures, the reverb parameters, the
    /// audio buffers, the collision data, the model and five further blobs.
    pub fn assemble(timestamp: Timestamp, header: &LevelHeader, artifacts: &Vec<Artifact>) -> (manifest:
        LevelManifest)
        requires
            artifacts@.len() >= 5 + BLOBS,
        ensures
            manifest.timestamp == timestamp,
            manifest.artifact_names() == piece_names(pieces_of(artifacts@)),
            manifest.audio_buffers@.len() == artifacts@.len() - 5 - BLOBS,
            manifest.something@.len() == BLOBS,
            manifest.some_offsets@ == header.some_offsets@,
            manifest.model_indices@ == header.model_indices@,
    {
        let audio: usize = artifacts.len() - 5 - BLOBS;
        let mut audio_buffers: Vec<String> = Vec::new();
        let mut i: usize = 0;
        while i < audio
            invariant
                0 <= i <= audio,
                audio + 5 + BLOBS == artifacts@.len() <= usize::MAX,
                audio_buffers@.len() == i,
                forall|k: int| 0 <= k < i ==> audio_buffers@[k]@ == artifacts@[3 + k].name@,
            decreases audio - i,
        {
            audio_buffers.push(artifacts[3 + i].name.clone());
            i += 1;
        }
        let mut something: Vec<String> = Vec::new();
        let mut j: usize = 0;
        while j < BLOBS
            invariant
                0 <= j <= BLOBS,
                audio + 5 + BLOBS == artifacts@.len() <= usize::MAX,
                something@.len() == j,
                forall|k: int| 0 <= k < j ==> something@[k]@ == artifacts@[5 + audio + k].name@,
            decreases BLOBS - j,
        {
            something.push(artifacts[5 + audio + j].name.clone());
            j += 1;
        }
        let mut some_offsets: Vec<u32> = Vec::new();
        let mut model_indices: Vec<u16> = Vec::new();
        let mut k: usize = 0;
        while k < 64
            invariant
                0 <= k <= 64,
                some_offsets@ == header.some_offsets@.subrange(0, k as int),
                model_indices@ == header.model_indices@.subrange(0, k as int),
            decreases 64 - k,
        {
            some_offsets.push(header.some_offsets[k]);
            model_indices.push(header.model_indices[k]);
            k += 1;
            assert(some_offsets@ =~= header.some_offsets@.subrange(0, k as int));
            assert(model_indices@ =~= header.model_indices@.subrange(0, k as int));
        }
        assert(some_offsets@ =~= header.some_offsets@);
        assert(model_indices@ =~= header.model_indices@);
        let manifest = LevelManifest {
            timestamp,
            tex_0: artifacts[0].name.clone(),
            tex_1: artifacts[1].name.clone(),
            reverb: artifacts[2].name.clone(),
            audio_buffers,
            collision_data: artifacts[3 + audio].name.clone(),
            model: artifacts[4 + audio].name.clone(),
            something,
            some_offsets,
            model_indices,
        };
        assert(manifest.artifact_names() =~= piece_names(pieces_of(artifacts@)));
        manifest
    }
}

/// Parses a level container held in memory, with the given geometry of its
/// two texture tiles. On success the artifacts are the pieces of
/// `level_scan`, and the manifest lists their names and holds the raw
/// offsets and indices of the header; the time in the manifest is that of
/// the call. A defect is returned as `level_scan` gives it.
///
/// The time is read from the system clock once the source has parsed. That
/// call does not return where the system clock stands before 1970 or where
/// no local time type can be selected for the machine's time zone.
pub fn parse_level_with_tiles(src: &[u8], first: TileGeometry, second: TileGeometry) -> (parsed:
    Result<(LevelManifest, Vec<Artifact>), FormatError>)
    ensures
        match (parsed, level_scan(src@, first, second)) {
            (Ok((manifest, artifacts)), Ok(pieces)) => pieces_of(artifacts@) == pieces
                && manifest.artifact_names() == piece_names(pieces)
                && manifest.audio_buffers@.len() == audio_count(
                audio_bytes(entry_at(src@, 0).length) as nat,
            ) && manifest.something@.len() == BLOBS && manifest.some_offsets@ == Seq::new(
                64,
                |i: int| le_u32(src@, 64 + 4 * i) as u32,
            ) && manifest.model_indices@ == Seq::new(64, |i: int| le_u16(src@, 320 + 2 * i) as u16),
            (Err(e), Err(defect)) => e == defect,
            _ => false,
        },
{
    match scan_level(src, first, second) {
        Err(e) => Err(e),
        Ok((header, artifacts)) => {
            let manifest = LevelManifest::assemble(local_now(), &header, &artifacts);
            Ok((manifest, artifacts))
        },
    }
}

/// Parses a level container held in memory, whose two texture tiles are 512
/// by 256 pixels and lie at (512, 0) and (512, 256). The result is that of
/// `parse_level_with_tiles` for these two tiles.
///
/// The time is read from the system clock once the source has parsed. That
/// call does not return where the system clock stands before 1970 or where
/// no local time type can be selected for the machine's time zone.
pub fn parse_level(src: &[u8]) -> (parsed: Result<(LevelManifest, Vec<Artifact>), FormatError>)
    ensures
        match (
            parsed,
            level_scan(
                src@,
                TileGeometry { x: 512, y: 0, width: 512, height: 256 },
                TileGeometry { x: 512, y: 256, width: 512, height: 256 },
            ),
        ) {
            (Ok((manifest, artifacts)), Ok(pieces)) => pieces_of(artifacts@) == pieces
                && manifest.artifact_names() == piece_names(pieces)
                && manifest.audio_buffers@.len() == audio_count(
                audio_bytes(entry_at(src@, 0).length) as nat,
            ) && manifest.something@.len() == BLOBS && manifest.some_offsets@ == Seq::new(
                64,
                |i: int| le_u32(src@, 64 + 4 * i) as u32,
            ) && manifest.model_indices@ == Seq::new(64, |i: int| le_u16(src@, 320 + 2 * i) as u16),
            (Err(e), Err(defect)) => e == defect,
            _ => false,
        },
{
    parse_level_with_tiles(src, first_tile(), second_tile())
}

} // verus!
