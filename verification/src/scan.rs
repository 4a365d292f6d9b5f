//! The state of a parse: a cursor into the source, the header fields read so
//! far and the artifacts emitted so far.

use vstd::prelude::*;
use crate::artifact::{pieces_of, Artifact, Piece};
use crate::cursor::{copy_limited, in_bounds, le_u32, read_u32, transfer, transfer_len};

verus! {

/// The mathematical state of a parse.
pub struct Scan {
    pub pos: nat,
    pub fields: Seq<u32>,
    pub pieces: Seq<Piece>,
}

/// The `count` little-endian 32-bit fields stored from `pos` on.
pub open spec fn fields_at(src: Seq<u8>, pos: nat, count: nat) -> Seq<u32> {
    Seq::new(count, |k: int| le_u32(src, pos + 4 * k) as u32)
}

impl Scan {
    /// The state before anything is read.
    pub open spec fn start() -> Scan {
        Scan { pos: 0, fields: Seq::empty(), pieces: Seq::empty() }
    }

    /// The state with the cursor moved to `pos`.
    pub open spec fn seek(self, pos: nat) -> Scan {
        Scan { pos, ..self }
    }

    /// Whether `count` header fields can be read at the cursor.
    pub open spec fn has_fields(self, src: Seq<u8>, count: nat) -> bool {
        count == 0 || in_bounds(src.len(), self.pos as int, 4 * (count as int))
    }

    /// The state after `count` header fields are read at the cursor.
    pub open spec fn read_fields(self, src: Seq<u8>, count: nat) -> Scan {
        Scan {
            pos: self.pos + 4 * count,
            fields: self.fields + fields_at(src, self.pos, count),
            pieces: self.pieces,
        }
    }

    /// The state after an artifact is emitted that holds `prefix` and then
    /// up to `max` bytes taken at the cursor.
    pub open spec fn emit(self, src: Seq<u8>, name: Seq<char>, prefix: Seq<u8>, max: nat) -> Scan {
        Scan {
            pos: self.pos + transfer_len(src.len(), self.pos, max),
            fields: self.fields,
            pieces: self.pieces.push(
                Piece { name, data: prefix + transfer(src, self.pos, max) },
            ),
        }
    }
}

/// The executable state of a parse.
#[derive(Clone, Debug)]
pub struct Scanner {
    pub pos: u64,
    pub fields: Vec<u32>,
    pub artifacts: Vec<Artifact>,
}

impl View for Scanner {
    type V = Scan;

    open spec fn view(&self) -> Scan {
        Scan { pos: self.pos as nat, fields: self.fields@, pieces: pieces_of(self.artifacts@) }
    }
}

impl Scanner {
    /// A scanner that stands at the start of its source.
    pub fn new() -> (scanner: Scanner)
        ensures
            scanner@ == Scan::start(),
    {
        let scanner = Scanner { pos: 0, fields: Vec::new(), artifacts: Vec::new() };
        assert(scanner@.pieces =~= Seq::empty());
        scanner
    }

    /// Moves the cursor to `pos`, which may lie behind the end of the source.
    pub fn seek(&mut self, pos: u64)
        ensures
            final(self)@ == old(self)@.seek(pos as nat),
    {
        self.pos = pos;
    }

    /// Reads `count` little-endian 32-bit header fields at the cursor and
    /// reports whether the source held them all. After a failure the state
    /// is of no further use.
    pub fn read_fields(&mut self, src: &[u8], count: usize) -> (complete: bool)
        ensures
            complete == old(self)@.has_fields(src@, count as nat),
            complete ==> final(self)@ == old(self)@.read_fields(src@, count as nat),
    {
        let mut k: usize = 0;
        while k < count
            invariant
                0 <= k <= count,
                self.pos == old(self).pos + 4 * k,
                k > 0 ==> self.pos <= src@.len(),
                self.fields@ == old(self).fields@ + fields_at(src@, old(self).pos as nat, k as nat),
                self.artifacts == old(self).artifacts,
            decreases count - k,
        {
            match read_u32(src, &mut self.pos) {
                None => {
                    return false;
                },
                Some(value) => {
                    self.fields.push(value);
                },
            }
            k += 1;
            assert(self.fields@ =~= old(self).fields@ + fields_at(
                src@,
                old(self).pos as nat,
                k as nat,
            ));
        }
        true
    }

    /// Emits an artifact called `name` that holds `prefix` and then up to
    /// `max` bytes copied at the cursor, and advances the cursor by the
    /// number of bytes copied.
    pub fn emit(&mut self, src: &[u8], name: String, prefix: Vec<u8>, max: u64)
        ensures
            final(self)@ == old(self)@.emit(src@, name@, prefix@, max as nat),
    {
        let mut data: Vec<u8> = prefix;
        copy_limited(src, &mut self.pos, &mut data, max);
        self.artifacts.push(Artifact { name, data });
        assert(pieces_of(self.artifacts@) =~= pieces_of(old(self).artifacts@).push(
            Piece { name: name@, data: prefix@ + transfer(src@, old(self).pos as nat, max as nat) },
        ));
    }
}

} // verus!
