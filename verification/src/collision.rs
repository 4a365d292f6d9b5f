//! The collision container: a chain of sections in which a header field gives
//! the place where a later section starts, so that the length of a payload is
//! always found by subtraction.

use vstd::prelude::*;
use crate::artifact::{artifact_names, names_of, piece_names, pieces_of, Artifact};
use crate::clock::{local_now, Timestamp};
use crate::cursor::remaining;
use crate::error::FormatError;
use crate::scan::{Scan, Scanner};
use crate::sub_region_laws::{
    absent_slots_have_no_piece, lemma_sub_region_rules, present_slots_reach_next,
};
use crate::sub_table::{ascending, sort_by_offset, stable_sort, SubRegion};

verus! {

/// Header of section 0.
#[derive(Clone, Copy, Debug, PartialEq, Eq, Structural)]
pub struct CollisionHeader {
    pub section_1_offset: u32,
    pub section_0_data_len: u32,
}

/// Header of section 1.
#[derive(Clone, Copy, Debug, PartialEq, Eq, Structural)]
pub struct CollisionSection1 {
    pub section_3_offset: u32,
    pub section_2_offset: u32,
}

/// Header of the offset table of section 2.
#[derive(Clone, Copy, Debug, PartialEq, Eq, Structural)]
pub struct CollisionSection2 {
    pub section_2_data_len: u32,
    pub section_4_offset: u32,
}

/// Header of section 3.
#[derive(Clone, Copy, Debug, PartialEq, Eq, Structural)]
pub struct CollisionSection3 {
    pub section_5_offset: u32,
}

/// Header of section 5.
#[derive(Clone, Copy, Debug, PartialEq, Eq, Structural)]
pub struct CollisionSection5 {
    pub collision_types_offset: u32,
}

/// Header of the collision types.
#[derive(Clone, Copy, Debug, PartialEq, Eq, Structural)]
pub struct CollisionTypes {
    pub section_7_offset: u32,
    pub collision_types_len: u32,
}

/// Header of section 7.
#[derive(Clone, Copy, Debug, PartialEq, Eq, Structural)]
pub struct CollisionSection7 {
    pub section_8_offset: u32,
}

/// Header of section 8: the offset of section 9, a triangle count and the
/// offsets of eight sub-regions, which are not stored in file order.
#[derive(Clone, Copy, Debug, PartialEq, Eq, Structural)]
pub struct CollisionSection8 {
    pub section_9_offset: u32,
    pub triangle_count: u32,
    pub idfk_offset: u32,
    pub unk_0: u32,
    pub unk_1_offset: u32,
    pub unk_2_offset: u32,
    pub triangles_offset: u32,
    pub collision_flags_offset: u32,
    pub unk_3_offset: u32,
    pub unk_4_offset: u32,
}

/// Header of section 9.
#[derive(Clone, Copy, Debug, PartialEq, Eq, Structural)]
pub struct CollisionSection9 {
    pub section_10_offset: u32,
}

/// Header of section 10.
#[derive(Clone, Copy, Debug, PartialEq, Eq, Structural)]
pub struct CollisionSection10 {
    pub section_11_offset: u32,
    pub section_10_data_len: u32,
}

/// Header of section 11.
#[derive(Clone, Copy, Debug, PartialEq, Eq, Structural)]
pub struct CollisionSection11 {
    pub section_12_offset: u32,
    pub section_11_data_len: u32,
}

/// Header of section 12.
#[derive(Clone, Copy, Debug, PartialEq, Eq, Structural)]
pub struct CollisionSection12 {
    pub section_13_offset: u32,
    pub section_12_data_len: u32,
}

/// Header of section 14.
#[derive(Clone, Copy, Debug, PartialEq, Eq, Structural)]
pub struct CollisionSection14 {
    pub section_15_offset: u32,
}

/// How the length of a section's payload is found.
#[derive(Clone, Copy, Debug, PartialEq, Eq, Structural)]
pub enum LengthRule {
    /// The first header field is the offset of the next section, counted
    /// from the start of this section's header.
    Offset,
    /// The second header field, less 4, holds as many whole records of 28
    /// bytes as fit.
    Records,
    /// The first header field counts entries of 4 bytes.
    Count,
    /// What is left of the span that section 1 announces, after the record
    /// table, the two headers and the offset table.
    Between,
    /// A fixed number of bytes.
    Fixed(u64),
    /// The table of sub-regions of section 8.
    SubTable,
    /// Everything up to the end of the source.
    Tail,
}

/// Number of sections in the chain.
pub const SECTION_COUNT: usize = 17;

/// Number of header fields that the whole chain holds.
pub const FIELD_COUNT: usize = 29;

/// Number of slots in the sub-region table of section 8.
pub const SLOT_COUNT: usize = 9;

/// Stride of a record of section 1.
pub const RECORD_STRIDE: u32 = 28;

/// Name of the artifact of section `i` of the chain.
pub open spec fn rule_name(i: int) -> Seq<char> {
    if i == 0 {
        "section_0.dat"@
    } else if i == 1 {
        "section_1.dat"@
    } else if i == 2 {
        "section_2_offsets.dat"@
    } else if i == 3 {
        "section_2.dat"@
    } else if i == 4 {
        "section_3.dat"@
    } else if i == 5 {
        "section_5.dat"@
    } else if i == 6 {
        "collision_types.dat"@
    } else if i == 7 {
        "section_7.dat"@
    } else if i == 8 {
        "vec_3.dat"@
    } else if i == 9 {
        ""@
    } else if i == 10 {
        "section_9.dat"@
    } else if i == 11 {
        "section_10.dat"@
    } else if i == 12 {
        "section_11.dat"@
    } else if i == 13 {
        "section_12.dat"@
    } else if i == 14 {
        "section_13.dat"@
    } else if i == 15 {
        "section_14.dat"@
    } else {
        "tail.bin"@
    }
}

/// Number of 32-bit header fields of section `i` of the chain.
pub open spec fn rule_header_fields(i: int) -> nat {
    if i == 3 || i == 8 || i == 14 || i == 16 {
        0
    } else if i == 4 || i == 5 || i == 7 || i == 10 || i == 15 {
        1
    } else if i == 9 {
        10
    } else {
        2
    }
}

/// The length rule of section `i` of the chain.
pub open spec fn rule_length(i: int) -> LengthRule {
    if i == 1 {
        LengthRule::Records
    } else if i == 2 {
        LengthRule::Count
    } else if i == 3 {
        LengthRule::Between
    } else if i == 8 {
        LengthRule::Fixed(12)
    } else if i == 9 {
        LengthRule::SubTable
    } else if i == 14 {
        LengthRule::Fixed(32)
    } else if i == 16 {
        LengthRule::Tail
    } else {
        LengthRule::Offset
    }
}

/// One row of the section table.
#[derive(Clone, Copy, Debug)]
pub struct SectionRule {
    pub name: &'static str,
    pub header_fields: usize,
    pub length: LengthRule,
}

/// Row `i` of the section table.
pub fn section_rule(i: usize) -> (rule: SectionRule)
    requires
        i < SECTION_COUNT,
    ensures
        rule.name@ == rule_name(i as int),
        rule.header_fields == rule_header_fields(i as int),
        rule.length == rule_length(i as int),
{
    if i == 0 {
        SectionRule { name: "section_0.dat", header_fields: 2, length: LengthRule::Offset }
    } else if i == 1 {
        SectionRule { name: "section_1.dat", header_fields: 2, length: LengthRule::Records }
    } else if i == 2 {
        SectionRule { name: "section_2_offsets.dat", header_fields: 2, length: LengthRule::Count }
    } else if i == 3 {
        SectionRule { name: "section_2.dat", header_fields: 0, length: LengthRule::Between }
    } else if i == 4 {
        SectionRule { name: "section_3.dat", header_fields: 1, length: LengthRule::Offset }
    } else if i == 5 {
        SectionRule { name: "section_5.dat", header_fields: 1, length: LengthRule::Offset }
    } else if i == 6 {
        SectionRule { name: "collision_types.dat", header_fields: 2, length: LengthRule::Offset }
    } else if i == 7 {
        SectionRule { name: "section_7.dat", header_fields: 1, length: LengthRule::Offset }
    } else if i == 8 {
        SectionRule { name: "vec_3.dat", header_fields: 0, length: LengthRule::Fixed(12) }
    } else if i == 9 {
        SectionRule { name: "", header_fields: 10, length: LengthRule::SubTable }
    } else if i == 10 {
        SectionRule { name: "section_9.dat", header_fields: 1, length: LengthRule::Offset }
    } else if i == 11 {
        SectionRule { name: "section_10.dat", header_fields: 2, length: LengthRule::Offset }
    } else if i == 12 {
        SectionRule { name: "section_11.dat", header_fields: 2, length: LengthRule::Offset }
    } else if i == 13 {
        SectionRule { name: "section_12.dat", header_fields: 2, length: LengthRule::Offset }
    } else if i == 14 {
        SectionRule { name: "section_13.dat", header_fields: 0, length: LengthRule::Fixed(32) }
    } else if i == 15 {
        SectionRule { name: "section_14.dat", header_fields: 1, length: LengthRule::Offset }
    } else {
        SectionRule { name: "tail.bin", header_fields: 0, length: LengthRule::Tail }
    }
}

/// Number of header fields that the sections before section `i` hold.
pub open spec fn fields_before(i: int) -> nat {
    if i <= 0 {
        0
    } else if i == 1 {
        2
    } else if i == 2 {
        4
    } else if i <= 4 {
        6
    } else if i == 5 {
        7
    } else if i == 6 {
        8
    } else if i == 7 {
        10
    } else if i <= 9 {
        11
    } else if i == 10 {
        21
    } else if i == 11 {
        22
    } else if i == 12 {
        24
    } else if i == 13 {
        26
    } else if i <= 15 {
        28
    } else {
        29
    }
}

/// Length of the whole 28-byte records that lie before `offset`, which
/// counts from 4 bytes before the first of them.
pub open spec fn records_len(offset: int) -> int {
    ((offset - 4) / 28) * 28
}

/// The length of a payload, from the header fields read so far, the last
/// `header_fields` of which are the section's own, and from the number of
/// bytes that the source still holds. An offset that lies before the bytes
/// already consumed is an error.
pub open spec fn payload_len(
    rule: LengthRule,
    header_fields: nat,
    fields: Seq<u32>,
    left: nat,
) -> Result<nat, FormatError> {
    let own = fields.len() - header_fields;
    match rule {
        LengthRule::Offset => if fields[own] >= 4 * header_fields {
            Ok((fields[own] - 4 * header_fields) as nat)
        } else {
            Err(FormatError::LengthUnderflow)
        },
        LengthRule::Records => if fields[own + 1] >= 4 {
            Ok(records_len(fields[own + 1] as int) as nat)
        } else {
            Err(FormatError::LengthUnderflow)
        },
        LengthRule::Count => Ok((fields[own] * 4) as nat),
        LengthRule::Between => if fields[3] >= 4 && fields[2] - 16 - records_len(fields[3] as int)
            - 4 * fields[4] >= 0 {
            Ok((fields[2] - 16 - records_len(fields[3] as int) - 4 * fields[4]) as nat)
        } else {
            Err(FormatError::LengthUnderflow)
        },
        LengthRule::Fixed(len) => Ok(len as nat),
        LengthRule::SubTable => Ok(0),
        LengthRule::Tail => Ok(left),
    }
}

/// Name of the artifact of slot `slot` of the sub-region table. The last
/// slot, which stands for the start of section 9, has none.
pub open spec fn slot_name(slot: int) -> Seq<char> {
    if slot == 0 {
        "section_8_idfk.bin"@
    } else if slot == 1 {
        "section_8_unk_0.bin"@
    } else if slot == 2 {
        "section_8_unk_1.bin"@
    } else if slot == 3 {
        "section_8_unk_2.bin"@
    } else if slot == 4 {
        "section_8_triangles.bin"@
    } else if slot == 5 {
        "section_8_collision_flags.bin"@
    } else if slot == 6 {
        "section_8_unk_3.bin"@
    } else if slot == 7 {
        "section_8_unk_4.bin"@
    } else {
        ""@
    }
}

/// The sub-region table that the ten header fields of section 8 describe:
/// the eight stored offsets in header order, then the offset of section 9
/// less 4.
pub open spec fn sub_table(header: Seq<u32>) -> Seq<SubRegion> {
    seq![
        SubRegion { slot: 0, offset: header[2] },
        SubRegion { slot: 1, offset: header[3] },
        SubRegion { slot: 2, offset: header[4] },
        SubRegion { slot: 3, offset: header[5] },
        SubRegion { slot: 4, offset: header[6] },
        SubRegion { slot: 5, offset: header[7] },
        SubRegion { slot: 6, offset: header[8] },
        SubRegion { slot: 7, offset: header[9] },
        SubRegion { slot: 8, offset: (header[0] - 4) as u32 },
    ]
}

/// The state after the first `count` neighbouring pairs of the sorted table
/// are worked off: a slot with offset zero is skipped and consumes nothing,
/// any other is emitted with the distance to its successor as its length.
/// The unnamed slot cannot be emitted.
pub open spec fn emit_windows(
    src: Seq<u8>,
    scan: Scan,
    sorted: Seq<SubRegion>,
    count: nat,
) -> Result<Scan, FormatError>
    decreases count,
{
    if count == 0 {
        Ok(scan)
    } else {
        match emit_windows(src, scan, sorted, (count - 1) as nat) {
            Err(e) => Err(e),
            Ok(before) => {
                let this = sorted[count - 1];
                let next = sorted[count as int];
                if this.offset == 0 {
                    Ok(before)
                } else if this.slot >= 8 {
                    Err(FormatError::UnnamedRegion)
                } else {
                    Ok(
                        before.emit(
                            src,
                            slot_name(this.slot as int),
                            Seq::empty(),
                            (next.offset - this.offset) as nat,
                        ),
                    )
                }
            },
        }
    }
}

/// The state after section `i` is worked off, from the state before it.
pub open spec fn apply_rule(src: Seq<u8>, scan: Scan, i: int) -> Result<Scan, FormatError> {
    let count = rule_header_fields(i);
    if !scan.has_fields(src, count) {
        Err(FormatError::UnexpectedEof)
    } else {
        let read = scan.read_fields(src, count);
        if rule_length(i) == LengthRule::SubTable {
            let own = read.fields.subrange(read.fields.len() - 10, read.fields.len() as int);
            if own[0] < 4 {
                Err(FormatError::LengthUnderflow)
            } else {
                emit_windows(src, read, stable_sort(sub_table(own)), 8)
            }
        } else {
            match payload_len(rule_length(i), count, read.fields, remaining(src.len(), read.pos)) {
                Err(e) => Err(e),
                Ok(len) => Ok(read.emit(src, rule_name(i), Seq::empty(), len)),
            }
        }
    }
}

/// The state after the first `count` sections are worked off.
pub open spec fn run_rules(src: Seq<u8>, count: nat) -> Result<Scan, FormatError>
    decreases count,
{
    if count == 0 {
        Ok(Scan::start())
    } else {
        match run_rules(src, (count - 1) as nat) {
            Err(e) => Err(e),
            Ok(scan) => apply_rule(src, scan, count - 1),
        }
    }
}

/// What a collision container holds: the header fields of all sections in
/// file order and the payloads in the order of their extraction, or the
/// first defect met.
pub open spec fn collision_scan(src: Seq<u8>) -> Result<Scan, FormatError> {
    run_rules(src, SECTION_COUNT as nat)
}

/// Computes the length of a payload by its rule.
pub fn payload_length(
    rule: LengthRule,
    header_fields: usize,
    fields: &Vec<u32>,
    left: u64,
) -> (len: Result<u64, FormatError>)
    requires
        header_fields <= fields@.len(),
        rule == LengthRule::Offset || rule == LengthRule::Count ==> header_fields >= 1,
        rule == LengthRule::Records ==> header_fields >= 2,
        rule == LengthRule::Between ==> fields@.len() >= 5,
    ensures
        match payload_len(rule, header_fields as nat, fields@, left as nat) {
            Ok(n) => len == Ok::<u64, FormatError>(n as u64) && n <= u64::MAX,
            Err(e) => len == Err::<u64, FormatError>(e),
        },
{
    let own: usize = fields.len() - header_fields;
    match rule {
        LengthRule::Offset => {
            let offset: u64 = fields[own] as u64;
            if header_fields as u64 > offset / 4 {
                Err(FormatError::LengthUnderflow)
            } else {
                Ok(offset - 4 * (header_fields as u64))
            }
        },
        LengthRule::Records => {
            let offset: u32 = fields[own + 1];
            if offset >= 4 {
                Ok((((offset - 4) / RECORD_STRIDE) * RECORD_STRIDE) as u64)
            } else {
                Err(FormatError::LengthUnderflow)
            }
        },
        LengthRule::Count => Ok((fields[own] as u64) * 4),
        LengthRule::Between => {
            let span: u64 = fields[2] as u64;
            let offset: u32 = fields[3];
            if offset < 4 {
                return Err(FormatError::LengthUnderflow);
            }
            let records: u64 = (((offset - 4) / RECORD_STRIDE) * RECORD_STRIDE) as u64;
            let taken: u64 = 16 + records + 4 * (fields[4] as u64);
            if span >= taken {
                Ok(span - taken)
            } else {
                Err(FormatError::LengthUnderflow)
            }
        },
        LengthRule::Fixed(len) => Ok(len),
        LengthRule::SubTable => Ok(0),
        LengthRule::Tail => Ok(left),
    }
}

/// Name of the artifact of a slot of the sub-region table.
pub fn slot_file_name(slot: usize) -> (name: &'static str)
    ensures
        name@ == slot_name(slot as int),
{
    if slot == 0 {
        "section_8_idfk.bin"
    } else if slot == 1 {
        "section_8_unk_0.bin"
    } else if slot == 2 {
        "section_8_unk_1.bin"
    } else if slot == 3 {
        "section_8_unk_2.bin"
    } else if slot == 4 {
        "section_8_triangles.bin"
    } else if slot == 5 {
        "section_8_collision_flags.bin"
    } else if slot == 6 {
        "section_8_unk_3.bin"
    } else if slot == 7 {
        "section_8_unk_4.bin"
    } else {
        ""
    }
}

/// Builds the sub-region table from the header of section 8, whose ten
/// fields are the last that were read.
pub fn build_sub_table(fields: &Vec<u32>) -> (table: Vec<SubRegion>)
    requires
        fields@.len() >= 10,
        fields@[fields@.len() - 10] >= 4,
    ensures
        table@ == sub_table(fields@.subrange(fields@.len() - 10, fields@.len() as int)),
{
    let own: usize = fields.len() - 10;
    let mut table: Vec<SubRegion> = Vec::new();
    let mut slot: usize = 0;
    while slot < 8
        invariant
            0 <= slot <= 8,
            own + 10 == fields@.len() <= usize::MAX,
            table@.len() == slot,
            forall|k: int|
                0 <= k < slot ==> table@[k] == (SubRegion {
                    slot: k as usize,
                    offset: fields@[own + 2 + k],
                }),
        decreases 8 - slot,
    {
        table.push(SubRegion { slot, offset: fields[own + 2 + slot] });
        slot += 1;
    }
    table.push(SubRegion { slot: 8, offset: fields[own] - 4 });
    assert(table@ =~= sub_table(fields@.subrange(fields@.len() - 10, fields@.len() as int)));
    table
}

/// Emits the sub-regions of section 8 from the sorted table.
pub fn emit_sub_regions(src: &[u8], scanner: &mut Scanner, sorted: &Vec<SubRegion>) -> (done:
    Result<(), FormatError>)
    requires
        sorted@.len() == SLOT_COUNT,
        ascending(sorted@),
    ensures
        match emit_windows(src@, old(scanner)@, sorted@, 8) {
            Ok(scan) => done.is_ok() && final(scanner)@ == scan,
            Err(e) => done == Err::<(), FormatError>(e),
        },
{
    let mut k: usize = 0;
    while k < 8
        invariant
            0 <= k <= 8,
            sorted@.len() == SLOT_COUNT,
            ascending(sorted@),
            emit_windows(src@, old(scanner)@, sorted@, k as nat) == Ok::<Scan, FormatError>(
                scanner@,
            ),
        decreases 8 - k,
    {
        let this: SubRegion = sorted[k];
        let next: SubRegion = sorted[k + 1];
        if this.offset != 0 {
            if this.slot >= 8 {
                proof {
                    lemma_windows_fail(src@, old(scanner)@, sorted@, k as nat + 1, 8);
                }
                return Err(FormatError::UnnamedRegion);
            }
            scanner.emit(
                src,
                String::from_str(slot_file_name(this.slot)),
                Vec::new(),
                (next.offset - this.offset) as u64,
            );
        }
        k += 1;
    }
    Ok(())
}

/// Once a pair of the table has failed, working off more pairs fails alike.
pub proof fn lemma_windows_fail(
    src: Seq<u8>,
    scan: Scan,
    sorted: Seq<SubRegion>,
    at: nat,
    count: nat,
)
    requires
        at <= count,
        emit_windows(src, scan, sorted, at).is_err(),
    ensures
        emit_windows(src, scan, sorted, count) == emit_windows(src, scan, sorted, at),
    decreases count,
{
    if at < count {
        lemma_windows_fail(src, scan, sorted, at, (count - 1) as nat);
    }
}

/// Works off section `i` of the chain: reads its header, derives the length
/// of its payload and emits it.
pub fn apply_section(src: &[u8], scanner: &mut Scanner, i: usize) -> (done: Result<
    (),
    FormatError,
>)
    requires
        i < SECTION_COUNT,
        old(scanner)@.fields.len() == fields_before(i as int),
    ensures
        match apply_rule(src@, old(scanner)@, i as int) {
            Ok(scan) => done.is_ok() && final(scanner)@ == scan && scan.fields.len()
                == fields_before(i + 1),
            Err(e) => done == Err::<(), FormatError>(e),
        },
{
    let rule: SectionRule = section_rule(i);
    if !scanner.read_fields(src, rule.header_fields) {
        return Err(FormatError::UnexpectedEof);
    }
    match rule.length {
        LengthRule::SubTable => {
            let own: usize = scanner.fields.len() - 10;
            if scanner.fields[own] < 4 {
                return Err(FormatError::LengthUnderflow);
            }
            let mut table: Vec<SubRegion> = build_sub_table(&scanner.fields);
            sort_by_offset(&mut table);
            let ghost read: Scan = scanner@;
            match emit_sub_regions(src, scanner, &table) {
                Err(e) => Err(e),
                Ok(()) => {
                    proof {
                        lemma_windows_keep_fields(src@, read, table@, 8);
                    }
                    Ok(())
                },
            }
        },
        _ => {
            let len_total: usize = src.len();
            let left: u64 = if scanner.pos <= len_total as u64 {
                len_total as u64 - scanner.pos
            } else {
                0
            };
            match payload_length(rule.length, rule.header_fields, &scanner.fields, left) {
                Err(e) => Err(e),
                Ok(len) => {
                    scanner.emit(src, String::from_str(rule.name), Vec::new(), len);
                    Ok(())
                },
            }
        },
    }
}

/// Working off pairs of the table reads no header field.
pub proof fn lemma_windows_keep_fields(
    src: Seq<u8>,
    scan: Scan,
    sorted: Seq<SubRegion>,
    count: nat,
)
    ensures
        emit_windows(src, scan, sorted, count) matches Ok(after) ==> after.fields == scan.fields,
    decreases count,
{
    if count > 0 {
        lemma_windows_keep_fields(src, scan, sorted, (count - 1) as nat);
    }
}

/// Once a section has failed, the chain has failed.
pub proof fn lemma_rules_fail(src: Seq<u8>, at: nat, count: nat)
    requires
        at <= count,
        run_rules(src, at).is_err(),
    ensures
        run_rules(src, count) == run_rules(src, at),
    decreases count,
{
    if at < count {
        lemma_rules_fail(src, at, (count - 1) as nat);
    }
}

/// Splits a collision container into its header fields and its payloads.
/// The result is `collision_scan` of the source: the scanner that holds all
/// 29 header fields and the artifacts in the order of their extraction, or
/// the first defect met.
pub fn scan_collision(src: &[u8]) -> (scanned: Result<Scanner, FormatError>)
    ensures
        match (scanned, collision_scan(src@)) {
            (Ok(scanner), Ok(scan)) => scanner@ == scan && scan.fields.len() == FIELD_COUNT,
            (Err(e), Err(defect)) => e == defect,
            _ => false,
        },
{
    let mut scanner: Scanner = Scanner::new();
    let mut i: usize = 0;
    while i < SECTION_COUNT
        invariant
            0 <= i <= SECTION_COUNT,
            run_rules(src@, i as nat) == Ok::<Scan, FormatError>(scanner@),
            scanner@.fields.len() == fields_before(i as int),
        decreases SECTION_COUNT - i,
    {
        match apply_section(src, &mut scanner, i) {
            Err(e) => {
                proof {
                    lemma_rules_fail(src@, i as nat + 1, SECTION_COUNT as nat);
                }
                return Err(e);
            },
            Ok(()) => {},
        }
        i += 1;
    }
    Ok(scanner)
}

/// The record of a parsed collision container: when it was made, the names
/// of the artifacts in the order of their extraction, and the header fields
/// of every section as stored.
#[derive(Clone, Debug)]
pub struct CollisionManifest {
    pub timestamp: Timestamp,
    pub files: Vec<String>,
    pub header: CollisionHeader,
    pub section_1: CollisionSection1,
    pub section_2: CollisionSection2,
    pub section_3: CollisionSection3,
    pub section_5: CollisionSection5,
    pub collision_types: CollisionTypes,
    pub section_7: CollisionSection7,
    pub section_8: CollisionSection8,
    pub section_9: CollisionSection9,
    pub section_10: CollisionSection10,
    pub section_11: CollisionSection11,
    pub section_12: CollisionSection12,
    pub section_14: CollisionSection14,
}

impl CollisionManifest {
    /// The header fields of all sections, in file order.
    pub open spec fn field_values(&self) -> Seq<u32> {
        seq![
            self.header.section_1_offset,
            self.header.section_0_data_len,
            self.section_1.section_3_offset,
            self.section_1.section_2_offset,
            self.section_2.section_2_data_len,
            self.section_2.section_4_offset,
            self.section_3.section_5_offset,
            self.section_5.collision_types_offset,
            self.collision_types.section_7_offset,
            self.collision_types.collision_types_len,
            self.section_7.section_8_offset,
            self.section_8.section_9_offset,
            self.section_8.triangle_count,
            self.section_8.idfk_offset,
            self.section_8.unk_0,
            self.section_8.unk_1_offset,
            self.section_8.unk_2_offset,
            self.section_8.triangles_offset,
            self.section_8.collision_flags_offset,
            self.section_8.unk_3_offset,
            self.section_8.unk_4_offset,
            self.section_9.section_10_offset,
            self.section_10.section_11_offset,
            self.section_10.section_10_data_len,
            self.section_11.section_12_offset,
            self.section_11.section_11_data_len,
            self.section_12.section_13_offset,
            self.section_12.section_12_data_len,
            self.section_14.section_15_offset,
        ]
    }

    /// Makes the manifest of a parse from the time of its making, the header
    /// fields in file order and the artifacts.
    pub fn assemble(timestamp: Timestamp, fields: &Vec<u32>, artifacts: &Vec<Artifact>) -> (manifest:
        CollisionManifest)
        requires
            fields@.len() == FIELD_COUNT,
        ensures
            manifest.timestamp == timestamp,
            manifest.field_values() == fields@,
            names_of(manifest.files@) == piece_names(pieces_of(artifacts@)),
    {
        let manifest = CollisionManifest {
            timestamp,
            files: artifact_names(artifacts),
            header: CollisionHeader { section_1_offset: fields[0], section_0_data_len: fields[1] },
            section_1: CollisionSection1 {
                section_3_offset: fields[2],
                section_2_offset: fields[3],
            },
            section_2: CollisionSection2 {
                section_2_data_len: fields[4],
                section_4_offset: fields[5],
            },
            section_3: CollisionSection3 { section_5_offset: fields[6] },
            section_5: CollisionSection5 { collision_types_offset: fields[7] },
            collision_types: CollisionTypes {
                section_7_offset: fields[8],
                collision_types_len: fields[9],
            },
            section_7: CollisionSection7 { section_8_offset: fields[10] },
            section_8: CollisionSection8 {
                section_9_offset: fields[11],
                triangle_count: fields[12],
                idfk_offset: fields[13],
                unk_0: fields[14],
                unk_1_offset: fields[15],
                unk_2_offset: fields[16],
                triangles_offset: fields[17],
                collision_flags_offset: fields[18],
                unk_3_offset: fields[19],
                unk_4_offset: fields[20],
            },
            section_9: CollisionSection9 { section_10_offset: fields[21] },
            section_10: CollisionSection10 {
                section_11_offset: fields[22],
                section_10_data_len: fields[23],
            },
            section_11: CollisionSection11 {
                section_12_offset: fields[24],
                section_11_data_len: fields[25],
            },
            section_12: CollisionSection12 {
                section_13_offset: fields[26],
                section_12_data_len: fields[27],
            },
            section_14: CollisionSection14 { section_15_offset: fields[28] },
        };
        assert(manifest.field_values() =~= fields@);
        manifest
    }
}

/// Parses a collision container held in memory. On success the manifest
/// holds the header fields of `collision_scan` and the names of its pieces,
/// and the artifacts are its pieces; the time in the manifest is that of the
/// call. A defect of the source is returned as `collision_scan` gives it.
///
/// Of the sub-regions of section 8 it follows, and is stated: a slot whose
/// stored offset is zero has no artifact, and the artifact of any other
/// slot holds as many bytes as the next larger offset among the slots
/// exceeds its own.
///
/// The time is read from the system clock once the source has parsed. That
/// call does not return where the system clock stands before 1970 or where
/// no local time type can be selected for the machine's time zone.
pub fn parse_collision(src: &[u8]) -> (parsed: Result<
    (CollisionManifest, Vec<Artifact>),
    FormatError,
>)
    ensures
        match (parsed, collision_scan(src@)) {
            (Ok((manifest, artifacts)), Ok(scan)) => manifest.field_values() == scan.fields
                && names_of(manifest.files@) == piece_names(scan.pieces) && pieces_of(artifacts@)
                == scan.pieces,
            (Err(e), Err(defect)) => e == defect,
            _ => false,
        },
        parsed matches Ok((manifest, artifacts)) ==> absent_slots_have_no_piece(
            manifest.field_values(),
            pieces_of(artifacts@),
        ) && present_slots_reach_next(manifest.field_values(), pieces_of(artifacts@)),
{
    proof {
        if collision_scan(src@).is_ok() {
            lemma_sub_region_rules(src@);
        }
    }
    match scan_collision(src) {
        Err(e) => Err(e),
        Ok(scanner) => {
            let manifest = CollisionManifest::assemble(
                local_now(),
                &scanner.fields,
                &scanner.artifacts,
            );
            Ok((manifest, scanner.artifacts))
        },
    }
}

} // verus!
