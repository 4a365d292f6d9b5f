//! What holds of every collision container that parses: no byte is lost or
//! read twice, a short offset never yields a region, and absent slots of the
//! sub-region table never take part in a length.

use vstd::prelude::*;
use crate::artifact::Piece;
use crate::collision::{
    apply_rule, collision_scan, emit_windows, payload_len, rule_header_fields, rule_length,
    run_rules, sub_table, LengthRule, FIELD_COUNT, SECTION_COUNT,
};
use crate::cursor::{le_u32, remaining, transfer_len};
use crate::error::FormatError;
use crate::scan::Scan;
use crate::sub_table::{lemma_stable_sort, stable_sort, SubRegion};

verus! {

/// Number of bytes that the pieces hold together.
pub open spec fn total_len(pieces: Seq<Piece>) -> nat
    decreases pieces.len(),
{
    if pieces.len() == 0 {
        0
    } else {
        total_len(pieces.drop_last()) + pieces.last().data.len()
    }
}

/// The cursor stands inside the source, and every byte before it went into
/// exactly one header field or one piece.
pub open spec fn gapless(src: Seq<u8>, scan: Scan) -> bool {
    scan.pos <= src.len() && scan.pos == 4 * scan.fields.len() + total_len(scan.pieces)
}

/// Emitting a piece without a prefix keeps a scan gapless.
pub proof fn lemma_emit_gapless(src: Seq<u8>, scan: Scan, name: Seq<char>, max: nat)
    requires
        gapless(src, scan),
    ensures
        gapless(src, scan.emit(src, name, Seq::empty(), max)),
        scan.emit(src, name, Seq::empty(), max).pieces.last().data == src.subrange(
            scan.pos as int,
            (scan.pos + transfer_len(src.len(), scan.pos, max)) as int,
        ),
{
    let after = scan.emit(src, name, Seq::empty(), max);
    assert(after.pieces.drop_last() =~= scan.pieces);
    assert(after.pieces.last().data =~= src.subrange(
        scan.pos as int,
        (scan.pos + transfer_len(src.len(), scan.pos, max)) as int,
    ));
}

/// Reading header fields keeps a scan gapless.
pub proof fn lemma_read_gapless(src: Seq<u8>, scan: Scan, count: nat)
    requires
        gapless(src, scan),
        scan.has_fields(src, count),
    ensures
        gapless(src, scan.read_fields(src, count)),
{
}

/// Working off pairs of the sub-region table keeps a scan gapless.
pub proof fn lemma_windows_gapless(src: Seq<u8>, scan: Scan, sorted: Seq<SubRegion>, count: nat)
    requires
        gapless(src, scan),
    ensures
        emit_windows(src, scan, sorted, count) matches Ok(after) ==> gapless(src, after),
    decreases count,
{
    if count > 0 {
        lemma_windows_gapless(src, scan, sorted, (count - 1) as nat);
        match emit_windows(src, scan, sorted, (count - 1) as nat) {
            Ok(before) => {
                let this = sorted[count - 1];
                let next = sorted[count as int];
                lemma_emit_gapless(
                    src,
                    before,
                    crate::collision::slot_name(this.slot as int),
                    (next.offset - this.offset) as nat,
                );
            },
            Err(_) => {},
        }
    }
}

/// Working off a section keeps a scan gapless.
pub proof fn lemma_rule_gapless(src: Seq<u8>, scan: Scan, i: int)
    requires
        gapless(src, scan),
    ensures
        apply_rule(src, scan, i) matches Ok(after) ==> gapless(src, after),
{
    let count = rule_header_fields(i);
    if scan.has_fields(src, count) {
        let read = scan.read_fields(src, count);
        lemma_read_gapless(src, scan, count);
        if rule_length(i) == LengthRule::SubTable {
            let own = read.fields.subrange(read.fields.len() - 10, read.fields.len() as int);
            lemma_windows_gapless(src, read, stable_sort(sub_table(own)), 8);
        } else {
            match payload_len(rule_length(i), count, read.fields, remaining(src.len(), read.pos)) {
                Ok(len) => {
                    lemma_emit_gapless(src, read, crate::collision::rule_name(i), len);
                },
                Err(_) => {},
            }
        }
    }
}

/// Every state that the chain of sections reaches is gapless.
pub proof fn lemma_rules_gapless(src: Seq<u8>, count: nat)
    ensures
        run_rules(src, count) matches Ok(scan) ==> gapless(src, scan),
    decreases count,
{
    if count > 0 {
        lemma_rules_gapless(src, (count - 1) as nat);
        match run_rules(src, (count - 1) as nat) {
            Ok(scan) => {
                lemma_rule_gapless(src, scan, count - 1);
            },
            Err(_) => {},
        }
    }
}

/// A collision container that parses is used up exactly: the cursor ends at
/// the end of the source, and the 29 header fields and the pieces together
/// hold as many bytes as the source. No region is longer than the source.
pub proof fn lemma_scan_covers_source(src: Seq<u8>)
    ensures
        collision_scan(src) matches Ok(scan) ==> scan.pos == src.len() && 4 * FIELD_COUNT
            + total_len(scan.pieces) == src.len(),
{
    lemma_rules_gapless(src, SECTION_COUNT as nat);
    lemma_rules_gapless(src, (SECTION_COUNT - 1) as nat);
    lemma_rules_fields(src, SECTION_COUNT as nat);
}

/// The chain reads the header fields of the sections it has worked off, and
/// no others.
pub proof fn lemma_rules_fields(src: Seq<u8>, count: nat)
    requires
        count <= SECTION_COUNT,
    ensures
        run_rules(src, count) matches Ok(scan) ==> scan.fields.len()
            == crate::collision::fields_before(count as int),
    decreases count,
{
    if count > 0 {
        lemma_rules_fields(src, (count - 1) as nat);
        match run_rules(src, (count - 1) as nat) {
            Ok(scan) => {
                let k = rule_header_fields(count - 1);
                if scan.has_fields(src, k) {
                    let read = scan.read_fields(src, k);
                    if rule_length(count - 1) == LengthRule::SubTable {
                        let own = read.fields.subrange(
                            read.fields.len() - 10,
                            read.fields.len() as int,
                        );
                        crate::collision::lemma_windows_keep_fields(
                            src,
                            read,
                            stable_sort(sub_table(own)),
                            8,
                        );
                    }
                }
            },
            Err(_) => {},
        }
    }
}

/// An offset that lies before the end of its own header is fatal: where a
/// section whose length is an offset less its header stores an offset
/// smaller than that header, the section fails with an underflow, whatever
/// follows in the source.
pub proof fn lemma_short_offset_is_fatal(src: Seq<u8>, scan: Scan, i: int)
    requires
        rule_length(i) == LengthRule::Offset,
        scan.has_fields(src, rule_header_fields(i)),
        (le_u32(src, scan.pos as int) as u32) < 4 * rule_header_fields(i),
    ensures
        apply_rule(src, scan, i) == Err::<Scan, FormatError>(FormatError::LengthUnderflow),
{
    let count = rule_header_fields(i);
    let read = scan.read_fields(src, count);
    assert(read.fields[read.fields.len() - count] == le_u32(src, scan.pos + 4 * 0int) as u32);
}

/// A section that fails, fails the whole container: no state after it is
/// ever reached.
pub proof fn lemma_failed_section_fails_scan(src: Seq<u8>, i: nat)
    requires
        i < SECTION_COUNT,
        run_rules(src, i) matches Ok(scan) && apply_rule(src, scan, i as int).is_err(),
    ensures
        collision_scan(src) == apply_rule(src, run_rules(src, i).unwrap(), i as int),
{
    crate::collision::lemma_rules_fail(src, i + 1, SECTION_COUNT as nat);
}

/// In the sorted sub-region table the absent slots, whose offset is zero,
/// come first: behind a slot that is present stands no absent one, so the
/// length of a slot that is present is the distance to the next larger
/// offset and is never taken across an absent slot.
pub proof fn lemma_absent_slots_sort_first(table: Seq<SubRegion>, i: int, j: int)
    requires
        0 <= i <= j < table.len(),
        stable_sort(table)[i].offset != 0,
    ensures
        stable_sort(table)[j].offset >= stable_sort(table)[i].offset,
        stable_sort(table)[j].offset != 0,
{
    lemma_stable_sort(table);
}

/// Number of entries of `table` whose offset is not zero.
pub open spec fn present_count(table: Seq<SubRegion>) -> nat
    decreases table.len(),
{
    if table.len() == 0 {
        0
    } else {
        present_count(table.drop_last()) + if table.last().offset != 0 {
            1nat
        } else {
            0nat
        }
    }
}

/// Working off the first `count` pairs of a table emits one piece for each
/// slot among them that is present, and none for an absent one; for an
/// absent slot the cursor does not move.
pub proof fn lemma_windows_emit_present(
    src: Seq<u8>,
    scan: Scan,
    sorted: Seq<SubRegion>,
    count: nat,
)
    requires
        count < sorted.len(),
    ensures
        emit_windows(src, scan, sorted, count) matches Ok(after) ==> after.pieces.len()
            == scan.pieces.len() + present_count(sorted.subrange(0, count as int)),
        count > 0 && sorted[count - 1].offset == 0 ==> emit_windows(src, scan, sorted, count)
            == emit_windows(src, scan, sorted, (count - 1) as nat),
    decreases count,
{
    if count > 0 {
        lemma_windows_emit_present(src, scan, sorted, (count - 1) as nat);
        assert(sorted.subrange(0, count as int).drop_last() =~= sorted.subrange(0, count - 1));
    }
}

} // verus!
