//! What holds of the sub-regions of section 8 in every collision container
//! that parses: a slot that is absent has no artifact and takes no byte,
//! and the artifact of a slot that is present reaches up to the next larger
//! offset of the table.

use vstd::prelude::*;
use crate::artifact::Piece;
use crate::collision::{
    apply_rule, collision_scan, emit_windows, fields_before, lemma_windows_keep_fields,
    payload_len, rule_header_fields, rule_length, rule_name, run_rules, slot_name, sub_table,
    LengthRule, SECTION_COUNT,
};
use crate::collision_laws::{
    gapless, lemma_emit_gapless, lemma_read_gapless, lemma_rules_fields, lemma_rules_gapless,
    present_count, total_len,
};
use crate::cursor::{remaining, transfer};
use crate::error::FormatError;
use crate::scan::Scan;
use crate::sub_table::{
    ascending, lemma_stable_sort, slots_increase, stable_sort, ties_in_slot_order, SubRegion,
};

verus! {

/// `late` was reached from `early`: it holds the header fields and the
/// pieces of `early`, in their places, and perhaps more behind them.
pub open spec fn extends(late: Scan, early: Scan) -> bool {
    &&& early.fields.len() <= late.fields.len()
    &&& late.fields.subrange(0, early.fields.len() as int) == early.fields
    &&& early.pieces.len() <= late.pieces.len()
    &&& late.pieces.subrange(0, early.pieces.len() as int) == early.pieces
}

/// Where piece `t` starts in the source of a scan without gaps that had
/// read `fields` header fields when it emitted the piece.
pub open spec fn piece_start(fields: nat, pieces: Seq<Piece>, t: int) -> nat {
    4 * fields + total_len(pieces.subrange(0, t))
}

/// The place among the pieces of the artifact of entry `k` of the sorted
/// table, where `base` pieces were emitted before section 8: behind the
/// artifacts of the present slots before it.
pub open spec fn sub_piece_index(base: nat, sorted: Seq<SubRegion>, k: int) -> int {
    (base + present_count(sorted.subrange(0, k))) as int
}

/// Piece `t` is the artifact of entry `k` of the sorted table: it has the
/// name of the entry's slot and holds the bytes from its start up to the
/// offset of the next entry, or to the end of the source.
pub open spec fn is_sub_piece(
    src: Seq<u8>,
    fields: nat,
    pieces: Seq<Piece>,
    sorted: Seq<SubRegion>,
    k: int,
    t: int,
) -> bool {
    &&& 0 <= t < pieces.len()
    &&& sorted[k].slot < 8
    &&& pieces[t].name == slot_name(sorted[k].slot as int)
    &&& pieces[t].data == transfer(
        src,
        piece_start(fields, pieces, t),
        (sorted[k + 1].offset - sorted[k].offset) as nat,
    )
}

/// Piece `t` is the artifact of a present entry among the first `count` of
/// the sorted table.
pub open spec fn stems_from_entry(base: nat, sorted: Seq<SubRegion>, count: nat, t: int) -> bool {
    exists|k: int|
        0 <= k < count && sorted[k].offset != 0 && t == #[trigger] sub_piece_index(
            base,
            sorted,
            k,
        )
}

/// A piece of one of the first entries is a piece of one of the first and
/// further entries.
pub proof fn lemma_stems_from_more(
    base: nat,
    sorted: Seq<SubRegion>,
    fewer: nat,
    count: nat,
    t: int,
)
    requires
        fewer <= count,
        stems_from_entry(base, sorted, fewer, t),
    ensures
        stems_from_entry(base, sorted, count, t),
{
    let k = choose|k: int|
        0 <= k < fewer && sorted[k].offset != 0 && t == #[trigger] sub_piece_index(
            base,
            sorted,
            k,
        );
    assert(0 <= k < count && sorted[k].offset != 0 && t == sub_piece_index(base, sorted, k));
}

/// The pieces before piece `t` are no longer than all pieces together, and
/// with piece `t` they are longer by its length.
pub proof fn lemma_total_len_prefix(pieces: Seq<Piece>, t: int)
    requires
        0 <= t <= pieces.len(),
    ensures
        total_len(pieces.subrange(0, t)) <= total_len(pieces),
        t < pieces.len() ==> total_len(pieces.subrange(0, t + 1)) == total_len(
            pieces.subrange(0, t),
        ) + pieces[t].data.len(),
    decreases pieces.len() - t,
{
    if t < pieces.len() {
        lemma_total_len_prefix(pieces, t + 1);
        assert(pieces.subrange(0, t + 1).drop_last() =~= pieces.subrange(0, t));
    } else {
        assert(pieces.subrange(0, t) =~= pieces);
    }
}

/// Working off pairs of the sorted table from a scan without gaps emits,
/// for each present entry among them, its artifact at its place, and
/// nothing else.
pub proof fn lemma_windows_pieces(src: Seq<u8>, scan: Scan, sorted: Seq<SubRegion>, count: nat)
    requires
        gapless(src, scan),
        count < sorted.len(),
    ensures
        emit_windows(src, scan, sorted, count) matches Ok(after) ==> {
            &&& gapless(src, after)
            &&& extends(after, scan)
            &&& after.fields == scan.fields
            &&& after.pieces.len() == sub_piece_index(scan.pieces.len(), sorted, count as int)
            &&& forall|k: int|
                0 <= k < count && sorted[k].offset != 0 ==> #[trigger] is_sub_piece(
                    src,
                    scan.fields.len(),
                    after.pieces,
                    sorted,
                    k,
                    sub_piece_index(scan.pieces.len(), sorted, k),
                )
            &&& forall|t: int|
                scan.pieces.len() <= t < after.pieces.len() ==> #[trigger] stems_from_entry(
                    scan.pieces.len(),
                    sorted,
                    count,
                    t,
                )
        },
    decreases count,
{
    let base = scan.pieces.len();
    if count == 0 {
        assert(sorted.subrange(0, 0) =~= Seq::<SubRegion>::empty());
        assert(scan.fields.subrange(0, scan.fields.len() as int) =~= scan.fields);
        assert(scan.pieces.subrange(0, scan.pieces.len() as int) =~= scan.pieces);
    } else {
        let prev = (count - 1) as nat;
        lemma_windows_pieces(src, scan, sorted, prev);
        assert(sorted.subrange(0, count as int).drop_last() =~= sorted.subrange(0, prev as int));
        match emit_windows(src, scan, sorted, prev) {
            Err(_) => {},
            Ok(before) => {
                let this = sorted[count - 1];
                let next = sorted[count as int];
                if this.offset == 0 {
                    assert(sub_piece_index(base, sorted, count as int) == sub_piece_index(
                        base,
                        sorted,
                        prev as int,
                    ));
                    assert forall|t: int| base <= t < before.pieces.len() implies #[trigger] stems_from_entry(
                        base,
                        sorted,
                        count,
                        t,
                    ) by {
                        lemma_stems_from_more(base, sorted, prev, count, t);
                    }
                } else if this.slot >= 8 {
                } else {
                    let len = (next.offset - this.offset) as nat;
                    let after = before.emit(src, slot_name(this.slot as int), Seq::empty(), len);
                    lemma_emit_gapless(src, before, slot_name(this.slot as int), len);
                    let t_new = before.pieces.len() as int;
                    assert(after.pieces.subrange(0, t_new) =~= before.pieces);
                    assert(after.pieces.subrange(0, base as int) =~= before.pieces.subrange(
                        0,
                        base as int,
                    ));
                    assert(Seq::<u8>::empty() + transfer(src, before.pos, len) =~= transfer(
                        src,
                        before.pos,
                        len,
                    ));
                    assert forall|k: int|
                        0 <= k < count && sorted[k].offset != 0 implies #[trigger] is_sub_piece(
                        src,
                        scan.fields.len(),
                        after.pieces,
                        sorted,
                        k,
                        sub_piece_index(base, sorted, k),
                    ) by {
                        let t = sub_piece_index(base, sorted, k);
                        if k < prev {
                            assert(is_sub_piece(
                                src,
                                scan.fields.len(),
                                before.pieces,
                                sorted,
                                k,
                                t,
                            ));
                            assert(after.pieces[t] == before.pieces[t]);
                            assert(after.pieces.subrange(0, t) =~= before.pieces.subrange(0, t));
                        } else {
                            assert(t == t_new);
                        }
                    }
                    assert forall|t: int| base <= t < after.pieces.len() implies #[trigger] stems_from_entry(
                        base,
                        sorted,
                        count,
                        t,
                    ) by {
                        if t < t_new {
                            lemma_stems_from_more(base, sorted, prev, count, t);
                        } else {
                            assert(t == sub_piece_index(base, sorted, prev as int));
                        }
                    }
                }
            },
        }
    }
}

/// The sorted table holds the entries of the table and no others: each of
/// its entries is the entry of its slot, and the entry of each slot stands
/// somewhere in it. It is ascending, and entries with equal offsets stand
/// in the order of their slots.
pub proof fn lemma_sorted_entries(header: Seq<u32>)
    ensures
        stable_sort(sub_table(header)).len() == 9,
        ascending(stable_sort(sub_table(header))),
        ties_in_slot_order(stable_sort(sub_table(header))),
        forall|k: int|
            0 <= k < 9 ==> 0 <= (#[trigger] stable_sort(sub_table(header))[k]).slot < 9
                && stable_sort(sub_table(header))[k] == sub_table(header)[stable_sort(
                sub_table(header),
            )[k].slot as int],
        forall|s: int| 0 <= s < 9 ==> (#[trigger] sub_table(header)[s]).slot == s,
{
    broadcast use vstd::seq_lib::group_to_multiset_ensures;

    let table = sub_table(header);
    let sorted = stable_sort(table);
    lemma_stable_sort(table);
    assert(slots_increase(table));
    assert forall|k: int| 0 <= k < 9 implies 0 <= (#[trigger] sorted[k]).slot < 9 && sorted[k]
        == table[sorted[k].slot as int] by {
        assert(sorted.to_multiset().count(sorted[k]) > 0);
        assert(table.to_multiset().count(sorted[k]) > 0);
        assert(table.contains(sorted[k]));
        let w = choose|w: int| 0 <= w < table.len() && table[w] == sorted[k];
        assert(table[w].slot == w);
    }
}

/// The place of the entry of slot `s` in the sorted table.
pub proof fn lemma_place_of_slot(header: Seq<u32>, s: int) -> (k: int)
    requires
        0 <= s < 9,
    ensures
        0 <= k < 9,
        stable_sort(sub_table(header))[k] == sub_table(header)[s],
{
    broadcast use vstd::seq_lib::group_to_multiset_ensures;

    let table = sub_table(header);
    let sorted = stable_sort(table);
    lemma_stable_sort(table);
    assert(table.to_multiset().count(table[s]) > 0);
    assert(sorted.to_multiset().count(table[s]) > 0);
    assert(sorted.contains(table[s]));
    choose|k: int| 0 <= k < sorted.len() && sorted[k] == table[s]
}

/// Working off a section keeps what was read and emitted before it.
pub proof fn lemma_rule_extends(src: Seq<u8>, scan: Scan, i: int)
    ensures
        apply_rule(src, scan, i) matches Ok(after) ==> extends(after, scan),
{
    let count = rule_header_fields(i);
    if scan.has_fields(src, count) {
        let read = scan.read_fields(src, count);
        assert(read.fields.subrange(0, scan.fields.len() as int) =~= scan.fields);
        assert(scan.pieces.subrange(0, scan.pieces.len() as int) =~= scan.pieces);
        if rule_length(i) == LengthRule::SubTable {
            let own = read.fields.subrange(read.fields.len() - 10, read.fields.len() as int);
            let sorted = stable_sort(sub_table(own));
            lemma_windows_extend(src, read, sorted, 8);
        } else {
            match payload_len(rule_length(i), count, read.fields, remaining(src.len(), read.pos)) {
                Ok(len) => {
                    let after = read.emit(src, rule_name(i), Seq::empty(), len);
                    assert(after.pieces.subrange(0, scan.pieces.len() as int) =~= scan.pieces);
                },
                Err(_) => {},
            }
        }
    }
}

/// Working off pairs of the sorted table keeps what was read and emitted
/// before them, and reads no header field.
pub proof fn lemma_windows_extend(src: Seq<u8>, scan: Scan, sorted: Seq<SubRegion>, count: nat)
    ensures
        emit_windows(src, scan, sorted, count) matches Ok(after) ==> after.fields == scan.fields
            && scan.pieces.len() <= after.pieces.len() && after.pieces.subrange(
            0,
            scan.pieces.len() as int,
        ) == scan.pieces,
    decreases count,
{
    if count == 0 {
        assert(scan.pieces.subrange(0, scan.pieces.len() as int) =~= scan.pieces);
    } else {
        lemma_windows_extend(src, scan, sorted, (count - 1) as nat);
        match emit_windows(src, scan, sorted, (count - 1) as nat) {
            Ok(before) => {
                match emit_windows(src, scan, sorted, count) {
                    Ok(after) => {
                        assert(after.pieces.subrange(0, scan.pieces.len() as int)
                            =~= before.pieces.subrange(0, scan.pieces.len() as int));
                    },
                    Err(_) => {},
                }
            },
            Err(_) => {},
        }
    }
}

/// A chain that has worked off `late` sections has worked off the first
/// `early` of them, and holds what it had read and emitted by then.
pub proof fn lemma_rules_extend(src: Seq<u8>, early: nat, late: nat)
    requires
        early <= late,
        run_rules(src, late).is_ok(),
    ensures
        run_rules(src, early).is_ok(),
        extends(run_rules(src, late).unwrap(), run_rules(src, early).unwrap()),
    decreases late - early,
{
    let end = run_rules(src, late).unwrap();
    if early == late {
        assert(end.fields.subrange(0, end.fields.len() as int) =~= end.fields);
        assert(end.pieces.subrange(0, end.pieces.len() as int) =~= end.pieces);
    } else {
        lemma_rules_extend(src, early + 1, late);
        let next = run_rules(src, early + 1).unwrap();
        let first = run_rules(src, early).unwrap();
        lemma_rule_extends(src, first, early as int);
        assert(end.fields.subrange(0, first.fields.len() as int) =~= next.fields.subrange(
            0,
            next.fields.len() as int,
        ).subrange(0, first.fields.len() as int));
        assert(end.fields.subrange(0, first.fields.len() as int) =~= end.fields.subrange(
            0,
            next.fields.len() as int,
        ).subrange(0, first.fields.len() as int));
        assert(end.pieces.subrange(0, first.pieces.len() as int) =~= end.pieces.subrange(
            0,
            next.pieces.len() as int,
        ).subrange(0, first.pieces.len() as int));
    }
}

/// Number of pieces that a container emits before those of section 8.
pub const PIECES_BEFORE: usize = 9;

/// Number of header fields that a container has read when it emits the
/// pieces of section 8.
pub const FIELDS_BEFORE: usize = 21;

/// The sorted sub-region table that the header fields of a scan describe.
pub open spec fn sorted_table(fields: Seq<u32>) -> Seq<SubRegion> {
    stable_sort(sub_table(fields.subrange(11, 21)))
}

/// Piece `t` is the whole artifact of entry `k` of the sorted table: it has
/// the name of the entry's slot and holds the bytes of the source from
/// where the pieces and headers before it end, as many as the offset of the
/// next entry exceeds its own.
pub open spec fn is_whole_sub_piece(
    src: Seq<u8>,
    pieces: Seq<Piece>,
    sorted: Seq<SubRegion>,
    k: int,
    t: int,
) -> bool {
    &&& 0 <= t < pieces.len()
    &&& sorted[k].slot < 8
    &&& sorted[k].offset <= sorted[k + 1].offset
    &&& pieces[t].name == slot_name(sorted[k].slot as int)
    &&& pieces[t].data.len() == sorted[k + 1].offset - sorted[k].offset
    &&& piece_start(FIELDS_BEFORE as nat, pieces, t) + pieces[t].data.len() <= src.len()
    &&& pieces[t].data == src.subrange(
        piece_start(FIELDS_BEFORE as nat, pieces, t) as int,
        (piece_start(FIELDS_BEFORE as nat, pieces, t) + pieces[t].data.len()) as int,
    )
}

/// The chain emits one piece for each of the sections before section 8,
/// and one for each of the sections behind it, each under the name of its
/// section.
pub proof fn lemma_rules_piece_count(src: Seq<u8>, count: nat)
    requires
        count <= SECTION_COUNT,
        run_rules(src, count).is_ok(),
    ensures
        count <= 9 ==> run_rules(src, count).unwrap().pieces.len() == count,
        count <= 9 ==> forall|t: int|
            0 <= t < count ==> (#[trigger] run_rules(src, count).unwrap().pieces[t]).name
                == rule_name(t),
        count >= 10 ==> run_rules(src, 10).is_ok() && run_rules(src, count).unwrap().pieces.len()
            == run_rules(src, 10).unwrap().pieces.len() + count - 10,
        count >= 10 ==> forall|t: int|
            run_rules(src, 10).unwrap().pieces.len() <= t < run_rules(
                src,
                count,
            ).unwrap().pieces.len() ==> (#[trigger] run_rules(src, count).unwrap().pieces[t]).name
                == rule_name(t - run_rules(src, 10).unwrap().pieces.len() + 10),
    decreases count,
{
    if count > 0 && count != 10 {
        let before = run_rules(src, (count - 1) as nat).unwrap();
        let after = run_rules(src, count).unwrap();
        lemma_rules_piece_count(src, (count - 1) as nat);
        lemma_rule_extends(src, before, count - 1);
        assert forall|t: int| 0 <= t < before.pieces.len() implies after.pieces[t]
            == before.pieces[t] by {
            assert(after.pieces.subrange(0, before.pieces.len() as int)[t] == after.pieces[t]);
        }
    }
}

/// The pieces of section 8 of a container that parses. They stand behind
/// the nine pieces of the sections before, the first of them right behind
/// the 40 bytes of the sub-region table; there is one for each entry among
/// the first eight of the sorted table whose offset is not zero, in the
/// order of the sorted table, and none for any other; each is whole and
/// holds as many bytes as the offset of the next entry exceeds its own; and
/// seven pieces follow them.
pub proof fn lemma_sub_regions(src: Seq<u8>)
    requires
        collision_scan(src).is_ok(),
    ensures
        run_rules(src, 9).is_ok(),
        run_rules(src, 9).unwrap().pieces.len() == PIECES_BEFORE,
        run_rules(src, 9).unwrap().pos + 40 == piece_start(
            FIELDS_BEFORE as nat,
            collision_scan(src).unwrap().pieces,
            PIECES_BEFORE as int,
        ),
        collision_scan(src).unwrap().fields.len() == 29,
        collision_scan(src).unwrap().fields[11] >= 4,
        collision_scan(src).unwrap().pieces.len() == 7 + sub_piece_index(
            PIECES_BEFORE as nat,
            sorted_table(collision_scan(src).unwrap().fields),
            8,
        ),
        forall|k: int|
            0 <= k < 8 && sorted_table(collision_scan(src).unwrap().fields)[k].offset != 0
                ==> #[trigger] is_whole_sub_piece(
                src,
                collision_scan(src).unwrap().pieces,
                sorted_table(collision_scan(src).unwrap().fields),
                k,
                sub_piece_index(
                    PIECES_BEFORE as nat,
                    sorted_table(collision_scan(src).unwrap().fields),
                    k,
                ),
            ),
        forall|t: int|
            PIECES_BEFORE <= t < sub_piece_index(
                PIECES_BEFORE as nat,
                sorted_table(collision_scan(src).unwrap().fields),
                8,
            ) ==> #[trigger] stems_from_entry(
                PIECES_BEFORE as nat,
                sorted_table(collision_scan(src).unwrap().fields),
                8,
                t,
            ),
{
    let scan = collision_scan(src).unwrap();
    lemma_rules_extend(src, 9, SECTION_COUNT as nat);
    lemma_rules_extend(src, 10, SECTION_COUNT as nat);
    lemma_rules_extend(src, 11, SECTION_COUNT as nat);
    let s9 = run_rules(src, 9).unwrap();
    let s10 = run_rules(src, 10).unwrap();
    lemma_rules_fields(src, 9);
    lemma_rules_fields(src, 10);
    lemma_rules_fields(src, SECTION_COUNT as nat);
    lemma_rules_gapless(src, 9);
    lemma_rules_gapless(src, 10);
    lemma_rules_piece_count(src, 9);
    lemma_rules_piece_count(src, SECTION_COUNT as nat);
    assert(fields_before(9) == 11 && fields_before(10) == 21);
    let read = s9.read_fields(src, 10);
    lemma_read_gapless(src, s9, 10);
    let own = read.fields.subrange(read.fields.len() - 10, read.fields.len() as int);
    let sorted = stable_sort(sub_table(own));
    assert(rule_length(9) == LengthRule::SubTable && rule_header_fields(9) == 10);
    assert(run_rules(src, 10) == apply_rule(src, s9, 9));
    assert(emit_windows(src, read, sorted, 8) == Ok::<Scan, FormatError>(s10));
    lemma_sorted_entries(own);
    lemma_windows_pieces(src, read, sorted, 8);
    assert(own =~= scan.fields.subrange(11, 21)) by {
        lemma_windows_keep_fields(src, read, sorted, 8);
        assert(s10.fields == read.fields);
        assert(scan.fields.subrange(0, 21) == s10.fields);
    }
    assert(sorted == sorted_table(scan.fields));
    assert(run_rules(src, 11) == apply_rule(src, s10, 10));
    assert(rule_header_fields(10) == 1);
    assert(s10.has_fields(src, 1));
    assert(s10.pos + 4 <= src.len());
    assert(scan.pieces.subrange(0, s10.pieces.len() as int) == s10.pieces);
    lemma_total_len_prefix(scan.pieces, 9);
    assert(scan.pieces.subrange(0, 9) =~= s9.pieces) by {
        assert(s10.pieces.subrange(0, 9) == s9.pieces);
        assert(scan.pieces.subrange(0, 9) =~= scan.pieces.subrange(
            0,
            s10.pieces.len() as int,
        ).subrange(0, 9));
    }
    assert forall|k: int| 0 <= k < 8 && sorted[k].offset != 0 implies #[trigger] is_whole_sub_piece(
        src,
        scan.pieces,
        sorted,
        k,
        sub_piece_index(9, sorted, k),
    ) by {
        let t = sub_piece_index(9, sorted, k);
        assert(is_sub_piece(src, 21, s10.pieces, sorted, k, t));
        assert(scan.pieces[t] == s10.pieces[t]);
        assert(scan.pieces.subrange(0, t) =~= s10.pieces.subrange(0, t));
        lemma_total_len_prefix(s10.pieces, t);
        lemma_total_len_prefix(s10.pieces, t + 1);
    }
}

/// No section and no other slot shares the name of a slot's artifact.
pub proof fn lemma_names_apart(i: int, s: int, z: int)
    requires
        0 <= s < 8,
        0 <= z < 8,
    ensures
        i != 9 ==> rule_name(i) != slot_name(z),
        s != z ==> slot_name(s) != slot_name(z),
{
    reveal_strlit("section_0.dat");
    reveal_strlit("section_1.dat");
    reveal_strlit("section_2_offsets.dat");
    reveal_strlit("section_2.dat");
    reveal_strlit("section_3.dat");
    reveal_strlit("section_5.dat");
    reveal_strlit("collision_types.dat");
    reveal_strlit("section_7.dat");
    reveal_strlit("vec_3.dat");
    reveal_strlit("section_9.dat");
    reveal_strlit("section_10.dat");
    reveal_strlit("section_11.dat");
    reveal_strlit("section_12.dat");
    reveal_strlit("section_13.dat");
    reveal_strlit("section_14.dat");
    reveal_strlit("tail.bin");
    reveal_strlit("section_8_idfk.bin");
    reveal_strlit("section_8_unk_0.bin");
    reveal_strlit("section_8_unk_1.bin");
    reveal_strlit("section_8_unk_2.bin");
    reveal_strlit("section_8_triangles.bin");
    reveal_strlit("section_8_collision_flags.bin");
    reveal_strlit("section_8_unk_3.bin");
    reveal_strlit("section_8_unk_4.bin");
    let slot = slot_name(z);
    assert(slot.len() >= 18 && slot[0] == 's');
    if i != 9 {
        let section = rule_name(i);
        assert(section.len() < 18 || section.len() == 21 || (section.len() == 19 && section[0]
            == 'c'));
        assert(slot.len() != 21);
    }
    if s != z {
        let other = slot_name(s);
        assert(other.len() != slot.len() || (other.len() == 19 && other[14] != slot[14]));
    }
}

/// A slot that is absent has no artifact: where the offset stored for one
/// of the eight slots is zero, no piece of the container bears the name of
/// that slot.
pub proof fn lemma_absent_slot_has_no_artifact(src: Seq<u8>, z: int, t: int)
    requires
        collision_scan(src).is_ok(),
        0 <= z < 8,
        collision_scan(src).unwrap().fields[13 + z] == 0,
        0 <= t < collision_scan(src).unwrap().pieces.len(),
    ensures
        collision_scan(src).unwrap().pieces[t].name != slot_name(z),
{
    let scan = collision_scan(src).unwrap();
    let own = scan.fields.subrange(11, 21);
    let sorted = sorted_table(scan.fields);
    lemma_sub_regions(src);
    lemma_sorted_entries(own);
    lemma_rules_piece_count(src, 9);
    lemma_rules_piece_count(src, SECTION_COUNT as nat);
    lemma_rules_extend(src, 9, SECTION_COUNT as nat);
    lemma_rules_extend(src, 10, SECTION_COUNT as nat);
    let s9 = run_rules(src, 9).unwrap();
    let s10 = run_rules(src, 10).unwrap();
    let end = sub_piece_index(9, sorted, 8);
    assert(s10.pieces.len() == end);
    if t < 9 {
        assert(scan.pieces.subrange(0, 9)[t] == scan.pieces[t]);
        lemma_names_apart(t, 0, z);
    } else if t < end {
        assert(stems_from_entry(9, sorted, 8, t));
        let k = choose|k: int|
            0 <= k < 8 && sorted[k].offset != 0 && t == #[trigger] sub_piece_index(9, sorted, k);
        assert(is_whole_sub_piece(src, scan.pieces, sorted, k, sub_piece_index(9, sorted, k)));
        let s = sorted[k].slot as int;
        assert(sorted[k] == sub_table(own)[s]);
        assert(sub_table(own)[s].offset == scan.fields[13 + s]);
        lemma_names_apart(0, s, z);
    } else {
        lemma_names_apart(t - end + 10, 0, z);
    }
}

/// The artifact of a slot that is present reaches up to the next larger
/// offset: where slot `a` stores an offset that is not zero, slot `b` a
/// larger one, and none of the other slots one from the first up to and
/// without the second, the container holds a piece under the name of slot
/// `a` with as many bytes as the second offset exceeds the first. Slots
/// whose offset is zero, wherever they stand in the header, take no part
/// in it. The place of the piece is returned.
pub proof fn lemma_sub_region_reaches_next_offset(src: Seq<u8>, a: int, b: int) -> (t: int)
    requires
        collision_scan(src).is_ok(),
        0 <= a < 8,
        0 <= b < 8,
        0 < collision_scan(src).unwrap().fields[13 + a] < collision_scan(src).unwrap().fields[13
            + b],
        forall|c: int|
            0 <= c < 8 && c != a ==> !(collision_scan(src).unwrap().fields[13 + a]
                <= #[trigger] collision_scan(src).unwrap().fields[13 + c] < collision_scan(
                src,
            ).unwrap().fields[13 + b]),
    ensures
        PIECES_BEFORE <= t < collision_scan(src).unwrap().pieces.len(),
        collision_scan(src).unwrap().pieces[t].name == slot_name(a),
        collision_scan(src).unwrap().pieces[t].data.len() == collision_scan(src).unwrap().fields[13
            + b] - collision_scan(src).unwrap().fields[13 + a],
        collision_scan(src).unwrap().pieces[t].data == src.subrange(
            piece_start(FIELDS_BEFORE as nat, collision_scan(src).unwrap().pieces, t) as int,
            (piece_start(FIELDS_BEFORE as nat, collision_scan(src).unwrap().pieces, t)
                + collision_scan(src).unwrap().pieces[t].data.len()) as int,
        ),
{
    let scan = collision_scan(src).unwrap();
    let own = scan.fields.subrange(11, 21);
    let table = sub_table(own);
    let sorted = sorted_table(scan.fields);
    lemma_sub_regions(src);
    lemma_sorted_entries(own);
    let ka = lemma_place_of_slot(own, a);
    let kb = lemma_place_of_slot(own, b);
    assert(table[a].offset == scan.fields[13 + a] && table[b].offset == scan.fields[13 + b]);
    assert(ka < kb);
    let t = sub_piece_index(9, sorted, ka);
    assert(is_whole_sub_piece(src, scan.pieces, sorted, ka, t));
    let next = sorted[ka + 1];
    let c = next.slot as int;
    assert(next == table[c]);
    assert(sorted[ka].offset <= next.offset <= sorted[kb].offset);
    if c == 8 {
        if ka + 1 < 8 {
            assert(is_whole_sub_piece(
                src,
                scan.pieces,
                sorted,
                ka + 1,
                sub_piece_index(9, sorted, ka + 1),
            ));
        }
    } else if c == a {
    } else {
        assert(table[c].offset == scan.fields[13 + c]);
    }
    t
}

/// Among the eight slots, slot `b` stores the next larger offset after the
/// one of slot `a`, which is present: no other slot stores an offset from
/// the first up to and without the second.
pub open spec fn next_larger(fields: Seq<u32>, a: int, b: int) -> bool {
    &&& 0 <= a < 8
    &&& 0 <= b < 8
    &&& 0 < fields[13 + a] < fields[13 + b]
    &&& forall|c: int|
        0 <= c < 8 && c != a ==> !(fields[13 + a] <= #[trigger] fields[13 + c] < fields[13 + b])
}

/// Piece `t` stands behind the pieces of the sections before section 8,
/// bears the name of slot `a` and holds `len` bytes.
pub open spec fn holds_slot(pieces: Seq<Piece>, t: int, a: int, len: int) -> bool {
    PIECES_BEFORE <= t < pieces.len() && pieces[t].name == slot_name(a) && pieces[t].data.len()
        == len
}

/// No piece bears the name of a slot whose stored offset is zero.
pub open spec fn absent_slots_have_no_piece(fields: Seq<u32>, pieces: Seq<Piece>) -> bool {
    forall|z: int, t: int|
        0 <= z < 8 && fields[13 + z] == 0 && 0 <= t < pieces.len() ==> (#[trigger] pieces[t]).name
            != #[trigger] slot_name(z)
}

/// For every slot that is present and has a next larger offset among the
/// slots, a piece bears its name and holds as many bytes as that offset
/// exceeds its own.
pub open spec fn present_slots_reach_next(fields: Seq<u32>, pieces: Seq<Piece>) -> bool {
    forall|a: int, b: int| #[trigger]
        next_larger(fields, a, b) ==> exists|t: int| #[trigger]
            holds_slot(pieces, t, a, fields[13 + b] - fields[13 + a])
}

/// Of every collision container that parses: the slots of the sub-region
/// table whose offset is zero have no artifact, wherever they stand in the
/// table, and the artifact of every other slot holds the bytes up to the
/// next larger offset of the table.
pub proof fn lemma_sub_region_rules(src: Seq<u8>)
    requires
        collision_scan(src).is_ok(),
    ensures
        absent_slots_have_no_piece(
            collision_scan(src).unwrap().fields,
            collision_scan(src).unwrap().pieces,
        ),
        present_slots_reach_next(
            collision_scan(src).unwrap().fields,
            collision_scan(src).unwrap().pieces,
        ),
{
    let scan = collision_scan(src).unwrap();
    assert forall|z: int, t: int|
        0 <= z < 8 && scan.fields[13 + z] == 0 && 0 <= t < scan.pieces.len() implies (
    #[trigger] scan.pieces[t]).name != #[trigger] slot_name(z) by {
        lemma_absent_slot_has_no_artifact(src, z, t);
    }
    assert forall|a: int, b: int| #[trigger] next_larger(scan.fields, a, b) implies exists|t: int|
     #[trigger]
        holds_slot(scan.pieces, t, a, scan.fields[13 + b] - scan.fields[13 + a]) by {
        let t = lemma_sub_region_reaches_next_offset(src, a, b);
        assert(holds_slot(scan.pieces, t, a, scan.fields[13 + b] - scan.fields[13 + a]));
    }
}

} // verus!
