use psx_containers::collision::{
    build_sub_table, emit_sub_regions, parse_collision, payload_length, scan_collision,
    section_rule, slot_file_name, LengthRule,
};
use psx_containers::error::FormatError;
use psx_containers::scan::Scanner;
use psx_containers::sub_table::{sort_by_offset, SubRegion};

fn word(bytes: &mut Vec<u8>, value: u32) {
    bytes.extend_from_slice(&value.to_le_bytes());
}

fn fill(bytes: &mut Vec<u8>, len: usize, seed: u8) -> Vec<u8> {
    let data: Vec<u8> = (0..len).map(|i| (i as u8).wrapping_mul(7).wrapping_add(seed)).collect();
    bytes.extend_from_slice(&data);
    data
}

struct Sample {
    bytes: Vec<u8>,
    payloads: Vec<(&'static str, Vec<u8>)>,
}

fn sample_with(sub_offsets: [u32; 8], section_9_offset: u32, sub_len: usize) -> Sample {
    let mut b = Vec::new();
    let mut p = Vec::new();
    word(&mut b, 8 + 6);
    word(&mut b, 77);
    p.push(("section_0.dat", fill(&mut b, 6, 1)));
    word(&mut b, 5 + 8 + 56 + 8 + 12);
    word(&mut b, 4 + 56 + 9);
    p.push(("section_1.dat", fill(&mut b, 56, 2)));
    word(&mut b, 3);
    word(&mut b, 0xDEAD_BEEF);
    p.push(("section_2_offsets.dat", fill(&mut b, 12, 3)));
    p.push(("section_2.dat", fill(&mut b, 5, 4)));
    word(&mut b, 4 + 3);
    p.push(("section_3.dat", fill(&mut b, 3, 5)));
    word(&mut b, 4);
    p.push(("section_5.dat", Vec::new()));
    word(&mut b, 8 + 2);
    word(&mut b, 1);
    p.push(("collision_types.dat", fill(&mut b, 2, 6)));
    word(&mut b, 4 + 1);
    p.push(("section_7.dat", fill(&mut b, 1, 7)));
    p.push(("vec_3.dat", fill(&mut b, 12, 8)));
    word(&mut b, section_9_offset);
    word(&mut b, 1234);
    for offset in sub_offsets {
        word(&mut b, offset);
    }
    let sub = fill(&mut b, sub_len, 9);
    p.push(("section 8", sub));
    word(&mut b, 4 + 2);
    p.push(("section_9.dat", fill(&mut b, 2, 10)));
    word(&mut b, 8 + 4);
    word(&mut b, 11);
    p.push(("section_10.dat", fill(&mut b, 4, 11)));
    word(&mut b, 8);
    word(&mut b, 12);
    p.push(("section_11.dat", Vec::new()));
    word(&mut b, 8 + 1);
    word(&mut b, 13);
    p.push(("section_12.dat", fill(&mut b, 1, 12)));
    p.push(("section_13.dat", fill(&mut b, 32, 13)));
    word(&mut b, 4 + 3);
    p.push(("section_14.dat", fill(&mut b, 3, 14)));
    p.push(("tail.bin", fill(&mut b, 9, 15)));
    Sample { bytes: b, payloads: p }
}

fn sample() -> Sample {
    sample_with([130, 0, 100, 0, 110, 150, 0, 0], 164, 60)
}

#[test]
fn every_section_is_extracted_in_order() {
    let s = sample();
    let (manifest, artifacts) = parse_collision(&s.bytes).unwrap();
    let names: Vec<&str> = artifacts.iter().map(|a| a.name.as_str()).collect();
    assert_eq!(
        names,
        vec![
            "section_0.dat",
            "section_1.dat",
            "section_2_offsets.dat",
            "section_2.dat",
            "section_3.dat",
            "section_5.dat",
            "collision_types.dat",
            "section_7.dat",
            "vec_3.dat",
            "section_8_unk_1.bin",
            "section_8_triangles.bin",
            "section_8_idfk.bin",
            "section_8_collision_flags.bin",
            "section_9.dat",
            "section_10.dat",
            "section_11.dat",
            "section_12.dat",
            "section_13.dat",
            "section_14.dat",
            "tail.bin",
        ]
    );
    assert_eq!(manifest.files, names);
    for (name, data) in &s.payloads {
        if *name == "section 8" {
            continue;
        }
        let found = artifacts.iter().find(|a| a.name == *name).unwrap();
        assert_eq!(&found.data, data, "{}", name);
    }
}

#[test]
fn sub_regions_follow_the_sorted_offsets() {
    let s = sample();
    let (_, artifacts) = parse_collision(&s.bytes).unwrap();
    let sub = &s.payloads.iter().find(|(n, _)| *n == "section 8").unwrap().1;
    assert_eq!(artifacts[9].data, sub[0..10]);
    assert_eq!(artifacts[10].data, sub[10..30]);
    assert_eq!(artifacts[11].data, sub[30..50]);
    assert_eq!(artifacts[12].data, sub[50..60]);
}

#[test]
fn manifest_keeps_the_header_fields_as_stored() {
    let s = sample();
    let (m, _) = parse_collision(&s.bytes).unwrap();
    assert_eq!(m.header.section_1_offset, 14);
    assert_eq!(m.header.section_0_data_len, 77);
    assert_eq!(m.section_1.section_3_offset, 89);
    assert_eq!(m.section_1.section_2_offset, 69);
    assert_eq!(m.section_2.section_2_data_len, 3);
    assert_eq!(m.section_2.section_4_offset, 0xDEAD_BEEF);
    assert_eq!(m.section_3.section_5_offset, 7);
    assert_eq!(m.section_5.collision_types_offset, 4);
    assert_eq!(m.collision_types.section_7_offset, 10);
    assert_eq!(m.collision_types.collision_types_len, 1);
    assert_eq!(m.section_7.section_8_offset, 5);
    assert_eq!(m.section_8.section_9_offset, 164);
    assert_eq!(m.section_8.triangle_count, 1234);
    assert_eq!(m.section_8.idfk_offset, 130);
    assert_eq!(m.section_8.unk_0, 0);
    assert_eq!(m.section_8.unk_1_offset, 100);
    assert_eq!(m.section_8.unk_2_offset, 0);
    assert_eq!(m.section_8.triangles_offset, 110);
    assert_eq!(m.section_8.collision_flags_offset, 150);
    assert_eq!(m.section_8.unk_3_offset, 0);
    assert_eq!(m.section_8.unk_4_offset, 0);
    assert_eq!(m.section_9.section_10_offset, 6);
    assert_eq!(m.section_10.section_11_offset, 12);
    assert_eq!(m.section_10.section_10_data_len, 11);
    assert_eq!(m.section_11.section_12_offset, 8);
    assert_eq!(m.section_11.section_11_data_len, 12);
    assert_eq!(m.section_12.section_13_offset, 9);
    assert_eq!(m.section_12.section_12_data_len, 13);
    assert_eq!(m.section_14.section_15_offset, 7);
    assert!(m.timestamp.secs > 1_500_000_000);
}

#[test]
fn header_fields_and_payloads_use_up_the_source() {
    let s = sample();
    let scanner = scan_collision(&s.bytes).unwrap();
    assert_eq!(scanner.fields.len(), 29);
    assert_eq!(scanner.pos as usize, s.bytes.len());
    let total: usize = scanner.artifacts.iter().map(|a| a.data.len()).sum();
    assert_eq!(4 * 29 + total, s.bytes.len());
}

#[test]
fn record_table_is_cut_to_whole_records() {
    let s = sample();
    let (_, artifacts) = parse_collision(&s.bytes).unwrap();
    assert_eq!(artifacts[1].data.len(), 56);
}

#[test]
fn source_without_a_tail_parses() {
    let mut s = sample();
    let len = s.bytes.len();
    s.bytes.truncate(len - 9);
    let (_, artifacts) = parse_collision(&s.bytes).unwrap();
    assert_eq!(artifacts.last().unwrap().name, "tail.bin");
    assert!(artifacts.last().unwrap().data.is_empty());
}

#[test]
fn last_section_may_be_cut_short() {
    let mut s = sample();
    let len = s.bytes.len();
    s.bytes.truncate(len - 11);
    let (_, artifacts) = parse_collision(&s.bytes).unwrap();
    let n = artifacts.len();
    assert_eq!(artifacts[n - 2].name, "section_14.dat");
    assert_eq!(artifacts[n - 2].data.len(), 1);
    assert!(artifacts[n - 1].data.is_empty());
}

#[test]
fn source_that_ends_inside_a_header_is_rejected() {
    let s = sample();
    assert!(matches!(parse_collision(&[]), Err(FormatError::UnexpectedEof)));
    assert!(matches!(parse_collision(&s.bytes[..7]), Err(FormatError::UnexpectedEof)));
    assert!(matches!(parse_collision(&s.bytes[..14]), Err(FormatError::UnexpectedEof)));
    assert!(matches!(parse_collision(&s.bytes[..20]), Err(FormatError::UnexpectedEof)));
    let len = s.bytes.len();
    assert!(matches!(parse_collision(&s.bytes[..len - 14]), Err(FormatError::UnexpectedEof)));
}

#[test]
fn offset_smaller_than_its_header_is_fatal() {
    let mut s = sample();
    s.bytes[0..4].copy_from_slice(&7u32.to_le_bytes());
    assert!(matches!(parse_collision(&s.bytes), Err(FormatError::LengthUnderflow)));
    assert!(matches!(scan_collision(&s.bytes), Err(FormatError::LengthUnderflow)));
    let mut zero = sample();
    zero.bytes[0..4].copy_from_slice(&0u32.to_le_bytes());
    assert!(matches!(parse_collision(&zero.bytes), Err(FormatError::LengthUnderflow)));
}

#[test]
fn record_offset_below_four_is_fatal() {
    let mut s = sample();
    s.bytes[18..22].copy_from_slice(&3u32.to_le_bytes());
    assert!(matches!(parse_collision(&s.bytes), Err(FormatError::LengthUnderflow)));
}

#[test]
fn span_too_short_for_section_2_is_fatal() {
    let mut s = sample();
    s.bytes[14..18].copy_from_slice(&83u32.to_le_bytes());
    assert!(matches!(parse_collision(&s.bytes), Err(FormatError::LengthUnderflow)));
    let mut exact = sample();
    exact.bytes[14..18].copy_from_slice(&84u32.to_le_bytes());
    assert!(!matches!(parse_collision(&exact.bytes), Err(FormatError::LengthUnderflow)));
}

#[test]
fn section_9_offset_below_four_is_fatal() {
    let s = sample_with([0, 0, 0, 0, 0, 0, 0, 0], 3, 0);
    assert!(matches!(parse_collision(&s.bytes), Err(FormatError::LengthUnderflow)));
}

#[test]
fn sub_region_behind_the_start_of_section_9_is_rejected() {
    let s = sample_with([130, 0, 100, 0, 110, 161, 0, 0], 164, 61);
    assert!(matches!(parse_collision(&s.bytes), Err(FormatError::UnnamedRegion)));
}

#[test]
fn sub_region_at_the_start_of_section_9_is_empty() {
    let s = sample_with([130, 0, 100, 0, 110, 160, 0, 0], 164, 60);
    let (_, artifacts) = parse_collision(&s.bytes).unwrap();
    assert_eq!(artifacts[12].name, "section_8_collision_flags.bin");
    assert!(artifacts[12].data.is_empty());
    assert_eq!(artifacts[11].name, "section_8_idfk.bin");
    assert_eq!(artifacts[11].data.len(), 30);
    assert_eq!(artifacts[13].name, "section_9.dat");
}

#[test]
fn absent_sub_regions_consume_nothing() {
    let s = sample_with([0, 0, 0, 0, 0, 0, 0, 0], 4, 0);
    let (_, artifacts) = parse_collision(&s.bytes).unwrap();
    let names: Vec<&str> = artifacts.iter().map(|a| a.name.as_str()).collect();
    assert_eq!(names.len(), 16);
    assert_eq!(names[8], "vec_3.dat");
    assert_eq!(names[9], "section_9.dat");
    assert_eq!(artifacts[9].data.len(), 2);
}

#[test]
fn only_the_start_of_section_9_present_emits_no_sub_region() {
    let s = sample_with([0, 0, 0, 0, 0, 0, 0, 0], 44, 0);
    let (_, artifacts) = parse_collision(&s.bytes).unwrap();
    assert_eq!(artifacts.len(), 16);
    assert_eq!(artifacts[9].name, "section_9.dat");
}

#[test]
fn equal_offsets_keep_header_order() {
    let s = sample_with([100, 100, 0, 0, 0, 0, 0, 100], 124, 20);
    let (_, artifacts) = parse_collision(&s.bytes).unwrap();
    assert_eq!(artifacts[9].name, "section_8_idfk.bin");
    assert!(artifacts[9].data.is_empty());
    assert_eq!(artifacts[10].name, "section_8_unk_0.bin");
    assert!(artifacts[10].data.is_empty());
    assert_eq!(artifacts[11].name, "section_8_unk_4.bin");
    assert_eq!(artifacts[11].data.len(), 20);
    assert_eq!(artifacts[12].name, "section_9.dat");
}

#[test]
fn sort_is_ascending_and_stable() {
    let mut table = vec![
        SubRegion { slot: 0, offset: 9 },
        SubRegion { slot: 1, offset: 0 },
        SubRegion { slot: 2, offset: 5 },
        SubRegion { slot: 3, offset: 9 },
        SubRegion { slot: 4, offset: 0 },
        SubRegion { slot: 5, offset: 5 },
        SubRegion { slot: 6, offset: u32::MAX },
        SubRegion { slot: 7, offset: 1 },
        SubRegion { slot: 8, offset: 9 },
    ];
    sort_by_offset(&mut table);
    let order: Vec<(usize, u32)> = table.iter().map(|e| (e.slot, e.offset)).collect();
    assert_eq!(
        order,
        vec![(1, 0), (4, 0), (7, 1), (2, 5), (5, 5), (0, 9), (3, 9), (8, 9), (6, u32::MAX)]
    );
    let mut empty: Vec<SubRegion> = Vec::new();
    sort_by_offset(&mut empty);
    assert!(empty.is_empty());
}

#[test]
fn sub_table_lists_the_eight_offsets_then_section_9_less_four() {
    let fields = vec![99, 164, 7, 130, 1, 100, 2, 110, 150, 3, 4];
    let table = build_sub_table(&fields);
    let order: Vec<(usize, u32)> = table.iter().map(|e| (e.slot, e.offset)).collect();
    assert_eq!(
        order,
        vec![(0, 130), (1, 1), (2, 100), (3, 2), (4, 110), (5, 150), (6, 3), (7, 4), (8, 160)]
    );
}

#[test]
fn sub_regions_are_cut_at_the_end_of_the_source() {
    let src: Vec<u8> = (0..10).collect();
    let mut table = vec![
        SubRegion { slot: 0, offset: 0 },
        SubRegion { slot: 1, offset: 0 },
        SubRegion { slot: 2, offset: 0 },
        SubRegion { slot: 3, offset: 0 },
        SubRegion { slot: 4, offset: 0 },
        SubRegion { slot: 5, offset: 0 },
        SubRegion { slot: 6, offset: 10 },
        SubRegion { slot: 7, offset: 14 },
        SubRegion { slot: 8, offset: 1000 },
    ];
    sort_by_offset(&mut table);
    let mut scanner = Scanner::new();
    scanner.seek(2);
    emit_sub_regions(&src, &mut scanner, &table).unwrap();
    assert_eq!(scanner.artifacts.len(), 2);
    assert_eq!(scanner.artifacts[0].name, "section_8_unk_3.bin");
    assert_eq!(scanner.artifacts[0].data, vec![2, 3, 4, 5]);
    assert_eq!(scanner.artifacts[1].name, "section_8_unk_4.bin");
    assert_eq!(scanner.artifacts[1].data, vec![6, 7, 8, 9]);
    assert_eq!(scanner.pos, 10);
}

#[test]
fn payload_lengths_follow_their_rules() {
    let fields = vec![14, 77, 89, 69, 3, 0];
    assert_eq!(payload_length(LengthRule::Offset, 2, &vec![14, 77], 0), Ok(6));
    assert_eq!(payload_length(LengthRule::Offset, 2, &vec![8, 0], 0), Ok(0));
    assert_eq!(payload_length(LengthRule::Offset, 2, &vec![7, 0], 0), Err(FormatError::LengthUnderflow));
    assert_eq!(payload_length(LengthRule::Offset, 1, &vec![1, 2, 4], 0), Ok(0));
    assert_eq!(payload_length(LengthRule::Offset, 1, &vec![1, 2, 3], 0), Err(FormatError::LengthUnderflow));
    assert_eq!(payload_length(LengthRule::Offset, 1, &vec![u32::MAX], 0), Ok(u32::MAX as u64 - 4));
    let many = vec![399u32; 100];
    assert_eq!(payload_length(LengthRule::Offset, 100, &many, 0), Err(FormatError::LengthUnderflow));
    let enough = vec![400u32; 100];
    assert_eq!(payload_length(LengthRule::Offset, 100, &enough, 0), Ok(0));
    assert_eq!(payload_length(LengthRule::Records, 2, &vec![0, 4], 0), Ok(0));
    assert_eq!(payload_length(LengthRule::Records, 2, &vec![0, 31], 0), Ok(0));
    assert_eq!(payload_length(LengthRule::Records, 2, &vec![0, 32], 0), Ok(28));
    assert_eq!(payload_length(LengthRule::Records, 2, &vec![0, 69], 0), Ok(56));
    assert_eq!(payload_length(LengthRule::Records, 2, &vec![0, 3], 0), Err(FormatError::LengthUnderflow));
    assert_eq!(payload_length(LengthRule::Count, 2, &vec![3, 0], 0), Ok(12));
    assert_eq!(
        payload_length(LengthRule::Count, 2, &vec![u32::MAX, 0], 0),
        Ok(4 * (u32::MAX as u64))
    );
    assert_eq!(payload_length(LengthRule::Between, 0, &fields, 0), Ok(5));
    assert_eq!(payload_length(LengthRule::Between, 0, &vec![0, 0, 84, 69, 3, 0], 0), Ok(0));
    assert_eq!(
        payload_length(LengthRule::Between, 0, &vec![0, 0, 83, 69, 3, 0], 0),
        Err(FormatError::LengthUnderflow)
    );
    assert_eq!(
        payload_length(LengthRule::Between, 0, &vec![0, 0, u32::MAX, 4, u32::MAX, 0], 0),
        Err(FormatError::LengthUnderflow)
    );
    assert_eq!(payload_length(LengthRule::Fixed(12), 0, &fields, 0), Ok(12));
    assert_eq!(payload_length(LengthRule::Tail, 0, &fields, 4321), Ok(4321));
}

#[test]
fn section_table_has_seventeen_rows() {
    let headers: Vec<usize> = (0..17).map(|i| section_rule(i).header_fields).collect();
    assert_eq!(headers, vec![2, 2, 2, 0, 1, 1, 2, 1, 0, 10, 1, 2, 2, 2, 0, 1, 0]);
    assert_eq!(headers.iter().sum::<usize>(), 29);
    assert_eq!(section_rule(8).length, LengthRule::Fixed(12));
    assert_eq!(section_rule(14).length, LengthRule::Fixed(32));
    assert_eq!(section_rule(9).length, LengthRule::SubTable);
    assert_eq!(section_rule(16).length, LengthRule::Tail);
    assert_eq!(section_rule(16).name, "tail.bin");
    assert_eq!(section_rule(6).name, "collision_types.dat");
}

#[test]
fn slots_have_their_names() {
    let names: Vec<&str> = (0..9).map(slot_file_name).collect();
    assert_eq!(
        names,
        vec![
            "section_8_idfk.bin",
            "section_8_unk_0.bin",
            "section_8_unk_1.bin",
            "section_8_unk_2.bin",
            "section_8_triangles.bin",
            "section_8_collision_flags.bin",
            "section_8_unk_3.bin",
            "section_8_unk_4.bin",
            "",
        ]
    );
}

#[test]
fn absent_slots_anywhere_in_the_table_leave_no_artifact_and_take_no_byte() {
    let s = sample_with([0, 130, 0, 100, 0, 0, 110, 0], 164, 60);
    let (manifest, artifacts) = parse_collision(&s.bytes).unwrap();
    let sub = &s.payloads.iter().find(|(n, _)| *n == "section 8").unwrap().1;
    assert_eq!(artifacts.len(), 19);
    assert_eq!(artifacts[8].name, "vec_3.dat");
    assert_eq!(artifacts[9].name, "section_8_unk_2.bin");
    assert_eq!(artifacts[9].data, sub[0..10]);
    assert_eq!(artifacts[10].name, "section_8_unk_3.bin");
    assert_eq!(artifacts[10].data, sub[10..30]);
    assert_eq!(artifacts[11].name, "section_8_unk_0.bin");
    assert_eq!(artifacts[11].data, sub[30..60]);
    assert_eq!(artifacts[12].name, "section_9.dat");
    for absent in [
        "section_8_idfk.bin",
        "section_8_unk_1.bin",
        "section_8_triangles.bin",
        "section_8_collision_flags.bin",
        "section_8_unk_4.bin",
    ] {
        assert!(artifacts.iter().all(|a| a.name != absent));
        assert!(manifest.files.iter().all(|name| name != absent));
    }
    let before: usize = artifacts[..9].iter().map(|a| a.data.len()).sum();
    let start = 4 * 21 + before;
    assert_eq!(&s.bytes[start..start + 10], &artifacts[9].data[..]);
}

#[test]
fn each_present_slot_reaches_the_next_larger_offset_whatever_the_order() {
    let orders: [[u32; 8]; 4] = [
        [100, 110, 130, 150, 0, 0, 0, 0],
        [150, 130, 110, 100, 0, 0, 0, 0],
        [0, 150, 0, 100, 0, 130, 0, 110],
        [130, 0, 0, 150, 110, 0, 100, 0],
    ];
    for offsets in orders {
        let s = sample_with(offsets, 164, 60);
        let (_, artifacts) = parse_collision(&s.bytes).unwrap();
        assert_eq!(artifacts.len(), 20);
        for (slot, offset) in offsets.iter().enumerate() {
            let name = slot_file_name(slot);
            let found: Vec<_> = artifacts.iter().filter(|a| a.name == name).collect();
            if *offset == 0 {
                assert!(found.is_empty());
                continue;
            }
            let next = offsets.iter().copied().filter(|o| o > offset).min().unwrap_or(160);
            assert_eq!(found.len(), 1);
            assert_eq!(found[0].data.len() as u32, next - offset, "{} in {:?}", name, offsets);
        }
    }
}
