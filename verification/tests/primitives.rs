use psx_containers::artifact::{artifact_names, Artifact};
use psx_containers::cursor::{copy_limited, read_u32, u16_at, u32_at};
use psx_containers::decimal::{decimal_string, numbered_name};
use psx_containers::encode::{push_u16_le, push_u32_be, push_u32_le};
use psx_containers::error::FormatError;
use psx_containers::scan::Scanner;

#[test]
fn copy_stops_at_the_end_of_the_source() {
    let src = [1u8, 2, 3, 4, 5, 6];
    let mut pos = 2;
    let mut dst = vec![9u8];
    let copied = copy_limited(&src, &mut pos, &mut dst, 10);
    assert_eq!(copied, 4);
    assert_eq!(pos, 6);
    assert_eq!(dst, vec![9, 3, 4, 5, 6]);
}

#[test]
fn copy_takes_no_more_than_asked() {
    let src = [1u8, 2, 3, 4, 5, 6];
    let mut pos = 1;
    let mut dst = Vec::new();
    assert_eq!(copy_limited(&src, &mut pos, &mut dst, 3), 3);
    assert_eq!(pos, 4);
    assert_eq!(dst, vec![2, 3, 4]);
    assert_eq!(copy_limited(&src, &mut pos, &mut dst, 2), 2);
    assert_eq!(pos, 6);
    assert_eq!(dst, vec![2, 3, 4, 5, 6]);
    assert_eq!(copy_limited(&src, &mut pos, &mut dst, 2), 0);
    assert_eq!(pos, 6);
    assert_eq!(dst, vec![2, 3, 4, 5, 6]);
}

#[test]
fn copy_of_nothing_moves_nothing() {
    let src = [1u8, 2, 3];
    let mut pos = 1;
    let mut dst = vec![7u8];
    assert_eq!(copy_limited(&src, &mut pos, &mut dst, 0), 0);
    assert_eq!(pos, 1);
    assert_eq!(dst, vec![7]);
}

#[test]
fn copy_behind_the_end_moves_nothing() {
    let src = [1u8, 2, 3];
    let mut pos = 50;
    let mut dst = Vec::new();
    assert_eq!(copy_limited(&src, &mut pos, &mut dst, u64::MAX), 0);
    assert_eq!(pos, 50);
    assert!(dst.is_empty());
    let mut far = u64::MAX;
    assert_eq!(copy_limited(&src, &mut far, &mut dst, u64::MAX), 0);
    assert_eq!(far, u64::MAX);
}

#[test]
fn copy_to_the_end_with_an_oversized_length() {
    let src = [1u8, 2, 3];
    let mut pos = 0;
    let mut dst = Vec::new();
    assert_eq!(copy_limited(&src, &mut pos, &mut dst, u64::MAX), 3);
    assert_eq!(dst, vec![1, 2, 3]);
}

#[test]
fn fields_are_little_endian() {
    let src = [0x01u8, 0x02, 0x03, 0x04, 0xFF, 0xFE];
    let mut pos = 0;
    assert_eq!(read_u32(&src, &mut pos), Some(0x0403_0201));
    assert_eq!(pos, 4);
    assert_eq!(read_u32(&src, &mut pos), None);
    assert_eq!(pos, 4);
    assert_eq!(u32_at(&src, 2), 0xFEFF_0403);
    assert_eq!(u16_at(&src, 1), 0x0302);
    let mut far = u64::MAX - 1;
    assert_eq!(read_u32(&src, &mut far), None);
    assert_eq!(far, u64::MAX - 1);
    assert_eq!(read_u32(&[0xFF; 4], &mut 0), Some(u32::MAX));
}

#[test]
fn integers_are_written_in_both_byte_orders() {
    let mut dst = vec![0xAAu8];
    push_u16_le(&mut dst, 0x0102);
    push_u32_le(&mut dst, 0x0304_0506);
    push_u32_be(&mut dst, 0x0708_090A);
    assert_eq!(dst, vec![0xAA, 2, 1, 6, 5, 4, 3, 7, 8, 9, 10]);
    let mut max = Vec::new();
    push_u32_le(&mut max, u32::MAX);
    push_u32_be(&mut max, u32::MAX);
    push_u16_le(&mut max, u16::MAX);
    assert_eq!(max, vec![0xFF; 10]);
}

#[test]
fn numerals_have_no_leading_zeros() {
    assert_eq!(decimal_string(0), "0");
    assert_eq!(decimal_string(7), "7");
    assert_eq!(decimal_string(9), "9");
    assert_eq!(decimal_string(10), "10");
    assert_eq!(decimal_string(255), "255");
    assert_eq!(decimal_string(1234567890), "1234567890");
    assert_eq!(decimal_string(u64::MAX), "18446744073709551615");
    for n in 0..3000u64 {
        assert_eq!(decimal_string(n), format!("{}", n));
    }
}

#[test]
fn names_are_numbered() {
    assert_eq!(numbered_name("a_buf_", 3, ".vag"), "a_buf_3.vag");
    assert_eq!(numbered_name("", 12, ""), "12");
    assert_eq!(numbered_name("s_", 0, ".bin"), "s_0.bin");
}

#[test]
fn errors_describe_themselves() {
    assert_eq!(FormatError::UnexpectedEof.message(), "unexpected end of file inside a header");
    assert_eq!(
        FormatError::LengthUnderflow.message(),
        "stored offset precedes the bytes already consumed"
    );
    assert_eq!(FormatError::TooLarge.message(), "offset or length exceeds 32 bits");
    assert_eq!(
        FormatError::UnnamedRegion.message(),
        "a region without a name is not the last of its table"
    );
}

#[test]
fn scanner_reads_fields_and_emits_artifacts() {
    let src = [1u8, 0, 0, 0, 2, 0, 0, 0, 10, 11, 12, 13];
    let mut scanner = Scanner::new();
    assert!(scanner.read_fields(&src, 2));
    assert_eq!(scanner.fields, vec![1, 2]);
    assert_eq!(scanner.pos, 8);
    scanner.emit(&src, "a".to_string(), vec![0xFF], 3);
    assert_eq!(scanner.pos, 11);
    scanner.seek(9);
    scanner.emit(&src, "b".to_string(), Vec::new(), 100);
    assert_eq!(scanner.pos, 12);
    assert_eq!(
        scanner.artifacts,
        vec![
            Artifact { name: "a".to_string(), data: vec![0xFF, 10, 11, 12] },
            Artifact { name: "b".to_string(), data: vec![11, 12, 13] },
        ]
    );
    assert_eq!(artifact_names(&scanner.artifacts), vec!["a", "b"]);
    assert!(!scanner.read_fields(&src, 1));
    assert!(scanner.read_fields(&src, 0));
    scanner.seek(100);
    assert!(scanner.read_fields(&src, 0));
    assert!(!scanner.read_fields(&src, 1));
}

#[test]
fn scanner_reads_any_number_of_fields() {
    let src: Vec<u8> = (0..400u32).map(|i| i as u8).collect();
    let mut scanner = Scanner::new();
    assert!(scanner.read_fields(&src, 100));
    assert_eq!(scanner.fields.len(), 100);
    assert_eq!(scanner.fields[0], 0x0302_0100);
    assert_eq!(scanner.fields[99], u32::from_le_bytes([140, 141, 142, 143]));
    assert_eq!(scanner.pos, 400);
    let mut short = Scanner::new();
    assert!(!short.read_fields(&src, 101));
}
