use psx_containers::error::FormatError;
use psx_containers::triangles::{
    convert, decode_xy, decode_z, face_line, read_tri, ObjMesh, Triangle, Vec3,
};

fn record(x: u32, y: u32, z: u32) -> Vec<u8> {
    let mut bytes = Vec::new();
    bytes.extend_from_slice(&x.to_le_bytes());
    bytes.extend_from_slice(&y.to_le_bytes());
    bytes.extend_from_slice(&z.to_le_bytes());
    bytes
}

fn shifted_xy(word: u32) -> (i32, i32, i32) {
    let w = word as i32;
    let base = w & 0x3fff;
    (base << 4, (((w << 9) >> 0x17) + base) * 0x10, ((w >> 0x17) + base) * 0x10)
}

fn shifted_z(word: u32) -> (i32, i32, i32) {
    let w = word as i32;
    let base = w & 0x3fff;
    (base << 4, (((w << 8) >> 0x18) + base) * 0x10, ((w >> 0x18) + base) * 0x10)
}

fn words() -> Vec<u32> {
    let mut list = vec![
        0,
        1,
        0x3FFF,
        0x4000,
        0x7F_C000,
        0x40_0000,
        0x80_0000,
        0xFF80_0000,
        0x8000_0000,
        0xFFFF_FFFF,
        0x7FFF_FFFF,
        0x0001_0000,
        0x00FF_0000,
        0xFF00_0000,
        0x0000_C000,
        0x1234_5678,
        0x8765_4321,
        0xDEAD_BEEF,
    ];
    let mut state: u32 = 0x2545_F491;
    for _ in 0..2000 {
        state ^= state << 13;
        state ^= state >> 17;
        state ^= state << 5;
        list.push(state);
    }
    list
}

#[test]
fn all_zero_record_decodes_to_nine_zero_coordinates() {
    let bytes = vec![0u8; 12];
    let mut pos = 0;
    let triangle = read_tri(&bytes, &mut pos).unwrap();
    assert_eq!(
        triangle,
        Triangle { v1: Vec3(0, 0, 0), v2: Vec3(0, 0, 0), v3: Vec3(0, 0, 0) }
    );
    assert_eq!(pos, 12);
}

#[test]
fn base_is_the_low_fourteen_bits_times_sixteen() {
    assert_eq!(decode_xy(1), (16, 16, 16));
    assert_eq!(decode_xy(0x3FFF), (262128, 262128, 262128));
    assert_eq!(decode_z(0x3FFF), (262128, 262128, 262128));
    assert_eq!(decode_z(0xC000), (0, 0, 0));
}

#[test]
fn distances_of_x_and_y_are_signed() {
    assert_eq!(decode_xy(0x4000 | 5), (80, 96, 80));
    assert_eq!(decode_xy(0x7F_C000 | 5), (80, 64, 80));
    assert_eq!(decode_xy(0x40_0000 | 5), (80, (5 - 256) * 16, 80));
    assert_eq!(decode_xy(0x3F_C000 | 5), (80, (5 + 255) * 16, 80));
    assert_eq!(decode_xy(0x80_0000 | 5), (80, 80, 96));
    assert_eq!(decode_xy(0xFF80_0000 | 5), (80, 80, 64));
    assert_eq!(decode_xy(0x8000_0000 | 5), (80, 80, (5 - 256) * 16));
    assert_eq!(decode_xy(0x7F80_0000 | 5), (80, 80, (5 + 255) * 16));
    assert_eq!(decode_xy(0xFFFF_FFFF), (262128, 262112, 262112));
    assert_eq!(decode_xy(0x7FFF_FFFF), (262128, 262112, 266208));
    assert_eq!(decode_xy(0x8000_0000), (0, 0, -4096));
}

#[test]
fn distances_of_z_are_signed_and_one_bit_shorter() {
    assert_eq!(decode_z(0x0001_0000 | 5), (80, 96, 80));
    assert_eq!(decode_z(0x007F_0000 | 5), (80, (5 + 127) * 16, 80));
    assert_eq!(decode_z(0x0080_0000 | 5), (80, (5 - 128) * 16, 80));
    assert_eq!(decode_z(0x00FF_0000 | 5), (80, 64, 80));
    assert_eq!(decode_z(0x0100_0000 | 5), (80, 80, 96));
    assert_eq!(decode_z(0x7F00_0000 | 5), (80, 80, (5 + 127) * 16));
    assert_eq!(decode_z(0x8000_0000 | 5), (80, 80, (5 - 128) * 16));
    assert_eq!(decode_z(0xFF00_0000 | 5), (80, 80, 64));
    assert_eq!(decode_z(0xFF00_0000), (0, 0, -16));
    assert_eq!(decode_z(0x0080_0000), (0, -2048, 0));
    assert_eq!(decode_z(0x7F7F_3FFF), (262128, 264160, 264160));
    assert_eq!(decode_z(0xFFFF_FFFF), (262128, 262112, 262112));
    assert_eq!(decode_z(0x0000_4000 | 5), (80, 80, 80));
    assert_eq!(decode_z(0x0000_8000 | 5), (80, 80, 80));
}

#[test]
fn top_byte_of_the_z_word_lowers_the_third_vertex() {
    let bytes = record(0, 0, 0xFF00_0000);
    let mut pos = 0;
    let triangle = read_tri(&bytes, &mut pos).unwrap();
    assert_eq!(triangle.v1.2, 0);
    assert_eq!(triangle.v2.2, 0);
    assert_eq!(triangle.v3.2, -16);
    assert_eq!(triangle.v1, Vec3(0, 0, 0));
    assert_eq!(triangle.v2, Vec3(0, 0, 0));
    assert_eq!(triangle.v3, Vec3(0, 0, -16));
}

#[test]
fn decoding_agrees_with_the_shift_formula() {
    for word in words() {
        assert_eq!(decode_xy(word), shifted_xy(word), "{:#x}", word);
        assert_eq!(decode_z(word), shifted_z(word), "{:#x}", word);
    }
}

#[test]
fn record_is_three_little_endian_words() {
    let bytes = record(0x4000 | 1, 0x80_0000 | 2, 0x0101_0000 | 3);
    let mut pos = 0;
    let triangle = read_tri(&bytes, &mut pos).unwrap();
    assert_eq!(
        triangle,
        Triangle { v1: Vec3(16, 32, 48), v2: Vec3(32, 32, 64), v3: Vec3(16, 48, 64) }
    );
}

#[test]
fn short_record_ends_the_stream() {
    let bytes = record(1, 2, 3);
    let mut pos = 1;
    assert_eq!(read_tri(&bytes, &mut pos), Err(FormatError::UnexpectedEof));
    assert_eq!(pos, 1);
    let mut end = 12;
    assert_eq!(read_tri(&bytes, &mut end), Err(FormatError::UnexpectedEof));
    let mut far = u64::MAX;
    assert_eq!(read_tri(&bytes, &mut far), Err(FormatError::UnexpectedEof));
    assert_eq!(far, u64::MAX);
    assert_eq!(read_tri(&bytes[..11], &mut 0), Err(FormatError::UnexpectedEof));
    assert_eq!(read_tri(&[], &mut 0), Err(FormatError::UnexpectedEof));
}

#[test]
fn records_are_read_one_after_the_other() {
    let mut bytes = record(1, 2, 3);
    bytes.extend_from_slice(&record(4, 5, 6));
    let mut pos = 0;
    assert_eq!(read_tri(&bytes, &mut pos).unwrap().v1, Vec3(16, 32, 48));
    assert_eq!(pos, 12);
    assert_eq!(read_tri(&bytes, &mut pos).unwrap().v1, Vec3(64, 80, 96));
    assert_eq!(pos, 24);
    assert!(read_tri(&bytes, &mut pos).is_err());
}

#[test]
fn mesh_lists_three_vertices_and_one_face_for_each_triangle() {
    let mut bytes = record(0x4000 | 1, 0x80_0000 | 2, 0x0101_0000 | 3);
    bytes.extend_from_slice(&record(0, 0, 0));
    bytes.extend_from_slice(&record(7, 8, 9));
    bytes.extend_from_slice(&[1, 2, 3, 4, 5]);
    let mesh = convert(&bytes);
    assert_eq!(
        mesh,
        ObjMesh {
            vertices: vec![
                Vec3(16, 48, 32),
                Vec3(32, 64, 32),
                Vec3(16, 64, 48),
                Vec3(0, 0, 0),
                Vec3(0, 0, 0),
                Vec3(0, 0, 0),
                Vec3(112, 144, 128),
                Vec3(112, 144, 128),
                Vec3(112, 144, 128),
            ],
            faces: vec![Vec3(1, 2, 3), Vec3(4, 5, 6), Vec3(7, 8, 9)],
        }
    );
}

#[test]
fn source_without_a_whole_record_gives_an_empty_mesh() {
    assert_eq!(convert(&[]), ObjMesh { vertices: vec![], faces: vec![] });
    assert_eq!(convert(&[0; 11]), ObjMesh { vertices: vec![], faces: vec![] });
}

#[test]
fn faces_count_vertices_from_one() {
    let bytes = vec![0u8; 12 * 50];
    let mesh = convert(&bytes);
    assert_eq!(mesh.vertices.len(), 150);
    assert_eq!(mesh.faces.len(), 50);
    for (i, face) in mesh.faces.iter().enumerate() {
        let i = i as u64;
        assert_eq!(*face, Vec3(3 * i + 1, 3 * i + 2, 3 * i + 3));
    }
    assert_eq!(mesh.faces[49], Vec3(148, 149, 150));
}

#[test]
fn face_line_is_written_in_decimal() {
    assert_eq!(face_line(&Vec3(1, 2, 3)), "f 1 2 3\n");
    assert_eq!(face_line(&Vec3(148, 149, 150)), "f 148 149 150\n");
    assert_eq!(face_line(&Vec3(0, 10, u64::MAX)), "f 0 10 18446744073709551615\n");
}
