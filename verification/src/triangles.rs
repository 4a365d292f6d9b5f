//! The triangle records of the collision mesh: three bit-packed 32-bit
//! words, one for each axis, that hold a quantized base coordinate and the
//! distances of the second and third vertex from it.

use vstd::prelude::*;
use crate::cursor::{in_bounds, le_u32, u32_at};
use crate::decimal::{decimal, decimal_string};
use crate::error::FormatError;

verus! {

/// Three coordinates.
#[derive(Clone, Copy, Debug, PartialEq, Eq)]
pub struct Vec3<T>(pub T, pub T, pub T);

/// A triangle in fixed-point coordinates, 4096 to the world unit.
#[derive(Clone, Copy, Debug, PartialEq, Eq)]
pub struct Triangle {
    pub v1: Vec3<i32>,
    pub v2: Vec3<i32>,
    pub v3: Vec3<i32>,
}

/// Number of bytes of a record.
pub const RECORD_BYTES: usize = 12;

/// The base coordinate of a word: its low 14 bits.
pub open spec fn base_of(word: int) -> int {
    word % 16384
}

/// `value`, an unsigned number of nine bits, read as a signed one.
pub open spec fn signed9(value: int) -> int {
    if value >= 256 {
        value - 512
    } else {
        value
    }
}

/// The coordinates of the three vertices that a word of the x or y axis
/// holds: the base; the base and the signed nine bits above it; the base
/// and the signed top nine bits. Each is scaled by 16.
pub open spec fn plane_xy(word: int) -> (int, int, int) {
    (
        16 * base_of(word),
        16 * (signed9((word / 16384) % 512) + base_of(word)),
        16 * (signed9(word / 8388608) + base_of(word)),
    )
}

/// `value`, an unsigned number of eight bits, read as a signed one.
pub open spec fn signed8(value: int) -> int {
    if value >= 128 {
        value - 256
    } else {
        value
    }
}

/// The coordinates of the three vertices that a word of the z axis holds:
/// the base; the base and the signed bits 16 to 23; the base and the signed
/// top eight bits. The z axis has one bit less for each distance than the
/// other two. Each coordinate is scaled by 16.
pub open spec fn plane_z(word: int) -> (int, int, int) {
    (
        16 * base_of(word),
        16 * (signed8((word / 65536) % 256) + base_of(word)),
        16 * (signed8(word / 16777216) + base_of(word)),
    )
}

/// The triangle that the record stored at `at` holds.
pub open spec fn decode_record(src: Seq<u8>, at: int) -> Triangle {
    let x = plane_xy(le_u32(src, at));
    let y = plane_xy(le_u32(src, at + 4));
    let z = plane_z(le_u32(src, at + 8));
    Triangle {
        v1: Vec3(x.0 as i32, y.0 as i32, z.0 as i32),
        v2: Vec3(x.1 as i32, y.1 as i32, z.1 as i32),
        v3: Vec3(x.2 as i32, y.2 as i32, z.2 as i32),
    }
}

/// Decodes a word of the x or y axis.
pub fn decode_xy(word: u32) -> (plane: (i32, i32, i32))
    ensures
        plane.0 == plane_xy(word as int).0,
        plane.1 == plane_xy(word as int).1,
        plane.2 == plane_xy(word as int).2,
        -4096 <= plane.0 <= 266208,
        -4096 <= plane.1 <= 266208,
        -4096 <= plane.2 <= 266208,
{
    let base: u32 = word & 0x3fff;
    let mid: u32 = (word >> 14) & 0x1ff;
    let high: u32 = word >> 23;
    assert(base == word % 16384) by (bit_vector)
        requires
            base == word & 0x3fff,
    ;
    assert(mid == (word / 16384) % 512) by (bit_vector)
        requires
            mid == (word >> 14) & 0x1ff,
    ;
    assert(high == word / 8388608) by (bit_vector)
        requires
            high == word >> 23,
    ;
    let base: i32 = base as i32;
    let second: i32 = if mid >= 256 {
        mid as i32 - 512
    } else {
        mid as i32
    };
    let third: i32 = if high >= 256 {
        high as i32 - 512
    } else {
        high as i32
    };
    (base * 16, (second + base) * 16, (third + base) * 16)
}

/// Decodes a word of the z axis.
pub fn decode_z(word: u32) -> (plane: (i32, i32, i32))
    ensures
        plane.0 == plane_z(word as int).0,
        plane.1 == plane_z(word as int).1,
        plane.2 == plane_z(word as int).2,
        0 <= plane.0 <= 262128,
        -2048 <= plane.1 <= 264160,
        -2048 <= plane.2 <= 264160,
{
    let base: u32 = word & 0x3fff;
    let mid: u32 = (word >> 16) & 0xff;
    let high: u32 = word >> 24;
    assert(base == word % 16384) by (bit_vector)
        requires
            base == word & 0x3fff,
    ;
    assert(mid == (word / 65536) % 256) by (bit_vector)
        requires
            mid == (word >> 16) & 0xff,
    ;
    assert(high == word / 16777216) by (bit_vector)
        requires
            high == word >> 24,
    ;
    let base: i32 = base as i32;
    let second: i32 = if mid >= 128 {
        mid as i32 - 256
    } else {
        mid as i32
    };
    let third: i32 = if high >= 128 {
        high as i32 - 256
    } else {
        high as i32
    };
    (base * 16, (second + base) * 16, (third + base) * 16)
}

/// Reads the record at the cursor and steps over it. Where fewer than 12
/// bytes are left the stream has ended: nothing is read and the cursor
/// stays.
pub fn read_tri(src: &[u8], pos: &mut u64) -> (record: Result<Triangle, FormatError>)
    ensures
        in_bounds(src@.len(), *old(pos) as int, RECORD_BYTES as int) ==> record == Ok::<
            Triangle,
            FormatError,
        >(decode_record(src@, *old(pos) as int)) && *final(pos) == *old(pos) + RECORD_BYTES,
        !in_bounds(src@.len(), *old(pos) as int, RECORD_BYTES as int) ==> record == Err::<
            Triangle,
            FormatError,
        >(FormatError::UnexpectedEof) && *final(pos) == *old(pos),
{
    let len: usize = src.len();
    let at: u64 = *pos;
    if at >= len as u64 || len as u64 - at < RECORD_BYTES as u64 {
        return Err(FormatError::UnexpectedEof);
    }
    let i: usize = at as usize;
    let x = decode_xy(u32_at(src, i));
    let y = decode_xy(u32_at(src, i + 4));
    let z = decode_z(u32_at(src, i + 8));
    *pos = at + RECORD_BYTES as u64;
    Ok(Triangle { v1: Vec3(x.0, y.0, z.0), v2: Vec3(x.1, y.1, z.1), v3: Vec3(x.2, y.2, z.2) })
}

/// A mesh as a text file lists it: the vertices, three for each triangle
/// and none shared, and the faces, one for each triangle.
#[derive(Clone, Debug, PartialEq, Eq)]
pub struct ObjMesh {
    /// The coordinates of each vertex in the order x, z, y, in fixed point.
    /// A writer divides the first two by 4096 and the third by -4096.
    pub vertices: Vec<Vec3<i32>>,
    /// The numbers of the three vertices of each face, counted from 1.
    pub faces: Vec<Vec3<u64>>,
}

/// The vertex as a mesh lists it: x, then z, then y.
pub open spec fn listed_vertex(v: Vec3<i32>) -> Vec3<i32> {
    Vec3(v.0, v.2, v.1)
}

/// Vertex `k` of a triangle, counted from 0.
pub open spec fn corner(t: Triangle, k: int) -> Vec3<i32> {
    if k == 0 {
        t.v1
    } else if k == 1 {
        t.v2
    } else {
        t.v3
    }
}

/// Number of whole records in `len` bytes.
pub open spec fn record_count(len: nat) -> nat {
    len / (RECORD_BYTES as nat)
}

/// The vertices of the mesh of `src`: for each whole record, in order, its
/// three vertices.
pub open spec fn mesh_vertices(src: Seq<u8>) -> Seq<Vec3<i32>> {
    Seq::new(
        3 * record_count(src.len()),
        |k: int| listed_vertex(corner(decode_record(src, RECORD_BYTES * (k / 3)), k % 3)),
    )
}

/// The faces of the mesh of `src`: face `i` joins the vertices 3i+1, 3i+2
/// and 3i+3.
pub open spec fn mesh_faces(src: Seq<u8>) -> Seq<Vec3<u64>> {
    Seq::new(
        record_count(src.len()),
        |i: int| Vec3((3 * i + 1) as u64, (3 * i + 2) as u64, (3 * i + 3) as u64),
    )
}

/// Decodes the records of `src` up to the first that is not whole, and
/// lists their triangles as a mesh.
pub fn convert(src: &[u8]) -> (mesh: ObjMesh)
    ensures
        mesh.vertices@ == mesh_vertices(src@),
        mesh.faces@ == mesh_faces(src@),
{
    let mut vertices: Vec<Vec3<i32>> = Vec::new();
    let mut pos: u64 = 0;
    let mut face_counter: u64 = 0;
    loop
        invariant
            pos == RECORD_BYTES * face_counter,
            pos <= src@.len(),
            face_counter <= record_count(src@.len()),
            vertices@.len() == 3 * face_counter,
            forall|k: int|
                0 <= k < 3 * face_counter ==> vertices@[k] == listed_vertex(
                    corner(decode_record(src@, RECORD_BYTES * (k / 3)), k % 3),
                ),
        ensures
            face_counter == record_count(src@.len()),
            vertices@ == mesh_vertices(src@),
        decreases src@.len() - pos,
    {
        let triangle = match read_tri(src, &mut pos) {
            Ok(tri) => tri,
            Err(_) => {
                assert(vertices@ =~= mesh_vertices(src@));
                break ;
            },
        };
        vertices.push(Vec3(triangle.v1.0, triangle.v1.2, triangle.v1.1));
        vertices.push(Vec3(triangle.v2.0, triangle.v2.2, triangle.v2.1));
        vertices.push(Vec3(triangle.v3.0, triangle.v3.2, triangle.v3.1));
        face_counter += 1;
    }
    let mut faces: Vec<Vec3<u64>> = Vec::new();
    let mut i: u64 = 0;
    while i < face_counter
        invariant
            0 <= i <= face_counter,
            face_counter == record_count(src@.len()),
            RECORD_BYTES * face_counter <= u64::MAX,
            faces@.len() == i,
            forall|k: int|
                0 <= k < i ==> faces@[k] == Vec3(
                    (3 * k + 1) as u64,
                    (3 * k + 2) as u64,
                    (3 * k + 3) as u64,
                ),
        decreases face_counter - i,
    {
        faces.push(Vec3(i * 3 + 1, i * 3 + 2, i * 3 + 3));
        i += 1;
    }
    assert(faces@ =~= mesh_faces(src@));
    ObjMesh { vertices, faces }
}

/// The line of a mesh file that lists a face.
pub open spec fn face_text(face: Vec3<u64>) -> Seq<char> {
    "f "@ + decimal(face.0 as nat) + " "@ + decimal(face.1 as nat) + " "@ + decimal(
        face.2 as nat,
    ) + "\n"@
}

/// Writes the line of a mesh file that lists a face.
pub fn face_line(face: &Vec3<u64>) -> (line: String)
    ensures
        line@ == face_text(*face),
{
    let mut line: String = String::from_str("f ");
    line.append(decimal_string(face.0).as_str());
    line.append(" ");
    line.append(decimal_string(face.1).as_str());
    line.append(" ");
    line.append(decimal_string(face.2).as_str());
    line.append("\n");
    line
}

/// A record of twelve zero bytes holds the triangle whose nine coordinates
/// are zero.
pub proof fn lemma_zero_record(src: Seq<u8>, at: int)
    requires
        in_bounds(src.len(), at, RECORD_BYTES as int),
        forall|k: int| at <= k < at + RECORD_BYTES ==> src[k] == 0,
    ensures
        decode_record(src, at) == (Triangle {
            v1: Vec3(0, 0, 0),
            v2: Vec3(0, 0, 0),
            v3: Vec3(0, 0, 0),
        }),
{
}

/// Every triangle of a mesh has three vertices of its own and one face,
/// and the face joins these three in their order.
pub proof fn lemma_mesh_shape(src: Seq<u8>, i: int)
    requires
        src.len() <= u64::MAX,
        0 <= i < record_count(src.len()),
    ensures
        mesh_vertices(src).len() == 3 * mesh_faces(src).len(),
        mesh_faces(src)[i].0 == 3 * i + 1,
        mesh_faces(src)[i].1 == 3 * i + 2,
        mesh_faces(src)[i].2 == 3 * i + 3,
        mesh_vertices(src)[3 * i] == listed_vertex(decode_record(src, RECORD_BYTES * i).v1),
        mesh_vertices(src)[3 * i + 1] == listed_vertex(decode_record(src, RECORD_BYTES * i).v2),
        mesh_vertices(src)[3 * i + 2] == listed_vertex(decode_record(src, RECORD_BYTES * i).v3),
{
    assert((3 * i) / 3 == i && (3 * i) % 3 == 0);
    assert((3 * i + 1) / 3 == i && (3 * i + 1) % 3 == 1);
    assert((3 * i + 2) / 3 == i && (3 * i + 2) % 3 == 2);
}

} // verus!
