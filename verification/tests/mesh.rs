use rbx_mesh::mesh::{
    check1, fix2, read1, read2, read3, read4, read5, read_100, read_101, read_200, read_300,
    read_400, read_500, read_versioned, vertex_from_groups, vertices_from_captures, BoneId4,
    LineMachine,
    Error, FacsFormat5, LodType4, Mesh2, QuantizedMatrix5, Revision1, Revision2, Revision3,
    Revision4, Revision5, SizeOfVertex2, Vertex2, Vertex2Truncated, VersionedMesh,
    DEFAULT_VERTEX_COLOR, DEFAULT_VERTEX_TANGENT,
};
use rbx_mesh::stream::Cursor;
use rbx_mesh::wire::BinError;

fn put_f32(out: &mut Vec<u8>, x: f32) {
    out.extend_from_slice(&x.to_le_bytes());
}

fn put_u16(out: &mut Vec<u8>, x: u16) {
    out.extend_from_slice(&x.to_le_bytes());
}

fn put_u32(out: &mut Vec<u8>, x: u32) {
    out.extend_from_slice(&x.to_le_bytes());
}

/// 40 bytes of a full vertex; the tangent is the sentinel where `blank`.
fn full_vertex(out: &mut Vec<u8>, seed: u32, blank: bool) {
    for k in 0..8u32 {
        put_f32(out, (seed * 8 + k) as f32 * 0.25);
    }
    if blank {
        out.extend_from_slice(&[0x80, 0x80, 0x80, 0x80]);
    } else {
        out.extend_from_slice(&[0x00, 0x7f, 0x81, 0x7f]);
    }
    out.extend_from_slice(&[seed as u8, 2, 3, 255]);
}

/// 36 bytes of a truncated vertex.
fn truncated_vertex(out: &mut Vec<u8>, seed: u32) {
    for k in 0..8u32 {
        put_f32(out, (seed * 8 + k) as f32 * -1.5);
    }
    out.extend_from_slice(&[0x80, 0x80, 0x80, 0x80]);
}

fn faces(out: &mut Vec<u8>, count: u32) {
    for f in 0..count {
        put_u32(out, 3 * f);
        put_u32(out, 3 * f + 1);
        put_u32(out, 3 * f + 2);
    }
}

fn sample_200(vertex_count: u32, face_count: u32) -> Vec<u8> {
    let mut b = Vec::new();
    b.extend_from_slice(b"version 2.00\n\x0c\x00\x28\x0c");
    put_u32(&mut b, vertex_count);
    put_u32(&mut b, face_count);
    for i in 0..3 {
        full_vertex(&mut b, i, i == 1);
    }
    faces(&mut b, 1);
    b
}

fn sample_200_truncated() -> Vec<u8> {
    let mut b = Vec::new();
    b.extend_from_slice(b"version 2.00\n\x0c\x00\x24\x0c");
    put_u32(&mut b, 3);
    put_u32(&mut b, 1);
    for i in 0..3 {
        truncated_vertex(&mut b, i);
    }
    faces(&mut b, 1);
    b
}

fn sample_300(minor: u8, truncated: bool) -> Vec<u8> {
    let mut b = Vec::new();
    b.extend_from_slice(b"version 3.0");
    b.push(minor);
    b.extend_from_slice(b"\n\x10\x00");
    b.push(if truncated { 36 } else { 40 });
    b.extend_from_slice(b"\x0c\x04\x00");
    put_u16(&mut b, 3);
    put_u32(&mut b, 6);
    put_u32(&mut b, 2);
    for i in 0..6 {
        if truncated {
            truncated_vertex(&mut b, i);
        } else {
            full_vertex(&mut b, i, i % 2 == 0);
        }
    }
    faces(&mut b, 2);
    put_u32(&mut b, 0);
    put_u32(&mut b, 1);
    put_u32(&mut b, 2);
    b
}

fn bone(out: &mut Vec<u8>, name_pos: u32, parent: u16) {
    put_u32(out, name_pos);
    put_u16(out, parent);
    put_u16(out, 0xFFFF);
    put_f32(out, 100.0);
    for k in 0..12 {
        put_f32(out, k as f32);
    }
}

fn subset(out: &mut Vec<u8>) {
    put_u32(out, 0);
    put_u32(out, 1);
    put_u32(out, 0);
    put_u32(out, 3);
    put_u32(out, 2);
    for k in 0..26u16 {
        put_u16(out, if k < 2 { k } else { 0xFFFF });
    }
}

/// The lists of a skinned mesh of three vertices, one face, two levels of
/// detail, two bones and one subset.
fn skinned_body(out: &mut Vec<u8>) {
    for i in 0..3 {
        full_vertex(out, i, i == 2);
    }
    for i in 0..3u8 {
        out.extend_from_slice(&[0, 1, 0, 0, 255 - i, i, 0, 0]);
    }
    faces(out, 1);
    put_u32(out, 0);
    put_u32(out, 1);
    bone(out, 0, 0xFFFF);
    bone(out, 5, 0);
    out.extend_from_slice(b"Root\0Arm\0");
    subset(out);
}

fn skinned_counts(out: &mut Vec<u8>, padding: u8) {
    put_u32(out, 3);
    put_u32(out, 1);
    put_u16(out, 2);
    put_u16(out, 2);
    put_u32(out, 9);
    put_u16(out, 1);
    out.push(1);
    out.push(padding);
}

fn sample_401(lod_type: u16, padding: u8) -> Vec<u8> {
    let mut b = Vec::new();
    b.extend_from_slice(b"version 4.01\n\x18\x00");
    put_u16(&mut b, lod_type);
    skinned_counts(&mut b, padding);
    skinned_body(&mut b);
    b
}

fn raw_matrix(out: &mut Vec<u8>, x: u32, y: u32) {
    put_u16(out, 1);
    put_u32(out, x);
    put_u32(out, y);
    for k in 0..x * y {
        put_f32(out, k as f32 - 0.5);
    }
}

fn quantized_matrix(out: &mut Vec<u8>, x: u32, y: u32) {
    put_u16(out, 2);
    put_u32(out, x);
    put_u32(out, y);
    put_f32(out, -1.0);
    put_f32(out, 3.0);
    for k in 0..x * y {
        put_u16(out, (k * 257) as u16);
    }
}

/// A mesh of revision 5.00; `shape` picks the matrices and the left-over
/// bytes of the two pose lengths.
fn sample_500(shape: u8) -> Vec<u8> {
    let mut b = Vec::new();
    b.extend_from_slice(b"version 5.00\n\x20\x00");
    put_u16(&mut b, 2);
    skinned_counts(&mut b, 0);
    put_u32(&mut b, 1);
    put_u32(&mut b, 1234);
    skinned_body(&mut b);
    // the block of facial animation
    put_u32(&mut b, 4);
    put_u32(&mut b, 6);
    b.extend_from_slice(&77u64.to_le_bytes());
    let (two, three) = match shape {
        0 => (8u32, 6u32),
        1 => (4, 0),
        _ => (0, 12),
    };
    put_u32(&mut b, two);
    put_u32(&mut b, three);
    b.extend_from_slice(b"Jaw\0");
    b.extend_from_slice(b"Smile\0");
    for m in 0..6u32 {
        match shape {
            0 => raw_matrix(&mut b, 2, m),
            1 => quantized_matrix(&mut b, m, 3),
            _ => {
                if m % 2 == 0 {
                    raw_matrix(&mut b, 1, 1)
                } else {
                    quantized_matrix(&mut b, 2, 2)
                }
            }
        }
    }
    for k in 0..two / 4 {
        put_u16(&mut b, k as u16);
        put_u16(&mut b, 9);
    }
    for k in 0..three / 6 {
        put_u16(&mut b, k as u16);
        put_u16(&mut b, 8);
        put_u16(&mut b, 7);
    }
    b
}

fn sample_100(name: &str) -> Vec<u8> {
    let mut text = String::new();
    text.push_str(name);
    text.push_str("\n2\n");
    for v in 0..6 {
        text.push_str(&format!("[{},{}.5,-{}][0,1,0][0.25, 0.75 ,0]", v, v, v));
    }
    text.into_bytes()
}

fn load_mesh(data: &[u8]) -> Result<VersionedMesh, Error> {
    read_versioned(&mut Cursor::new(data))
}

fn get_mesh_id(mesh: VersionedMesh) -> u16 {
    match mesh {
        VersionedMesh::Version1(mesh) => match mesh.header.revision {
            Revision1::Version100 => 100,
            Revision1::Version101 => 101,
        },
        VersionedMesh::Version2(mesh) => match mesh.header.revision {
            Revision2::Version200 => 200,
        },
        VersionedMesh::Version3(mesh) => match mesh.header.revision {
            Revision3::Version300 => 300,
            Revision3::Version301 => 301,
        },
        VersionedMesh::Version4(mesh) => match mesh.header.revision {
            Revision4::Version400 => 400,
            Revision4::Version401 => 401,
        },
        VersionedMesh::Version5(mesh) => match mesh.header.revision {
            Revision5::Version500 => 500,
        },
    }
}

fn round_trip2(rbuf: Vec<u8>) {
    let mut wbuf = Vec::new();
    let mut cursor = Cursor::new(&rbuf);
    read2(&mut cursor).unwrap().write_le(&mut wbuf);
    assert_eq!(cursor.position(), rbuf.len() as u64);
    assert_eq!(rbuf, wbuf);
}

fn round_trip3(rbuf: Vec<u8>) {
    let mut wbuf = Vec::new();
    read3(&mut Cursor::new(&rbuf)).unwrap().write_le(&mut wbuf);
    assert_eq!(rbuf, wbuf);
}

fn round_trip4(rbuf: Vec<u8>) {
    let mut wbuf = Vec::new();
    read4(&mut Cursor::new(&rbuf)).unwrap().write_le(&mut wbuf);
    assert_eq!(rbuf, wbuf);
}

fn round_trip5(rbuf: Vec<u8>) {
    let mut wbuf = Vec::new();
    read5(&mut Cursor::new(&rbuf)).unwrap().write_le(&mut wbuf);
    assert_eq!(rbuf, wbuf);
}

#[test]
fn mesh_100() {
    assert_eq!(get_mesh_id(load_mesh(&sample_100("version 1.00")).unwrap()), 100);
}

#[test]
fn test_mesh_100() {
    match load_mesh(&sample_100("version 1.00")).unwrap() {
        VersionedMesh::Version1(_) => (),
        _ => panic!(),
    }
}

#[test]
fn mesh_101() {
    assert_eq!(get_mesh_id(load_mesh(&sample_100("version 1.01")).unwrap()), 101);
}

#[test]
fn mesh_200() {
    assert_eq!(get_mesh_id(load_mesh(&sample_200(3, 1)).unwrap()), 200)
}

#[test]
fn test_mesh_200() {
    match load_mesh(&sample_200_truncated()).unwrap() {
        VersionedMesh::Version2(_) => (),
        _ => panic!(),
    }
}

#[test]
fn roundtrip_200() {
    round_trip2(sample_200(3, 1));
    round_trip2(sample_200_truncated());
}

#[test]
fn mesh_300() {
    assert_eq!(get_mesh_id(load_mesh(&sample_300(b'0', false)).unwrap()), 300);
}

#[test]
fn test_mesh_300() {
    match load_mesh(&sample_300(b'0', true)).unwrap() {
        VersionedMesh::Version3(_) => (),
        _ => panic!(),
    }
}

#[test]
fn roundtrip_300() {
    round_trip3(sample_300(b'0', false));
}

#[test]
fn mesh_301() {
    assert_eq!(get_mesh_id(load_mesh(&sample_300(b'1', true)).unwrap()), 301)
}

#[test]
fn test_mesh_301() {
    match load_mesh(&sample_300(b'1', false)).unwrap() {
        VersionedMesh::Version3(_) => (),
        _ => panic!(),
    }
}

#[test]
fn roundtrip_301() {
    round_trip3(sample_300(b'1', true));
}

#[test]
fn mesh_401() {
    assert_eq!(get_mesh_id(load_mesh(&sample_401(4, 0)).unwrap()), 401)
}

#[test]
fn test_mesh_401() {
    match load_mesh(&sample_401(4, 0)).unwrap() {
        VersionedMesh::Version4(_) => (),
        _ => panic!(),
    }
}

#[test]
fn roundtrip_401() {
    round_trip4(sample_401(4, 0));
}

#[test]
fn mesh_401_random_padding() {
    assert_eq!(get_mesh_id(load_mesh(&sample_401(3, 0xa7)).unwrap()), 401)
}

#[test]
fn test_mesh_401_random_padding() {
    match load_mesh(&sample_401(3, 0xa7)).unwrap() {
        VersionedMesh::Version4(_) => (),
        _ => panic!(),
    }
}

#[test]
fn roundtrip_401_random_padding() {
    round_trip4(sample_401(3, 0xa7));
}

#[test]
fn mesh_500() {
    assert_eq!(get_mesh_id(load_mesh(&sample_500(0)).unwrap()), 500)
}

#[test]
fn test_mesh_500() {
    match load_mesh(&sample_500(0)).unwrap() {
        VersionedMesh::Version5(_) => (),
        _ => panic!(),
    }
}

#[test]
fn roundtrip_500() {
    round_trip5(sample_500(0));
}

#[test]
fn mesh_500_alt1() {
    assert_eq!(get_mesh_id(load_mesh(&sample_500(1)).unwrap()), 500)
}

#[test]
fn test_mesh_500_alt1() {
    match load_mesh(&sample_500(1)).unwrap() {
        VersionedMesh::Version5(_) => (),
        _ => panic!(),
    }
}

#[test]
fn roundtrip_500_alt1() {
    round_trip5(sample_500(1));
}

#[test]
fn mesh_500_alt2() {
    assert_eq!(get_mesh_id(load_mesh(&sample_500(2)).unwrap()), 500)
}

#[test]
fn test_mesh_500_alt2() {
    match load_mesh(&sample_500(2)).unwrap() {
        VersionedMesh::Version5(_) => (),
        _ => panic!(),
    }
}

#[test]
fn roundtrip_500_alt2() {
    round_trip5(sample_500(2));
}

#[test]
fn three_vertices_and_one_face() {
    let data = sample_200(3, 1);
    let mesh: Mesh2 = read2(&mut Cursor::new(&data)).unwrap();
    assert_eq!(mesh.header.sizeof_vertex, SizeOfVertex2::Full);
    assert_eq!(mesh.header.vertex_count, 3);
    assert_eq!(mesh.header.face_count, 1);
    assert_eq!(mesh.vertices.len(), 3);
    assert_eq!(mesh.vertices_truncated.len(), 0);
    assert_eq!(mesh.faces.len(), 1);
    let face = mesh.faces[0];
    assert!(face.0 .0 < 3 && face.1 .0 < 3 && face.2 .0 < 3);
    assert_eq!(mesh.vertices[1].pos[0], 2.0f32.to_bits());
    assert_eq!(f32::from_bits(mesh.vertices[2].tex[1]), 5.75);
    assert_eq!(mesh.vertices[0].tangent, [0, 127, -127, 127]);
    assert_eq!(mesh.vertices[2].color, [2, 2, 3, 255]);
}

#[test]
fn a_second_face_that_is_not_there() {
    // the header announces two faces, the file holds one
    let data = sample_200(3, 2);
    let mut cursor = Cursor::new(&data);
    assert_eq!(read2(&mut cursor), Err(Error::BinRead(BinError::UnexpectedEof)));
    assert_eq!(cursor.position(), 0);
}

#[test]
fn a_mesh_cut_by_one_byte() {
    for sample in [
        sample_200(3, 1),
        sample_200_truncated(),
        sample_300(b'1', false),
        sample_401(0, 0),
        sample_500(0),
        sample_500(1),
        sample_500(2),
    ] {
        let cut = &sample[..sample.len() - 1];
        assert_eq!(load_mesh(cut), Err(Error::BinRead(BinError::UnexpectedEof)));
        for k in 12..sample.len() {
            assert_eq!(load_mesh(&sample[..k]), Err(Error::BinRead(BinError::UnexpectedEof)));
        }
        assert!(load_mesh(&sample).is_ok());
    }
}

#[test]
fn bytes_behind_the_mesh_are_left() {
    let mut data = sample_300(b'0', false);
    let len = data.len();
    data.extend_from_slice(b"trailer");
    let mut cursor = Cursor::new(&data);
    let mesh = read3(&mut cursor).unwrap();
    assert_eq!(cursor.position(), len as u64);
    let mut out = Vec::new();
    mesh.write_le(&mut out);
    assert_eq!(out, &data[..len]);
}

#[test]
fn reading_starts_at_the_position() {
    let mut data = b"junk".to_vec();
    data.extend_from_slice(&sample_401(1, 9));
    let mut cursor = Cursor::new(&data);
    cursor.set_position(4);
    let mesh = read_400(&mut cursor).unwrap();
    assert_eq!(cursor.position(), data.len() as u64);
    assert_eq!(mesh.header.lod_type, LodType4::Unknown);
    assert_eq!(mesh.header._padding, 9);
}

#[test]
fn short_and_unknown_prefixes() {
    assert_eq!(load_mesh(b"version 2.0"), Err(Error::Header));
    assert_eq!(load_mesh(b""), Err(Error::Header));
    assert_eq!(
        load_mesh(b"version 6.00\n and more"),
        Err(Error::UnknownVersion(b"version 6.00".to_vec()))
    );
    assert_eq!(
        load_mesh(b"Version 2.00\n\x0c\x00\x28\x0c"),
        Err(Error::UnknownVersion(b"Version 2.00".to_vec()))
    );
    assert_eq!(
        load_mesh(b"version 2.01 has no decoder"),
        Err(Error::UnknownVersion(b"version 2.01".to_vec()))
    );
}

#[test]
fn wrong_constants_are_bad_magic() {
    let mut data = sample_200(3, 1);
    data[13] = 0x0d;
    assert_eq!(
        load_mesh(&data),
        Err(Error::BinRead(BinError::BadMagic { pos: 12, found: vec![0x0a, 0x0d, 0x00] }))
    );
    let mut data = sample_200(3, 1);
    data[15] = 38;
    assert_eq!(
        load_mesh(&data),
        Err(Error::BinRead(BinError::BadMagic { pos: 15, found: vec![38] }))
    );
    let mut data = sample_300(b'0', false);
    data[17] = 5;
    assert_eq!(
        read3(&mut Cursor::new(&data)),
        Err(Error::BinRead(BinError::BadMagic { pos: 16, found: vec![0x0c, 5, 0] }))
    );
    let mut data = sample_300(b'0', false);
    data[11] = b'2';
    assert_eq!(
        read3(&mut Cursor::new(&data)),
        Err(Error::BinRead(BinError::BadMagic { pos: 8, found: b"3.02".to_vec() }))
    );
}

#[test]
fn unknown_numbers_match_no_variant() {
    assert_eq!(
        load_mesh(&sample_401(5, 0)),
        Err(Error::BinRead(BinError::NoVariantMatch { pos: 15 }))
    );
    let mut data = sample_500(0);
    data[37] = 2;
    assert_eq!(load_mesh(&data), Err(Error::BinRead(BinError::NoVariantMatch { pos: 37 })));
}

#[test]
fn an_unknown_matrix_tag_is_bad_magic() {
    let sample = sample_500(2);
    let body_end = 45 + 3 * 40 + 3 * 8 + 12 + 8 + 120 + 9 + 72;
    let first_matrix = body_end + 24 + 4 + 6;
    assert_eq!(&sample[first_matrix..first_matrix + 2], &[1, 0]);
    let mut data = sample.clone();
    data[first_matrix] = 3;
    assert_eq!(
        load_mesh(&data),
        Err(Error::BinRead(BinError::BadMagic { pos: first_matrix as u64, found: vec![3, 0] }))
    );
}

#[test]
fn matrices_raw_and_quantized() {
    let mesh = read5(&mut Cursor::new(&sample_500(2))).unwrap();
    assert_eq!(mesh.header.facs_format, FacsFormat5::Format1);
    assert_eq!(mesh.header.sizeof_facs, 1234);
    assert_eq!(mesh.facs.quantized_transforms_len, 77);
    assert_eq!(mesh.facs.face_bone_names, b"Jaw\0");
    assert_eq!(mesh.facs.face_control_names, b"Smile\0");
    assert_eq!(
        mesh.facs.quantized_transforms.px,
        QuantizedMatrix5::Raw { x: 1, y: 1, matrix: vec![(-0.5f32).to_bits()] }
    );
    assert_eq!(
        mesh.facs.quantized_transforms.py,
        QuantizedMatrix5::Quantized {
            x: 2,
            y: 2,
            lerp0: (-1.0f32).to_bits(),
            lerp1: 3.0f32.to_bits(),
            matrix: vec![0, 257, 514, 771],
        }
    );
    assert_eq!(mesh.facs.two_pose_correctives.len(), 0);
    assert_eq!(mesh.facs.three_pose_correctives.len(), 2);
    assert_eq!(mesh.facs.three_pose_correctives[1].0 .0, 1);
}

#[test]
fn pose_lengths_with_left_over_bytes() {
    // lengths of 7 and 11 bytes hold one pose each; the lengths themselves
    // are kept as they are
    let mut data = sample_500(0);
    let body_end = 45 + 3 * 40 + 3 * 8 + 12 + 8 + 120 + 9 + 72;
    data[body_end + 16..body_end + 20].copy_from_slice(&7u32.to_le_bytes());
    data[body_end + 20..body_end + 24].copy_from_slice(&11u32.to_le_bytes());
    data.truncate(data.len() - 4);
    let mesh = read5(&mut Cursor::new(&data)).unwrap();
    assert_eq!(mesh.facs.two_pose_correctives.len(), 1);
    assert_eq!(mesh.facs.three_pose_correctives.len(), 1);
    let mut out = Vec::new();
    mesh.write_le(&mut out);
    assert_eq!(out, data);
}

#[test]
fn a_matrix_larger_than_the_file() {
    let mut data = sample_500(0);
    let body_end = 45 + 3 * 40 + 3 * 8 + 12 + 8 + 120 + 9 + 72;
    let first_matrix = body_end + 24 + 4 + 6;
    data[first_matrix + 2..first_matrix + 6].copy_from_slice(&0xFFFF_FFFFu32.to_le_bytes());
    data[first_matrix + 6..first_matrix + 10].copy_from_slice(&0xFFFF_FFFFu32.to_le_bytes());
    assert_eq!(load_mesh(&data), Err(Error::BinRead(BinError::UnexpectedEof)));
}

#[test]
fn a_count_larger_than_the_file() {
    let mut data = sample_401(0, 0);
    data[17..21].copy_from_slice(&0xFFFF_FFFFu32.to_le_bytes());
    assert_eq!(load_mesh(&data), Err(Error::BinRead(BinError::UnexpectedEof)));
}

#[test]
fn envelopes_only_with_bones() {
    let mesh = read4(&mut Cursor::new(&sample_401(2, 0))).unwrap();
    assert_eq!(mesh.header.lod_type, LodType4::RbxSimplifier);
    assert_eq!(mesh.envelopes.len(), 3);
    assert_eq!(mesh.envelopes[2].weights, [253, 2, 0, 0]);
    assert_eq!(mesh.bones.len(), 2);
    assert_eq!(mesh.bones[0].parent.get(), None);
    assert_eq!(mesh.bones[1].parent.get(), Some(0));
    assert_eq!(mesh.bones[1].bone_name_pos, 5);
    assert_eq!(f32::from_bits(mesh.bones[1].cframe.z), 11.0);
    assert_eq!(mesh.bone_names, b"Root\0Arm\0");
    assert_eq!(mesh.subsets[0].bones[1].get(), Some(1));
    assert_eq!(mesh.subsets[0].bones[2].get(), None);
    assert_eq!(mesh.lods.len(), 2);

    // without bones the file holds no envelopes
    let mut b = Vec::new();
    b.extend_from_slice(b"version 4.00\n\x18\x00");
    put_u16(&mut b, 0);
    put_u32(&mut b, 2);
    put_u32(&mut b, 0);
    put_u16(&mut b, 0);
    put_u16(&mut b, 0);
    put_u32(&mut b, 0);
    put_u16(&mut b, 0);
    b.push(0);
    b.push(0);
    full_vertex(&mut b, 0, false);
    full_vertex(&mut b, 1, false);
    let mesh = read4(&mut Cursor::new(&b)).unwrap();
    assert_eq!(mesh.header.revision, Revision4::Version400);
    assert_eq!(mesh.header.lod_type, LodType4::NoLod);
    assert_eq!(mesh.vertices.len(), 2);
    assert_eq!(mesh.envelopes.len(), 0);
    round_trip4(b);
}

#[test]
fn bone_ids() {
    assert_eq!(BoneId4::new(None).get(), None);
    assert_eq!(BoneId4::new(Some(0)).get(), Some(0));
    assert_eq!(BoneId4::new(Some(0xFFFE)).get(), Some(0xFFFE));
    assert_eq!(BoneId4::new(Some(0xFFFF)).get(), None);
    assert_eq!(BoneId4::new(None), BoneId4::new(Some(0xFFFF)));
}

#[test]
fn the_sentinel_tangent_is_replaced() {
    assert_eq!(DEFAULT_VERTEX_TANGENT, [0, 0, -128, 127]);
    let data = sample_200(3, 1);
    let raw = read2(&mut Cursor::new(&data)).unwrap();
    let fixed = read_200(&mut Cursor::new(&data)).unwrap();
    assert_eq!(raw.vertices[1].tangent, [-128, -128, -128, -128]);
    assert_eq!(fixed.vertices[1].tangent, [0, 0, -128, 127]);
    assert_eq!(fixed.vertices[0].tangent, raw.vertices[0].tangent);
    assert_eq!(fixed.vertices[2], raw.vertices[2]);
    assert_eq!(fixed.faces, raw.faces);
    let mut again = raw.clone();
    fix2(&mut again);
    assert_eq!(again, fixed);

    let mut truncated = read2(&mut Cursor::new(&sample_200_truncated())).unwrap();
    fix2(&mut truncated);
    assert_eq!(truncated.vertices_truncated[0].tangent, [0, 0, -128, 127]);

    match load_mesh(&sample_401(0, 0)).unwrap() {
        VersionedMesh::Version4(mesh) => {
            assert_eq!(mesh.vertices[2].tangent, [0, 0, -128, 127]);
            assert_eq!(mesh.vertices[0].tangent, [0, 127, -127, 127]);
        }
        _ => panic!(),
    }
}

#[test]
fn truncating_and_filling() {
    let v = Vertex2 {
        pos: [1, 2, 3],
        norm: [4, 5, 6],
        tex: [7, 8],
        tangent: [-1, 0, 1, 127],
        color: [9, 8, 7, 6],
    };
    let t: Vertex2Truncated = v.truncate();
    let w = t.fill_color([1, 1, 1, 1]);
    assert_eq!(w.pos, v.pos);
    assert_eq!(w.norm, v.norm);
    assert_eq!(w.tex, v.tex);
    assert_eq!(w.tangent, v.tangent);
    assert_eq!(w.color, [1, 1, 1, 1]);
    assert_eq!(t.fill_color(v.color), v);
    assert_eq!(w.truncate(), t);
}

#[test]
fn one_view_of_vertices_and_faces() {
    assert_eq!(DEFAULT_VERTEX_COLOR, [255, 255, 255, 255]);
    let mesh = load_mesh(&sample_200_truncated()).unwrap();
    let vertices = mesh.vertices().unwrap();
    assert_eq!(vertices.len(), 3);
    assert_eq!(vertices[1].color, [255, 255, 255, 255]);
    assert_eq!(vertices[1].pos[2], (-15.0f32).to_bits());
    assert_eq!(vertices[1].tangent, [0, 0, -128, 127]);
    assert_eq!(mesh.faces().len(), 1);

    let mesh = load_mesh(&sample_500(1)).unwrap();
    assert_eq!(mesh.vertices().unwrap().len(), 3);
    assert_eq!(mesh.faces()[0].2 .0, 2);

    let mesh = load_mesh(&sample_100("version 1.01")).unwrap();
    assert_eq!(mesh.vertices(), None);
    let faces = mesh.faces();
    assert_eq!(faces.len(), 2);
    assert_eq!((faces[1].0 .0, faces[1].1 .0, faces[1].2 .0), (3, 4, 5));
}

#[test]
fn the_text_revision_keeps_its_numbers_as_text() {
    let data = sample_100("version 1.00");
    let mut cursor = Cursor::new(&data);
    let mesh = read1(&mut cursor).unwrap();
    assert_eq!(cursor.position(), data.len() as u64);
    assert_eq!(mesh.header.revision, Revision1::Version100);
    assert_eq!(mesh.header.face_count, 2);
    assert_eq!(mesh.vertices.len(), 6);
    assert_eq!(mesh.vertices[3].pos, ["3".to_string(), "3.5".to_string(), "-3".to_string()]);
    assert_eq!(mesh.vertices[3].norm, ["0".to_string(), "1".to_string(), "0".to_string()]);
    assert_eq!(
        mesh.vertices[5].tex,
        ["0.25".to_string(), " 0.75 ".to_string(), "0".to_string()]
    );
    assert_eq!(mesh.vertices[3].pos[1].trim().parse::<f32>().unwrap() * 0.5, 1.75);
    assert!(check1(mesh).is_ok());
}

#[test]
fn white_space_and_line_ends_of_the_text_revision() {
    let data = b" \tversion 1.01 \r\n +1 \r\n[1,2,3][4,5,6][7,8,9] [a,b,c][d,e,f][g,h,i]x[,,][,,][,,]\r\nmore".to_vec();
    let mut cursor = Cursor::new(&data);
    let mesh = read1(&mut cursor).unwrap();
    assert_eq!(cursor.position(), data.len() as u64 - 4);
    assert_eq!(mesh.header.revision, Revision1::Version101);
    assert_eq!(mesh.header.face_count, 1);
    assert_eq!(mesh.vertices.len(), 3);
    assert_eq!(mesh.vertices[1].tex[2], "i");
    assert_eq!(mesh.vertices[2].pos[0], "");
    assert_eq!(check1(mesh.clone()), Ok(mesh));
}

#[test]
fn failures_of_the_text_revision() {
    let read = |text: &[u8]| read1(&mut Cursor::new(text));
    assert_eq!(read(b""), Err(Error::UnexpectedEof));
    assert_eq!(read(b"version 1.00"), Err(Error::UnexpectedEof));
    assert_eq!(read(b"version 1.00\n3\n"), Err(Error::UnexpectedEof));
    assert_eq!(read(b"version 1.02\n3\n[1,2,3][1,2,3][1,2,3]"), Err(Error::Header));
    assert_eq!(read(b"version1.00\n3\n"), Err(Error::Header));
    assert_eq!(read(b"version 1.00\n\n"), Err(Error::ParseIntError));
    assert_eq!(read(b"version 1.00\n-1\n"), Err(Error::ParseIntError));
    assert_eq!(read(b"version 1.00\n1 2\n"), Err(Error::ParseIntError));
    assert_eq!(read(b"version 1.00\n4294967296\n"), Err(Error::ParseIntError));
    assert_eq!(read(b"version 1.00\n0x10\n"), Err(Error::ParseIntError));
    assert_eq!(read(b"version 1.00\n4294967295\n\n").unwrap().header.face_count, 4294967295);
    assert_eq!(read(b"version 1.00\n007\nnothing").unwrap().vertices.len(), 0);
    assert_eq!(read(b"version 1.00\n1\n[\xff,2,3][1,2,3][1,2,3]"), Err(Error::InvalidData));
    assert_eq!(read(b"\xc3\nversion 1.00\n"), Err(Error::InvalidData));

    // one vertex for one face: the counts disagree
    let mesh = read(b"version 1.00\n1\n[1,2,3][1,2,3][1,2,3]").unwrap();
    assert_eq!(check1(mesh), Err(Error::VertexCount));
    assert_eq!(
        load_mesh(b"version 1.00\n1\n[1,2,3][1,2,3][1,2,3]"),
        Err(Error::VertexCount)
    );
    assert_eq!(load_mesh(b"version 1.00\nmany\n"), Err(Error::ParseIntError));
}

#[test]
fn matches_that_are_no_vertices() {
    let text = |s: &str| Some(s.to_string());
    let vertex: Vec<Option<String>> =
        ["whole", "1", "2", "3", "4", "5", "6", "7", "8", "9"].iter().map(|s| text(s)).collect();
    let read = vertex_from_groups(&vertex).unwrap();
    assert_eq!(read.pos, ["1".to_string(), "2".to_string(), "3".to_string()]);
    assert_eq!(read.norm, ["4".to_string(), "5".to_string(), "6".to_string()]);
    assert_eq!(read.tex, ["7".to_string(), "8".to_string(), "9".to_string()]);
    assert_eq!(vertices_from_captures(&vec![vertex.clone(), vertex.clone()]).unwrap().len(), 2);
    assert_eq!(vertices_from_captures(&vec![]), Ok(vec![]));

    let mut short = vertex.clone();
    short.pop();
    assert_eq!(vertex_from_groups(&short), None);
    assert_eq!(vertices_from_captures(&vec![vertex.clone(), short]), Err(Error::Regex));
    let mut long = vertex.clone();
    long.push(text("10"));
    assert_eq!(vertices_from_captures(&vec![long]), Err(Error::Regex));
    let mut gap = vertex.clone();
    gap[4] = None;
    assert_eq!(vertices_from_captures(&vec![gap]), Err(Error::Regex));
    // the whole match is not looked at
    let mut whole = vertex.clone();
    whole[0] = None;
    assert!(vertex_from_groups(&whole).is_some());
}

#[test]
fn lines() {
    let data = b"first\r\nsecond\n\n\rfourth\r\r\nlast";
    let mut lines = LineMachine::new(data, 0);
    assert_eq!(lines.read_line(), Ok("first".to_string()));
    assert_eq!(lines.position(), 7);
    assert_eq!(lines.read_line(), Ok("second".to_string()));
    assert_eq!(lines.read_line(), Ok("".to_string()));
    assert_eq!(lines.read_line(), Ok("\rfourth\r".to_string()));
    assert_eq!(lines.read_line(), Ok("last".to_string()));
    assert_eq!(lines.position(), data.len());
    assert_eq!(lines.read_line(), Err(Error::UnexpectedEof));
    assert_eq!(lines.read_line(), Err(Error::UnexpectedEof));

    let mut lines = LineMachine::new(b"a\xffb\nnext\r", 0);
    assert_eq!(lines.read_line(), Err(Error::InvalidData));
    assert_eq!(lines.read_line(), Ok("next\r".to_string()));

    let mut lines = LineMachine::new(b"one\ntwo\n", 4);
    assert_eq!(lines.read_line(), Ok("two".to_string()));
    assert_eq!(lines.read_line(), Err(Error::UnexpectedEof));
    let mut lines = LineMachine::new("gr\u{fc}n\u{2003}\n".as_bytes(), 0);
    assert_eq!(lines.read_line(), Ok("gr\u{fc}n\u{2003}".to_string()));
}

#[test]
fn the_readers_of_each_revision() {
    let text = sample_100("\u{2003}version 1.00\u{a0}");
    let mesh = read_100(&mut Cursor::new(&text)).unwrap();
    assert_eq!(mesh.header.revision, Revision1::Version100);
    let mut cursor = Cursor::new(b"version 1.01\n2\n[1,2,3][1,2,3][1,2,3]");
    assert_eq!(read_101(&mut cursor), Err(Error::VertexCount));
    assert_eq!(cursor.position(), 0);
    let fixed = read_300(&mut Cursor::new(&sample_300(b'1', true))).unwrap();
    assert_eq!(fixed.vertices_truncated[5].tangent, DEFAULT_VERTEX_TANGENT);
    let fixed = read_500(&mut Cursor::new(&sample_500(1))).unwrap();
    assert_eq!(fixed.vertices[2].tangent, DEFAULT_VERTEX_TANGENT);
    assert_eq!(fixed.vertices[1].tangent, [0, 127, -127, 127]);
    assert_eq!(
        read_500(&mut Cursor::new(&sample_401(0, 0))),
        Err(Error::BinRead(BinError::BadMagic { pos: 8, found: b"4.01".to_vec() }))
    );
}

#[test]
fn the_text_revision_is_written_as_text() {
    let data = b" version 1.01 \r\n +2 \r\n[1, 2 ,3][4,5,6][7,8,9] [a,b,c][d,e,f][g,h,i]x[,,][,,][,,]\n";
    let mesh = read1(&mut Cursor::new(data)).unwrap();
    let mut out = b"> ".to_vec();
    mesh.write_le(&mut out);
    assert_eq!(
        String::from_utf8(out).unwrap(),
        "> version 1.01\n2\n[1, 2 ,3][4,5,6][7,8,9][a,b,c][d,e,f][g,h,i][,,][,,][,,]"
    );
    let mut again = Vec::new();
    mesh.write_le(&mut again);
    assert_eq!(read1(&mut Cursor::new(&again)), Ok(mesh));

    for count in [0u32, 7, 10, 99, 100, 4294967295] {
        let text = format!("version 1.00\n{count}\n");
        let mesh = read1(&mut Cursor::new(format!("{text}\n").as_bytes())).unwrap();
        let mut out = Vec::new();
        mesh.write_le(&mut out);
        assert_eq!(out, text.as_bytes());
    }
    let mesh = read1(&mut Cursor::new("version 1.00\n1\n[\u{e9},2,3][4,5,6][7,8,9]".as_bytes()));
    let mut out = Vec::new();
    mesh.unwrap().write_le(&mut out);
    assert_eq!(out, "version 1.00\n1\n[\u{e9},2,3][4,5,6][7,8,9]".as_bytes());
}

#[test]
fn a_mesh_of_any_revision_is_written_in_its_layout() {
    // a file without the sentinel tangent is written as it was read
    let mut b = Vec::new();
    b.extend_from_slice(b"version 2.00\n\x0c\x00\x28\x0c");
    put_u32(&mut b, 2);
    put_u32(&mut b, 0);
    full_vertex(&mut b, 0, false);
    full_vertex(&mut b, 1, false);
    let mesh = load_mesh(&b).unwrap();
    let mut out = Vec::new();
    mesh.write_le(&mut out);
    assert_eq!(out, b);
    // where the tangent was fixed up, the default tangent is written
    let sample = sample_500(0);
    let mesh = load_mesh(&sample).unwrap();
    let mut out = Vec::new();
    mesh.write_le(&mut out);
    assert_eq!(out.len(), sample.len());
    assert_eq!(load_mesh(&out), Ok(mesh));
    let text = load_mesh(&sample_100("version 1.00")).unwrap();
    let mut out = Vec::new();
    text.write_le(&mut out);
    assert_eq!(load_mesh(&out), Ok(text));
}
