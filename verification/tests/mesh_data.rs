use rbx_mesh::mesh_data::{
    read_header, read_state_machine, reversible_obfuscate, write_state_machine, CustomError,
    Error, FacesStateMachineError, Header, HeaderVersion, MeshData, NormalId, NormalId2,
    NormalId5, NormalIDError, Obfuscator, QuantizedF32x3, WriteMeshDataError, CSGK, CSGMDL,
    OBFUSCATION_NOISE_CYCLE_XOR,
};
use rbx_mesh::read_mesh_data_versioned;
use rbx_mesh::stream::Cursor;

fn put_f32(out: &mut Vec<u8>, x: f32) {
    out.extend_from_slice(&x.to_le_bytes());
}

fn put_u16(out: &mut Vec<u8>, x: u16) {
    out.extend_from_slice(&x.to_le_bytes());
}

fn put_u32(out: &mut Vec<u8>, x: u32) {
    out.extend_from_slice(&x.to_le_bytes());
}

/// The pad, put on by hand.
fn under_pad(clear: &[u8]) -> Vec<u8> {
    clear
        .iter()
        .enumerate()
        .map(|(i, b)| b ^ OBFUSCATION_NOISE_CYCLE_XOR[i % 31])
        .collect()
}

fn vertex(out: &mut Vec<u8>, seed: u32, normal_id: u32) {
    for k in 0..6 {
        put_f32(out, (seed * 10 + k) as f32);
    }
    out.extend_from_slice(&[1, 2, 3, seed as u8]);
    put_u32(out, normal_id);
    put_f32(out, 0.5);
    put_f32(out, 0.25);
    out.extend_from_slice(&[0; 16]);
    for k in 0..3 {
        put_f32(out, (k + 1) as f32 * 0.125);
    }
    out.extend_from_slice(&[0; 16]);
}

/// The clear bytes of a solid of revision 2 or 4 with four vertices and
/// two faces.
fn clear_solid(version: u32) -> Vec<u8> {
    let mut b = Vec::new();
    b.extend_from_slice(b"CSGMDL");
    put_u32(&mut b, version);
    for k in 0..32u8 {
        b.push(k.wrapping_mul(7));
    }
    put_u32(&mut b, 4);
    put_u32(&mut b, 84);
    for i in 0..4 {
        vertex(&mut b, i, 1 + i % 6);
    }
    put_u32(&mut b, 6);
    for k in 0..6 {
        put_u32(&mut b, k % 4);
    }
    if version == 4 {
        put_u32(&mut b, 3);
        put_u32(&mut b, 10);
        put_u32(&mut b, 20);
        put_u32(&mut b, 30);
    }
    b
}

/// A file of revision 5 with the given packing of indices and range
/// markers.
fn solid5(count: u32, packed: &[u8], markers: &[u8]) -> Vec<u8> {
    let mut b = under_pad(b"CSGMDL\x05\0\0\0");
    put_u16(&mut b, 2);
    for k in 0..6 {
        put_f32(&mut b, k as f32);
    }
    put_u16(&mut b, 3);
    put_u32(&mut b, 18);
    for raw in [0x7FFFu16, 0x0000, 0xFFFF, 0xFFFE, 0x8000, 0x7FFE, 1, 2, 3] {
        put_u16(&mut b, raw);
    }
    put_u16(&mut b, 1);
    b.extend_from_slice(&[10, 20, 30, 40]);
    put_u16(&mut b, 3);
    b.extend_from_slice(&[1, 6, 3]);
    put_u16(&mut b, 1);
    put_f32(&mut b, 0.5);
    put_f32(&mut b, 1.5);
    put_u16(&mut b, 1);
    put_u32(&mut b, 6);
    for raw in [0x8000u16, 0x8001, 0x7FFF] {
        put_u16(&mut b, raw);
    }
    put_u32(&mut b, count);
    put_u32(&mut b, packed.len() as u32);
    b.extend_from_slice(packed);
    b.extend_from_slice(markers);
    b
}

fn two_markers() -> Vec<u8> {
    let mut m = vec![2u8];
    put_u32(&mut m, 0);
    put_u32(&mut m, 5);
    m
}

fn three_markers(range_end: u32) -> Vec<u8> {
    let mut m = vec![3u8];
    put_u32(&mut m, 0);
    put_u32(&mut m, range_end);
    put_u32(&mut m, 99);
    m
}

const PACKED: [u8; 7] = [5, 3, 0x7f, 0x80, 0x01, 0x00, 0x40];

fn csgk() -> Vec<u8> {
    let mut b = b"CSGK".to_vec();
    b.extend_from_slice(b"0123456789abcdef0123456789ABCDEF");
    b
}

fn get_version(mesh_data: &MeshData) -> &str {
    match mesh_data {
        MeshData::CSGK(_) => "CSGK",
        MeshData::CSGMDL(CSGMDL::V2(_)) => "CSGMDL2",
        MeshData::CSGMDL(CSGMDL::V4(_)) => "CSGMDL4",
        MeshData::CSGMDL(CSGMDL::V5(_)) => "CSGMDL5",
    }
}

fn read_mesh_data(data: &[u8]) -> Result<MeshData, Error> {
    let mut cursor = Cursor::new(data);
    let mesh_data = read_mesh_data_versioned(&mut cursor)?;
    assert_eq!(cursor.position(), data.len() as u64);
    Ok(mesh_data)
}

fn dbg_mesh_data(mesh_data: MeshData, expected_version: &str) {
    assert_eq!(get_version(&mesh_data), expected_version);
    match mesh_data {
        MeshData::CSGK(_) => (),
        MeshData::CSGMDL(CSGMDL::V2(_)) => (),
        MeshData::CSGMDL(CSGMDL::V4(mesh_data4)) => {
            println!("==V4");
            println!("_unknown1={:?}", mesh_data4._unknown1_count);
            for (i, thing) in mesh_data4._unknown1_list.into_iter().enumerate() {
                println!("u6 row={i} list={thing:?}");
            }
        }
        MeshData::CSGMDL(CSGMDL::V5(mesh_data5)) => {
            println!("===V5===");
            println!("{:?}", mesh_data5);
        }
    }
}

#[test]
fn meshdata_385416572_2() {
    let mesh_data = read_mesh_data(&under_pad(&clear_solid(2))).unwrap();
    dbg_mesh_data(mesh_data, "CSGMDL2");
}

#[test]
fn meshdata_394453730_2() {
    let mut clear = clear_solid(2);
    // a face count that is no multiple of three holds one face less
    let at = clear.len() - 28;
    clear[at..at + 4].copy_from_slice(&5u32.to_le_bytes());
    clear.truncate(clear.len() - 12);
    let mesh_data = read_mesh_data(&under_pad(&clear)).unwrap();
    match &mesh_data {
        MeshData::CSGMDL(CSGMDL::V2(m)) => {
            assert_eq!(m.mesh.face_count, 5);
            assert_eq!(m.mesh.faces.len(), 1);
        }
        _ => panic!(),
    }
    dbg_mesh_data(mesh_data, "CSGMDL2");
}

#[test]
fn meshdata_5692112940_2() {
    let mut clear = b"CSGMDL".to_vec();
    put_u32(&mut clear, 2);
    clear.extend_from_slice(&[0xee; 32]);
    put_u32(&mut clear, 0);
    put_u32(&mut clear, 84);
    put_u32(&mut clear, 0);
    let mesh_data = read_mesh_data(&under_pad(&clear)).unwrap();
    dbg_mesh_data(mesh_data, "CSGMDL2");
}

#[test]
fn meshdata_4500696697_4() {
    let mesh_data = read_mesh_data(&under_pad(&clear_solid(4))).unwrap();
    dbg_mesh_data(mesh_data, "CSGMDL4");
}

#[test]
fn meshdata_15124417947_5() {
    let mesh_data = read_mesh_data(&solid5(5, &PACKED, &two_markers())).unwrap();
    dbg_mesh_data(mesh_data, "CSGMDL5");
}

#[test]
fn meshdata_14846974687_5() {
    let mesh_data = read_mesh_data(&solid5(5, &PACKED, &three_markers(3))).unwrap();
    dbg_mesh_data(mesh_data, "CSGMDL5");
}

#[test]
fn a_key() {
    let mesh_data = read_mesh_data(&csgk()).unwrap();
    assert_eq!(
        mesh_data,
        MeshData::CSGK(CSGK { uuid_ascii_hex: *b"0123456789abcdef0123456789ABCDEF" })
    );
    let mut out = vec![7u8];
    mesh_data.write_le(&mut out).unwrap();
    assert_eq!(&out[1..], &csgk()[..]);
}

#[test]
fn the_fields_of_a_solid() {
    match read_mesh_data(&under_pad(&clear_solid(4))).unwrap() {
        MeshData::CSGMDL(CSGMDL::V4(m)) => {
            let hash: rbx_mesh::mesh_data::csgmdl::Hash = m.hash;
            assert_eq!(hash.hash[3], 21);
            assert_eq!(hash._unknown[15], 217);
            assert_eq!(m.mesh.vertex_count, 4);
            assert_eq!(m.mesh.vertices.len(), 4);
            let v = m.mesh.vertices[2];
            assert_eq!(f32::from_bits(v.pos[1]), 21.0);
            assert_eq!(f32::from_bits(v.norm[2]), 25.0);
            assert_eq!(v.color, [1, 2, 3, 2]);
            assert_eq!(v.normal_id, NormalId2(NormalId::Back));
            assert_eq!(f32::from_bits(v.tex[1]), 0.25);
            assert_eq!(f32::from_bits(v.tangent[2]), 0.375);
            assert_eq!(m.mesh.face_count, 6);
            assert_eq!(m.mesh.faces.len(), 2);
            assert_eq!(m.mesh.faces[1][1].0, 0);
            assert_eq!(m._unknown1_count, 3);
            assert_eq!(m._unknown1_list, vec![10, 20, 30]);
        }
        _ => panic!(),
    }
}

#[test]
fn solids_are_written_as_they_were_read() {
    for version in [2, 4] {
        let file = under_pad(&clear_solid(version));
        let mesh_data = read_mesh_data(&file).unwrap();
        let mut out = Vec::new();
        mesh_data.write_le(&mut out).unwrap();
        assert_eq!(out, file);
        assert_ne!(out, clear_solid(version));
        assert_eq!(read_mesh_data(&out), Ok(mesh_data));
    }
}

#[test]
fn the_pad_follows_the_place_of_writing() {
    let mesh_data = read_mesh_data(&under_pad(&clear_solid(2))).unwrap();
    let mut out = vec![0u8; 5];
    mesh_data.write_le(&mut out).unwrap();
    let mut expected = vec![0u8; 5];
    expected.extend_from_slice(&clear_solid(2));
    let expected = under_pad(&expected);
    assert_eq!(&out[5..], &expected[5..]);
}

#[test]
fn revision_5_cannot_be_written() {
    let mesh_data = read_mesh_data(&solid5(5, &PACKED, &two_markers())).unwrap();
    let mut out = vec![1, 2, 3];
    assert_eq!(
        mesh_data.write_le(&mut out),
        Err(Error::Custom { pos: 0, err: CustomError::Write(WriteMeshDataError::CSGMDL5) })
    );
    assert_eq!(out, vec![1, 2, 3]);
}

#[test]
fn the_fields_of_revision_5() {
    match read_mesh_data(&solid5(5, &PACKED, &three_markers(3))).unwrap() {
        MeshData::CSGMDL(CSGMDL::V5(m)) => {
            assert_eq!(m.pos_count, 2);
            assert_eq!(m.positions, vec![[0f32.to_bits(), 1f32.to_bits(), 2f32.to_bits()], [
                3f32.to_bits(),
                4f32.to_bits(),
                5f32.to_bits()
            ]]);
            assert_eq!(m.normals_count, 3);
            assert_eq!(m.normals_len, 18);
            assert_eq!(m.normals[0], QuantizedF32x3([0, -32767, -32768]));
            assert_eq!(m.normals[1], QuantizedF32x3([32767, 1, -1]));
            assert_eq!(m.normals[2], QuantizedF32x3([-32766, -32765, -32764]));
            assert_eq!(m.colors, vec![[10, 20, 30, 40]]);
            assert_eq!(
                m.normal_ids,
                vec![
                    NormalId5(NormalId::Right),
                    NormalId5(NormalId::Front),
                    NormalId5(NormalId::Back)
                ]
            );
            assert_eq!(m.tex, vec![[0.5f32.to_bits(), 1.5f32.to_bits()]]);
            assert_eq!(m.tangents_len, 6);
            assert_eq!(m.tangents, vec![QuantizedF32x3([1, 2, 0])]);
            assert_eq!(m.faces.faces, vec![5, 8, 7]);
            assert_eq!(m.faces._unknown, vec![263, 199]);
        }
        _ => panic!(),
    }
    match read_mesh_data(&solid5(5, &PACKED, &two_markers())).unwrap() {
        MeshData::CSGMDL(CSGMDL::V5(m)) => {
            assert_eq!(m.faces.faces, vec![5, 8, 7, 263, 199]);
            assert_eq!(m.faces._unknown, vec![]);
        }
        _ => panic!(),
    }
    match read_mesh_data(&solid5(5, &PACKED, &three_markers(5))).unwrap() {
        MeshData::CSGMDL(CSGMDL::V5(m)) => {
            assert_eq!(m.faces.faces.len(), 5);
            assert_eq!(m.faces._unknown.len(), 0);
        }
        _ => panic!(),
    }
}

#[test]
fn quantized_boundaries() {
    let scale = 1.0f32 / 32767.0;
    let q = QuantizedF32x3::read([0x7FFF, 0x0000, -1]);
    assert_eq!(q, QuantizedF32x3([0, -32767, -32768]));
    assert_eq!(q.0[0] as f32 * scale, 0.0);
    assert_eq!(q.0[1] as f32 * scale, -1.0);
    assert!(q.0[2] as f32 * scale < -1.0);
    assert_eq!(QuantizedF32x3::read([-2, -32768, 0x7FFE]), QuantizedF32x3([32767, 1, -1]));
    assert_eq!(QuantizedF32x3([32767, 1, -1]).0[0] as f32 * scale, 1.0);
    assert_eq!(q.write(), [0x7FFF, 0x0000, -1]);
}

#[test]
fn failures_of_the_index_stream() {
    let faces = |count, packed: &[u8], markers: &[u8]| {
        read_mesh_data_versioned(&mut Cursor::new(&solid5(count, packed, markers)))
    };
    assert_eq!(
        faces(6, &PACKED, &two_markers()),
        Err(Error::Custom {
            pos: 0,
            err: CustomError::Faces(FacesStateMachineError::UnexpectedEOF)
        })
    );
    assert_eq!(
        faces(4, &PACKED, &two_markers()),
        Err(Error::Custom { pos: 0, err: CustomError::Faces(FacesStateMachineError::UnusedData) })
    );
    assert_eq!(
        faces(5, &PACKED[..6], &two_markers()),
        Err(Error::Custom {
            pos: 0,
            err: CustomError::Faces(FacesStateMachineError::UnexpectedEOF)
        })
    );
    let file = solid5(5, &PACKED, &three_markers(6));
    assert_eq!(
        read_mesh_data_versioned(&mut Cursor::new(&file)),
        Err(Error::Custom {
            pos: (file.len() - 8) as u64,
            err: CustomError::FacesRange { range_end: 6, len: 5 }
        })
    );
    let mut markers = two_markers();
    markers[0] = 4;
    let file = solid5(5, &PACKED, &markers);
    assert_eq!(
        read_mesh_data_versioned(&mut Cursor::new(&file)),
        Err(Error::BadMagic { pos: (file.len() - 9) as u64, found: vec![4] })
    );
    assert_eq!(faces(0, &[], &two_markers()).map(|m| get_version(&m).to_string()), Ok("CSGMDL5".to_string()));
}

#[test]
fn unpacking_indices() {
    assert_eq!(read_state_machine(&vec![], 0), Ok(vec![]));
    assert_eq!(read_state_machine(&vec![0], 1), Ok(vec![0]));
    assert_eq!(read_state_machine(&vec![63, 63], 2), Ok(vec![63, 126]));
    // 64 to 127 stand for -64 to -1, and the index wraps around 23 bits
    assert_eq!(read_state_machine(&vec![0x7f], 1), Ok(vec![0x7F_FFFF]));
    assert_eq!(read_state_machine(&vec![0x40], 1), Ok(vec![0x7F_FFC0]));
    assert_eq!(read_state_machine(&vec![100, 0x40], 2), Ok(vec![0x7F_FFE4, 0x7F_FFA4]));
    assert_eq!(read_state_machine(&vec![0x80, 0x00, 0x40], 1), Ok(vec![64]));
    assert_eq!(read_state_machine(&vec![0x81, 0x02, 0x03], 1), Ok(vec![0x01_0203]));
    assert_eq!(read_state_machine(&vec![0xff, 0xff, 0xff, 1], 2), Ok(vec![0x7F_FFFF, 0]));
    assert_eq!(read_state_machine(&vec![0xff, 0xff, 0xff, 0xff, 0xff, 0xff], 2), Ok(vec![0x7F_FFFF, 0x7F_FFFE]));
    assert_eq!(read_state_machine(&vec![], 1), Err(FacesStateMachineError::UnexpectedEOF));
    assert_eq!(read_state_machine(&vec![0x80, 1], 1), Err(FacesStateMachineError::UnexpectedEOF));
    assert_eq!(read_state_machine(&vec![1, 2], 1), Err(FacesStateMachineError::UnusedData));
    assert_eq!(read_state_machine(&vec![1], 0), Err(FacesStateMachineError::UnusedData));
}

#[test]
fn packing_indices() {
    assert_eq!(write_state_machine(&vec![]), Vec::<u8>::new());
    assert_eq!(write_state_machine(&vec![5, 8, 7, 263, 199]), PACKED.to_vec());
    assert_eq!(write_state_machine(&vec![63, 127, 63, 0x7F_FFFF]), vec![63, 0x80, 0, 64, 0x40, 0x40]);
    assert_eq!(write_state_machine(&vec![0x40_0000, 0]), vec![0xc0, 0, 0, 0xc0, 0, 0]);
    for indices in [
        vec![0u32, 0, 0],
        vec![5, 8, 7, 263, 199],
        vec![0x7F_FFFF, 0, 0x7F_FFFF, 0x40, 0x3F, 0x7F_FFBF, 0x7F_FFC0],
        vec![1, 64, 128, 64, 0, 65, 0x12_3456, 0x12_3455, 0x12_3416, 0x12_3415],
        (0..2000u32).map(|k| k.wrapping_mul(2654435761) % 0x80_0000).collect(),
    ] {
        let packed = write_state_machine(&indices);
        assert_eq!(read_state_machine(&packed, indices.len()), Ok(indices.clone()));
    }
    // what was unpacked from another packing is unpacked again from its own
    let odd = vec![0x80, 0, 1, 0x80, 0, 0];
    let indices = read_state_machine(&odd, 2).unwrap();
    assert_eq!(indices, vec![1, 1]);
    assert_eq!(write_state_machine(&indices), vec![1, 0]);
    assert_eq!(read_state_machine(&vec![1, 0], 2), Ok(indices));
    // indices above the limit are packed as what is left of them below it
    assert_eq!(write_state_machine(&vec![0x80_0005]), vec![5]);
}

#[test]
fn obfuscation_twice_is_nothing() {
    for offset in [0u64, 1, 30, 31, 32, 1000, u64::MAX] {
        let clear: Vec<u8> = (0..100u32).map(|k| (k * 37 % 256) as u8).collect();
        let mut buf = clear.clone();
        reversible_obfuscate(offset, &mut buf);
        assert_ne!(buf, clear);
        assert_eq!(buf[3], clear[3] ^ OBFUSCATION_NOISE_CYCLE_XOR[((offset % 31 + 3) % 31) as usize]);
        reversible_obfuscate(offset, &mut buf);
        assert_eq!(buf, clear);
    }
    let mut empty = Vec::new();
    reversible_obfuscate(5, &mut empty);
    assert_eq!(empty, Vec::<u8>::new());
    let mut name = b"CSGMDL\x02\0\0\0".to_vec();
    reversible_obfuscate(0, &mut name);
    assert_eq!(name, b"\x15\x7d\x29\x15\x75\x6c\x32\x04\x34\x69");
    assert_eq!(OBFUSCATION_NOISE_CYCLE_XOR.len(), 31);
    assert_eq!(OBFUSCATION_NOISE_CYCLE_XOR[15], 0);
}

#[test]
fn the_obfuscator_reads_at_the_true_position() {
    let file = under_pad(&clear_solid(2));
    let mut stream = Obfuscator::new(Cursor::new(&file));
    assert_eq!(stream.read(6), b"CSGMDL");
    assert_eq!(stream.read(4), [2, 0, 0, 0]);
    stream.seek(40);
    let expected = &clear_solid(2)[40..50];
    assert_eq!(stream.read(10), expected);
    stream.seek(file.len() - 2);
    assert_eq!(stream.read(10).len(), 2);
    assert_eq!(stream.read(10).len(), 0);
    let cursor = stream.into_inner();
    assert_eq!(cursor.position(), file.len() as u64);
}

#[test]
fn the_obfuscator_leaves_the_buffer_of_the_caller() {
    let clear = clear_solid(4);
    let mut sink = Obfuscator::new(Vec::new());
    assert_eq!(sink.write(&clear[..7]), 7);
    assert_eq!(sink.write(&clear[7..]), clear.len() - 7);
    assert_eq!(clear, clear_solid(4));
    assert_eq!(sink.into_inner(), under_pad(&clear));
}

#[test]
fn headers() {
    let read = |data: &[u8]| {
        let mut cursor = Cursor::new(data);
        let header = read_header(&mut cursor);
        (header, cursor.position())
    };
    assert_eq!(read(&under_pad(&clear_solid(2))), (Ok(Header::CSGMDL(HeaderVersion::CSGMDL2)), 10));
    assert_eq!(read(&under_pad(&clear_solid(4))), (Ok(Header::CSGMDL(HeaderVersion::CSGMDL4)), 10));
    assert_eq!(
        read(&solid5(0, &[], &two_markers())),
        (Ok(Header::CSGMDL(HeaderVersion::CSGMDL5)), 10)
    );
    assert_eq!(
        read(&csgk()),
        (Ok(Header::CSGK(CSGK { uuid_ascii_hex: *b"0123456789abcdef0123456789ABCDEF" })), 36)
    );
    assert_eq!(read(b"CSG"), (Err(Error::UnexpectedEof), 0));
    assert_eq!(read(b"CSGK0123456789abcdef"), (Err(Error::UnexpectedEof), 0));
    assert_eq!(read(&under_pad(b"CSGMD")), (Err(Error::UnexpectedEof), 0));
    assert_eq!(read(&under_pad(b"CSGMDL\x02\0")), (Err(Error::UnexpectedEof), 0));
    assert_eq!(
        read(b"CSGMDL\x02\0\0\0"),
        (Err(Error::BadMagic { pos: 0, found: b"CSGMDL".to_vec() }), 0)
    );
    assert_eq!(
        read(&under_pad(b"CSGMDL\x03\0\0\0")),
        (Err(Error::BadMagic { pos: 6, found: vec![0x33, 0x04, 0x34, 0x69] }), 0)
    );
}

#[test]
fn failures_of_a_solid() {
    // a dominant axis outside of 1 to 6
    let mut clear = clear_solid(2);
    let second_vertex = 50 + 84;
    clear[second_vertex + 28] = 7;
    assert_eq!(
        read_mesh_data(&under_pad(&clear)),
        Err(Error::Custom {
            pos: (second_vertex + 28) as u64,
            err: CustomError::NormalId(NormalIDError)
        })
    );
    clear[second_vertex + 28] = 0;
    assert!(matches!(read_mesh_data(&under_pad(&clear)), Err(Error::Custom { .. })));
    // the zeros before and behind a tangent
    let mut clear = clear_solid(2);
    clear[50 + 40 + 15] = 1;
    let mut found = vec![0u8; 16];
    found[15] = 1;
    assert_eq!(read_mesh_data(&under_pad(&clear)), Err(Error::BadMagic { pos: 90, found }));
    let mut clear = clear_solid(4);
    clear[50 + 3 * 84 + 68] = 0x80;
    assert!(matches!(
        read_mesh_data(&under_pad(&clear)),
        Err(Error::BadMagic { pos: 370, .. })
    ));
    // the width of a vertex
    let mut clear = clear_solid(2);
    clear[46] = 80;
    assert_eq!(
        read_mesh_data(&under_pad(&clear)),
        Err(Error::BadMagic { pos: 46, found: vec![80, 0, 0, 0] })
    );
    // a solid of revision 2 under the number 4 lacks the list that
    // revision 4 ends with
    let mut file = under_pad(&clear_solid(2));
    file[6] = 0x34;
    assert_eq!(read_mesh_data(&file), Err(Error::UnexpectedEof));
    assert_eq!(NormalId2::try_from(0), Err(NormalIDError));
    assert_eq!(NormalId2::try_from(7), Err(NormalIDError));
    assert_eq!(NormalId2::try_from(4), Ok(NormalId2(NormalId::Left)));
    assert_eq!(NormalId2(NormalId::Bottom).to_u32(), 5);
    assert_eq!(NormalId5::try_from(2), Ok(NormalId5(NormalId::Top)));
    assert_eq!(NormalId5::try_from(255), Err(NormalIDError));
    assert_eq!(NormalId5(NormalId::Front).to_u8(), 6);
}

#[test]
fn an_axis_of_revision_5_outside_its_range() {
    let mut file = solid5(5, &PACKED, &two_markers());
    let ids = 10 + 2 + 24 + 6 + 18 + 2 + 4 + 2;
    assert_eq!(&file[ids..ids + 3], &[1, 6, 3]);
    file[ids + 1] = 9;
    assert_eq!(
        read_mesh_data(&file),
        Err(Error::Custom { pos: (ids + 1) as u64, err: CustomError::NormalId(NormalIDError) })
    );
}

#[test]
fn a_solid_cut_by_one_byte() {
    for file in [
        csgk(),
        under_pad(&clear_solid(2)),
        under_pad(&clear_solid(4)),
        solid5(5, &PACKED, &two_markers()),
        solid5(5, &PACKED, &three_markers(2)),
    ] {
        for k in 0..file.len() {
            let mut cursor = Cursor::new(&file[..k]);
            assert_eq!(read_mesh_data_versioned(&mut cursor), Err(Error::UnexpectedEof));
            assert_eq!(cursor.position(), 0);
        }
        assert!(read_mesh_data(&file).is_ok());
    }
}
