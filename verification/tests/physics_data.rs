use rbx_mesh::physics_data::{
    Error, Mesh, PhysicsData, PhysicsInfo, VertexId, CSGK, CSGPHS, CSGPHS3,
};
use rbx_mesh::read_physics_data_versioned;
use rbx_mesh::stream::Cursor;

fn put_f32(out: &mut Vec<u8>, x: f32) {
    out.extend_from_slice(&x.to_le_bytes());
}

fn put_u32(out: &mut Vec<u8>, x: u32) {
    out.extend_from_slice(&x.to_le_bytes());
}

fn mesh(out: &mut Vec<u8>, vertices: u32, faces: u32) {
    put_u32(out, 16);
    out.extend_from_slice(&[0; 16]);
    put_u32(out, 16);
    out.extend_from_slice(&0x3F80_0000_0000_0000_0000_0000_0000_0000u128.to_le_bytes());
    put_u32(out, vertices * 3);
    put_u32(out, 4);
    for k in 0..vertices * 3 {
        put_f32(out, k as f32 + 0.5);
    }
    put_u32(out, faces * 3);
    for k in 0..faces * 3 {
        put_u32(out, k % vertices.max(1));
    }
}

fn info(out: &mut Vec<u8>) {
    put_f32(out, 8.0);
    for k in 0..3 {
        put_f32(out, k as f32);
    }
    for k in 0..6 {
        put_f32(out, 10.0 + k as f32);
    }
}

fn sample(number: u32) -> Vec<u8> {
    let mut b = b"CSGPHS".to_vec();
    put_u32(&mut b, number);
    match number {
        3 | 5 => {
            mesh(&mut b, 4, 2);
            mesh(&mut b, 3, 1);
            mesh(&mut b, 0, 0);
        }
        6 => {
            info(&mut b);
            mesh(&mut b, 8, 12);
        }
        _ => {
            b.push(3);
            info(&mut b);
            mesh(&mut b, 3, 1);
            mesh(&mut b, 5, 3);
        }
    }
    b
}

fn block() -> Vec<u8> {
    b"CSGPHS\0\0\0\0BLOCK".to_vec()
}

fn csgk_file() -> Vec<u8> {
    let mut b = b"CSGK".to_vec();
    b.extend_from_slice(b"fedcba9876543210fedcba9876543210");
    b
}

fn read_physics_data(data: &[u8]) -> PhysicsData {
    let mut cursor = Cursor::new(data);
    let physics_data = read_physics_data_versioned(&mut cursor).unwrap();
    assert_eq!(cursor.position(), data.len() as u64);
    physics_data
}

fn written(physics_data: &PhysicsData) -> Vec<u8> {
    let mut out = Vec::new();
    physics_data.write_le(&mut out);
    out
}

#[test]
fn test_csgphs_3() {
    read_physics_data(&sample(3));
}

#[test]
fn physics_data_csgphs_3() {
    match read_physics_data(&sample(3)) {
        PhysicsData::CSGPHS(CSGPHS::V3(v)) => {
            assert_eq!(v.meshes.len(), 3);
            assert_eq!(v.meshes[0].vertex_count, 12);
            assert_eq!(v.meshes[0].vertices.len(), 4);
            assert_eq!(v.meshes[0].vertices[3][2], 11.5f32.to_bits());
            assert_eq!(v.meshes[0].face_count, 6);
            assert_eq!(v.meshes[0].faces[1], [VertexId(3), VertexId(0), VertexId(1)]);
            assert_eq!(v.meshes[1].faces.len(), 1);
            assert_eq!(
                v.meshes[2],
                Mesh { vertex_count: 0, vertices: vec![], face_count: 0, faces: vec![] }
            );
        }
        _ => panic!(),
    }
}

#[test]
fn test_csgphs_5() {
    read_physics_data(&sample(5));
}

#[test]
fn physics_data_csgphs_5() {
    assert!(matches!(read_physics_data(&sample(5)), PhysicsData::CSGPHS(CSGPHS::V5(_))));
}

#[test]
fn csgphs_6() {
    match read_physics_data(&sample(6)) {
        PhysicsData::CSGPHS(CSGPHS::V6(v)) => {
            assert_eq!(
                v.physics_info,
                PhysicsInfo {
                    volume: 8.0f32.to_bits(),
                    center_of_gravity: [0f32.to_bits(), 1f32.to_bits(), 2f32.to_bits()],
                    moment_of_inertia_packed: [
                        10f32.to_bits(),
                        11f32.to_bits(),
                        12f32.to_bits(),
                        13f32.to_bits(),
                        14f32.to_bits(),
                        15f32.to_bits()
                    ],
                }
            );
            assert_eq!(v.mesh.vertices.len(), 8);
            assert_eq!(v.mesh.faces.len(), 12);
        }
        _ => panic!(),
    }
}

#[test]
fn csgphs_7() {
    match read_physics_data(&sample(7)) {
        PhysicsData::CSGPHS(CSGPHS::V7(v)) => {
            assert_eq!(f32::from_bits(v.physics_info.moment_of_inertia_packed[5]), 15.0);
            assert_eq!(v.meshes.len(), 2);
            assert_eq!(v.meshes[1].vertices.len(), 5);
        }
        _ => panic!(),
    }
}

#[test]
fn test_csgk() {
    read_physics_data(&csgk_file());
}

#[test]
fn physics_data_csgk() {
    assert_eq!(
        read_physics_data(&csgk_file()),
        PhysicsData::CSGK(CSGK { uuid_ascii_hex: *b"fedcba9876543210fedcba9876543210" })
    );
}

#[test]
fn a_block() {
    assert_eq!(read_physics_data(&block()), PhysicsData::CSGPHS(CSGPHS::Block));
    let mut longer = block();
    longer.extend_from_slice(b"and more");
    let mut cursor = Cursor::new(&longer);
    assert_eq!(
        read_physics_data_versioned(&mut cursor),
        Ok(PhysicsData::CSGPHS(CSGPHS::Block))
    );
    assert_eq!(cursor.position(), 15);
}

#[test]
fn a_list_of_no_meshes() {
    let mut file = b"CSGPHS".to_vec();
    put_u32(&mut file, 3);
    assert_eq!(
        read_physics_data(&file),
        PhysicsData::CSGPHS(CSGPHS::V3(CSGPHS3 { meshes: vec![] }))
    );
}

#[test]
fn written_as_read() {
    for file in [sample(3), sample(5), sample(6), sample(7), block(), csgk_file()] {
        let physics_data = read_physics_data(&file);
        assert_eq!(written(&physics_data), file);
        assert_eq!(read_physics_data(&written(&physics_data)), physics_data);
    }
    // counts that are no multiples of three hold what is left over of nothing
    let mut file = b"CSGPHS".to_vec();
    put_u32(&mut file, 6);
    info(&mut file);
    put_u32(&mut file, 16);
    file.extend_from_slice(&[0; 16]);
    put_u32(&mut file, 16);
    file.extend_from_slice(&[0; 14]);
    file.extend_from_slice(&[0x80, 0x3f]);
    put_u32(&mut file, 5);
    put_u32(&mut file, 4);
    file.extend_from_slice(&[9; 12]);
    put_u32(&mut file, 2);
    let physics_data = read_physics_data(&file);
    match &physics_data {
        PhysicsData::CSGPHS(CSGPHS::V6(v)) => {
            assert_eq!(v.mesh.vertex_count, 5);
            assert_eq!(v.mesh.vertices.len(), 1);
            assert_eq!(v.mesh.face_count, 2);
            assert_eq!(v.mesh.faces.len(), 0);
        }
        _ => panic!(),
    }
    assert_eq!(written(&physics_data), file);
}

#[test]
fn collision_data_cut_by_one_byte() {
    for file in [sample(3), sample(5), sample(6), sample(7), block(), csgk_file()] {
        let cut = &file[..file.len() - 1];
        let mut cursor = Cursor::new(cut);
        assert_eq!(read_physics_data_versioned(&mut cursor), Err(Error::UnexpectedEof));
        assert_eq!(cursor.position(), 0);
    }
    // a single mesh, a key and a block are never read from less than all
    // their bytes
    for file in [sample(6), block(), csgk_file()] {
        for k in 0..file.len() {
            assert_eq!(
                read_physics_data_versioned(&mut Cursor::new(&file[..k])),
                Err(Error::UnexpectedEof)
            );
        }
    }
    // a list of meshes that no count announces can be cut between two
    // meshes, and nowhere else
    let file = sample(3);
    let first = 10 + 40 + 8 + 4 * 12 + 4 + 2 * 12;
    let second = first + 40 + 8 + 3 * 12 + 4 + 12;
    for k in 0..file.len() {
        let read = read_physics_data_versioned(&mut Cursor::new(&file[..k]));
        if k == 10 || k == first || k == second {
            assert!(read.is_ok());
        } else {
            assert_eq!(read, Err(Error::UnexpectedEof));
        }
    }
}

#[test]
fn failures() {
    let read = |data: &[u8]| read_physics_data_versioned(&mut Cursor::new(data));
    assert_eq!(read(b""), Err(Error::UnexpectedEof));
    assert_eq!(read(b"CSGPHX\x03\0\0\0"), Err(Error::BadMagic { pos: 0, found: b"CSGPHX".to_vec() }));
    assert_eq!(
        read(b"CSGPHS\x04\0\0\0"),
        Err(Error::BadMagic { pos: 6, found: vec![4, 0, 0, 0] })
    );
    assert_eq!(
        read(b"CSGPHS\0\0\0\0BLOCKS"),
        Ok(PhysicsData::CSGPHS(CSGPHS::Block))
    );
    assert_eq!(
        read(b"CSGPHS\0\0\0\0BLOKC"),
        Err(Error::BadMagic { pos: 6, found: vec![0, 0, 0, 0] })
    );
    assert_eq!(read(b"CSGPHS\0\0\0\0BLOC"), Err(Error::UnexpectedEof));
    // the byte that follows the number 7
    let mut file = sample(7);
    file[10] = 4;
    assert_eq!(read(&file), Err(Error::BadMagic { pos: 10, found: vec![4] }));
    // the start of a mesh
    let mut file = sample(3);
    file[10 + 39] = 0x40;
    let mut found = vec![0u8; 40];
    found[0] = 16;
    found[20] = 16;
    found[38] = 0x80;
    found[39] = 0x40;
    assert_eq!(read(&file), Err(Error::BadMagic { pos: 10, found }));
    // the width of a coordinate
    let mut file = sample(6);
    let mesh_start = 10 + 40;
    file[mesh_start + 44] = 8;
    assert_eq!(
        read(&file),
        Err(Error::BadMagic { pos: (mesh_start + 44) as u64, found: vec![8, 0, 0, 0] })
    );
    // a second mesh that does not start like one
    let mut file = sample(3);
    file.extend_from_slice(&[1; 60]);
    assert!(matches!(read(&file), Err(Error::BadMagic { .. })));
}
