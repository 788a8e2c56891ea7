use rbx_mesh::stream::Cursor;
use rbx_mesh::wire::{
    expect_magic, from_i16, from_i8, get_bytes, get_seq, get_u16, get_u32, get_u64, put_seq,
    put_u16, put_u32, put_u64, to_i16, to_i8, BinError, Plain,
};

#[test]
fn a_cursor_reads_from_its_position() {
    let data = [1u8, 2, 3, 4, 5];
    let mut cursor = Cursor::new(&data);
    assert_eq!(cursor.position(), 0);
    assert_eq!(cursor.get_ref(), &data);
    assert_eq!(cursor.read(2), vec![1, 2]);
    assert_eq!(cursor.position(), 2);
    assert_eq!(cursor.read(0), Vec::<u8>::new());
    assert_eq!(cursor.read(9), vec![3, 4, 5]);
    assert_eq!(cursor.position(), 5);
    assert_eq!(cursor.read(1), Vec::<u8>::new());
    cursor.set_position(1);
    assert_eq!(cursor.index(), 1);
    assert_eq!(cursor.read(1), vec![2]);
    // a position past the end is kept, and nothing is read from it
    cursor.set_position(7);
    assert_eq!(cursor.position(), 7);
    assert_eq!(cursor.place(), 7);
    assert_eq!(cursor.index(), 5);
    assert_eq!(cursor.read(3), Vec::<u8>::new());
    assert_eq!(cursor.position(), 7);
}

#[test]
fn numbers_are_little_endian() {
    let data = [0x01u8, 0x02, 0x03, 0x04, 0x05, 0x06, 0x07, 0x88];
    assert_eq!(get_u16(&data, 0), 0x0201);
    assert_eq!(get_u16(&data, 6), 0x8807);
    assert_eq!(get_u32(&data, 0), 0x0403_0201);
    assert_eq!(get_u32(&data, 4), 0x8807_0605);
    assert_eq!(get_u64(&data, 0), 0x8807_0605_0403_0201);
    let mut out = vec![0xaa];
    put_u16(0x0201, &mut out);
    put_u32(0x8807_0605, &mut out);
    put_u64(0xffee_ddcc_bbaa_9988, &mut out);
    assert_eq!(
        out,
        [0xaa, 1, 2, 5, 6, 7, 0x88, 0x88, 0x99, 0xaa, 0xbb, 0xcc, 0xdd, 0xee, 0xff]
    );
    let mut out = Vec::new();
    put_u32(u32::MAX, &mut out);
    put_u32(0, &mut out);
    put_u16(u16::MAX, &mut out);
    assert_eq!(out, [255, 255, 255, 255, 0, 0, 0, 0, 255, 255]);
    assert_eq!(get_u32(&out, 0), u32::MAX);
    assert_eq!(f32::from_bits(get_u32(&1.5f32.to_le_bytes(), 0)), 1.5);
}

#[test]
fn signed_and_unsigned_patterns() {
    assert_eq!(to_i8(0), 0);
    assert_eq!(to_i8(127), 127);
    assert_eq!(to_i8(128), -128);
    assert_eq!(to_i8(255), -1);
    assert_eq!(from_i8(-128), 128);
    assert_eq!(from_i8(-1), 255);
    assert_eq!(from_i8(5), 5);
    assert_eq!(to_i16(0x7FFF), 32767);
    assert_eq!(to_i16(0x8000), -32768);
    assert_eq!(to_i16(0xFFFF), -1);
    assert_eq!(from_i16(-2), 0xFFFE);
    assert_eq!(from_i16(-32768), 0x8000);
    for b in 0..=255u8 {
        assert_eq!(to_i8(b), b as i8);
        assert_eq!(from_i8(b as i8), b);
    }
}

#[test]
fn records_and_their_sequences() {
    let data: Vec<u8> = (0..40u8).collect();
    assert_eq!(<[u32; 3]>::get(&data, 1), [0x0403_0201, 0x0807_0605, 0x0c0b_0a09]);
    assert_eq!(<[i16; 3]>::get(&data, 0), [0x0100, 0x0302, 0x0504]);
    assert_eq!(<[i8; 4]>::get(&[0xff, 0x80, 0x7f, 0], 0), [-1, -128, 127, 0]);
    assert_eq!(<[u8; 16]>::get(&data, 3)[15], 18);
    assert_eq!(<[u8; 32]>::get(&data, 8)[31], 39);
    assert_eq!(<[u32; 6]>::get(&data, 0)[5], 0x1716_1514);
    assert_eq!(<[u32; 2]>::size(), 8);
    assert_eq!(u8::size() + u16::size() + u32::size(), 7);

    assert_eq!(get_seq::<u16>(&data, 2, 3), Ok(vec![0x0302, 0x0504, 0x0706]));
    assert_eq!(get_seq::<[u8; 4]>(&data, 36, 1), Ok(vec![[36, 37, 38, 39]]));
    assert_eq!(get_seq::<[u8; 4]>(&data, 37, 1), Err(BinError::UnexpectedEof));
    assert_eq!(get_seq::<u32>(&data, 40, 0), Ok(vec![]));
    assert_eq!(get_seq::<u32>(&data, 0, usize::MAX), Err(BinError::UnexpectedEof));
    assert_eq!(get_seq::<u8>(&data, 0, 41), Err(BinError::UnexpectedEof));
    let mut out = Vec::new();
    put_seq(&vec![[1u32, 2, 3], [4, 5, 6]], &mut out);
    assert_eq!(get_seq::<[u32; 3]>(&out, 0, 2), Ok(vec![[1, 2, 3], [4, 5, 6]]));
    assert_eq!(out.len(), 24);
    let mut out = Vec::new();
    [-1i16, 2, -3].put(&mut out);
    [-4i8, 5, -6, 7].put(&mut out);
    assert_eq!(out, [0xff, 0xff, 2, 0, 0xfd, 0xff, 0xfc, 5, 0xfa, 7]);

    assert_eq!(get_bytes(&data, 38, 2), Ok(vec![38, 39]));
    assert_eq!(get_bytes(&data, 38, 3), Err(BinError::UnexpectedEof));
    assert_eq!(expect_magic(&data, 5, &[5, 6, 7]), Ok(()));
    assert_eq!(
        expect_magic(&data, 5, &[5, 6, 8]),
        Err(BinError::BadMagic { pos: 5, found: vec![5, 6, 7] })
    );
    assert_eq!(expect_magic(&data, 39, &[39, 40]), Err(BinError::UnexpectedEof));
    assert_eq!(expect_magic(&data, 40, &[]), Ok(()));
}
