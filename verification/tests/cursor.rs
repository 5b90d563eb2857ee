//! Reads through a cursor.
use reliquary_bdmv::cursor::{Cursor, CursorError};

#[test]
fn numbers_are_big_endian() {
    let data: Vec<u8> = vec![0x12, 0x34, 0x56, 0xDE, 0xAD, 0xBE, 0xEF];
    let mut cursor = Cursor::new(&data);
    assert_eq!(cursor.read_u8(), Ok(0x12));
    assert_eq!(cursor.read_u16(), Ok(0x3456));
    assert_eq!(cursor.read_u32(), Ok(0xDEAD_BEEF));
    assert_eq!(cursor.pos, 7);
    assert_eq!(cursor.remaining(), 0);
}

#[test]
fn a_short_read_keeps_the_position() {
    let data: Vec<u8> = vec![1, 2, 3];
    let mut cursor = Cursor::new(&data);
    cursor.skip(2).expect("should skip");
    let error = CursorError { offset: 2, needed: 2, available: 1 };
    assert_eq!(cursor.read_u16(), Err(error));
    assert_eq!(cursor.pos, 2);
    assert_eq!(
        error.message(),
        "unexpected end of data at offset 2 (need 2 bytes, have 1)"
    );
    assert_eq!(cursor.read_u32(), Err(CursorError { offset: 2, needed: 4, available: 1 }));
    assert_eq!(cursor.read_bytes(2), Err(CursorError { offset: 2, needed: 2, available: 1 }));
    assert_eq!(cursor.skip(2), Err(CursorError { offset: 2, needed: 2, available: 1 }));
    assert_eq!(cursor.read_u8(), Ok(3));
    assert_eq!(cursor.read_u8(), Err(CursorError { offset: 3, needed: 1, available: 0 }));
}

#[test]
fn bytes_are_handed_out_as_they_are() {
    let data: Vec<u8> = vec![9, 8, 7, 6];
    let mut cursor = Cursor::new(&data);
    cursor.seek(1).expect("should seek");
    assert_eq!(cursor.read_bytes(2), Ok(&data[1..3]));
    assert_eq!(cursor.pos, 3);
    assert_eq!(cursor.read_bytes(0), Ok(&data[3..3]));
}

#[test]
fn seeking_stops_at_the_end() {
    let data: Vec<u8> = vec![0; 4];
    let mut cursor = Cursor::new(&data);
    assert_eq!(cursor.seek(4), Ok(()));
    assert_eq!(cursor.remaining(), 0);
    assert_eq!(cursor.seek(5), Err(CursorError { offset: 5, needed: 0, available: 0 }));
    assert_eq!(cursor.pos, 4);
    assert_eq!(cursor.ensure(0), Ok(()));
}
