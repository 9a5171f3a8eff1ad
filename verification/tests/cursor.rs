use rave::cursor::ByteCursor;

#[test]
fn reads_are_big_endian() {
    let mut c = ByteCursor::new(vec![0x12, 0x34, 0x56, 0x78, 0x9a, 0xbc, 0xde, 0xf0, 0x01]);
    assert_eq!(c.read_u16(), Some(0x1234));
    assert_eq!(c.position(), 2);
    c.seek(0);
    assert_eq!(c.read_u24(), Some(0x123456));
    c.seek(0);
    assert_eq!(c.read_u32(), Some(0x12345678));
    c.seek(0);
    assert_eq!(c.read_u64(), Some(0x123456789abcdef0));
    assert_eq!(c.position(), 8);
    assert_eq!(c.read_u8(), Some(1));
    assert_eq!(c.read_u8(), None);
}

#[test]
fn signed_reads_are_twos_complement() {
    let mut c = ByteCursor::new(vec![0xff, 0xfe, 0x80, 0x00, 0x00, 0x00, 0xff, 0xff]);
    assert_eq!(c.read_i8(), Some(-1));
    c.seek(0);
    assert_eq!(c.read_i16(), Some(-2));
    assert_eq!(c.read_i32(), Some(i32::MIN));
    c.seek(0);
    assert_eq!(c.read_i64(), Some(-0x0001_7fff_ffff_0001));
    let mut c = ByteCursor::new(vec![0x7f]);
    assert_eq!(c.read_i8(), Some(127));
}

#[test]
fn a_failed_read_moves_to_the_end() {
    let mut c = ByteCursor::new(vec![1, 2, 3]);
    assert_eq!(c.read_u32(), None);
    assert_eq!(c.position(), 3);
    c.seek(1);
    assert_eq!(c.read_u24(), None);
    assert_eq!(c.position(), 3);
    c.seek(9);
    assert_eq!(c.read_u8(), None);
    assert_eq!(c.position(), 3);
    assert_eq!(c.remaining(), 0);
}

#[test]
fn seek_peek_and_get() {
    let mut c = ByteCursor::new(vec![5, 6, 7, 8]);
    assert_eq!(c.len(), 4);
    assert_eq!(c.remaining(), 4);
    c.seek(2);
    assert_eq!(c.remaining(), 2);
    assert_eq!(c.peek(2), Some(&[7u8, 8][..]));
    assert_eq!(c.peek(3), None);
    assert_eq!(c.position(), 2);
    assert_eq!(c.get(3), Some(8));
    assert_eq!(c.get(4), None);
    assert_eq!(c.read_bytes(2), Some(vec![7, 8]));
    assert_eq!(c.read_bytes(0), Some(vec![]));
    assert_eq!(c.read_bytes(1), None);
    c.seek(7);
    assert_eq!(c.remaining(), 0);
    assert_eq!(c.peek(0), None);
}
