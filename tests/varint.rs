use rsqlite::varint::read_varint;

#[test]
fn one_byte_varints() {
    assert_eq!(read_varint(&[0x00]), Some((0, 1)));
    assert_eq!(read_varint(&[0x7F, 0xFF]), Some((127, 1)));
}

#[test]
fn multi_byte_varints() {
    assert_eq!(read_varint(&[0x81, 0x00]), Some((128, 2)));
    assert_eq!(read_varint(&[0x82, 0x81, 0x03]), Some(((2 << 14) + (1 << 7) + 3, 3)));
    // nine bytes: the last one gives all eight bits
    let nine = [0xFF; 9];
    assert_eq!(read_varint(&nine), Some((u64::MAX, 9)));
    let mut big = [0x80u8; 9];
    big[0] = 0x81;
    big[8] = 0x01;
    assert_eq!(read_varint(&big), Some(((1u64 << 57) + 1, 9)));
}

#[test]
fn cut_off_varints() {
    assert_eq!(read_varint(&[]), None);
    assert_eq!(read_varint(&[0x80]), None);
    assert_eq!(read_varint(&[0xFF; 8]), None);
}

#[test]
fn canonical_varints_come_back_as_written() {
    // decoding then encoding the value in the fewest bytes gives the same bytes
    for bytes in [vec![0x05], vec![0x81, 0x00], vec![0xFF, 0x7F], vec![0x81, 0x80, 0x00]] {
        let (v, n) = read_varint(&bytes).unwrap();
        assert_eq!(n, bytes.len());
        let mut enc = vec![(v & 0x7F) as u8];
        let mut rest = v >> 7;
        while rest > 0 {
            enc.insert(0, 0x80 | (rest & 0x7F) as u8);
            rest >>= 7;
        }
        assert_eq!(enc, bytes);
    }
}
