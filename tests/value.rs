use rsqlite::error::DecodeError;
use rsqlite::util::{as_i64_be, as_u16_be, as_u32_be};
use rsqlite::value::Value;

#[test]
fn test_null() {
    let value: [u8; 0] = [];
    assert_eq!(Value::new(0, &value).unwrap(), Value::Null);
}

#[test]
fn consume_widths() {
    let widths = [0, 1, 2, 3, 4, 6, 8, 8, 0, 0];
    for (t, w) in widths.iter().enumerate() {
        assert_eq!(Value::consume(t as u64), *w);
    }
    assert_eq!(Value::consume(12), 0);
    assert_eq!(Value::consume(13), 0);
    assert_eq!(Value::consume(18), 3);
    assert_eq!(Value::consume(19), 3);
    assert_eq!(Value::consume(u64::MAX), ((u64::MAX - 13) / 2) as usize);
}

#[test]
fn consume_matches_bytes_read_by_new() {
    let bytes: Vec<u8> = (1..=20).collect();
    for t in [1u64, 2, 3, 4, 5, 6, 7, 12, 14, 16] {
        let w = Value::consume(t);
        let v = Value::new(t, &bytes).unwrap();
        // the same value comes from exactly `w` bytes, and not from fewer
        assert_eq!(Value::new(t, &bytes[..w]).unwrap(), v);
        if w > 0 {
            assert_eq!(Value::new(t, &bytes[..w - 1]), Err(DecodeError::Truncated));
        }
    }
}

#[test]
fn integers_keep_their_bytes() {
    let bytes = [0x80, 1, 2, 3, 4, 5, 6, 7, 8];
    assert_eq!(Value::new(1, &bytes).unwrap(), Value::Int8([0x80]));
    assert_eq!(Value::new(2, &bytes).unwrap(), Value::Int16([0x80, 1]));
    assert_eq!(Value::new(3, &bytes).unwrap(), Value::Int24([0x80, 1, 2]));
    assert_eq!(Value::new(4, &bytes).unwrap(), Value::Int32([0x80, 1, 2, 3]));
    assert_eq!(Value::new(5, &bytes).unwrap(), Value::Int48([0x80, 1, 2, 3, 4, 5]));
    assert_eq!(Value::new(6, &bytes).unwrap(), Value::Int64([0x80, 1, 2, 3, 4, 5, 6, 7]));
    assert_eq!(Value::new(7, &bytes).unwrap(), Value::Float64([0x80, 1, 2, 3, 4, 5, 6, 7]));
    assert_eq!(Value::new(8, &bytes).unwrap(), Value::Zero);
    assert_eq!(Value::new(9, &bytes).unwrap(), Value::One);
}

#[test]
fn text_and_blob() {
    let bytes = "héllo".as_bytes();
    assert_eq!(bytes.len(), 6);
    assert_eq!(Value::new(25, bytes).unwrap(), Value::SQLiteString("héllo".to_string()));
    assert_eq!(Value::new(13, bytes).unwrap(), Value::SQLiteString(String::new()));
    assert_eq!(Value::new(18, bytes).unwrap(), Value::Blob(vec![b'h', 0xC3, 0xA9]));
    // the first two bytes of "é" split it
    assert_eq!(Value::new(17, bytes), Err(DecodeError::InvalidText));
    assert_eq!(Value::new(15, &[0xFF]), Err(DecodeError::InvalidText));
}

#[test]
fn invalid_codes_and_short_bodies() {
    assert_eq!(Value::new(10, &[0; 8]), Err(DecodeError::InvalidSerialType(10)));
    assert_eq!(Value::new(11, &[]), Err(DecodeError::InvalidSerialType(11)));
    assert_eq!(Value::new(6, &[0; 7]), Err(DecodeError::Truncated));
    assert_eq!(Value::new(21, b"abc"), Err(DecodeError::Truncated));
}

#[test]
fn as_i64_extends_the_sign() {
    assert_eq!(Value::Int8([0xFF]).as_i64(), Some(-1));
    assert_eq!(Value::Int8([0x7F]).as_i64(), Some(127));
    assert_eq!(Value::Int16([0x80, 0x00]).as_i64(), Some(-32768));
    assert_eq!(Value::Int24([0x01, 0x00, 0x00]).as_i64(), Some(65536));
    assert_eq!(Value::Int32([0xFF, 0xFF, 0xFF, 0xFE]).as_i64(), Some(-2));
    assert_eq!(Value::Int48([0x80, 0, 0, 0, 0, 0]).as_i64(), Some(-(1i64 << 47)));
    assert_eq!(Value::Int64([0x80, 0, 0, 0, 0, 0, 0, 0]).as_i64(), Some(i64::MIN));
    assert_eq!(Value::Int64([0x7F, 0xFF, 0xFF, 0xFF, 0xFF, 0xFF, 0xFF, 0xFF]).as_i64(), Some(i64::MAX));
    assert_eq!(Value::Null.as_i64(), None);
    assert_eq!(Value::Zero.as_i64(), None);
    assert_eq!(Value::Float64([0; 8]).as_i64(), None);
    assert_eq!(Value::SQLiteString("1".to_string()).as_i64(), None);
}

#[test]
fn big_endian_helpers() {
    assert_eq!(as_u16_be(&[0x12, 0x34]), 0x1234);
    assert_eq!(as_u32_be(&[0x12, 0x34, 0x56, 0x78]), 0x1234_5678);
    assert_eq!(as_u32_be(&[0xFF, 0xFF, 0xFF, 0xFF]), u32::MAX);
    assert_eq!(as_i64_be(&[0xFF, 0x00]), -256);
    assert_eq!(as_i64_be(&[0x00, 0xFF]), 255);
}
