use rsqlite::error::DecodeError;
use rsqlite::record::Record;
use rsqlite::value::Value;

#[test]
fn record_with_three_columns() {
    // header length 4, types: int8, text of 2 bytes, NULL; body: 5, "hi"
    let buf = [4, 1, 17, 0, 5, b'h', b'i', 0xAA];
    let rec = Record::from_cell_bytes(&buf).unwrap();
    assert_eq!(
        rec.0,
        vec![Value::Int8([5]), Value::SQLiteString("hi".to_string()), Value::Null]
    );
}

#[test]
fn constant_columns_take_no_body_bytes() {
    // types: 8 (zero), 1, 9 (one), 2; body: 0x11, 0x22 0x33
    let buf = [5, 8, 1, 9, 2, 0x11, 0x22, 0x33];
    let rec = Record::from_cell_bytes(&buf).unwrap();
    assert_eq!(
        rec.0,
        vec![Value::Zero, Value::Int8([0x11]), Value::One, Value::Int16([0x22, 0x33])]
    );
}

#[test]
fn empty_record() {
    let rec = Record::from_cell_bytes(&[1]).unwrap();
    assert!(rec.0.is_empty());
}

#[test]
fn record_errors() {
    assert_eq!(Record::from_cell_bytes(&[]), Err(DecodeError::Truncated));
    assert_eq!(Record::from_cell_bytes(&[0x81]), Err(DecodeError::Truncated));
    // header length shorter than its own varint, or longer than the record
    assert_eq!(Record::from_cell_bytes(&[0, 1]), Err(DecodeError::BadRecordHeader));
    assert_eq!(Record::from_cell_bytes(&[5, 1]), Err(DecodeError::BadRecordHeader));
    // a serial-type varint that runs past the header
    assert_eq!(Record::from_cell_bytes(&[2, 0x81, 1]), Err(DecodeError::BadRecordHeader));
    // body shorter than the declared widths
    assert_eq!(Record::from_cell_bytes(&[3, 1, 2, 7, 8]), Err(DecodeError::Truncated));
    assert_eq!(Record::from_cell_bytes(&[2, 11]), Err(DecodeError::InvalidSerialType(11)));
    assert_eq!(Record::from_cell_bytes(&[2, 15, 0xC3]), Err(DecodeError::InvalidText));
}
