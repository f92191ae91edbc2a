use loc_share::error::LocShareError;
use loc_share::proto::{Config, ConnectRequest};
use loc_share::wire::{read_field, read_varint, write_len_field, write_varint, FieldValue};

#[test]
fn varint_encoding_of_300() {
    let mut v = Vec::new();
    write_varint(&mut v, 300);
    assert_eq!(v, vec![0xac, 0x02]);
    assert_eq!(read_varint(&v, 0), Some((300, 2)));
}

#[test]
fn varint_max_roundtrip() {
    let mut v = vec![0xff];
    write_varint(&mut v, u64::MAX);
    assert_eq!(v.len(), 11);
    assert_eq!(read_varint(&v, 1), Some((u64::MAX, 11)));
}

#[test]
fn varint_too_long_or_too_large_is_refused() {
    assert_eq!(read_varint(&[0x80; 11], 0), None);
    // ten bytes encoding 2^64
    let mut big = vec![0x80u8; 9];
    big.push(0x02);
    assert_eq!(read_varint(&big, 0), None);
    assert_eq!(read_varint(&[0x80, 0x80], 0), None);
    assert_eq!(read_varint(&[], 0), None);
}

#[test]
fn field_reading() {
    let mut v = Vec::new();
    write_len_field(&mut v, 3, b"abc");
    assert_eq!(v, vec![0x1a, 3, b'a', b'b', b'c']);
    match read_field(&v, 0) {
        Some((3, FieldValue::Bytes(2, 5), 5)) => {}
        _ => panic!("unexpected field"),
    }
    // field number 0 is refused
    assert!(read_field(&[0x02, 0x00], 0).is_none());
    // wire type 3 is refused
    assert!(read_field(&[0x0b], 0).is_none());
}

#[test]
fn connect_request_bytes() {
    let r = ConnectRequest { eph_key: vec![1, 2], inv_code_mac: vec![3] };
    let mut v = Vec::new();
    r.write_to_vec(&mut v);
    assert_eq!(v, vec![0x0a, 2, 1, 2, 0x12, 1, 3]);
    let p = ConnectRequest::parse_from_bytes(&v).unwrap();
    assert_eq!(p.eph_key, vec![1, 2]);
    assert_eq!(p.inv_code_mac, vec![3]);
}

#[test]
fn connect_request_empty_fields_are_not_written() {
    let r = ConnectRequest { eph_key: vec![], inv_code_mac: vec![] };
    let mut v = vec![9u8];
    r.write_to_vec(&mut v);
    assert_eq!(v, vec![9]);
    let p = ConnectRequest::parse_from_bytes(&[]).unwrap();
    assert!(p.eph_key.is_empty() && p.inv_code_mac.is_empty());
}

#[test]
fn connect_request_parsing_rules() {
    // field order, unknown fields skipped, last value wins
    let bytes = vec![0x12, 1, 7, 0x18, 0x05, 0x0a, 1, 8, 0x0a, 1, 9, 0x25, 0, 0, 0, 0];
    let p = ConnectRequest::parse_from_bytes(&bytes).unwrap();
    assert_eq!(p.eph_key, vec![9]);
    assert_eq!(p.inv_code_mac, vec![7]);
    // a known field number with another wire type is skipped
    let q = ConnectRequest::parse_from_bytes(&[0x0a, 1, 4, 0x08, 1]).unwrap();
    assert_eq!(q.eph_key, vec![4]);
    assert!(q.inv_code_mac.is_empty());
    // a group is refused
    assert!(matches!(
        ConnectRequest::parse_from_bytes(&[0x0b, 0x0c]),
        Err(LocShareError::MessageParse)
    ));
    // a truncated field
    assert!(matches!(
        ConnectRequest::parse_from_bytes(&[0x0a, 5, 1]),
        Err(LocShareError::MessageParse)
    ));
}

#[test]
fn config_bytes_and_roundtrip() {
    let c = Config { sym_key: vec![9], generated: 300 };
    let mut v = Vec::new();
    c.write_to_vec(&mut v);
    assert_eq!(v, vec![0x0a, 1, 9, 0x10, 0xac, 0x02]);
    let p = Config::parse_from_bytes(&v).unwrap();
    assert_eq!(p.sym_key, vec![9]);
    assert_eq!(p.generated, 300);
    assert!(matches!(Config::parse_from_bytes(&[0x10]), Err(LocShareError::ConfigParse)));
    let skipped = Config::parse_from_bytes(&[0x10, 5, 0x12, 0]).unwrap();
    assert_eq!(skipped.generated, 5);
}
