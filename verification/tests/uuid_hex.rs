use att_trace::human::human_u8_list;
use att_trace::human::to_hex;
use att_trace::parser::att::UuidKind;
use att_trace::parser::Bytes;
use att_trace::parser::StructuralViolation;

#[test]
fn cursor_drain_one_and_len() {
    let mut b = Bytes::new(vec![1, 2, 3]);
    assert_eq!(b.len(), 3);
    assert_eq!(b.drain_one(), 1);
    assert_eq!(b.len(), 2);
    assert_eq!(b.drain_one(), 2);
    assert_eq!(b.drain_one(), 3);
    assert_eq!(b.len(), 0);
}

#[test]
fn cursor_drain_u16_little_endian() {
    let mut b = Bytes::new(vec![0x02, 0x03]);
    assert_eq!(b.drain_u16_little_endian(), 0x0302);
}

#[test]
fn cursor_drain_u32_little_endian() {
    let mut b = Bytes::new(vec![0x01, 0x02, 0x03, 0x04]);
    assert_eq!(b.drain_u32_little_endian(), 0x04030201);
}

#[test]
fn cursor_drain_u32_big_endian() {
    let mut b = Bytes::new(vec![0x01, 0x02, 0x03, 0x04]);
    assert_eq!(b.drain_u32_big_endian(), 0x01020304);
}

#[test]
fn cursor_drain_vec_and_seek() {
    let mut b = Bytes::new(vec![9, 8, 7, 6]);
    assert_eq!(b.seek(2), vec![9, 8]);
    assert_eq!(b.len(), 4);
    assert_eq!(b.drain_vec(3), vec![9, 8, 7]);
    assert_eq!(b.vec(), vec![6]);
}

#[test]
fn cursor_drain_bytes_and_drain() {
    let mut b = Bytes::new(vec![1, 2, 3, 4]);
    let mut front = b.drain_bytes(2);
    assert_eq!(front.drain_one(), 1);
    assert_eq!(front.drain_one(), 2);
    b.drain(1);
    assert_eq!(b.vec(), vec![4]);
}

#[test]
fn short_uuid_canonical_string() {
    let u = UuidKind::from_bytes(Bytes::new(vec![0x00, 0x18])).unwrap();
    assert!(matches!(u, UuidKind::Short(_)));
    assert_eq!(u.string(), "1800");
}

#[test]
fn short_uuid_hex_reverses_byte_order() {
    let u = UuidKind::from_bytes(Bytes::new(vec![0x34, 0x12])).unwrap();
    assert_eq!(u.hex(), "1234");
}

#[test]
fn full_uuid_canonical_string_layout() {
    let bytes: Vec<u8> = (0x00..0x10).collect();
    let u = UuidKind::from_bytes(Bytes::new(bytes)).unwrap();
    assert!(matches!(u, UuidKind::Full(_)));
    assert_eq!(u.string(), "0f0e0d0c-0b0a-0908-0706-050403020100");
}

#[test]
fn full_uuid_hex_has_no_dashes() {
    let bytes: Vec<u8> = (0x00..0x10).collect();
    let u = UuidKind::from_bytes(Bytes::new(bytes)).unwrap();
    assert_eq!(u.hex(), "0f0e0d0c0b0a09080706050403020100");
}

#[test]
fn uuid_of_other_length_is_malformed() {
    let r = UuidKind::from_bytes(Bytes::new(vec![1, 2, 3]));
    assert_eq!(r, Err(StructuralViolation::MalformedUuidLength));
    let r = UuidKind::from_bytes(Bytes::new(vec![]));
    assert_eq!(r, Err(StructuralViolation::MalformedUuidLength));
}

#[test]
fn human_u8_list_separates_with_spaces() {
    assert_eq!(human_u8_list(&vec![0xaa, 0x0b, 0x00]), "aa 0b 00");
    assert_eq!(human_u8_list(&vec![0x01]), "01");
    assert_eq!(human_u8_list(&vec![]), "");
}

#[test]
fn to_hex_renders_each_byte() {
    assert_eq!(to_hex(&vec![0xff, 0x00, 0x7f]), vec!["ff", "00", "7f"]);
}
