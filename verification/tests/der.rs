use russl::scanner::der::{
    children, encode_len, integer, octet_string, read_tlv, sequence, tlv, ALGID_SHA1,
};

#[test]
fn length_encoding() {
    assert_eq!(encode_len(0), vec![0x00]);
    assert_eq!(encode_len(127), vec![0x7f]);
    assert_eq!(encode_len(128), vec![0x81, 0x80]);
    assert_eq!(encode_len(256), vec![0x82, 0x01, 0x00]);
}

#[test]
fn integer_sign_handling() {
    assert_eq!(integer(&[0x05]), vec![0x02, 0x01, 0x05]);
    assert_eq!(integer(&[0x80]), vec![0x02, 0x02, 0x00, 0x80]);
    assert_eq!(integer(&[]), vec![0x02, 0x01, 0x00]);
    // already has leading zero -> not doubled
    assert_eq!(integer(&[0x00, 0x80]), vec![0x02, 0x02, 0x00, 0x80]);
}

#[test]
fn tlv_constructors() {
    assert_eq!(octet_string(&[1, 2]), vec![0x04, 0x02, 1, 2]);
    assert_eq!(sequence(&[]), vec![0x30, 0x00]);
}

#[test]
fn read_and_walk() {
    let inner = sequence(&[octet_string(&[0xaa]), integer(&[0x01])].concat());
    let t = read_tlv(&inner).unwrap();
    assert_eq!(t.tag, 0x30);
    assert_eq!(t.total_len, inner.len());
    let kids = children(t.content);
    assert_eq!(kids.len(), 2);
    assert_eq!(kids[0].tag, 0x04);
    assert_eq!(kids[0].content, &[0xaa]);
    assert_eq!(kids[1].tag, 0x02);
    assert_eq!(kids[1].content, &[0x01]);
}

#[test]
fn read_long_form_length() {
    let body = vec![0x41u8; 300];
    let encoded = octet_string(&body);
    let t = read_tlv(&encoded).unwrap();
    assert_eq!(t.tag, 0x04);
    assert_eq!(t.content.len(), 300);
}

#[test]
fn truncated_is_none() {
    assert!(read_tlv(&[0x30]).is_none());
    assert!(read_tlv(&[0x04, 0x05, 0x01]).is_none());
}

#[test]
fn indefinite_and_overlong_lengths_are_none() {
    assert!(read_tlv(&[0x30, 0x80, 0x00, 0x00]).is_none());
    assert!(read_tlv(&[0x30, 0x85, 0, 0, 0, 0, 0]).is_none());
    assert!(read_tlv(&[0x30, 0x84, 0, 0]).is_none());
    assert!(read_tlv(&[0x30, 0x84, 0xff, 0xff, 0xff, 0xff]).is_none());
    // four octets are read, also with leading zeros
    let t = read_tlv(&[0x04, 0x84, 0, 0, 0, 1, 7, 9]).unwrap();
    assert_eq!(t.content, &[7]);
    assert_eq!(t.total_len, 7);
}

#[test]
fn what_follows_a_value_is_left_alone() {
    let mut data = tlv(0x18, b"20240101000000Z");
    let len = data.len();
    data.extend_from_slice(&[0xde, 0xad]);
    let t = read_tlv(&data).unwrap();
    assert_eq!(t.total_len, len);
    assert_eq!(t.content, b"20240101000000Z");
}

#[test]
fn children_stop_at_the_first_unreadable_octets() {
    let mut data = [integer(&[1]), octet_string(&[2, 3])].concat();
    data.extend_from_slice(&[0x30, 0x7f]);
    let kids = children(&data);
    assert_eq!(kids.len(), 2);
    assert!(children(&[]).is_empty());
}

#[test]
fn sha1_identifier_is_a_sequence_of_oid_and_null() {
    let t = read_tlv(&ALGID_SHA1).unwrap();
    let kids = children(t.content);
    assert_eq!(kids.len(), 2);
    assert_eq!(kids[0].tag, 0x06);
    assert_eq!(kids[1].tag, 0x05);
}
