use tss_lib::protos::{
    decode_content, decode_envelope, encode_content, encode_envelope, Content, Envelope,
    ProtoError,
};

fn envelope(content: Option<Vec<u8>>, timestamp: Option<u64>) -> Envelope {
    Envelope { content, timestamp }
}

#[test]
fn timestamp_encodes_as_varint_field() {
    let bytes = encode_envelope(&envelope(None, Some(300)));
    assert_eq!(bytes, vec![0x10, 0xAC, 0x02]);
}

#[test]
fn content_field_encodes_length_then_bytes() {
    let bytes = encode_envelope(&envelope(Some(vec![7, 8, 9]), None));
    assert_eq!(bytes, vec![0x0A, 0x03, 7, 8, 9]);
}

#[test]
fn empty_envelope_encodes_to_nothing() {
    assert!(encode_envelope(&envelope(None, None)).is_empty());
    let e = decode_envelope(&[]).ok().unwrap();
    assert_eq!(e.content, None);
    assert_eq!(e.timestamp, None);
}

#[test]
fn largest_timestamp_takes_ten_bytes_and_reads_back() {
    let bytes = encode_envelope(&envelope(None, Some(u64::MAX)));
    assert_eq!(bytes.len(), 11);
    assert_eq!(bytes[10], 0x01);
    let e = decode_envelope(&bytes).ok().unwrap();
    assert_eq!(e.timestamp, Some(u64::MAX));
}

#[test]
fn envelope_roundtrip() {
    let e = envelope(Some(vec![1, 2, 3, 250]), Some(1_700_000_000));
    let bytes = encode_envelope(&e);
    let d = decode_envelope(&bytes).ok().unwrap();
    assert_eq!(d.content, Some(vec![1, 2, 3, 250]));
    assert_eq!(d.timestamp, Some(1_700_000_000));
}

#[test]
fn content_roundtrip_with_negative_type() {
    let c = Content {
        id: Some(5),
        type_: Some(-3),
        sender: Some(u32::MAX),
        receiver: Some(2),
        message: Some(b"{\"x\":1}".to_vec()),
    };
    let bytes = encode_content(&c);
    // The negative enum value goes on the wire as ten bytes.
    assert_eq!(bytes.len(), 2 + 11 + 6 + 2 + 9);
    let d = decode_content(&bytes).ok().unwrap();
    assert_eq!(d.id, Some(5));
    assert_eq!(d.type_, Some(-3));
    assert_eq!(d.sender, Some(u32::MAX));
    assert_eq!(d.receiver, Some(2));
    assert_eq!(d.message, Some(b"{\"x\":1}".to_vec()));
}

#[test]
fn last_value_of_a_field_wins() {
    let d = decode_envelope(&[0x10, 0x01, 0x10, 0x02]).ok().unwrap();
    assert_eq!(d.timestamp, Some(2));
}

#[test]
fn uint32_field_keeps_low_bits() {
    // sender = 2^32 + 5
    let d = decode_content(&[0x18, 0x85, 0x80, 0x80, 0x80, 0x10]).ok().unwrap();
    assert_eq!(d.sender, Some(5));
}

#[test]
fn unknown_fields_are_skipped() {
    let bytes = vec![
        0x18, 0x96, 0x01, // field 3, varint
        0x25, 1, 2, 3, 4, // field 4, fixed32
        0x29, 1, 2, 3, 4, 5, 6, 7, 8, // field 5, fixed64
        0x32, 0x02, 0xAA, 0xBB, // field 6, bytes
        0x3B, 0x08, 0x01, 0x3C, // field 7, group holding a varint field
        0x10, 0x09, // timestamp
    ];
    let d = decode_envelope(&bytes).ok().unwrap();
    assert_eq!(d.timestamp, Some(9));
    assert_eq!(d.content, None);
}

#[test]
fn wrong_wire_type_is_refused() {
    match decode_envelope(&[0x08, 0x01]) {
        Err(ProtoError::WrongWireType { found, expected }) => {
            assert_eq!(found, 0);
            assert_eq!(expected, 2);
        },
        _ => panic!("expected a wire type error"),
    }
}

#[test]
fn overlong_bytes_field_is_refused() {
    assert!(matches!(decode_envelope(&[0x0A, 0x05, 1, 2]), Err(ProtoError::BufferUnderflow)));
}

#[test]
fn truncated_varint_is_refused() {
    assert!(matches!(decode_envelope(&[0x10, 0x80]), Err(ProtoError::Malformed(_))));
}

#[test]
fn tag_zero_is_refused() {
    assert!(matches!(decode_envelope(&[0x00, 0x01]), Err(ProtoError::Malformed(_))));
}

#[test]
fn eleven_byte_varint_is_refused() {
    let mut bytes = vec![0x10];
    bytes.extend(std::iter::repeat(0xFF).take(9));
    bytes.push(0x02);
    assert!(matches!(decode_envelope(&bytes), Err(ProtoError::Malformed(_))));
}

#[test]
fn unmatched_end_group_is_refused() {
    assert!(matches!(decode_envelope(&[0x1C]), Err(ProtoError::Malformed(_))));
}

#[test]
fn truncated_fixed64_is_refused() {
    assert!(matches!(decode_envelope(&[0x29, 1, 2, 3]), Err(ProtoError::Malformed(_))));
}
