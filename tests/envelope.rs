use trace_columnar::envelope::{decode_envelope, encode_envelope};

#[test]
fn envelope_bytes_are_protobuf() {
    let bytes = encode_envelope(b"ab", b"", b"c");
    assert_eq!(bytes, vec![0x12, 7, 0x12, 2, b'a', b'b', 0x22, 1, b'c']);
}

#[test]
fn envelope_of_empty_buffers() {
    assert_eq!(encode_envelope(b"", b"", b""), vec![0x12, 0]);
    assert_eq!(decode_envelope(&[0x12, 0]), Some((vec![], vec![], vec![])));
}

#[test]
fn envelope_round_trip() {
    let spans: Vec<u8> = (0..300).map(|i| (i % 251) as u8).collect();
    let events = vec![1u8, 2, 3];
    let links = vec![0x12u8; 130];
    let bytes = encode_envelope(&spans, &events, &links);
    assert_eq!(decode_envelope(&bytes), Some((spans.clone(), events.clone(), links.clone())));
    let mut rest = &bytes[1..];
    let outer = prost::encoding::decode_varint(&mut rest).unwrap();
    assert_eq!(outer as usize, rest.len());
    assert_eq!(rest[0], 0x12);
    let mut field = &rest[1..];
    assert_eq!(prost::encoding::decode_varint(&mut field).unwrap(), 300);
}

#[test]
fn decode_rejects_what_is_not_an_envelope() {
    assert_eq!(decode_envelope(&[]), None);
    assert_eq!(decode_envelope(&[0x0a, 0]), None);
    assert_eq!(decode_envelope(&[0x12, 5, 0x12]), None);
    assert_eq!(decode_envelope(&[0x12, 3, 0x12, 5, 1]), None);
    assert_eq!(decode_envelope(&[0x12, 2, 0x2a, 0]), None);
    assert_eq!(decode_envelope(&[0x12, 0x80]), None);
}
