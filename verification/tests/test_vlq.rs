use sora::{ParseError, VlqDecoder, VlqEncoder};

fn encode_helper(vlq: &[i64]) -> Vec<u8> {
    let mut buf = Vec::new();
    let mut encoder = VlqEncoder::new();
    for &num in vlq {
        encoder.encode(&mut buf, 0, num as u32);
    }
    buf
}

#[test]
fn test_vlq_decode_encode_normal() {
    let mut decoder = VlqDecoder::new();
    assert_eq!(&encode_helper(&decoder.decode("AAAA").unwrap()), b"AAAA");
    assert_eq!(&encode_helper(&decoder.decode("Q").unwrap()), b"Q");
}

#[test]
fn test_vlq_decode_malformed() {
    let mut decoder = VlqDecoder::new();
    assert!(matches!(
        decoder.decode("aAC5B9iiC/"),
        Err(ParseError::MappingMalformed(..))
    ));
    assert!(matches!(
        decoder.decode("你好"),
        Err(ParseError::MappingMalformed(..))
    ));
    assert!(matches!(
        decoder.decode(""),
        Err(ParseError::MappingMalformed(..))
    ));
    // overflow
    assert!(matches!(
        decoder.decode("AAAAAAAAAAA"),
        Err(ParseError::MappingMalformed(..))
    ));
}

#[test]
fn test_vlq_round_trip_values() {
    // decode("AAAA") yields four zero deltas; re-encoding each from a zero
    // baseline reproduces "AAAA", and likewise for "Q"
    let mut decoder = VlqDecoder::new();
    let vals = decoder.decode("AAAA").unwrap();
    assert_eq!(vals, vec![0, 0, 0, 0]);
    let vals = decoder.decode("Q").unwrap();
    assert_eq!(vals.len(), 1);
    assert_eq!(vals[0], 8);

    // a negative delta survives the trip through its sign bit
    let mut buf = Vec::new();
    let mut encoder = VlqEncoder::new();
    encoder.encode(&mut buf, 7, 2);
    let segment = String::from_utf8(buf).unwrap();
    let vals = decoder.decode(&segment).unwrap();
    assert_eq!(vals, vec![-5]);
}

#[test]
fn test_vlq_rejects_trailing_continuation() {
    // '0' carries the continuation bit (value 52), so the group never ends
    let mut decoder = VlqDecoder::new();
    assert!(matches!(
        decoder.decode("A0"),
        Err(ParseError::MappingMalformed(..))
    ));
}

#[test]
fn test_vlq_rejects_wrong_count() {
    // two numbers are neither 1, 4 nor 5
    let mut decoder = VlqDecoder::new();
    assert!(matches!(
        decoder.decode("AA"),
        Err(ParseError::MappingMalformed(..))
    ));
}
