//! The wire framing: the two-byte big-endian length prefix, its size limit,
//! and the integrity of concatenated frames.
use rlbot::wire::frame_payload;
use rlbot::wire::parse_frame_at;
use rlbot::PacketBuildError;

#[test]
fn frame_roundtrip_small_payload() {
    let payload = vec![1u8, 2, 3];
    let frame = frame_payload(&payload).unwrap();
    assert_eq!(frame, vec![0u8, 3, 1, 2, 3]);
    let (back, consumed) = parse_frame_at(&frame, 0).unwrap();
    assert_eq!(back, payload);
    assert_eq!(consumed, 5);
}

#[test]
fn frame_roundtrip_empty_payload() {
    let payload: Vec<u8> = vec![];
    let frame = frame_payload(&payload).unwrap();
    assert_eq!(frame, vec![0u8, 0]);
    let (back, consumed) = parse_frame_at(&frame, 0).unwrap();
    assert_eq!(back, payload);
    assert_eq!(consumed, 2);
}

#[test]
fn payload_of_exactly_65535_bytes_succeeds() {
    let payload = vec![7u8; 65535];
    let frame = frame_payload(&payload).unwrap();
    assert_eq!(frame.len(), 65537);
    assert_eq!(frame[0], 255);
    assert_eq!(frame[1], 255);
    let (back, consumed) = parse_frame_at(&frame, 0).unwrap();
    assert_eq!(back.len(), 65535);
    assert_eq!(back, payload);
    assert_eq!(consumed, 65537);
}

#[test]
fn payload_of_65536_bytes_fails_as_too_large() {
    let payload = vec![7u8; 65536];
    match frame_payload(&payload) {
        Err(PacketBuildError::PayloadTooLarge(n)) => assert_eq!(n, 65536),
        _ => panic!("a 65536-byte payload must be rejected"),
    }
}

#[test]
fn incomplete_frame_is_not_parsed() {
    // length prefix only
    let buf = vec![0u8, 3];
    assert!(parse_frame_at(&buf, 0).is_none());
    // length prefix promising more bytes than present
    let buf = vec![0u8, 3, 1, 2];
    assert!(parse_frame_at(&buf, 0).is_none());
    // a single byte is not even a length prefix
    let buf = vec![0u8];
    assert!(parse_frame_at(&buf, 0).is_none());
}

#[test]
fn concatenated_frames_parse_without_bleeding() {
    let a = vec![10u8, 20];
    let b: Vec<u8> = vec![];
    let c = vec![30u8, 40, 50];
    let mut stream = frame_payload(&a).unwrap();
    stream.extend(frame_payload(&b).unwrap());
    stream.extend(frame_payload(&c).unwrap());

    let (pa, p1) = parse_frame_at(&stream, 0).unwrap();
    assert_eq!(pa, a);
    let (pb, p2) = parse_frame_at(&stream, p1).unwrap();
    assert_eq!(pb, b);
    let (pc, p3) = parse_frame_at(&stream, p2).unwrap();
    assert_eq!(pc, c);
    assert_eq!(p3, stream.len());
}
