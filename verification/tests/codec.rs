use netsync::codec::{decode, encode, pack_encodable, Cmd, DecodeError, Pack};

#[test]
fn round_trip_connect() {
    let p = Pack::new(Cmd::Connect("token".to_string()), 7, None);
    let bytes = encode(&p);
    assert_eq!(decode(&bytes), Ok(p));
}

#[test]
fn round_trip_move_with_ack() {
    let p = Pack::new(Cmd::Move { x: 123456, y: 4294967295 }, 42, Some(41));
    let bytes = encode(&p);
    assert_eq!(decode(&bytes), Ok(p));
}

#[test]
fn round_trip_leave() {
    let p = Pack::new(Cmd::Leave, 4294967295, Some(0));
    let bytes = encode(&p);
    assert_eq!(decode(&bytes), Ok(p));
}

#[test]
fn round_trip_empty_payload() {
    let p = Pack::new(Cmd::Connect(String::new()), 0, None);
    let bytes = encode(&p);
    assert_eq!(decode(&bytes), Ok(p));
}

#[test]
fn encode_exact_bytes_leave() {
    let p = Pack::new(Cmd::Leave, 1, None);
    assert_eq!(encode(&p), vec![0, 0, 0, 1, 0, 3]);
}

#[test]
fn encode_exact_bytes_connect_with_ack() {
    let p = Pack::new(Cmd::Connect("ab".to_string()), 0x01020304, Some(5));
    assert_eq!(
        encode(&p),
        vec![1, 2, 3, 4, 1, 0, 0, 0, 5, 1, 0, 2, 97, 98]
    );
}

#[test]
fn encode_exact_bytes_move() {
    let p = Pack::new(Cmd::Move { x: 0x00010000, y: 0x00000203 }, 9, None);
    assert_eq!(
        encode(&p),
        vec![0, 0, 0, 9, 0, 2, 0, 1, 0, 0, 0, 0, 2, 3]
    );
}

#[test]
fn truncation_yields_truncated_at_every_boundary() {
    let packs = vec![
        Pack::new(Cmd::Connect("token".to_string()), 7, Some(3)),
        Pack::new(Cmd::Move { x: 1, y: 2 }, 8, None),
        Pack::new(Cmd::Leave, 9, None),
    ];
    for p in packs {
        let bytes = encode(&p);
        for cut in 0..bytes.len() {
            let prefix: Vec<u8> = bytes[..cut].to_vec();
            assert_eq!(decode(&prefix), Err(DecodeError::Truncated));
        }
    }
}

#[test]
fn unknown_tag_is_its_own_error() {
    // A valid header, then a tag no command owns.
    let bytes = vec![0, 0, 0, 1, 0, 200];
    assert_eq!(decode(&bytes), Err(DecodeError::UnknownTag));
}

#[test]
fn trailing_bytes_are_malformed() {
    let p = Pack::new(Cmd::Leave, 1, None);
    let mut bytes = encode(&p);
    bytes.push(0);
    assert_eq!(decode(&bytes), Err(DecodeError::Malformed));
}

#[test]
fn bad_ack_flag_is_malformed() {
    let bytes = vec![0, 0, 0, 1, 2, 3];
    assert_eq!(decode(&bytes), Err(DecodeError::Malformed));
}

#[test]
fn non_ascii_payload_byte_is_malformed() {
    // Connect with one payload byte above 127.
    let bytes = vec![0, 0, 0, 1, 0, 1, 0, 1, 200];
    assert_eq!(decode(&bytes), Err(DecodeError::Malformed));
}

#[test]
fn payload_shorter_than_declared_is_truncated() {
    // Connect declaring two payload bytes but carrying one.
    let bytes = vec![0, 0, 0, 1, 0, 1, 0, 2, 97];
    assert_eq!(decode(&bytes), Err(DecodeError::Truncated));
}

#[test]
fn encodable_rejects_non_ascii_payload() {
    let p = Pack::new(Cmd::Connect("tøken".to_string()), 0, None);
    assert!(!pack_encodable(&p));
    let q = Pack::new(Cmd::Connect("token".to_string()), 0, None);
    assert!(pack_encodable(&q));
}

#[test]
fn encodable_rejects_oversized_payload() {
    let big = "a".repeat(65536);
    let p = Pack::new(Cmd::Connect(big), 0, None);
    assert!(!pack_encodable(&p));
    let edge = "a".repeat(65535);
    let q = Pack::new(Cmd::Connect(edge), 0, None);
    assert!(pack_encodable(&q));
    let bytes = encode(&q);
    assert_eq!(decode(&bytes), Ok(q));
}
