use conductor_relay::codec::{decode, encode, request, DecodeError, Message};

fn round_trips(m: Message) {
    let bytes = encode(&m);
    assert_eq!(decode(&bytes), Ok(m));
}

#[test]
fn round_trip_request() {
    round_trips(Message::Request { id: b"call-1".to_vec(), data: vec![1, 2, 3] });
}

#[test]
fn round_trip_response() {
    round_trips(Message::Response { id: b"call-1".to_vec(), data: vec![9, 8, 7, 6] });
}

#[test]
fn round_trip_signal() {
    round_trips(Message::Signal { data: vec![0, 255, 128] });
}

#[test]
fn round_trip_empty_fields() {
    round_trips(Message::Request { id: Vec::new(), data: Vec::new() });
    round_trips(Message::Signal { data: Vec::new() });
}

#[test]
fn round_trip_wide_length_prefixes() {
    // str8 id, bin16 data
    round_trips(Message::Request { id: vec![b'x'; 40], data: vec![7; 300] });
    // str16 id, bin8 data
    round_trips(Message::Response { id: vec![b'y'; 300], data: vec![1; 200] });
    // bin32 data
    round_trips(Message::Signal { data: vec![5; 70_000] });
}

#[test]
fn request_exact_wire_bytes() {
    let bytes = request(b"ab".to_vec(), vec![1, 2]);
    let expected: Vec<u8> = vec![
        0x83, // fixmap, 3 entries
        0xa4, b't', b'y', b'p', b'e', // "type"
        0xa7, b'R', b'e', b'q', b'u', b'e', b's', b't', // "Request"
        0xa2, b'i', b'd', // "id"
        0xa2, b'a', b'b', // id payload as fixstr
        0xa4, b'd', b'a', b't', b'a', // "data"
        0xc4, 0x02, 0x01, 0x02, // data payload as bin8
    ];
    assert_eq!(bytes, expected);
}

#[test]
fn decode_empty_is_malformed() {
    assert_eq!(decode(&Vec::new()), Err(DecodeError::MalformedFrame));
}

#[test]
fn decode_non_map_is_malformed() {
    assert_eq!(decode(&vec![0xc4, 0x01, 0x00]), Err(DecodeError::MalformedFrame));
}

#[test]
fn decode_unknown_variant() {
    let mut bytes: Vec<u8> = vec![0x82];
    bytes.extend_from_slice(&[0xa4, b't', b'y', b'p', b'e']);
    bytes.extend_from_slice(&[0xa4, b'N', b'o', b'p', b'e']);
    assert_eq!(decode(&bytes), Err(DecodeError::UnknownVariant));
}

#[test]
fn decode_truncated_is_malformed() {
    let full = encode(&Message::Response { id: b"r".to_vec(), data: vec![1, 2, 3] });
    let cut = full[..full.len() - 2].to_vec();
    assert_eq!(decode(&cut), Err(DecodeError::MalformedFrame));
}

#[test]
fn decode_trailing_bytes_are_malformed() {
    let mut bytes = encode(&Message::Signal { data: vec![4] });
    bytes.push(0x00);
    assert_eq!(decode(&bytes), Err(DecodeError::MalformedFrame));
}

#[test]
fn decode_wrong_map_size_is_malformed() {
    // A Signal under a 3-entry map header.
    let signal = encode(&Message::Signal { data: vec![4] });
    let mut bytes = signal.clone();
    bytes[0] = 0x83;
    assert_eq!(decode(&bytes), Err(DecodeError::MalformedFrame));
}
