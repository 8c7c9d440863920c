use locutus_p2p::error::{ConnectionError, IoErrorKind};
use locutus_p2p::framing::{decode_frame, encode_frame, DEFAULT_MAX_PACKET_SIZE};

fn malformed(text: &str) -> ConnectionError {
    ConnectionError::IOError(Some(IoErrorKind::Other(Some(text.to_string()))))
}

#[test]
fn small_packet_has_one_length_byte() {
    assert_eq!(encode_frame(vec![7, 8, 9]).unwrap(), vec![3, 7, 8, 9]);
    assert_eq!(encode_frame(vec![]).unwrap(), vec![0]);
}

#[test]
fn longer_packet_has_more_length_bytes() {
    let frame = encode_frame(vec![1; 300]).unwrap();
    assert_eq!(frame[..2], [0xac, 0x02]);
    assert_eq!(frame.len(), 302);
}

#[test]
fn packet_of_maximum_size_is_accepted() {
    let payload = vec![5u8; DEFAULT_MAX_PACKET_SIZE];
    let frame = encode_frame(payload.clone()).unwrap();
    assert_eq!(frame[..3], [0x80, 0x80, 0x01]);
    assert_eq!(decode_frame(&frame).unwrap(), Some((payload, vec![])));
}

#[test]
fn longer_than_maximum_is_refused() {
    assert_eq!(DEFAULT_MAX_PACKET_SIZE, 16384);
    assert_eq!(
        encode_frame(vec![5; 16385]),
        Err(ConnectionError::IOError(Some(IoErrorKind::PermissionDenied)))
    );
    // the length of 16385 alone is enough to refuse the packet
    assert_eq!(
        decode_frame(&vec![0x81, 0x80, 0x01]),
        Err(ConnectionError::IOError(Some(IoErrorKind::PermissionDenied)))
    );
}

#[test]
fn packet_is_read_back_and_rest_is_left() {
    let mut bytes = encode_frame(vec![1, 2, 3]).unwrap();
    bytes.extend(vec![9, 9]);
    assert_eq!(
        decode_frame(&bytes).unwrap(),
        Some((vec![1, 2, 3], vec![9, 9]))
    );
}

#[test]
fn packets_are_read_back_in_order() {
    let payloads = vec![vec![1u8; 200], vec![], vec![2, 3]];
    let mut bytes = vec![];
    for payload in &payloads {
        bytes.extend(encode_frame(payload.clone()).unwrap());
    }
    let mut read = vec![];
    while let Some((payload, rest)) = decode_frame(&bytes).unwrap() {
        read.push(payload);
        bytes = rest;
    }
    assert_eq!(read, payloads);
    assert!(bytes.is_empty());
}

#[test]
fn partial_packet_is_waited_for() {
    let frame = encode_frame(vec![4; 150]).unwrap();
    for arrived in 0..frame.len() {
        assert_eq!(decode_frame(&frame[..arrived].to_vec()).unwrap(), None);
    }
}

#[test]
fn malformed_length_is_refused() {
    assert_eq!(
        decode_frame(&vec![0x80, 0x00, 1, 2]),
        Err(malformed("encoding is not minimal"))
    );
    assert_eq!(
        decode_frame(&vec![0xff; 10]),
        Err(malformed("input bytes exceed maximum"))
    );
}

#[test]
fn lost_bits_of_a_length_do_not_count() {
    // the only bits that are set stand for 2 to the power of 64
    let mut bytes = vec![0x80u8; 9];
    bytes.push(0x02);
    bytes.push(0x55);
    assert_eq!(decode_frame(&bytes).unwrap(), Some((vec![], vec![0x55])));
}
