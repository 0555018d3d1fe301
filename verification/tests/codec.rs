use rup::codec::{decode_echo, encode_echo, CodecError, EchoHeader, PING_HDR_LEN};
use rup::framing::{client_request_bytes, frame_echo, response_remainder, server_reply_bytes};

#[test]
fn encode_is_big_endian_fixed_layout() {
    let h = EchoHeader { id: 0x0102030405060708, len: 0x090a, resp_size: 0x0b0c };
    let bytes = encode_echo(&h);
    assert_eq!(bytes, vec![1, 2, 3, 4, 5, 6, 7, 8, 9, 10, 11, 12]);
}

#[test]
fn decode_encode_roundtrip() {
    let h = EchoHeader { id: 0xfedc_ba98_7654_3210, len: 20, resp_size: 40 };
    let bytes = encode_echo(&h);
    assert_eq!(bytes.len(), PING_HDR_LEN);
    let back = decode_echo(&bytes).unwrap();
    assert_eq!(back, h);
}

#[test]
fn decode_short_buffer_is_malformed() {
    let bytes = [0u8; 11];
    assert_eq!(decode_echo(&bytes), Err(CodecError::MalformedHeader));
    let empty: [u8; 0] = [];
    assert_eq!(decode_echo(&empty), Err(CodecError::MalformedHeader));
}

#[test]
fn decode_reads_only_first_twelve_bytes() {
    let h = EchoHeader { id: 42, len: 64, resp_size: 12 };
    let mut bytes = encode_echo(&h);
    bytes.extend_from_slice(&[0xff; 52]);
    assert_eq!(decode_echo(&bytes).unwrap(), h);
}

#[test]
fn client_request_pads_to_declared_length() {
    let bytes = client_request_bytes(3, Some(20), None);
    assert_eq!(bytes.len(), 20);
    let h = decode_echo(&bytes).unwrap();
    assert_eq!(h, EchoHeader { id: 3, len: 20, resp_size: 12 });
    assert!(bytes[12..].iter().all(|b| *b == 0));
}

#[test]
fn client_request_defaults_to_header_size() {
    let bytes = client_request_bytes(9, None, None);
    assert_eq!(bytes.len(), 12);
    let h = decode_echo(&bytes).unwrap();
    assert_eq!(h, EchoHeader { id: 9, len: 12, resp_size: 12 });
}

#[test]
fn server_reply_swaps_lengths_and_pads() {
    let req = EchoHeader { id: 7, len: 20, resp_size: 32 };
    let bytes = server_reply_bytes(&req);
    assert_eq!(bytes.len(), 32);
    let h = decode_echo(&bytes).unwrap();
    assert_eq!(h, EchoHeader { id: 7, len: 32, resp_size: 0 });
    assert!(bytes[12..].iter().all(|b| *b == 0));
}

#[test]
fn server_reply_truncates_below_header_size() {
    let req = EchoHeader { id: 1, len: 12, resp_size: 8 };
    let reply = server_reply_bytes(&req);
    let full = encode_echo(&EchoHeader { id: 1, len: 8, resp_size: 0 });
    assert_eq!(reply, full[..8].to_vec());
}

#[test]
fn frame_echo_exact_header_length() {
    let h = EchoHeader { id: 5, len: 12, resp_size: 12 };
    let bytes = frame_echo(&h, 12);
    assert_eq!(bytes, encode_echo(&h));
}

#[test]
fn response_remainder_counts_body_bytes() {
    assert_eq!(response_remainder(&EchoHeader { id: 0, len: 100, resp_size: 0 }), 88);
    assert_eq!(response_remainder(&EchoHeader { id: 0, len: 12, resp_size: 0 }), 0);
    assert_eq!(response_remainder(&EchoHeader { id: 0, len: 5, resp_size: 0 }), 0);
}
