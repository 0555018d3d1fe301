use rup::checksum::{csum16_add, csum16_slice};
use rup::codec::decode_echo;
use rup::icmp::{build_icmp_echo_request, icmp_response_index};

#[test]
fn csum16_add_without_carry() {
    assert_eq!(csum16_add(0x0001, 0x0002), 0x0003);
    assert_eq!(csum16_add(0x1234, 0x4321), 0x5555);
    assert_eq!(csum16_add(0x0000, 0xffff), 0xffff);
}

#[test]
fn csum16_add_folds_end_around_carry() {
    assert_eq!(csum16_add(0xffff, 0x0001), 0x0001);
    assert_eq!(csum16_add(0x8000, 0x8000), 0x0001);
    assert_eq!(csum16_add(0xffff, 0xffff), 0xffff);
}

#[test]
fn csum16_slice_known_value() {
    let data = [0x00u8, 0x01, 0x00, 0x02];
    assert_eq!(csum16_slice(&data), !0x0003u16);
    let empty: [u8; 0] = [];
    assert_eq!(csum16_slice(&empty), 0xffff);
}

#[test]
fn checksum_patched_buffer_verifies_to_zero() {
    let data: Vec<u8> = vec![0x08, 0x00, 0x00, 0x00, 0x12, 0x34, 0x00, 0x07, 0xab, 0xcd];
    let c = csum16_slice(&data);
    let mut patched = data.clone();
    patched[2] = (c >> 8) as u8;
    patched[3] = (c & 0xff) as u8;
    assert_eq!(csum16_slice(&patched), 0);
}

#[test]
fn icmp_request_layout_and_checksum() {
    let pkt = build_icmp_echo_request(5, None, None);
    assert_eq!(pkt.len(), 20);
    assert_eq!(pkt[0], 8);
    assert_eq!(pkt[1], 0);
    assert_eq!(pkt[4], 0x12);
    assert_eq!(pkt[5], 0x34);
    assert_eq!(pkt[6], 0);
    assert_eq!(pkt[7], 5);
    let echo = decode_echo(&pkt[8..]).unwrap();
    assert_eq!(echo.id, 5);
    assert_eq!(echo.len, 12);
    assert_eq!(echo.resp_size, 12);
    assert_eq!(csum16_slice(&pkt), 0);
}

#[test]
fn icmp_request_sequence_is_low_sixteen_bits() {
    let pkt = build_icmp_echo_request(0x0001_0203, Some(40), Some(20));
    assert_eq!(pkt.len(), 48);
    assert_eq!(pkt[6], 0x02);
    assert_eq!(pkt[7], 0x03);
    let echo = decode_echo(&pkt[8..]).unwrap();
    assert_eq!(echo.id, 0x0001_0203);
    assert_eq!(echo.len, 40);
    assert_eq!(echo.resp_size, 20);
    assert!(pkt[20..].iter().all(|b| *b == 0));
    assert_eq!(csum16_slice(&pkt), 0);
}

#[test]
fn icmp_response_index_skips_ip_and_icmp_headers() {
    let mut buf = vec![0u8; 28];
    let echo = rup::codec::encode_echo(&rup::codec::EchoHeader { id: 7, len: 12, resp_size: 0 });
    buf.extend_from_slice(&echo);
    buf.extend_from_slice(&[0xee; 10]);
    assert_eq!(icmp_response_index(&buf), 7);
}
