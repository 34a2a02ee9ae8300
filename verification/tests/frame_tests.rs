//! Frame construction, checksums, and the check round trip.

use athernet::mac::{MacFrame, BROADCAST_MAC, OP_ACK, OP_DATA, OP_PING_REPLY, OP_PING_REQ};
use athernet::utils::{crc8_checksum, crc16_checksum, ones_complete_checksum, slice_to_le_u16,
                      slice_to_le_u32};

#[test]
fn crc16_known_value() {
    // The CRC-16/ARC check value from the crc16 crate's own documentation.
    assert_eq!(crc16_checksum(b"123456789"), 0xBB3D);
}

#[test]
fn crc16_distinguishes_inputs() {
    assert_ne!(crc16_checksum(&[0x00]), crc16_checksum(&[0x01]));
    assert_ne!(crc16_checksum(b"12345678"), crc16_checksum(b"123456789"));
}

#[test]
fn crc8_known_value() {
    assert_eq!(crc8_checksum(&[0x31, 0x32, 0x33]), 0x9C);
    assert_eq!(crc8_checksum(&[]), 0);
}

#[test]
fn crc8_self_check_is_zero() {
    let data = vec![0xDE, 0xAD, 0xBE, 0xEF];
    let crc = crc8_checksum(&data);
    let mut framed = data.clone();
    framed.push(crc);
    assert_eq!(crc8_checksum(&framed), 0);
}

#[test]
fn crc16_self_check_is_zero() {
    let data = vec![0x10, 0x20, 0x30, 0x40, 0x50];
    let crc = crc16_checksum(&data);
    let mut framed = data.clone();
    framed.push((crc & 0xff) as u8);
    framed.push((crc >> 8) as u8);
    assert_eq!(crc16_checksum(&framed), 0);
}

#[test]
fn data_frame_fields() {
    let payload = [0x41u8, 0x42, 0x43];
    let frame = MacFrame::new_data(0x1, 0x2, 0x5, &payload);
    assert_eq!(frame.get_src(), 0x1);
    assert_eq!(frame.get_dest(), 0x2);
    assert_eq!(frame.get_op(), OP_DATA);
    assert_eq!(frame.get_tag(), 0x5);
    assert!(frame.is_data());
    assert!(!frame.is_ack());
    assert!(!frame.is_ping_request());
    assert!(!frame.to_broadcast());
    assert_eq!(frame.get_payload_size(), 3);
    assert_eq!(frame.get_size(), 6);
    assert_eq!(frame.get_crc_size(), 2);
    assert_eq!(frame.get_total_size(), 8);
    assert_eq!(frame.unwrap(), payload.to_vec());
}

#[test]
fn control_frame_fields() {
    let ack = MacFrame::new_ack(0x3, 0x1, 0x7);
    assert_eq!(ack.get_op(), OP_ACK);
    assert!(ack.is_ack());
    assert_eq!(ack.get_size(), 2);
    assert_eq!(ack.get_crc_size(), 1);
    assert_eq!(ack.get_total_size(), 3);
    assert_eq!(ack.get_payload_size(), 0);
    assert_eq!(ack.unwrap(), Vec::<u8>::new());

    let req = MacFrame::new_ping_request(0x1, 0x3, 0x2);
    assert_eq!(req.get_op(), OP_PING_REQ);
    assert!(req.is_ping_request());

    let reply = MacFrame::new_ping_reply(0x3, 0x1, 0x2);
    assert_eq!(reply.get_op(), OP_PING_REPLY);
}

#[test]
fn ack_frame_bytes() {
    let ack = MacFrame::new_ack(0x3, 0x1, 0x5);
    let raw = ack.into_raw();
    assert_eq!(raw[0], 0x13);
    assert_eq!(raw[1], 0x5F);
    assert_eq!(raw[2], 0x9D);
}

#[test]
fn check_roundtrip_data() {
    let frame = MacFrame::new_data(0x1, 0x2, 0x0, &[0x41, 0x42, 0x43]);
    assert!(frame.check(0x2));
    assert!(!frame.check(0x3));
}

#[test]
fn check_roundtrip_controls() {
    assert!(MacFrame::new_ack(0x3, 0x1, 0x7).check(0x1));
    assert!(MacFrame::new_ping_request(0x1, 0x3, 0x0).check(0x3));
    assert!(MacFrame::new_ping_reply(0x3, 0x1, 0x0).check(0x1));
}

#[test]
fn check_broadcast_everywhere() {
    let frame = MacFrame::new_data(0x1, BROADCAST_MAC, 0x0, &[9, 8, 7]);
    assert!(frame.to_broadcast());
    for addr in 0..16u8 {
        assert!(frame.check(addr));
    }
}

#[test]
fn check_rejects_corruption() {
    let frame = MacFrame::new_data(0x1, 0x2, 0x0, &[0x41, 0x42, 0x43]);
    for i in 0..frame.get_total_size() {
        let mut raw = frame.into_raw();
        raw[i] ^= 0x01;
        let mutated = MacFrame::from_raw(raw);
        assert!(!mutated.check(0x2), "flipped byte {} still passed", i);
    }
}

#[test]
fn check_rejects_corrupt_control() {
    let ack = MacFrame::new_ack(0x3, 0x1, 0x7);
    let mut raw = ack.into_raw();
    raw[2] ^= 0xFF;
    assert!(!MacFrame::from_raw(raw).check(0x1));
}

#[test]
fn empty_payload_frame() {
    let frame = MacFrame::new_data(0x1, 0x2, 0x0, &[]);
    assert_eq!(frame.get_payload_size(), 0);
    assert_eq!(frame.get_total_size(), 5);
    assert!(frame.check(0x2));
    assert_eq!(frame.unwrap(), Vec::<u8>::new());
}

#[test]
fn largest_payload_frame() {
    let payload = vec![0xA5u8; 251];
    let frame = MacFrame::new_data(0x1, 0x2, 0xF, &payload);
    assert_eq!(frame.get_payload_size(), 251);
    assert_eq!(frame.get_total_size(), 256);
    assert!(frame.check(0x2));
    assert_eq!(frame.unwrap(), payload);
}

#[test]
fn address_masking() {
    let frame = MacFrame::new_data(0xF1, 0xF2, 0xF5, &[1]);
    assert_eq!(frame.get_src(), 0x1);
    assert_eq!(frame.get_dest(), 0x2);
    assert_eq!(frame.get_tag(), 0x5);
}

#[test]
fn ones_complement_checksum_value() {
    assert_eq!(ones_complete_checksum(&[0x01, 0x02, 0x03, 0x04]), 0xF9FB);
    assert_eq!(ones_complete_checksum(&[]), 0xFFFF);
}

#[test]
fn little_endian_readers() {
    assert_eq!(slice_to_le_u16(&[0x34, 0x12]), 0x1234);
    assert_eq!(slice_to_le_u32(&[0x78, 0x56, 0x34, 0x12]), 0x12345678);
}
