//! IPv4/UDP headers and fragmentation.

use athernet::ipv4;
use athernet::udp;
use athernet::wire::IPV4DatagramBuilder;

fn builder(mtu: usize) -> IPV4DatagramBuilder {
    let mut b = IPV4DatagramBuilder::new(mtu);
    b.set_identification(1000);
    b.set_time_to_live(20);
    b.set_src([10, 0, 0, 1], 40001);
    b.set_dest([10, 0, 0, 2], 40002);
    b
}

#[test]
fn udp_header_fields() {
    let header = udp::Header::new(40001, 40002, 100);
    assert_eq!(header.get_src_port(), 40001);
    assert_eq!(header.get_dest_port(), 40002);
    assert_eq!(header.get_length(), 108);
    assert_eq!(header.get_checksum(), 0);
    assert_eq!(header.get_slice().len(), 8);
    let copy = udp::Header::from_slice(header.get_slice());
    assert_eq!(copy.get_src_port(), 40001);
}

#[test]
fn ipv4_header_fields() {
    let header = ipv4::Header::new(
        0, 1500, 100, 1000, true, 0, 20, udp::PROTOCOL, [10, 0, 0, 1], [10, 0, 0, 2],
    );
    assert_eq!(header.get_version(), 4);
    assert_eq!(header.get_header_length(), 20);
    assert_eq!(header.get_differential_service(), 0);
    assert_eq!(header.get_total_length(), 120);
    assert_eq!(header.get_payload_length(), 100);
    assert_eq!(header.get_identification(), 1000);
    assert!(header.get_do_not_fragment());
    assert!(!header.get_more_fragment());
    assert_eq!(header.get_fragment_offset(), 0);
    assert_eq!(header.get_time_to_live(), 20);
    assert_eq!(header.get_protocol(), udp::PROTOCOL);
    assert_eq!(header.get_src_ip(), [10, 0, 0, 1]);
    assert_eq!(header.get_dest_ip(), [10, 0, 0, 2]);
    assert!(header.checksum());
}

#[test]
fn ipv4_checksum_rejects_corruption() {
    let header = ipv4::Header::new(
        0, 1500, 100, 1000, true, 0, 20, udp::PROTOCOL, [10, 0, 0, 1], [10, 0, 0, 2],
    );
    let mut bytes = header.get_slice().to_vec();
    bytes[8] ^= 0x10;
    let corrupt = ipv4::Header::from_slice(&bytes);
    assert!(!corrupt.checksum());
}

#[test]
fn ipv4_header_cuts_to_transmission_unit() {
    let header = ipv4::Header::new(
        0, 48, 100, 1, true, 0, 9, udp::PROTOCOL, [1, 2, 3, 4], [5, 6, 7, 8],
    );
    // (48 - 20) / 8 * 8 = 24 payload bytes per fragment.
    assert_eq!(header.get_total_length(), 44);
    assert_eq!(header.get_payload_length(), 24);
    assert!(header.get_more_fragment());
}

#[test]
fn enable_fragment_clears_the_flag() {
    let mut b = builder(200);
    b.enable_fragment();
    let header = b.create_ip_header(udp::PROTOCOL, 0, 50);
    assert!(!header.get_do_not_fragment());
}

#[test]
fn single_datagram_when_payload_fits() {
    let b = builder(200);
    let data: Vec<u8> = (0..50u8).collect();
    let mut iter = b.finalize_udp_with_data(&data);
    let datagram = iter.next().expect("one datagram");
    assert!(iter.next().is_none());
    let bytes = &datagram.0;
    // 20 IP header + 8 UDP header + 50 payload.
    assert_eq!(bytes.len(), 78);
    let ip = ipv4::Header::from_slice(bytes);
    assert!(ip.checksum());
    assert_eq!(ip.get_payload_length(), 58);
    assert!(!ip.get_more_fragment());
    let udp_header = udp::Header::from_slice(&bytes[20..]);
    assert_eq!(udp_header.get_src_port(), 40001);
    assert_eq!(udp_header.get_dest_port(), 40002);
    assert_eq!(udp_header.get_length(), 58);
    assert_eq!(&bytes[28..], &data[..]);
}

#[test]
fn fragments_reassemble_to_payload() {
    let b = builder(48);
    let data: Vec<u8> = (0..100u8).collect();
    let mut iter = b.finalize_udp_with_data(&data);
    let mut whole = Vec::new();
    let mut fragments = 0;
    while let Some(datagram) = iter.next() {
        fragments += 1;
        let bytes = &datagram.0;
        let ip = ipv4::Header::from_slice(bytes);
        assert!(ip.checksum());
        assert_eq!(bytes.len(), ip.get_total_length());
        whole.extend_from_slice(&bytes[20..]);
    }
    // 8 UDP header bytes + 100 payload bytes in 24-byte cuts: five fragments.
    assert_eq!(fragments, 5);
    assert_eq!(whole.len(), 108);
    let udp_header = udp::Header::from_slice(&whole);
    assert_eq!(udp_header.get_length(), 108);
    assert_eq!(&whole[8..], &data[..]);
}

#[test]
fn fragment_flags_and_sizes() {
    let b = builder(48);
    let data: Vec<u8> = vec![7; 30];
    let mut iter = b.finalize_udp_with_data(&data);
    let first = iter.next().unwrap();
    let second = iter.next().unwrap();
    assert!(iter.next().is_none());
    let ip1 = ipv4::Header::from_slice(&first.0);
    let ip2 = ipv4::Header::from_slice(&second.0);
    assert!(ip1.get_more_fragment());
    assert!(!ip2.get_more_fragment());
    assert_eq!(ip1.get_payload_length(), 24);
    assert_eq!(ip2.get_payload_length(), 14);
}
