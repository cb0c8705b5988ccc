use cs120_project::icmp::{ICMPType, ICMP};
use cs120_project::ip_packet::{IpPacket, IpProtocol};

const SELF_ADDRESS: u32 = 0xAC12_0303; // 172.18.3.3
const GATEWAY_ADDRESS: u32 = 0xAC12_0001; // 172.18.0.1

/// An echo request from 172.18.0.1 to 172.18.3.3, as a virtual device hands
/// it over.
fn ping_request() -> Vec<u8> {
    let mut b = vec![
        0x45, 0x00, 0x00, 0x3c, 0x1a, 0x2b, 0x00, 0x00, 0x80, 0x01, 0xc5, 0x6d, 0xac, 0x12, 0x00,
        0x01, 0xac, 0x12, 0x03, 0x03, 0x08, 0x00, 0x4d, 0x48, 0x00, 0x01, 0x00, 0x13,
    ];
    b.extend(97u8..=119);
    b.extend(97u8..=105);
    b
}

/// A TCP segment header from 172.18.3.3 to 93.184.216.34.
fn tcp_segment() -> Vec<u8> {
    let mut b = vec![
        0x45, 0x00, 0x00, 0x28, 0x00, 0x07, 0x40, 0x00, 0x80, 0x06, 0x15, 0xd9, 0xac, 0x12, 0x03,
        0x03, 0x5d, 0xb8, 0xd8, 0x22,
    ];
    b.extend_from_slice(&[0xc3, 0x50, 0x00, 0x50, 0, 0, 0, 1, 0, 0, 0, 0, 0x50, 0x02, 0xfa, 0xf0, 0, 0, 0, 0]);
    b
}

/// A UDP datagram from 192.168.0.1 to 192.168.0.199.
fn udp_datagram() -> Vec<u8> {
    vec![
        0x45, 0x00, 0x00, 0x73, 0x00, 0x00, 0x40, 0x00, 0x40, 0x11, 0xb8, 0x61, 0xc0, 0xa8, 0x00,
        0x01, 0xc0, 0xa8, 0x00, 0xc7, 0x00, 0x35, 0x00, 0x35,
    ]
}

#[test]
fn test_get_protocol() {
    let recorded = [
        (ping_request(), IpProtocol::ICMP),
        (tcp_segment(), IpProtocol::TCP),
        (udp_datagram(), IpProtocol::UDP),
    ];
    for (packet_bytes, protocol) in recorded {
        let ip_packet = IpPacket::new_from_bytes(&packet_bytes);
        assert_eq!(ip_packet.get_protocol(), protocol);
    }
}

#[test]
fn test_checksum() {
    for (packet_bytes, checksum) in [(ping_request(), 0xc56d), (tcp_segment(), 0x15d9), (udp_datagram(), 0xb861)] {
        let ip_packet = IpPacket::new_from_bytes(&packet_bytes);
        assert_eq!(ip_packet.calc_header_checksum(), checksum);
        assert!(ip_packet.check_header_checksum());
    }
    let mut damaged = ping_request();
    damaged[15] ^= 1;
    assert!(!IpPacket::new_from_bytes(&damaged).check_header_checksum());
}

#[test]
fn test_local_ping() {
    let packet_bytes = ping_request();
    let ip_packet = IpPacket::new_from_bytes(&packet_bytes);
    assert_eq!(ip_packet.get_protocol(), IpProtocol::ICMP);
    assert!(ip_packet.check_header_checksum());
    assert_eq!(ip_packet.get_destination_address(), SELF_ADDRESS);

    let icmp = ICMP::try_new_from_ip_packet(&ip_packet).unwrap();
    assert!(icmp.check_checksum());
    assert_eq!(icmp.get_type(), ICMPType::EchoRequest);

    let reply = icmp.reply_echo();
    let mut reply_packet = ip_packet.clone();
    reply_packet.set_destination_address(ip_packet.get_source_address());
    reply_packet.set_source_address(ip_packet.get_destination_address());
    reply_packet.set_data(reply.get_icmp_bytes());

    assert_eq!(reply_packet.get_destination_address(), GATEWAY_ADDRESS);
    assert_eq!(reply_packet.get_source_address(), SELF_ADDRESS);
    assert!(reply_packet.check_header_checksum());
    let answer = ICMP::try_new_from_ip_packet(&reply_packet).unwrap();
    assert_eq!(answer.get_type(), ICMPType::EchoReply);
    assert!(answer.check_checksum());
    assert_eq!(&answer.get_icmp_bytes()[4..], &packet_bytes[24..]);
}
