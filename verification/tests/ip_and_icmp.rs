use cs120_project::icmp::{ICMPType, ICMP};
use cs120_project::ip_packet::{IpPacket, IpProtocol};
use pnet::packet::icmp::{IcmpPacket, IcmpTypes};
use pnet::packet::Packet;

fn udp_header() -> Vec<u8> {
    vec![
        0x45, 0x00, 0x00, 0x73, 0x00, 0x00, 0x40, 0x00, 0x40, 0x11, 0xb8, 0x61, 0xc0, 0xa8, 0x00,
        0x01, 0xc0, 0xa8, 0x00, 0xc7,
    ]
}

fn udp_packet_bytes() -> Vec<u8> {
    let mut b = udp_header();
    b.extend_from_slice(&[1, 2, 3]);
    b
}

fn echo_request_bytes() -> Vec<u8> {
    let mut v = vec![8u8, 0, 77, 72, 0, 1, 0, 19];
    v.extend(97u8..=119);
    v.extend(97u8..=105);
    v
}

fn icmp_packet_bytes(src: u32, dst: u32, icmp: &[u8]) -> Vec<u8> {
    let mut b = vec![0x45, 0x00, 0x00, 0x00, 0x12, 0x34, 0x00, 0x00, 0x40, 0x01, 0x00, 0x00];
    b.extend_from_slice(&src.to_be_bytes());
    b.extend_from_slice(&dst.to_be_bytes());
    b.extend_from_slice(icmp);
    let mut p = IpPacket::new_from_bytes(&b);
    p.update_header_checksum();
    p.get_ip_packet_bytes()
}

#[test]
fn test_ippacket_to_icmp() {
    let icmp_data = [
        8, 0, 77, 72, 0, 1, 0, 19, 97, 98, 99, 100, 101, 102, 103, 104, 105, 106, 107, 108, 109,
        110, 111, 112, 113, 114, 115, 116, 117, 118, 119, 97, 98, 99, 100, 101, 102, 103, 104, 105,
    ];
    let icmp = ICMP::try_new_from_bytes(&icmp_data.to_vec()).unwrap();
    let mut data = icmp.get_icmp_bytes();
    let mut_icmp = IcmpPacket::new(&mut data).unwrap();
    assert_eq!(mut_icmp.packet(), &icmp_data[..]);
    assert_eq!(mut_icmp.get_icmp_type(), IcmpTypes::EchoRequest);
    assert_eq!(mut_icmp.get_checksum(), 0x4d48);
}

#[test]
fn ip_header_fields_are_read() {
    let p = IpPacket::new_from_bytes(&udp_packet_bytes());
    assert_eq!(IpPacket::get_version(), 4);
    assert_eq!(p.get_internet_header_length(), 5);
    assert_eq!(p.get_type_of_service(), 0);
    assert_eq!(p.get_total_length(), 0x73);
    assert_eq!(p.get_identification(), 0);
    assert!(p.if_dont_fragment());
    assert!(!p.if_more_fragments());
    assert_eq!(p.get_fragment_offset(), 0);
    assert_eq!(p.get_time_to_live(), 64);
    assert_eq!(p.get_protocol(), IpProtocol::UDP);
    assert_eq!(p.get_source_address(), 0xC0A8_0001);
    assert_eq!(p.get_destination_address(), 0xC0A8_00C7);
    assert_eq!(p.get_options(), Vec::<u8>::new());
    assert_eq!(p.get_data(), vec![1, 2, 3]);
}

#[test]
fn ip_packet_bytes_are_written_back_unchanged() {
    let bytes = udp_packet_bytes();
    let p = IpPacket::new_from_bytes(&bytes);
    assert_eq!(p.get_ip_packet_bytes(), bytes);
}

#[test]
fn ip_options_are_kept_apart_from_data() {
    let mut bytes = udp_header();
    bytes[0] = 0x46;
    bytes.extend_from_slice(&[9, 8, 7, 6, 5, 4]);
    let p = IpPacket::new_from_bytes(&bytes);
    assert_eq!(p.get_internet_header_length(), 6);
    assert_eq!(p.get_options(), vec![9, 8, 7, 6]);
    assert_eq!(p.get_data(), vec![5, 4]);
    assert_eq!(p.get_ip_packet_bytes(), bytes);
}

#[test]
fn ip_header_checksum_of_a_known_header() {
    let p = IpPacket::new_from_bytes(&udp_packet_bytes());
    assert_eq!(p.calc_header_checksum(), 0xb861);
    assert!(p.check_header_checksum());
}

#[test]
fn ip_header_checksum_detects_a_changed_field() {
    let mut bytes = udp_packet_bytes();
    bytes[8] = 0x3f;
    let p = IpPacket::new_from_bytes(&bytes);
    assert!(!p.check_header_checksum());
    assert_eq!(p.calc_header_checksum(), 0xb961);
}

#[test]
fn decrementing_time_to_live_keeps_the_checksum_valid() {
    let mut p = IpPacket::new_from_bytes(&udp_packet_bytes());
    assert_eq!(p.decrement_time_to_live(), Some(64));
    assert_eq!(p.get_time_to_live(), 63);
    assert!(p.check_header_checksum());
    assert_eq!(p.calc_header_checksum(), 0xb961);
}

#[test]
fn readdressing_then_updating_the_checksum() {
    let mut p = IpPacket::new_from_bytes(&udp_packet_bytes());
    p.set_destination_address(0x0A00_0001);
    p.set_source_address(0x0A00_0002);
    assert_eq!(p.get_destination_address(), 0x0A00_0001);
    assert_eq!(p.get_source_address(), 0x0A00_0002);
    assert!(!p.check_header_checksum());
    p.update_header_checksum();
    assert!(p.check_header_checksum());
}

#[test]
fn replacing_the_data() {
    let mut p = IpPacket::new_from_bytes(&udp_packet_bytes());
    p.set_data(vec![7, 7]);
    assert_eq!(p.get_data(), vec![7, 7]);
    let out = p.get_ip_packet_bytes();
    assert_eq!(out.len(), 22);
    assert_eq!(&out[..20], &udp_header()[..]);
}

#[test]
fn protocol_numbers() {
    let cases = [
        (1u8, IpProtocol::ICMP),
        (2, IpProtocol::IGMP),
        (6, IpProtocol::TCP),
        (17, IpProtocol::UDP),
        (41, IpProtocol::ENCAP),
        (89, IpProtocol::OSPF),
        (132, IpProtocol::SCTP),
        (200, IpProtocol::OTHER),
    ];
    for (n, proto) in cases {
        let mut bytes = udp_packet_bytes();
        bytes[9] = n;
        assert_eq!(IpPacket::new_from_bytes(&bytes).get_protocol(), proto);
    }
}

#[test]
fn subnet_membership_of_the_destination() {
    let p = IpPacket::new_from_bytes(&udp_packet_bytes());
    assert!(p.dst_is_subnet(0xC0A8_0001, 0xFFFF_FF00));
    assert!(!p.dst_is_subnet(0xC0A8_0101, 0xFFFF_FF00));
}

#[test]
fn only_ipv4_is_received() {
    let mut bytes = udp_packet_bytes();
    bytes[0] = 0x60;
    match IpPacket::try_new_from_received(&bytes) {
        Err(e) => assert_eq!(e, "Only IPv4 is supported"),
        Ok(_) => panic!("an IPv6 packet was accepted"),
    }
    let p = IpPacket::try_new_from_received(&udp_packet_bytes()).unwrap();
    assert_eq!(p.get_data(), vec![1, 2, 3]);
}

#[test]
fn cloned_packet_is_equal() {
    let p = IpPacket::new_from_bytes(&udp_packet_bytes());
    let q = p.clone();
    assert_eq!(q.get_ip_packet_bytes(), udp_packet_bytes());
}

#[test]
fn icmp_fields_and_checksum() {
    let m = ICMP::try_new_from_bytes(&echo_request_bytes()).unwrap();
    assert_eq!(m.get_type(), ICMPType::EchoRequest);
    assert_eq!(m.get_utils(), 0x0001_0013);
    assert_eq!(m.calc_checksum(), 0x4d48);
    assert!(m.check_checksum());
    assert_eq!(m.get_icmp_bytes(), echo_request_bytes());
}

#[test]
fn icmp_too_short() {
    match ICMP::try_new_from_bytes(&vec![8, 0, 0, 0, 0, 0, 0]) {
        Err(e) => assert_eq!(e, "ICMP packet too short"),
        Ok(_) => panic!("seven bytes were accepted"),
    }
}

#[test]
fn icmp_from_a_packet_of_another_protocol() {
    let p = IpPacket::new_from_bytes(&udp_packet_bytes());
    match ICMP::try_new_from_ip_packet(&p) {
        Err(e) => assert_eq!(e, "Not an ICMP packet"),
        Ok(_) => panic!("a UDP packet was read as ICMP"),
    }
}

#[test]
fn icmp_from_a_packet() {
    let bytes = icmp_packet_bytes(0x0A00_0001, 0x0A00_0002, &echo_request_bytes());
    let p = IpPacket::new_from_bytes(&bytes);
    assert!(p.check_header_checksum());
    let m = ICMP::try_new_from_ip_packet(&p).unwrap();
    assert_eq!(m.get_icmp_bytes(), echo_request_bytes());
}

#[test]
fn echo_reply_has_type_zero_and_a_valid_checksum() {
    let m = ICMP::try_new_from_bytes(&echo_request_bytes()).unwrap();
    let r = m.reply_echo();
    assert_eq!(r.get_type(), ICMPType::EchoReply);
    assert!(r.check_checksum());
    assert_eq!(r.calc_checksum(), 0x5548);
    let bytes = r.get_icmp_bytes();
    assert_eq!(bytes[0], 0);
    assert_eq!(&bytes[2..4], &[0x55, 0x48]);
    assert_eq!(&bytes[4..], &echo_request_bytes()[4..]);
}

#[test]
fn icmp_type_numbers() {
    let mut b = echo_request_bytes();
    b[0] = 0;
    assert_eq!(ICMP::try_new_from_bytes(&b).unwrap().get_type(), ICMPType::EchoReply);
    b[0] = 3;
    assert_eq!(ICMP::try_new_from_bytes(&b).unwrap().get_type(), ICMPType::Unsupported);
}

#[test]
fn icmp_checksum_of_an_odd_length_message() {
    let m = ICMP::try_new_from_bytes(&vec![8, 0, 0, 0, 0, 0, 0, 0, 0xAB]).unwrap();
    // words 0x0800 and 0xAB00: sum 0xB300, complement 0x4CFF
    assert_eq!(m.calc_checksum(), 0x4CFF);
    assert!(!m.check_checksum());
}

#[test]
fn an_exhausted_time_to_live_is_reported_and_left_alone() {
    let mut bytes = udp_packet_bytes();
    bytes[8] = 1;
    let mut p = IpPacket::new_from_bytes(&bytes);
    p.update_header_checksum();
    assert_eq!(p.decrement_time_to_live(), Some(1));
    assert_eq!(p.get_time_to_live(), 0);
    assert!(p.check_header_checksum());
    let before = p.get_ip_packet_bytes();
    assert_eq!(p.decrement_time_to_live(), None);
    assert_eq!(p.get_ip_packet_bytes(), before);
}
