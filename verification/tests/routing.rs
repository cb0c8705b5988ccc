use cs120_project::address_translation::{nat_inbound_icmp, nat_outbound_icmp, NatInbound};
use cs120_project::icmp::{ICMPType, ICMP};
use cs120_project::ip_packet::IpPacket;
use cs120_project::router::{
    AdapterRules, DownAction, UpAction, ALLOWED_HOST_1, BROADCAST_ADDRESS, DNS_SERVER,
};
use std::collections::HashMap;

const GATEWAY: u32 = 0x0A00_0001;
const ME: u32 = 0x0A00_0002;
const NEIGHBOUR: u32 = 0x0A00_0003;
const STRANGER: u32 = 0x0A00_0009;
const OUTSIDE: u32 = 0x0808_0808;
const MASK: u32 = 0xFFFF_FF00;

fn echo(icmp_type: u8) -> Vec<u8> {
    let mut v = vec![icmp_type, 0, 0, 0, 0, 1, 0, 19];
    v.extend(97u8..=119);
    v.extend(97u8..=105);
    let mut m = ICMP::try_new_from_bytes(&v).unwrap();
    m = if icmp_type == 0 { m.reply_echo() } else { m };
    let mut b = m.get_icmp_bytes();
    if icmp_type != 0 {
        let c = m.calc_checksum();
        b[2] = (c >> 8) as u8;
        b[3] = c as u8;
    }
    b
}

fn packet(protocol: u8, src: u32, dst: u32, data: &[u8]) -> Vec<u8> {
    let mut b = vec![0x45, 0x00, 0x00, 0x00, 0x12, 0x34, 0x00, 0x00, 0x40, protocol, 0x00, 0x00];
    b.extend_from_slice(&src.to_be_bytes());
    b.extend_from_slice(&dst.to_be_bytes());
    b.extend_from_slice(data);
    let mut p = IpPacket::new_from_bytes(&b);
    p.update_header_checksum();
    p.get_ip_packet_bytes()
}

fn arp() -> HashMap<u32, u8> {
    let mut t = HashMap::new();
    t.insert(GATEWAY, 1);
    t.insert(NEIGHBOUR, 3);
    t
}

fn host() -> AdapterRules {
    AdapterRules::new(ME, MASK, Some(GATEWAY), false, true, arp())
}

fn router() -> AdapterRules {
    AdapterRules::new(GATEWAY, MASK, Some(OUTSIDE), true, true, arp())
}

#[test]
fn echo_request_to_the_host_is_answered_at_once() {
    let request = packet(1, NEIGHBOUR, ME, &echo(8));
    match host().up_route(&request) {
        UpAction::SendToMac(mac, bytes) => {
            assert_eq!(mac, 3);
            let reply = IpPacket::new_from_bytes(&bytes);
            assert_eq!(reply.get_source_address(), ME);
            assert_eq!(reply.get_destination_address(), NEIGHBOUR);
            assert!(reply.check_header_checksum());
            let m = ICMP::try_new_from_ip_packet(&reply).unwrap();
            assert_eq!(m.get_type(), ICMPType::EchoReply);
            assert!(m.check_checksum());
            assert_eq!(m.get_icmp_bytes(), echo(0));
        }
        _ => panic!("the echo request was not answered"),
    }
}

#[test]
fn echo_request_from_an_unknown_node_is_answered_to_mac_255() {
    let request = packet(1, STRANGER, ME, &echo(8));
    match host().up_route(&request) {
        UpAction::SendToMac(mac, _) => assert_eq!(mac, 255),
        _ => panic!("the echo request was not answered"),
    }
}

#[test]
fn echo_reply_to_the_host_goes_to_the_system() {
    let reply = packet(1, NEIGHBOUR, ME, &echo(0));
    match host().up_route(&reply) {
        UpAction::SendToIp(p) => assert_eq!(p.get_ip_packet_bytes(), reply),
        _ => panic!("the echo reply was not delivered"),
    }
}

#[test]
fn other_protocols_to_the_host_go_to_the_system() {
    let udp = packet(17, NEIGHBOUR, ME, &[1, 2, 3]);
    match host().up_route(&udp) {
        UpAction::SendToIp(p) => assert_eq!(p.get_data(), vec![1, 2, 3]),
        _ => panic!("the packet was not delivered"),
    }
}

#[test]
fn a_host_drops_what_is_not_for_it() {
    let request = packet(1, NEIGHBOUR, STRANGER, &echo(8));
    assert!(matches!(host().up_route(&request), UpAction::Drop));
}

#[test]
fn anything_but_ipv4_is_dropped() {
    let mut bytes = packet(17, NEIGHBOUR, ME, &[1]);
    bytes[0] = 0x60;
    assert!(matches!(host().up_route(&bytes), UpAction::Drop));
}

#[test]
fn bad_checksums_are_dropped() {
    let mut bad_header = packet(1, NEIGHBOUR, ME, &echo(8));
    bad_header[11] ^= 0xFF;
    assert!(matches!(host().up_route(&bad_header), UpAction::Drop));
    let mut icmp = echo(8);
    icmp[3] ^= 0xFF;
    let bad_icmp = packet(1, NEIGHBOUR, ME, &icmp);
    assert!(matches!(host().up_route(&bad_icmp), UpAction::Drop));
}

#[test]
fn a_router_hands_foreign_icmp_to_the_translation() {
    let request = packet(1, NEIGHBOUR, OUTSIDE, &echo(8));
    match router().up_route(&request) {
        UpAction::ForwardToNat(p) => assert_eq!(p.get_ip_packet_bytes(), request),
        _ => panic!("the packet was not forwarded"),
    }
}

#[test]
fn a_router_answers_requests_to_itself() {
    let request = packet(1, NEIGHBOUR, GATEWAY, &echo(8));
    assert!(matches!(router().up_route(&request), UpAction::SendToMac(3, _)));
}

#[test]
fn down_to_the_host_itself_goes_back_to_the_system() {
    let p = IpPacket::new_from_bytes(&packet(17, ME, ME, &[1]));
    assert!(matches!(host().down_route(p), DownAction::SendToIp(_)));
}

#[test]
fn down_to_a_known_neighbour_goes_to_its_mac() {
    let bytes = packet(17, ME, NEIGHBOUR, &[1, 2]);
    match host().down_route(IpPacket::new_from_bytes(&bytes)) {
        DownAction::SendToMac(mac, out) => {
            assert_eq!(mac, 3);
            assert_eq!(out, bytes);
        }
        _ => panic!("the packet was not sent"),
    }
}

#[test]
fn down_to_an_unknown_neighbour_or_broadcast_is_dropped() {
    let p = IpPacket::new_from_bytes(&packet(17, ME, STRANGER, &[1]));
    assert!(matches!(host().down_route(p), DownAction::Drop));
    let b = IpPacket::new_from_bytes(&packet(17, ME, BROADCAST_ADDRESS, &[1]));
    assert!(matches!(host().down_route(b), DownAction::Drop));
}

#[test]
fn a_host_sends_only_allowed_traffic_through_the_gateway() {
    let tcp = IpPacket::new_from_bytes(&packet(6, ME, OUTSIDE, &[1]));
    assert!(matches!(host().down_route(tcp), DownAction::Drop));
    let dns = IpPacket::new_from_bytes(&packet(17, ME, DNS_SERVER, &[1]));
    assert!(matches!(host().down_route(dns), DownAction::SendToMac(1, _)));
    let web = IpPacket::new_from_bytes(&packet(6, ME, ALLOWED_HOST_1, &[1]));
    assert!(matches!(host().down_route(web), DownAction::SendToMac(1, _)));
    let ping = IpPacket::new_from_bytes(&packet(1, ME, OUTSIDE, &echo(8)));
    assert!(matches!(host().down_route(ping), DownAction::SendToMac(1, _)));
}

#[test]
fn a_router_drops_what_leaves_its_subnet() {
    let ping = IpPacket::new_from_bytes(&packet(1, GATEWAY, OUTSIDE, &echo(8)));
    assert!(matches!(router().down_route(ping), DownAction::Drop));
}

#[test]
fn a_dynamic_table_starts_empty() {
    let rules = AdapterRules::new(ME, MASK, Some(GATEWAY), false, false, arp());
    assert_eq!(rules.get_ip_addr(), ME);
    let p = IpPacket::new_from_bytes(&packet(17, ME, NEIGHBOUR, &[1]));
    assert!(matches!(rules.down_route(p), DownAction::Drop));
}

#[test]
fn replies_are_translated_back_to_the_sender() {
    let mut table: HashMap<u32, u32> = HashMap::new();
    let request = IpPacket::new_from_bytes(&packet(1, NEIGHBOUR, OUTSIDE, &echo(8)));
    let sent = nat_outbound_icmp(&mut table, &request);
    assert_eq!(sent, echo(8));
    assert_eq!(table.get(&0x0001_0013), Some(&NEIGHBOUR));
    let reply = IpPacket::new_from_bytes(&packet(1, OUTSIDE, 0xC0A8_0105, &echo(0)));
    match nat_inbound_icmp(reply, 0x0A00_0000, MASK, &table) {
        NatInbound::ForwardTranslated(p) => {
            assert_eq!(p.get_destination_address(), NEIGHBOUR);
            assert_eq!(p.get_source_address(), OUTSIDE);
            assert!(p.check_header_checksum());
            assert_eq!(p.get_data(), echo(0));
        }
        _ => panic!("the reply was not translated"),
    }
}

#[test]
fn packets_for_the_subnet_pass_and_unknown_replies_are_ignored() {
    let table: HashMap<u32, u32> = HashMap::new();
    let inside = IpPacket::new_from_bytes(&packet(1, OUTSIDE, NEIGHBOUR, &echo(0)));
    assert!(matches!(nat_inbound_icmp(inside, 0x0A00_0000, MASK, &table), NatInbound::Forward(_)));
    let unknown = IpPacket::new_from_bytes(&packet(1, OUTSIDE, 0xC0A8_0105, &echo(0)));
    assert!(matches!(nat_inbound_icmp(unknown, 0x0A00_0000, MASK, &table), NatInbound::Ignore));
}

#[test]
fn which_bytes_from_the_mac_layer_can_be_routed() {
    let rules = host();
    assert!(rules.can_route_up(&packet(1, NEIGHBOUR, ME, &echo(8))));
    assert!(rules.can_route_up(&vec![0x60, 0, 0]));
    assert!(!rules.can_route_up(&vec![]));
    assert!(!rules.can_route_up(&vec![0x45, 0, 0]));
    let mut short_icmp = packet(1, NEIGHBOUR, ME, &[8, 0, 0, 0]);
    assert!(!rules.can_route_up(&short_icmp));
    short_icmp[16] = 0x0B;
    let p = IpPacket::new_from_bytes(&short_icmp);
    assert!(!p.check_header_checksum());
    assert!(rules.can_route_up(&short_icmp));
}

#[test]
fn which_packets_from_the_system_can_be_routed() {
    let ping = IpPacket::new_from_bytes(&packet(1, ME, OUTSIDE, &echo(8)));
    assert!(host().can_route_down(&ping));
    let no_gateway = AdapterRules::new(ME, MASK, None, false, true, arp());
    assert!(!no_gateway.can_route_down(&ping));
    let tcp = IpPacket::new_from_bytes(&packet(6, ME, OUTSIDE, &[1]));
    assert!(no_gateway.can_route_down(&tcp));
    let unknown_gateway = AdapterRules::new(ME, MASK, Some(0x0A00_00FE), false, true, arp());
    assert!(!unknown_gateway.can_route_down(&ping));
}

#[test]
fn readable_packets() {
    assert!(IpPacket::is_readable(&packet(17, ME, ME, &[])));
    let mut with_options = packet(17, ME, ME, &[]);
    with_options[0] = 0x46;
    assert!(!IpPacket::is_readable(&with_options));
    with_options.extend_from_slice(&[0, 0, 0, 0]);
    assert!(IpPacket::is_readable(&with_options));
    let mut too_short_header = packet(17, ME, ME, &[]);
    too_short_header[0] = 0x44;
    assert!(!IpPacket::is_readable(&too_short_header));
    assert!(!IpPacket::is_readable(&vec![0x45; 19]));
}

#[test]
fn translated_replies_keep_everything_but_the_destination() {
    let mut table: HashMap<u32, u32> = HashMap::new();
    let request = IpPacket::new_from_bytes(&packet(1, NEIGHBOUR, OUTSIDE, &echo(8)));
    nat_outbound_icmp(&mut table, &request);
    let reply_bytes = packet(1, OUTSIDE, 0xC0A8_0105, &echo(0));
    let reply = IpPacket::new_from_bytes(&reply_bytes);
    match nat_inbound_icmp(reply, 0x0A00_0000, MASK, &table) {
        NatInbound::ForwardTranslated(p) => {
            let out = p.get_ip_packet_bytes();
            assert_eq!(&out[..10], &reply_bytes[..10]);
            assert_eq!(&out[12..16], &reply_bytes[12..16]);
            assert_eq!(&out[16..20], &NEIGHBOUR.to_be_bytes());
            assert_eq!(&out[20..], &reply_bytes[20..]);
        }
        _ => panic!("the reply was not translated"),
    }
    let inside_bytes = packet(1, OUTSIDE, NEIGHBOUR, &echo(0));
    match nat_inbound_icmp(IpPacket::new_from_bytes(&inside_bytes), 0x0A00_0000, MASK, &table) {
        NatInbound::Forward(p) => assert_eq!(p.get_ip_packet_bytes(), inside_bytes),
        _ => panic!("the packet was not passed on"),
    }
}
