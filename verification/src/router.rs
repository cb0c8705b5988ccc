//! The decisions of the IP adapter that sits between the operating system's
//! virtual network device and the acoustic MAC layer: what to do with a
//! packet coming up from the MAC layer, and with one going down from the
//! system. Addresses are big-endian 32-bit values.

use crate::bits::Byte;
use crate::icmp::{icmp_word_total, spec_icmp_bytes, spec_icmp_checksum, spec_parse_icmp, ICMPType, ICMPView, ICMP};
use crate::ip_packet::{
    lemma_checksum_ignores_address_swap, spec_ip_bytes, spec_ip_checksum, spec_ip_parsable,
    spec_parse_ip, spec_protocol_of, IpPacket, IpPacketView, IpProtocol,
};
use std::collections::HashMap;
use vstd::prelude::*;

verus! {

broadcast use vstd::std_specs::hash::group_hash_axioms;

/// The broadcast address.
pub const BROADCAST_ADDRESS: u32 = 0xFFFF_FFFF;

/// The name server 10.15.44.11.
pub const DNS_SERVER: u32 = 0x0A0F_2C0B;

/// 121.194.11.72, reachable through the gateway.
pub const ALLOWED_HOST_1: u32 = 0x79C2_0B48;

/// 202.89.233.100, reachable through the gateway.
pub const ALLOWED_HOST_2: u32 = 0xCA59_E964;

/// 202.89.233.101, reachable through the gateway.
pub const ALLOWED_HOST_3: u32 = 0xCA59_E965;

/// The MAC address `arp` gives for `ip`, or 255 when it has none.
pub open spec fn mac_for(arp: Map<u32, u8>, ip: u32) -> u8 {
    if arp.contains_key(ip) {
        arp[ip]
    } else {
        255
    }
}

/// What to do with a packet that came up from the MAC layer.
pub enum UpAction {
    /// Discard it.
    Drop,
    /// Hand it to the address translation towards other interfaces.
    ForwardToNat(IpPacket),
    /// Deliver it to the operating system.
    SendToIp(IpPacket),
    /// Send these bytes to this MAC address.
    SendToMac(u8, Vec<Byte>),
}

/// What to do with a packet that came down from the operating system.
pub enum DownAction {
    /// Discard it.
    Drop,
    /// Deliver it back to the operating system.
    SendToIp(IpPacket),
    /// Send these bytes to this MAC address.
    SendToMac(u8, Vec<Byte>),
}

/// A routing decision as plain values.
pub enum RouteView {
    Drop,
    ForwardToNat(IpPacketView),
    SendToIp(IpPacketView),
    SendToMac(u8, Seq<u8>),
}

impl UpAction {
    pub open spec fn route(&self) -> RouteView {
        match self {
            UpAction::Drop => RouteView::Drop,
            UpAction::ForwardToNat(p) => RouteView::ForwardToNat(p@),
            UpAction::SendToIp(p) => RouteView::SendToIp(p@),
            UpAction::SendToMac(m, b) => RouteView::SendToMac(*m, b@),
        }
    }
}

impl DownAction {
    pub open spec fn route(&self) -> RouteView {
        match self {
            DownAction::Drop => RouteView::Drop,
            DownAction::SendToIp(p) => RouteView::SendToIp(p@),
            DownAction::SendToMac(m, b) => RouteView::SendToMac(*m, b@),
        }
    }
}

/// The adapter's settings as plain values.
pub struct AdapterRulesView {
    pub ip_addr: u32,
    pub ip_mask: u32,
    pub ip_gateway: Option<u32>,
    pub if_router: bool,
    pub arp_table: Map<u32, u8>,
}

/// The echo reply to message `m`: type 0 and the checksum that goes with it.
pub open spec fn spec_echo_reply(m: ICMPView) -> ICMPView {
    ICMPView { icmp_type: 0, checksum: spec_icmp_checksum(ICMPView { icmp_type: 0, ..m }), ..m }
}

/// The packet answering echo request packet `p` with message `m`: addresses
/// swapped and the reply as data.
pub open spec fn spec_reply_packet(p: IpPacketView, m: ICMPView) -> IpPacketView {
    IpPacketView {
        destination_address: p.source_address,
        source_address: p.destination_address,
        data: spec_icmp_bytes(spec_echo_reply(m)),
        ..p
    }
}

/// Whether packet `p` passes the adapter's address filter: a router takes
/// everything, a host only what is addressed to it or broadcast.
pub open spec fn accepts(r: AdapterRulesView, p: IpPacketView) -> bool {
    r.if_router || p.destination_address == r.ip_addr || p.destination_address
        == BROADCAST_ADDRESS
}

/// The bytes from the MAC layer can be handled without failing: they are not
/// empty, an IPv4 packet is readable, and an accepted ICMP packet with a
/// good header checksum carries a whole ICMP header whose words sum within
/// 32 bits.
pub open spec fn up_input_ok(r: AdapterRulesView, data: Seq<u8>) -> bool {
    &&& data.len() >= 1
    &&& data[0] >> 4u8 == 4 ==> spec_ip_parsable(data)
    &&& (data[0] >> 4u8 == 4 && accepts(r, spec_parse_ip(data)) && spec_parse_ip(data).protocol
        == 1 && spec_ip_checksum(spec_parse_ip(data)) == spec_parse_ip(data).header_checksum) ==> {
        &&& spec_parse_ip(data).data.len() >= 8
        &&& icmp_word_total(spec_parse_icmp(spec_parse_ip(data).data)) <= u32::MAX
    }
}

/// What happens to the bytes `data` that came up from the MAC layer.
pub open spec fn spec_up_route(r: AdapterRulesView, data: Seq<u8>) -> RouteView {
    if data[0] >> 4u8 != 4 {
        RouteView::Drop
    } else {
        let p = spec_parse_ip(data);
        if !accepts(r, p) {
            RouteView::Drop
        } else if spec_protocol_of(p.protocol) != IpProtocol::ICMP {
            RouteView::SendToIp(p)
        } else if spec_ip_checksum(p) != p.header_checksum {
            RouteView::Drop
        } else {
            let m = spec_parse_icmp(p.data);
            if spec_icmp_checksum(m) != m.checksum {
                RouteView::Drop
            } else if p.destination_address != r.ip_addr && p.destination_address
                != BROADCAST_ADDRESS && r.if_router {
                RouteView::ForwardToNat(p)
            } else if m.icmp_type == 0 && p.destination_address == r.ip_addr {
                RouteView::SendToIp(p)
            } else {
                RouteView::SendToMac(
                    mac_for(r.arp_table, p.source_address),
                    spec_ip_bytes(spec_reply_packet(p, m)),
                )
            }
        }
    }
}

/// Whether a packet bound elsewhere may leave a host through the gateway:
/// ICMP, and traffic to the name server and the allowed hosts.
pub open spec fn may_use_gateway(p: IpPacketView) -> bool {
    spec_protocol_of(p.protocol) == IpProtocol::ICMP || p.destination_address == DNS_SERVER
        || p.destination_address == ALLOWED_HOST_1 || p.destination_address == ALLOWED_HOST_2
        || p.destination_address == ALLOWED_HOST_3
}

/// Whether the destination of `p` is on the adapter's own subnet.
pub open spec fn on_subnet(r: AdapterRulesView, p: IpPacketView) -> bool {
    r.ip_addr & r.ip_mask == p.destination_address & r.ip_mask
}

/// Packet `p` from the system can be handled without failing: a host that
/// sends through the gateway knows the gateway and its MAC address.
pub open spec fn down_input_ok(r: AdapterRulesView, p: IpPacketView) -> bool {
    (p.destination_address != r.ip_addr && !on_subnet(r, p) && p.destination_address
        != BROADCAST_ADDRESS && !r.if_router && may_use_gateway(p)) ==> (r.ip_gateway is Some
        && r.arp_table.contains_key(r.ip_gateway->0))
}

/// What happens to packet `p` that came down from the system.
pub open spec fn spec_down_route(r: AdapterRulesView, p: IpPacketView) -> RouteView {
    if p.destination_address == r.ip_addr {
        RouteView::SendToIp(p)
    } else if on_subnet(r, p) || p.destination_address == BROADCAST_ADDRESS {
        if r.arp_table.contains_key(p.destination_address) {
            RouteView::SendToMac(r.arp_table[p.destination_address], spec_ip_bytes(p))
        } else {
            RouteView::Drop
        }
    } else if !r.if_router {
        if !may_use_gateway(p) {
            RouteView::Drop
        } else {
            RouteView::SendToMac(r.arp_table[r.ip_gateway->0], spec_ip_bytes(p))
        }
    } else {
        RouteView::Drop
    }
}

/// The adapter's settings: its address, mask and gateway, whether it routes
/// for others, and its table from IP to MAC addresses.
pub struct AdapterRules {
    ip_addr: u32,
    ip_mask: u32,
    ip_gateway: Option<u32>,
    if_router: bool,
    arp_table: HashMap<u32, u8>,
}

impl View for AdapterRules {
    type V = AdapterRulesView;

    closed spec fn view(&self) -> AdapterRulesView {
        AdapterRulesView {
            ip_addr: self.ip_addr,
            ip_mask: self.ip_mask,
            ip_gateway: self.ip_gateway,
            if_router: self.if_router,
            arp_table: self.arp_table@,
        }
    }
}

/// The MAC address `arp` gives for `ip`, or 255 when it has none.
fn lookup_mac(arp: &HashMap<u32, u8>, ip: u32) -> (m: u8)
    ensures
        m == mac_for(arp@, ip),
{
    match arp.get(&ip) {
        Some(mac) => *mac,
        None => u8::MAX,
    }
}

impl AdapterRules {
    /// The settings of an adapter: a router has no gateway, and the table is
    /// kept only when it is static.
    pub fn new(
        ip_addr: u32,
        ip_mask: u32,
        ip_gateway: Option<u32>,
        if_router: bool,
        if_static_arp: bool,
        arp_table: HashMap<u32, u8>,
    ) -> (r: AdapterRules)
        ensures
            r@.ip_addr == ip_addr,
            r@.ip_mask == ip_mask,
            r@.ip_gateway == if if_router {
                None
            } else {
                ip_gateway
            },
            r@.if_router == if_router,
            r@.arp_table == if if_static_arp {
                arp_table@
            } else {
                Map::<u32, u8>::empty()
            },
    {
        let ip_gateway = if if_router {
            None
        } else {
            ip_gateway
        };
        let arp_table = if if_static_arp {
            arp_table
        } else {
            HashMap::new()
        };
        AdapterRules { ip_addr, ip_mask, ip_gateway, if_router, arp_table }
    }

    pub fn get_ip_addr(&self) -> (a: u32)
        ensures
            a == self@.ip_addr,
    {
        self.ip_addr
    }

    /// Whether the bytes `data` from the MAC layer can be handled: see
    /// `up_input_ok`.
    pub fn can_route_up(&self, data: &Vec<Byte>) -> (ok: bool)
        ensures
            ok == up_input_ok(self@, data@),
    {
        if data.len() < 1 {
            return false;
        }
        if data[0] >> 4 != 4 {
            return true;
        }
        if !IpPacket::is_readable(data) {
            return false;
        }
        let packet = IpPacket::new_from_bytes(data);
        let dst = packet.get_destination_address();
        let accepted = self.if_router || dst == self.ip_addr || dst == BROADCAST_ADDRESS;
        if accepted && packet.get_protocol() == IpProtocol::ICMP && packet.check_header_checksum() {
            match ICMP::try_new_from_ip_packet(&packet) {
                Ok(m) => m.word_total_fits(),
                Err(_) => false,
            }
        } else {
            true
        }
    }

    /// Whether packet `packet` from the system can be handled: see
    /// `down_input_ok`.
    pub fn can_route_down(&self, packet: &IpPacket) -> (ok: bool)
        ensures
            ok == down_input_ok(self@, packet@),
    {
        let dst = packet.get_destination_address();
        let allowed = packet.get_protocol() == IpProtocol::ICMP || dst == DNS_SERVER || dst
            == ALLOWED_HOST_1 || dst == ALLOWED_HOST_2 || dst == ALLOWED_HOST_3;
        if dst != self.ip_addr && !packet.dst_is_subnet(self.ip_addr, self.ip_mask) && dst
            != BROADCAST_ADDRESS && !self.if_router && allowed {
            match self.ip_gateway {
                Some(g) => self.arp_table.contains_key(&g),
                None => false,
            }
        } else {
            true
        }
    }

    /// What to do with the bytes `data` that came up from the MAC layer: an
    /// ICMP echo request addressed here is answered directly.
    pub fn up_route(&self, data: &Vec<Byte>) -> (a: UpAction)
        requires
            up_input_ok(self@, data@),
        ensures
            a.route() == spec_up_route(self@, data@),
    {
        if data[0] >> 4 != 4 {
            return UpAction::Drop;
        }
        let packet = IpPacket::new_from_bytes(data);
        let dst = packet.get_destination_address();
        if !self.if_router && (dst != self.ip_addr && dst != BROADCAST_ADDRESS) {
            return UpAction::Drop;
        }
        match packet.get_protocol() {
            IpProtocol::ICMP => {
                if !packet.check_header_checksum() {
                    return UpAction::Drop;
                }
                let icmp = match ICMP::try_new_from_ip_packet(&packet) {
                    Ok(m) => m,
                    Err(_) => vstd::pervasive::unreached(),
                };
                if !icmp.check_checksum() {
                    return UpAction::Drop;
                }
                if dst != self.ip_addr && dst != BROADCAST_ADDRESS && self.if_router {
                    return UpAction::ForwardToNat(packet);
                }
                if icmp.get_type() == ICMPType::EchoReply && dst == self.ip_addr {
                    return UpAction::SendToIp(packet);
                }
                let reply = icmp.reply_echo();
                let mut reply_packet = packet.clone();
                reply_packet.set_destination_address(packet.get_source_address());
                reply_packet.set_source_address(packet.get_destination_address());
                reply_packet.set_data(reply.get_icmp_bytes());
                let dst_mac = lookup_mac(&self.arp_table, packet.get_source_address());
                proof {
                    let m = icmp@;
                    crate::icmp::lemma_icmp_checksum_ignores_checksum_field(
                        ICMPView { icmp_type: 0, ..m },
                        reply@.checksum,
                    );
                    assert(reply@ == spec_echo_reply(m));
                    assert(reply_packet@ =~= spec_reply_packet(packet@, m));
                }
                UpAction::SendToMac(dst_mac, reply_packet.get_ip_packet_bytes())
            },
            _ => UpAction::SendToIp(packet),
        }
    }

    /// What to do with packet `packet` that came down from the system.
    pub fn down_route(&self, packet: IpPacket) -> (a: DownAction)
        requires
            down_input_ok(self@, packet@),
        ensures
            a.route() == spec_down_route(self@, packet@),
    {
        let dst = packet.get_destination_address();
        if dst == self.ip_addr {
            DownAction::SendToIp(packet)
        } else if packet.dst_is_subnet(self.ip_addr, self.ip_mask) || dst == BROADCAST_ADDRESS {
            match self.arp_table.get(&dst) {
                Some(mac) => DownAction::SendToMac(*mac, packet.get_ip_packet_bytes()),
                None => DownAction::Drop,
            }
        } else if !self.if_router {
            if packet.get_protocol() != IpProtocol::ICMP && dst != DNS_SERVER && dst
                != ALLOWED_HOST_1 && dst != ALLOWED_HOST_2 && dst != ALLOWED_HOST_3 {
                return DownAction::Drop;
            }
            let gateway = match self.ip_gateway {
                Some(g) => g,
                None => vstd::pervasive::unreached(),
            };
            match self.arp_table.get(&gateway) {
                Some(mac) => DownAction::SendToMac(*mac, packet.get_ip_packet_bytes()),
                None => vstd::pervasive::unreached(),
            }
        } else {
            DownAction::Drop
        }
    }
}

/// The answer to an echo request goes back to the requester's MAC address,
/// from the address the request was sent to, carrying an echo reply with a
/// valid checksum; its header checksum is valid whenever the request's was.
pub proof fn lemma_echo_answer(r: AdapterRulesView, data: Seq<u8>)
    requires
        up_input_ok(r, data),
        spec_up_route(r, data) is SendToMac,
    ensures
        ({
            let p = spec_parse_ip(data);
            let answer = spec_parse_ip(spec_up_route(r, data)->SendToMac_1);
            let m = spec_parse_icmp(answer.data);
            &&& spec_up_route(r, data)->SendToMac_0 == mac_for(r.arp_table, p.source_address)
            &&& answer.source_address == p.destination_address
            &&& answer.destination_address == p.source_address
            &&& m.icmp_type == 0
            &&& spec_icmp_checksum(m) == m.checksum
            &&& spec_ip_checksum(answer) == answer.header_checksum
        }),
{
    let p = spec_parse_ip(data);
    crate::ip_packet::lemma_ip_parse_serialize(data);
    let m = spec_parse_icmp(p.data);
    let reply = spec_echo_reply(m);
    crate::icmp::lemma_icmp_checksum_ignores_checksum_field(
        ICMPView { icmp_type: 0, ..m },
        reply.checksum,
    );
    let q = spec_reply_packet(p, m);
    crate::ip_packet::lemma_parse_wf(data);
    assert(q.wf());
    crate::ip_packet::lemma_ip_serialize_parse(q);
    crate::icmp::lemma_icmp_serialize_parse(reply);
    lemma_checksum_ignores_address_swap(p, spec_icmp_bytes(reply));
    assert(q == IpPacketView {
        source_address: p.destination_address,
        destination_address: p.source_address,
        data: spec_icmp_bytes(reply),
        ..p
    });
}

/// Answering an echo reply again changes nothing: the reply to a reply is
/// the reply itself.
pub proof fn lemma_echo_reply_idempotent(m: ICMPView)
    ensures
        spec_echo_reply(spec_echo_reply(m)) == spec_echo_reply(m),
{
    let r = spec_echo_reply(m);
    crate::icmp::lemma_icmp_checksum_ignores_checksum_field(ICMPView { icmp_type: 0, ..m }, r.checksum);
    assert(ICMPView { icmp_type: 0, ..r } == ICMPView {
        checksum: r.checksum,
        ..ICMPView { icmp_type: 0, ..m }
    });
}

/// A host lets a packet for another network through its gateway only when
/// it is ICMP (protocol 1), or bound for the name server 10.15.44.11 or one
/// of the allowed hosts 121.194.11.72, 202.89.233.100 and 202.89.233.101,
/// whatever its protocol. Such a packet goes, unchanged, to the MAC address
/// of the gateway; any other is dropped.
pub proof fn lemma_host_gateway_filter(r: AdapterRulesView, p: IpPacketView)
    requires
        !r.if_router,
        p.destination_address != r.ip_addr,
        r.ip_addr & r.ip_mask != p.destination_address & r.ip_mask,
        p.destination_address != 0xFFFF_FFFFu32,
    ensures
        (p.protocol == 1 || p.destination_address == 0x0A0F_2C0Bu32 || p.destination_address
            == 0x79C2_0B48u32 || p.destination_address == 0xCA59_E964u32 || p.destination_address
            == 0xCA59_E965u32) ==> spec_down_route(r, p) == RouteView::SendToMac(
            r.arp_table[r.ip_gateway->0],
            spec_ip_bytes(p),
        ),
        !(p.protocol == 1 || p.destination_address == 0x0A0F_2C0Bu32 || p.destination_address
            == 0x79C2_0B48u32 || p.destination_address == 0xCA59_E964u32 || p.destination_address
            == 0xCA59_E965u32) ==> spec_down_route(r, p) == RouteView::Drop,
{
}

/// A packet for the node's own address goes back to the system; one for a
/// neighbour on the subnet, or broadcast, goes to the neighbour's MAC
/// address from the table, unchanged, and is dropped when the table has
/// none.
pub proof fn lemma_down_local_delivery(r: AdapterRulesView, p: IpPacketView)
    ensures
        p.destination_address == r.ip_addr ==> spec_down_route(r, p) == RouteView::SendToIp(p),
        p.destination_address != r.ip_addr && (r.ip_addr & r.ip_mask == p.destination_address
            & r.ip_mask || p.destination_address == 0xFFFF_FFFFu32) ==> spec_down_route(r, p) == (
        if r.arp_table.contains_key(p.destination_address) {
            RouteView::SendToMac(r.arp_table[p.destination_address], spec_ip_bytes(p))
        } else {
            RouteView::Drop
        }),
        r.if_router && p.destination_address != r.ip_addr && r.ip_addr & r.ip_mask
            != p.destination_address & r.ip_mask && p.destination_address != 0xFFFF_FFFFu32
            ==> spec_down_route(r, p) == RouteView::Drop,
{
}

/// Bytes of an IPv4 packet from the MAC layer that pass the address filter
/// (a router takes every destination, a host only its own address and the
/// broadcast address) and carry anything but ICMP (protocol 1) are handed
/// to the system as the packet read from them, whatever their destination
/// and checksum.
pub proof fn lemma_up_non_icmp_delivered(r: AdapterRulesView, data: Seq<u8>)
    requires
        spec_ip_parsable(data),
        r.if_router || spec_parse_ip(data).destination_address == r.ip_addr
            || spec_parse_ip(data).destination_address == 0xFFFF_FFFFu32,
        spec_parse_ip(data).protocol != 1,
    ensures
        spec_up_route(r, data) == RouteView::SendToIp(spec_parse_ip(data)),
{
}

/// Bytes that are not IPv4, and packets a host is not addressed by, are
/// dropped; so are ICMP packets whose header or message checksum is wrong.
pub proof fn lemma_up_drops(r: AdapterRulesView, data: Seq<u8>)
    requires
        data.len() >= 1,
    ensures
        data[0] >> 4u8 != 4 ==> spec_up_route(r, data) == RouteView::Drop,
        data[0] >> 4u8 == 4 && !r.if_router && spec_parse_ip(data).destination_address
            != r.ip_addr && spec_parse_ip(data).destination_address != 0xFFFF_FFFFu32
            ==> spec_up_route(r, data) == RouteView::Drop,
        data[0] >> 4u8 == 4 && accepts(r, spec_parse_ip(data)) && spec_parse_ip(data).protocol == 1
            && (spec_ip_checksum(spec_parse_ip(data)) != spec_parse_ip(data).header_checksum
            || spec_icmp_checksum(spec_parse_icmp(spec_parse_ip(data).data)) != spec_parse_icmp(
            spec_parse_ip(data).data,
        ).checksum) ==> spec_up_route(r, data) == RouteView::Drop,
{
}

/// On a router, a well-formed ICMP packet for another address is handed to
/// the address translation unchanged.
pub proof fn lemma_router_forwards_foreign_icmp(r: AdapterRulesView, data: Seq<u8>)
    requires
        spec_ip_parsable(data),
        r.if_router,
        spec_parse_ip(data).destination_address != r.ip_addr,
        spec_parse_ip(data).destination_address != 0xFFFF_FFFFu32,
        spec_parse_ip(data).protocol == 1,
        spec_ip_checksum(spec_parse_ip(data)) == spec_parse_ip(data).header_checksum,
        spec_icmp_checksum(spec_parse_icmp(spec_parse_ip(data).data)) == spec_parse_icmp(
            spec_parse_ip(data).data,
        ).checksum,
    ensures
        spec_up_route(r, data) == RouteView::ForwardToNat(spec_parse_ip(data)),
{
}

} // verus!
