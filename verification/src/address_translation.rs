//! Address translation of ICMP traffic between the acoustic network and
//! other interfaces: outgoing echo messages are remembered by their
//! identifier and sequence number, and replies coming back are readdressed
//! to the node that sent the request.

use crate::icmp::{spec_icmp_bytes, spec_parse_icmp, ICMP};
use crate::ip_packet::{spec_ip_checksum, spec_protocol_of, IpPacket, IpPacketView, IpProtocol};
use std::collections::HashMap;
use vstd::prelude::*;

verus! {

broadcast use vstd::std_specs::hash::group_hash_axioms;

/// What to do with an ICMP packet that arrived on another interface.
pub enum NatInbound {
    /// It is bound for the acoustic network already: forward it as it is.
    Forward(IpPacket),
    /// It answers a message sent from the acoustic network: forward it,
    /// readdressed to the sender.
    ForwardTranslated(IpPacket),
    /// Neither: leave it alone.
    Ignore,
}

/// An inbound decision as plain values.
pub enum NatInboundView {
    Forward(IpPacketView),
    ForwardTranslated(IpPacketView),
    Ignore,
}

impl NatInbound {
    pub open spec fn route(&self) -> NatInboundView {
        match self {
            NatInbound::Forward(p) => NatInboundView::Forward(p@),
            NatInbound::ForwardTranslated(p) => NatInboundView::ForwardTranslated(p@),
            NatInbound::Ignore => NatInboundView::Ignore,
        }
    }
}

/// Whether the destination of `p` lies in the subnet `domain` under `mask`.
pub open spec fn in_subnet(p: IpPacketView, domain: u32, mask: u32) -> bool {
    domain & mask == p.destination_address & mask
}

/// The packet `p` readdressed to `dst`, with the header checksum to match.
pub open spec fn spec_readdressed(p: IpPacketView, dst: u32) -> IpPacketView {
    IpPacketView {
        destination_address: dst,
        header_checksum: spec_ip_checksum(IpPacketView { destination_address: dst, ..p }),
        ..p
    }
}

/// What happens to packet `p` arriving on another interface, given the table
/// from echo identifiers to acoustic senders.
pub open spec fn spec_nat_inbound(
    p: IpPacketView,
    domain: u32,
    mask: u32,
    table: Map<u32, u32>,
) -> NatInboundView {
    if in_subnet(p, domain, mask) {
        NatInboundView::Forward(p)
    } else {
        let u = spec_parse_icmp(p.data).utils;
        if table.contains_key(u) {
            NatInboundView::ForwardTranslated(spec_readdressed(p, table[u]))
        } else {
            NatInboundView::Ignore
        }
    }
}

/// The ICMP message carried by `packet`, sent from the acoustic network to
/// another interface: its identifier and sequence number are recorded
/// against the sender in `table`, and its bytes are returned for sending.
pub fn nat_outbound_icmp(table: &mut HashMap<u32, u32>, packet: &IpPacket) -> (bytes: Vec<u8>)
    requires
        spec_protocol_of(packet@.protocol) == IpProtocol::ICMP,
        packet@.data.len() >= 8,
    ensures
        bytes@ == spec_icmp_bytes(spec_parse_icmp(packet@.data)),
        final(table)@ == old(table)@.insert(
            spec_parse_icmp(packet@.data).utils,
            packet@.source_address,
        ),
{
    let local_icmp = match ICMP::try_new_from_ip_packet(packet) {
        Ok(m) => m,
        Err(_) => vstd::pervasive::unreached(),
    };
    let bytes = local_icmp.get_icmp_bytes();
    table.insert(local_icmp.get_utils(), packet.get_source_address());
    bytes
}

/// Decides what to do with ICMP packet `packet` that arrived on another
/// interface: forward it if it is bound for the acoustic subnet `domain`
/// under `mask`; readdress and forward it if it answers a recorded message;
/// else ignore it.
pub fn nat_inbound_icmp(packet: IpPacket, domain: u32, mask: u32, table: &HashMap<u32, u32>) -> (r: NatInbound)
    requires
        !in_subnet(packet@, domain, mask) ==> (spec_protocol_of(packet@.protocol)
            == IpProtocol::ICMP && packet@.data.len() >= 8),
    ensures
        r.route() == spec_nat_inbound(packet@, domain, mask, table@),
{
    if packet.dst_is_subnet(domain, mask) {
        return NatInbound::Forward(packet);
    }
    let icmp_packet = match ICMP::try_new_from_ip_packet(&packet) {
        Ok(m) => m,
        Err(_) => vstd::pervasive::unreached(),
    };
    match table.get(&icmp_packet.get_utils()) {
        Some(dst) => {
            let mut packet = packet;
            packet.set_destination_address(*dst);
            packet.update_header_checksum();
            NatInbound::ForwardTranslated(packet)
        },
        None => NatInbound::Ignore,
    }
}

/// After a message from the acoustic network has gone out through the
/// translation, a packet that comes back on another interface with the same
/// identifier and sequence number, bound outside the acoustic subnet, is
/// handed on to the message's sender: the same packet, readdressed to the
/// sender, with the header checksum that goes with it. A packet bound inside
/// the acoustic subnet is handed on unchanged.
pub proof fn lemma_reply_returns_to_sender(
    table: Map<u32, u32>,
    request: IpPacketView,
    reply: IpPacketView,
    domain: u32,
    mask: u32,
)
    requires
        request.data.len() >= 8,
        reply.data.len() >= 8,
        spec_parse_icmp(reply.data).utils == spec_parse_icmp(request.data).utils,
    ensures
        ({
            let t = table.insert(spec_parse_icmp(request.data).utils, request.source_address);
            if in_subnet(reply, domain, mask) {
                spec_nat_inbound(reply, domain, mask, t) == NatInboundView::Forward(reply)
            } else {
                match spec_nat_inbound(reply, domain, mask, t) {
                    NatInboundView::ForwardTranslated(p) => {
                        &&& p == IpPacketView {
                            destination_address: request.source_address,
                            header_checksum: p.header_checksum,
                            ..reply
                        }
                        &&& p.header_checksum == spec_ip_checksum(p)
                    },
                    _ => false,
                }
            }
        }),
{
    let p = spec_readdressed(reply, request.source_address);
    crate::ip_packet::lemma_checksum_ignores_checksum_field(
        IpPacketView { destination_address: request.source_address, ..reply },
        p.header_checksum,
    );
    assert(p == IpPacketView { destination_address: request.source_address, ..reply }.with_checksum(
        p.header_checksum,
    ));
}

} // verus!
