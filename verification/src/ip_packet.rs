//! IPv4 packets: parsing from bytes, serializing back, header fields and the
//! header checksum.

use crate::bits::{extend_bytes, Byte};
pub use crate::byte_order::{be16, be32};
use crate::checksum::{
    finish_checksum, internet_checksum, lemma_be_word, lemma_word_sum_bound, lemma_word_sum_same_words, word_at,
    word_sum,
};
use vstd::prelude::*;

verus! {

/// The transport protocol carried by a packet, by its protocol number.
#[derive(Debug, Clone, Copy, PartialEq, Eq, Structural)]
pub enum IpProtocol {
    ICMP,
    IGMP,
    TCP,
    UDP,
    ENCAP,
    OSPF,
    SCTP,
    OTHER,
}

/// The protocol named by protocol number `p`.
pub open spec fn spec_protocol_of(p: u8) -> IpProtocol {
    if p == 1 {
        IpProtocol::ICMP
    } else if p == 2 {
        IpProtocol::IGMP
    } else if p == 6 {
        IpProtocol::TCP
    } else if p == 17 {
        IpProtocol::UDP
    } else if p == 41 {
        IpProtocol::ENCAP
    } else if p == 89 {
        IpProtocol::OSPF
    } else if p == 132 {
        IpProtocol::SCTP
    } else {
        IpProtocol::OTHER
    }
}

/// The fields of an IPv4 packet as plain values.
#[verifier::ext_equal]
pub struct IpPacketView {
    pub version: u8,
    pub internet_header_length: u8,
    pub type_of_service: u8,
    pub total_length: u16,
    pub identification: u16,
    pub flags: u8,
    pub fragment_offset: u16,
    pub time_to_live: u8,
    pub protocol: u8,
    pub header_checksum: u16,
    pub source_address: u32,
    pub destination_address: u32,
    pub options: Seq<u8>,
    pub data: Seq<u8>,
}

impl IpPacketView {
    /// The field values fit their widths in the header, and the options fill
    /// exactly the header words beyond the first five.
    pub open spec fn wf(self) -> bool {
        &&& self.version == 4
        &&& 5 <= self.internet_header_length <= 15
        &&& self.options.len() == (self.internet_header_length - 5) * 4
        &&& self.flags < 8
        &&& self.fragment_offset < 0x2000
    }

    /// The same packet with another header checksum.
    pub open spec fn with_checksum(self, c: u16) -> IpPacketView {
        IpPacketView { header_checksum: c, ..self }
    }
}

/// Number of option bytes announced by the first header byte.
pub open spec fn options_len_of(b0: u8) -> int {
    ((b0 & 0x0Fu8) - 5) * 4
}

/// `bytes` can be read as an IPv4 packet: at least 20 bytes, version 4, a
/// header length of at least five words, and room for the options.
pub open spec fn spec_ip_parsable(bytes: Seq<u8>) -> bool {
    &&& bytes.len() >= 20
    &&& bytes[0] >> 4u8 == 4
    &&& bytes[0] & 0x0Fu8 >= 5
    &&& bytes.len() >= 20 + options_len_of(bytes[0])
}

/// The packet read from `bytes`.
pub open spec fn spec_parse_ip(bytes: Seq<u8>) -> IpPacketView {
    let k = options_len_of(bytes[0]);
    IpPacketView {
        version: bytes[0] >> 4u8,
        internet_header_length: bytes[0] & 0x0Fu8,
        type_of_service: bytes[1],
        total_length: be16(bytes[2], bytes[3]),
        identification: be16(bytes[4], bytes[5]),
        flags: bytes[6] >> 5u8,
        fragment_offset: be16(bytes[6] & 0x1Fu8, bytes[7]),
        time_to_live: bytes[8],
        protocol: bytes[9],
        header_checksum: be16(bytes[10], bytes[11]),
        source_address: be32(bytes[12], bytes[13], bytes[14], bytes[15]),
        destination_address: be32(bytes[16], bytes[17], bytes[18], bytes[19]),
        options: bytes.subrange(20, 20 + k),
        data: bytes.skip(20 + k),
    }
}

/// The first 20 bytes of the header of `v`.
pub open spec fn spec_ip_fixed_header(v: IpPacketView) -> Seq<u8> {
    seq![
        ((v.version << 4u8) | v.internet_header_length) as u8,
        v.type_of_service,
        (v.total_length >> 8u16) as u8,
        v.total_length as u8,
        (v.identification >> 8u16) as u8,
        v.identification as u8,
        ((v.flags << 5u8) | (v.fragment_offset >> 8u16) as u8) as u8,
        v.fragment_offset as u8,
        v.time_to_live,
        v.protocol,
        (v.header_checksum >> 8u16) as u8,
        v.header_checksum as u8,
        (v.source_address >> 24u32) as u8,
        (v.source_address >> 16u32) as u8,
        (v.source_address >> 8u32) as u8,
        v.source_address as u8,
        (v.destination_address >> 24u32) as u8,
        (v.destination_address >> 16u32) as u8,
        (v.destination_address >> 8u32) as u8,
        v.destination_address as u8,
    ]
}

/// The bytes of packet `v`: the fixed header, the options, then the data.
pub open spec fn spec_ip_bytes(v: IpPacketView) -> Seq<u8> {
    spec_ip_fixed_header(v) + v.options + v.data
}

/// The header checksum of `v`: the Internet checksum of its header words,
/// with the checksum field counted as zero.
pub open spec fn spec_ip_checksum(v: IpPacketView) -> u16 {
    internet_checksum(
        spec_ip_bytes(v).update(10, 0u8).update(11, 0u8),
        (v.internet_header_length * 2) as nat,
    )
}

/// An IPv4 packet.
#[derive(Debug)]
pub struct IpPacket {
    version: Byte,
    internet_header_length: Byte,
    type_of_service: Byte,
    total_length: u16,
    identification: u16,
    flags: Byte,
    fragment_offset: u16,
    time_to_live: Byte,
    protocol: Byte,
    header_checksum: u16,
    source_address: u32,
    destination_address: u32,
    options: Vec<Byte>,
    data: Vec<Byte>,
}

impl View for IpPacket {
    type V = IpPacketView;

    closed spec fn view(&self) -> IpPacketView {
        IpPacketView {
            version: self.version,
            internet_header_length: self.internet_header_length,
            type_of_service: self.type_of_service,
            total_length: self.total_length,
            identification: self.identification,
            flags: self.flags,
            fragment_offset: self.fragment_offset,
            time_to_live: self.time_to_live,
            protocol: self.protocol,
            header_checksum: self.header_checksum,
            source_address: self.source_address,
            destination_address: self.destination_address,
            options: self.options@,
            data: self.data@,
        }
    }
}

impl Clone for IpPacket {
    fn clone(&self) -> (r: Self)
        ensures
            r@ == self@,
    {
        proof {
            use_type_invariant(self);
        }
        IpPacket {
            version: self.version,
            internet_header_length: self.internet_header_length,
            type_of_service: self.type_of_service,
            total_length: self.total_length,
            identification: self.identification,
            flags: self.flags,
            fragment_offset: self.fragment_offset,
            time_to_live: self.time_to_live,
            protocol: self.protocol,
            header_checksum: self.header_checksum,
            source_address: self.source_address,
            destination_address: self.destination_address,
            options: copy_bytes(&self.options),
            data: copy_bytes(&self.data),
        }
    }
}

/// A copy of `v`.
fn copy_bytes(v: &Vec<u8>) -> (r: Vec<u8>)
    ensures
        r@ == v@,
{
    let mut r: Vec<u8> = Vec::new();
    extend_bytes(&mut r, v);
    r
}

pub(crate) proof fn lemma_parse_wf(bytes: Seq<u8>)
    requires
        spec_ip_parsable(bytes),
    ensures
        spec_parse_ip(bytes).wf(),
{
    let b0 = bytes[0];
    let b6 = bytes[6];
    let b7 = bytes[7];
    assert(b0 & 0x0Fu8 <= 15) by (bit_vector);
    assert(b6 >> 5u8 < 8) by (bit_vector);
    assert((((b6 & 0x1Fu8) as u16) << 8u16 | (b7 as u16)) < 0x2000) by (bit_vector);
}

impl IpPacket {
    #[verifier::type_invariant]
    closed spec fn inv(self) -> bool {
        self@.wf()
    }

    /// Whether `bytes` can be read as an IPv4 packet: at least 20 bytes,
    /// version 4, a header length of at least five words, and room for the
    /// options.
    pub fn is_readable(bytes: &Vec<Byte>) -> (b: bool)
        ensures
            b == spec_ip_parsable(bytes@),
    {
        if bytes.len() < 20 {
            return false;
        }
        let b0 = bytes[0];
        if b0 >> 4 != 4 || (b0 & 0x0F) < 5 {
            return false;
        }
        bytes.len() - 20 >= ((b0 & 0x0F) as usize - 5) * 4
    }

    /// Reads an IPv4 packet from `bytes`: the fixed 20-byte header, then as
    /// many option bytes as the header length announces, then the data.
    pub fn new_from_bytes(bytes: &Vec<Byte>) -> (packet: IpPacket)
        requires
            spec_ip_parsable(bytes@),
        ensures
            packet@ == spec_parse_ip(bytes@),
            packet@.wf(),
    {
        proof {
            lemma_parse_wf(bytes@);
        }
        let version = bytes[0] >> 4;
        let internet_header_length = bytes[0] & 0x0F;
        let type_of_service = bytes[1];
        let total_length = (bytes[2] as u16) << 8 | bytes[3] as u16;
        let identification = (bytes[4] as u16) << 8 | bytes[5] as u16;
        let flags = bytes[6] >> 5;
        let fragment_offset = ((bytes[6] & 0x1F) as u16) << 8 | bytes[7] as u16;
        let time_to_live = bytes[8];
        let protocol = bytes[9];
        let header_checksum = (bytes[10] as u16) << 8 | bytes[11] as u16;
        let source_address = (bytes[12] as u32) << 24 | (bytes[13] as u32) << 16
            | (bytes[14] as u32) << 8 | bytes[15] as u32;
        let destination_address = (bytes[16] as u32) << 24 | (bytes[17] as u32) << 16
            | (bytes[18] as u32) << 8 | bytes[19] as u32;
        let byte_length_options = (internet_header_length as usize - 5) * 4;
        let options = if byte_length_options > 0 {
            vstd::slice::slice_to_vec(&bytes.as_slice()[20..20 + byte_length_options])
        } else {
            Vec::new()
        };
        let byte_length_data = bytes.len() - 20 - byte_length_options;
        let data = if byte_length_data > 0 {
            vstd::slice::slice_to_vec(&bytes.as_slice()[20 + byte_length_options..bytes.len()])
        } else {
            Vec::new()
        };
        let packet = IpPacket {
            version,
            internet_header_length,
            type_of_service,
            total_length,
            identification,
            flags,
            fragment_offset,
            time_to_live,
            protocol,
            header_checksum,
            source_address,
            destination_address,
            options,
            data,
        };
        assert(packet@ =~= spec_parse_ip(bytes@));
        packet
    }

    /// The bytes of the packet: the fixed header, the options, then the data.
    pub fn get_ip_packet_bytes(&self) -> (bytes: Vec<Byte>)
        ensures
            bytes@ == spec_ip_bytes(self@),
    {
        let mut bytes: Vec<Byte> = Vec::new();
        bytes.push((self.version << 4) | self.internet_header_length);
        bytes.push(self.type_of_service);
        bytes.push((self.total_length >> 8) as Byte);
        bytes.push(self.total_length as Byte);
        bytes.push((self.identification >> 8) as Byte);
        bytes.push(self.identification as Byte);
        bytes.push((self.flags << 5) | (self.fragment_offset >> 8) as Byte);
        bytes.push(self.fragment_offset as Byte);
        bytes.push(self.time_to_live);
        bytes.push(self.protocol);
        bytes.push((self.header_checksum >> 8) as Byte);
        bytes.push(self.header_checksum as Byte);
        bytes.push((self.source_address >> 24) as Byte);
        bytes.push((self.source_address >> 16) as Byte);
        bytes.push((self.source_address >> 8) as Byte);
        bytes.push(self.source_address as Byte);
        bytes.push((self.destination_address >> 24) as Byte);
        bytes.push((self.destination_address >> 16) as Byte);
        bytes.push((self.destination_address >> 8) as Byte);
        bytes.push(self.destination_address as Byte);
        assert(bytes@ =~= spec_ip_fixed_header(self@));
        extend_bytes(&mut bytes, &self.options);
        extend_bytes(&mut bytes, &self.data);
        bytes
    }

    /// The IP version handled: 4.
    pub fn get_version() -> (v: Byte)
        ensures
            v == 4,
    {
        4
    }

    /// The header length, in 32-bit words.
    pub fn get_internet_header_length(&self) -> (r: Byte)
        ensures
            r == self@.internet_header_length,
    {
        self.internet_header_length
    }

    /// The type of service byte (DSCP and ECN).
    pub fn get_type_of_service(&self) -> (r: Byte)
        ensures
            r == self@.type_of_service,
    {
        self.type_of_service
    }

    pub fn get_total_length(&self) -> (r: u16)
        ensures
            r == self@.total_length,
    {
        self.total_length
    }

    pub fn get_identification(&self) -> (r: u16)
        ensures
            r == self@.identification,
    {
        self.identification
    }

    /// The "don't fragment" flag (the middle one of the three flag bits).
    pub fn if_dont_fragment(&self) -> (r: bool)
        ensures
            r == (self@.flags & 0b010u8 != 0),
    {
        (self.flags & 0b010) != 0
    }

    /// The "more fragments" flag (the lowest of the three flag bits).
    pub fn if_more_fragments(&self) -> (r: bool)
        ensures
            r == (self@.flags & 0b001u8 != 0),
    {
        (self.flags & 0b001) != 0
    }

    /// The fragment offset, in units of eight bytes.
    pub fn get_fragment_offset(&self) -> (r: u16)
        ensures
            r == self@.fragment_offset,
    {
        self.fragment_offset
    }

    pub fn get_time_to_live(&self) -> (r: Byte)
        ensures
            r == self@.time_to_live,
    {
        self.time_to_live
    }

    /// Decrements the time to live, recomputes the header checksum, and
    /// returns the time to live before the decrement. A packet whose time to
    /// live is already zero is to be discarded: it is left as it is and the
    /// result is `None`.
    pub fn decrement_time_to_live(&mut self) -> (r: Option<Byte>)
        ensures
            old(self)@.time_to_live == 0 ==> r is None && final(self)@ == old(self)@,
            old(self)@.time_to_live > 0 ==> {
                &&& r == Some(old(self)@.time_to_live)
                &&& final(self)@ == (IpPacketView {
                    time_to_live: (old(self)@.time_to_live - 1) as u8,
                    header_checksum: final(self)@.header_checksum,
                    ..old(self)@
                })
                &&& final(self)@.header_checksum == spec_ip_checksum(final(self)@)
            },
    {
        proof {
            use_type_invariant(&*self);
        }
        let old_ttl = self.time_to_live;
        if old_ttl == 0 {
            return None;
        }
        self.time_to_live = self.time_to_live - 1;
        let c = self.calc_header_checksum();
        proof {
            lemma_checksum_ignores_checksum_field(self@, c);
        }
        self.header_checksum = c;
        Some(old_ttl)
    }

    /// The carried protocol, by protocol number.
    pub fn get_protocol(&self) -> (r: IpProtocol)
        ensures
            r == spec_protocol_of(self@.protocol),
    {
        match self.protocol {
            1 => IpProtocol::ICMP,
            2 => IpProtocol::IGMP,
            6 => IpProtocol::TCP,
            17 => IpProtocol::UDP,
            41 => IpProtocol::ENCAP,
            89 => IpProtocol::OSPF,
            132 => IpProtocol::SCTP,
            _ => IpProtocol::OTHER,
        }
    }

    /// The header checksum the header should carry: the Internet checksum of
    /// the header words, with the checksum field counted as zero.
    pub fn calc_header_checksum(&self) -> (c: u16)
        ensures
            c == spec_ip_checksum(self@),
    {
        proof {
            use_type_invariant(self);
        }
        let mut packet_bytes = self.get_ip_packet_bytes();
        packet_bytes.set(10, 0);
        packet_bytes.set(11, 0);
        let ghost z = packet_bytes@;
        assert(z == spec_ip_bytes(self@).update(10, 0u8).update(11, 0u8));
        let header_len = self.get_internet_header_length() as usize * 4;
        let mut sum: u32 = 0;
        let mut i: usize = 0;
        while i < header_len
            invariant
                z == packet_bytes@,
                header_len == self@.internet_header_length * 4,
                header_len <= 60,
                header_len <= z.len(),
                i % 2 == 0,
                i <= header_len,
                sum == word_sum(z, (i / 2) as nat),
            decreases header_len - i,
        {
            proof {
                lemma_be_word(z[i as int], z[i + 1]);
                lemma_word_sum_bound(z, (i / 2) as nat);
                assert((i + 2) / 2 == i / 2 + 1);
                assert(word_at(z, i as int) == z[i as int] * 256 + z[i + 1]);
            }
            sum = sum + ((packet_bytes[i] as u32) << 8 | packet_bytes[i + 1] as u32);
            i = i + 2;
        }
        finish_checksum(sum)
    }

    /// Stores the checksum the header should carry.
    pub fn update_header_checksum(&mut self)
        ensures
            final(self)@ == old(self)@.with_checksum(spec_ip_checksum(old(self)@)),
            final(self)@.header_checksum == spec_ip_checksum(final(self)@),
    {
        proof {
            use_type_invariant(&*self);
        }
        let c = self.calc_header_checksum();
        proof {
            lemma_checksum_ignores_checksum_field(self@, c);
        }
        self.header_checksum = c;
    }

    /// Reads a packet handed over as raw bytes: anything but IPv4 is refused,
    /// with the message "Only IPv4 is supported".
    pub fn try_new_from_received(bytes: &Vec<Byte>) -> (r: Result<IpPacket, &'static str>)
        requires
            bytes@.len() >= 1,
            bytes@[0] >> 4u8 == 4 ==> spec_ip_parsable(bytes@),
        ensures
            r is Err <==> bytes@[0] >> 4u8 != 4,
            r matches Ok(p) ==> p@ == spec_parse_ip(bytes@),
            r matches Err(e) ==> e@ == "Only IPv4 is supported"@,
    {
        if bytes[0] >> 4 != 4 {
            return Err("Only IPv4 is supported");
        }
        Ok(IpPacket::new_from_bytes(bytes))
    }

    /// Whether the header carries the checksum it should.
    pub fn check_header_checksum(&self) -> (r: bool)
        ensures
            r == (spec_ip_checksum(self@) == self@.header_checksum),
    {
        let packet_bytes = self.get_ip_packet_bytes();
        let hi = packet_bytes[10];
        let lo = packet_bytes[11];
        let c = self.header_checksum;
        proof {
            assert(hi == (c >> 8u16) as u8 && lo == c as u8);
            assert(((hi as u16) << 8u16 | lo as u16) == c) by (bit_vector)
                requires
                    hi == (c >> 8u16) as u8,
                    lo == c as u8,
            ;
        }
        self.calc_header_checksum() == (hi as u16) << 8 | lo as u16
    }

    pub fn get_source_address(&self) -> (r: u32)
        ensures
            r == self@.source_address,
    {
        self.source_address
    }

    pub fn set_source_address(&mut self, source_address: u32)
        ensures
            final(self)@ == (IpPacketView { source_address, ..old(self)@ }),
    {
        proof {
            use_type_invariant(&*self);
        }
        self.source_address = source_address;
    }

    pub fn get_destination_address(&self) -> (r: u32)
        ensures
            r == self@.destination_address,
    {
        self.destination_address
    }

    pub fn set_destination_address(&mut self, destination_address: u32)
        ensures
            final(self)@ == (IpPacketView { destination_address, ..old(self)@ }),
    {
        proof {
            use_type_invariant(&*self);
        }
        self.destination_address = destination_address;
    }

    /// A copy of the option bytes.
    pub fn get_options(&self) -> (r: Vec<Byte>)
        ensures
            r@ == self@.options,
    {
        copy_bytes(&self.options)
    }

    /// A copy of the data bytes.
    pub fn get_data(&self) -> (r: Vec<Byte>)
        ensures
            r@ == self@.data,
    {
        copy_bytes(&self.data)
    }

    /// Replaces the data bytes; the header is left as it is.
    pub fn set_data(&mut self, data: Vec<Byte>)
        ensures
            final(self)@ == (IpPacketView { data: data@, ..old(self)@ }),
    {
        proof {
            use_type_invariant(&*self);
        }
        self.data = data;
    }

    /// Whether the destination lies in the subnet of `domain` under `mask`
    /// (addresses as big-endian 32-bit values).
    pub fn dst_is_subnet(&self, domain: u32, mask: u32) -> (r: bool)
        ensures
            r == (domain & mask == self@.destination_address & mask),
    {
        (domain & mask) == (self.destination_address & mask)
    }
}

/// The header checksum does not depend on the value of the checksum field.
pub proof fn lemma_checksum_ignores_checksum_field(v: IpPacketView, c: u16)
    ensures
        spec_ip_checksum(v.with_checksum(c)) == spec_ip_checksum(v),
{
    let w = v.with_checksum(c);
    assert(spec_ip_bytes(w).update(10, 0u8).update(11, 0u8) =~= spec_ip_bytes(v).update(
        10,
        0u8,
    ).update(11, 0u8));
}

/// The header checksum does not change when the source and destination
/// addresses trade places, whatever the data.
pub proof fn lemma_checksum_ignores_address_swap(v: IpPacketView, data: Seq<u8>)
    requires
        v.wf(),
    ensures
        spec_ip_checksum(
            IpPacketView {
                source_address: v.destination_address,
                destination_address: v.source_address,
                data,
                ..v
            },
        ) == spec_ip_checksum(v),
{
    let w = IpPacketView {
        source_address: v.destination_address,
        destination_address: v.source_address,
        data,
        ..v
    };
    let h1 = spec_ip_fixed_header(v);
    let h2 = spec_ip_fixed_header(w);
    let s1 = spec_ip_bytes(v).update(10, 0u8).update(11, 0u8);
    let s2 = spec_ip_bytes(w).update(10, 0u8).update(11, 0u8);
    let n = (v.internet_header_length * 2) as nat;
    let hl = 20 + v.options.len();
    assert(hl == 2 * n);
    assert forall|i: int| 0 <= i < 20 && i != 10 && i != 11 implies s1[i] == h1[i] && s2[i] == h2[i] by {
        assert(spec_ip_bytes(v)[i] == h1[i]);
        assert(spec_ip_bytes(w)[i] == h2[i]);
    }
    assert forall|i: int| 20 <= i < hl implies s1[i] == v.options[i - 20] && s2[i] == v.options[i
        - 20] by {
        assert(spec_ip_bytes(v)[i] == v.options[i - 20]);
        assert(spec_ip_bytes(w)[i] == w.options[i - 20]);
    }
    assert(s1.len() >= hl && s2.len() >= hl);
    assert forall|k: int| 10 <= k < n implies #[trigger] word_at(s1, 2 * k) == word_at(s2, 2 * k) by {
        assert(2 * k + 1 < hl);
    }
    lemma_word_sum_same_words(s1, s2, 10, n);
    assert(word_at(s1, 12) == word_at(s2, 16));
    assert(word_at(s1, 14) == word_at(s2, 18));
    assert(word_at(s1, 16) == word_at(s2, 12));
    assert(word_at(s1, 18) == word_at(s2, 14));
    assert(s1[10] == 0 && s1[11] == 0 && s2[10] == 0 && s2[11] == 0);
    assert(word_at(s1, 0) == word_at(s2, 0));
    assert(word_at(s1, 2) == word_at(s2, 2));
    assert(word_at(s1, 4) == word_at(s2, 4));
    assert(word_at(s1, 6) == word_at(s2, 6));
    assert(word_at(s1, 8) == word_at(s2, 8));
    assert(word_at(s1, 10) == word_at(s2, 10));
    assert(word_sum(s1, 10) == word_sum(s2, 10)) by {
        reveal_with_fuel(word_sum, 11);
    }
}

/// Reading the bytes of a packet whose fields fit their widths gives the
/// packet back.
pub proof fn lemma_ip_serialize_parse(v: IpPacketView)
    requires
        v.wf(),
    ensures
        spec_ip_parsable(spec_ip_bytes(v)),
        spec_parse_ip(spec_ip_bytes(v)) == v,
{
    let b = spec_ip_bytes(v);
    let h = spec_ip_fixed_header(v);
    assert(b.subrange(0, 20) =~= h);
    let ver = v.version;
    let ihl = v.internet_header_length;
    let fl = v.flags;
    let fo = v.fragment_offset;
    let tl = v.total_length;
    let id = v.identification;
    let cs = v.header_checksum;
    let sa = v.source_address;
    let da = v.destination_address;
    assert(b[0] == h[0] && b[2] == h[2] && b[3] == h[3] && b[4] == h[4] && b[5] == h[5] && b[6]
        == h[6] && b[7] == h[7] && b[10] == h[10] && b[11] == h[11]);
    assert(b[12] == h[12] && b[13] == h[13] && b[14] == h[14] && b[15] == h[15] && b[16] == h[16]
        && b[17] == h[17] && b[18] == h[18] && b[19] == h[19]);
    let b0 = ((ver << 4u8) | ihl) as u8;
    assert(b0 >> 4u8 == ver && b0 & 0x0Fu8 == ihl) by (bit_vector)
        requires
            ver == 4,
            ihl <= 15,
            b0 == (ver << 4u8) | ihl,
    ;
    let b6 = ((fl << 5u8) | (fo >> 8u16) as u8) as u8;
    let b7 = fo as u8;
    assert(b6 >> 5u8 == fl && (((b6 & 0x1Fu8) as u16) << 8u16 | (b7 as u16)) == fo) by (bit_vector)
        requires
            fl < 8,
            fo < 0x2000,
            b6 == (fl << 5u8) | (fo >> 8u16) as u8,
            b7 == fo as u8,
    ;
    assert forall|x: u16| #[trigger] be16((x >> 8u16) as u8, x as u8) == x by {
        let hi = (x >> 8u16) as u8;
        let lo = x as u8;
        assert(((hi as u16) << 8u16 | (lo as u16)) == x) by (bit_vector)
            requires
                hi == (x >> 8u16) as u8,
                lo == x as u8,
        ;
    }
    assert forall|x: u32| #[trigger] be32(
        (x >> 24u32) as u8,
        (x >> 16u32) as u8,
        (x >> 8u32) as u8,
        x as u8,
    ) == x by {
        let c0 = (x >> 24u32) as u8;
        let c1 = (x >> 16u32) as u8;
        let c2 = (x >> 8u32) as u8;
        let c3 = x as u8;
        assert(((c0 as u32) << 24u32 | (c1 as u32) << 16u32 | (c2 as u32) << 8u32 | (c3 as u32))
            == x) by (bit_vector)
            requires
                c0 == (x >> 24u32) as u8,
                c1 == (x >> 16u32) as u8,
                c2 == (x >> 8u32) as u8,
                c3 == x as u8,
        ;
    }
    assert(be16(b[2], b[3]) == tl);
    assert(be16(b[4], b[5]) == id);
    assert(be16(b[10], b[11]) == cs);
    assert(be32(b[12], b[13], b[14], b[15]) == sa);
    assert(be32(b[16], b[17], b[18], b[19]) == da);
    let p = spec_parse_ip(b);
    assert(p.options =~= v.options);
    assert(p.data =~= v.data);
    assert(p =~= v);
}

/// Writing out a packet read from bytes gives the bytes back.
pub proof fn lemma_ip_parse_serialize(bytes: Seq<u8>)
    requires
        spec_ip_parsable(bytes),
    ensures
        spec_ip_bytes(spec_parse_ip(bytes)) == bytes,
{
    let v = spec_parse_ip(bytes);
    let out = spec_ip_bytes(v);
    let b0 = bytes[0];
    assert(((b0 >> 4u8) << 4u8) | (b0 & 0x0Fu8) == b0) by (bit_vector);
    let b6 = bytes[6];
    let b7 = bytes[7];
    let fo = (((b6 & 0x1Fu8) as u16) << 8u16 | (b7 as u16)) as u16;
    assert(((b6 >> 5u8) << 5u8) | ((fo >> 8u16) as u8) == b6 && fo as u8 == b7) by (bit_vector)
        requires
            fo == ((b6 & 0x1Fu8) as u16) << 8u16 | (b7 as u16),
    ;
    assert forall|hi: u8, lo: u8| #![trigger be16(hi, lo)]
        (be16(hi, lo) >> 8u16) as u8 == hi && be16(hi, lo) as u8 == lo by {
        let x = be16(hi, lo);
        assert((x >> 8u16) as u8 == hi && x as u8 == lo) by (bit_vector)
            requires
                x == (hi as u16) << 8u16 | (lo as u16),
        ;
    }
    assert forall|c0: u8, c1: u8, c2: u8, c3: u8| #![trigger be32(c0, c1, c2, c3)]
        (be32(c0, c1, c2, c3) >> 24u32) as u8 == c0 && (be32(c0, c1, c2, c3) >> 16u32) as u8 == c1
            && (be32(c0, c1, c2, c3) >> 8u32) as u8 == c2 && be32(c0, c1, c2, c3) as u8 == c3 by {
        let x = be32(c0, c1, c2, c3);
        assert((x >> 24u32) as u8 == c0 && (x >> 16u32) as u8 == c1 && (x >> 8u32) as u8 == c2
            && x as u8 == c3) by (bit_vector)
            requires
                x == (c0 as u32) << 24u32 | (c1 as u32) << 16u32 | (c2 as u32) << 8u32 | (c3 as u32),
        ;
    }
    assert(be16(bytes[2], bytes[3]) == v.total_length);
    assert(be16(bytes[4], bytes[5]) == v.identification);
    assert(be16(bytes[10], bytes[11]) == v.header_checksum);
    assert(be32(bytes[12], bytes[13], bytes[14], bytes[15]) == v.source_address);
    assert(be32(bytes[16], bytes[17], bytes[18], bytes[19]) == v.destination_address);
    assert(out =~= bytes);
}

} // verus!
