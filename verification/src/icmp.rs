//! ICMP messages (only echo request and echo reply are told apart).

use crate::bits::extend_bytes;
use crate::byte_order::{
    be16, be16_bytes, be32, be32_bytes, lemma_be16_bytes_roundtrip, lemma_be16_roundtrip,
    lemma_be32_bytes_roundtrip, lemma_be32_roundtrip, push_be16, push_be32, read_be16, read_be32,
};
use crate::checksum::{
    finish_checksum, internet_checksum, lemma_word_sum_pointwise, padded_word_count, sum_words,
    word_sum, word_sum_fits_u32,
};
use crate::ip_packet::{spec_protocol_of, IpPacket, IpProtocol};
use vstd::prelude::*;

verus! {

/// The kind of an ICMP message.
#[derive(Debug, Clone, Copy, PartialEq, Eq, Structural)]
pub enum ICMPType {
    Unsupported,
    EchoReply,
    EchoRequest,
}

/// The kind named by ICMP type number `t`.
pub open spec fn spec_icmp_type_of(t: u8) -> ICMPType {
    if t == 0 {
        ICMPType::EchoReply
    } else if t == 8 {
        ICMPType::EchoRequest
    } else {
        ICMPType::Unsupported
    }
}

/// The fields of an ICMP message as plain values.
#[verifier::ext_equal]
pub struct ICMPView {
    pub icmp_type: u8,
    pub icmp_code: u8,
    pub checksum: u16,
    pub utils: u32,
    pub payload: Seq<u8>,
}

/// The bytes of message `v`: type, code, checksum, the four "rest of header"
/// bytes, then the payload.
pub open spec fn spec_icmp_bytes(v: ICMPView) -> Seq<u8> {
    seq![v.icmp_type, v.icmp_code] + be16_bytes(v.checksum) + be32_bytes(v.utils) + v.payload
}

/// The message read from `bytes` (at least eight of them).
pub open spec fn spec_parse_icmp(bytes: Seq<u8>) -> ICMPView {
    ICMPView {
        icmp_type: bytes[0],
        icmp_code: bytes[1],
        checksum: be16(bytes[2], bytes[3]),
        utils: be32(bytes[4], bytes[5], bytes[6], bytes[7]),
        payload: bytes.skip(8),
    }
}

/// The bytes of `v` with the checksum field counted as zero.
pub open spec fn icmp_checksum_input(v: ICMPView) -> Seq<u8> {
    spec_icmp_bytes(v).update(2, 0u8).update(3, 0u8)
}

/// The sum of the words the checksum of `v` is computed over.
pub open spec fn icmp_word_total(v: ICMPView) -> nat {
    word_sum(icmp_checksum_input(v), padded_word_count(icmp_checksum_input(v)))
}

/// The checksum of `v`: the Internet checksum of all its bytes, with the
/// checksum field counted as zero and an odd last byte padded with zero.
pub open spec fn spec_icmp_checksum(v: ICMPView) -> u16 {
    internet_checksum(icmp_checksum_input(v), padded_word_count(icmp_checksum_input(v)))
}

/// An ICMP message.
pub struct ICMP {
    icmp_type: u8,
    icmp_code: u8,
    checksum: u16,
    utils: u32,
    payload: Vec<u8>,
}

impl View for ICMP {
    type V = ICMPView;

    closed spec fn view(&self) -> ICMPView {
        ICMPView {
            icmp_type: self.icmp_type,
            icmp_code: self.icmp_code,
            checksum: self.checksum,
            utils: self.utils,
            payload: self.payload@,
        }
    }
}

impl Clone for ICMP {
    fn clone(&self) -> (r: Self)
        ensures
            r@ == self@,
    {
        let mut payload: Vec<u8> = Vec::new();
        extend_bytes(&mut payload, &self.payload);
        ICMP {
            icmp_type: self.icmp_type,
            icmp_code: self.icmp_code,
            checksum: self.checksum,
            utils: self.utils,
            payload,
        }
    }
}

/// The checksum does not depend on the value of the checksum field.
pub proof fn lemma_icmp_checksum_ignores_checksum_field(v: ICMPView, c: u16)
    ensures
        icmp_checksum_input(ICMPView { checksum: c, ..v }) == icmp_checksum_input(v),
        spec_icmp_checksum(ICMPView { checksum: c, ..v }) == spec_icmp_checksum(v),
        icmp_word_total(ICMPView { checksum: c, ..v }) == icmp_word_total(v),
{
    assert(icmp_checksum_input(ICMPView { checksum: c, ..v }) =~= icmp_checksum_input(v));
}

impl ICMP {
    /// Reads an ICMP message; fewer than eight bytes are refused with the
    /// message "ICMP packet too short".
    pub fn try_new_from_bytes(bytes: &Vec<u8>) -> (r: Result<ICMP, &'static str>)
        ensures
            r is Err <==> bytes@.len() < 8,
            r matches Ok(m) ==> m@ == spec_parse_icmp(bytes@),
            r matches Err(e) ==> e@ == "ICMP packet too short"@,
    {
        if bytes.len() < 8 {
            return Err("ICMP packet too short");
        }
        let icmp_type = bytes[0];
        let icmp_code = bytes[1];
        let checksum = read_be16(bytes, 2);
        let utils = read_be32(bytes, 4);
        let payload = vstd::slice::slice_to_vec(&bytes.as_slice()[8..bytes.len()]);
        let m = ICMP { icmp_type, icmp_code, checksum, utils, payload };
        assert(m@ =~= spec_parse_icmp(bytes@));
        Ok(m)
    }

    /// Reads the ICMP message carried by `packet`; a packet of another
    /// protocol is refused with the message "Not an ICMP packet".
    pub fn try_new_from_ip_packet(packet: &IpPacket) -> (r: Result<ICMP, &'static str>)
        ensures
            r is Err <==> (spec_protocol_of(packet@.protocol) != IpProtocol::ICMP
                || packet@.data.len() < 8),
            r matches Ok(m) ==> m@ == spec_parse_icmp(packet@.data),
            r matches Err(e) ==> (if spec_protocol_of(packet@.protocol) != IpProtocol::ICMP {
                e@ == "Not an ICMP packet"@
            } else {
                e@ == "ICMP packet too short"@
            }),
    {
        if packet.get_protocol() != IpProtocol::ICMP {
            return Err("Not an ICMP packet");
        }
        ICMP::try_new_from_bytes(&packet.get_data())
    }

    /// The bytes of the message.
    pub fn get_icmp_bytes(&self) -> (bytes: Vec<u8>)
        ensures
            bytes@ == spec_icmp_bytes(self@),
    {
        let mut bytes: Vec<u8> = Vec::new();
        bytes.push(self.icmp_type);
        bytes.push(self.icmp_code);
        push_be16(&mut bytes, self.checksum);
        push_be32(&mut bytes, self.utils);
        extend_bytes(&mut bytes, &self.payload);
        assert(bytes@ =~= spec_icmp_bytes(self@));
        bytes
    }

    /// Whether the words the checksum is computed over sum within 32 bits.
    pub fn word_total_fits(&self) -> (b: bool)
        ensures
            b == (icmp_word_total(self@) <= u32::MAX),
    {
        let mut bytes = self.get_icmp_bytes();
        bytes.set(2, 0);
        bytes.set(3, 0);
        assert(bytes@ == icmp_checksum_input(self@));
        let len = bytes.len();
        word_sum_fits_u32(&bytes, len / 2 + len % 2)
    }

    /// The checksum the message should carry. The 32-bit running sum of its
    /// words must not overflow.
    pub fn calc_checksum(&self) -> (c: u16)
        requires
            icmp_word_total(self@) <= u32::MAX,
        ensures
            c == spec_icmp_checksum(self@),
    {
        let mut bytes = self.get_icmp_bytes();
        bytes.set(2, 0);
        bytes.set(3, 0);
        assert(bytes@ == icmp_checksum_input(self@));
        let len = bytes.len();
        let sum = sum_words(&bytes, len / 2 + len % 2);
        finish_checksum(sum)
    }

    /// Whether the message carries the checksum it should.
    pub fn check_checksum(&self) -> (r: bool)
        requires
            icmp_word_total(self@) <= u32::MAX,
        ensures
            r == (spec_icmp_checksum(self@) == self@.checksum),
    {
        self.calc_checksum() == self.checksum
    }

    /// The kind of the message.
    pub fn get_type(&self) -> (t: ICMPType)
        ensures
            t == spec_icmp_type_of(self@.icmp_type),
    {
        match self.icmp_type {
            0 => ICMPType::EchoReply,
            8 => ICMPType::EchoRequest,
            _ => ICMPType::Unsupported,
        }
    }

    /// The four header bytes after the checksum (identifier and sequence
    /// number of an echo), as one big-endian value.
    pub fn get_utils(&self) -> (u: u32)
        ensures
            u == self@.utils,
    {
        self.utils
    }

    /// The echo reply to this message: the same message with type 0 and a
    /// freshly computed checksum.
    pub fn reply_echo(&self) -> (reply: ICMP)
        requires
            icmp_word_total(self@) <= u32::MAX,
        ensures
            reply@ == (ICMPView { icmp_type: 0, checksum: reply@.checksum, ..self@ }),
            reply@.checksum == spec_icmp_checksum(reply@),
    {
        let mut reply = self.clone();
        reply.icmp_type = 0;
        reply.checksum = 0;
        proof {
            let z1 = icmp_checksum_input(reply@);
            let z2 = icmp_checksum_input(self@);
            assert forall|i: int| 0 <= i < z1.len() implies #[trigger] z1[i] <= z2[i] by {}
            lemma_word_sum_pointwise(z1, z2, padded_word_count(z1));
        }
        let c = reply.calc_checksum();
        proof {
            lemma_icmp_checksum_ignores_checksum_field(reply@, c);
        }
        reply.checksum = c;
        reply
    }
}

/// Writing out a message read from at least eight bytes gives the bytes back.
pub proof fn lemma_icmp_parse_serialize(bytes: Seq<u8>)
    requires
        bytes.len() >= 8,
    ensures
        spec_icmp_bytes(spec_parse_icmp(bytes)) == bytes,
{
    lemma_be16_bytes_roundtrip(bytes[2], bytes[3]);
    lemma_be32_bytes_roundtrip(bytes[4], bytes[5], bytes[6], bytes[7]);
    assert(spec_icmp_bytes(spec_parse_icmp(bytes)) =~= bytes);
}

/// Reading the bytes of a message gives the message back.
pub proof fn lemma_icmp_serialize_parse(v: ICMPView)
    ensures
        spec_icmp_bytes(v).len() >= 8,
        spec_parse_icmp(spec_icmp_bytes(v)) == v,
{
    let b = spec_icmp_bytes(v);
    lemma_be16_roundtrip(v.checksum);
    lemma_be32_roundtrip(v.utils);
    assert(b[2] == be16_bytes(v.checksum)[0] && b[3] == be16_bytes(v.checksum)[1]);
    assert(b[4] == be32_bytes(v.utils)[0] && b[5] == be32_bytes(v.utils)[1] && b[6] == be32_bytes(
        v.utils,
    )[2] && b[7] == be32_bytes(v.utils)[3]);
    assert(spec_parse_icmp(b).payload =~= v.payload);
    assert(spec_parse_icmp(b) =~= v);
}

} // verus!
