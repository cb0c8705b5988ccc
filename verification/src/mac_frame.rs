//! MAC frames: a two-byte header (destination and source addresses, frame id
//! and frame type) followed by the payload.

use crate::bits::{extend_bytes, Byte};
use vstd::prelude::*;

verus! {

pub const DEST_MASK: Byte = 0b11110000;

pub const SRC_MASK: Byte = 0b00001111;

pub const ID_MASK: Byte = 0b11111100;

pub const TYPE_MASK: Byte = 0b00000011;

/// A MAC address (four significant bits).
pub type MacAddress = Byte;

/// The type of a MAC frame.
#[derive(Debug, Clone, Copy, PartialEq, Eq, PartialOrd, Ord, Structural)]
pub enum MACType {
    Data,
    Ack,
    Unknown,
}

/// The number that encodes a frame type.
pub open spec fn spec_mactype_2_u8(t: MACType) -> u8 {
    match t {
        MACType::Data => 0,
        MACType::Ack => 1,
        MACType::Unknown => 2,
    }
}

/// The frame type a number encodes.
pub open spec fn spec_u8_2_mactype(b: u8) -> MACType {
    if b == 0 {
        MACType::Data
    } else if b == 1 {
        MACType::Ack
    } else {
        MACType::Unknown
    }
}

/// The number that encodes a frame type: data 0, acknowledgement 1, unknown 2.
pub fn mactype_2_u8(mac_type: MACType) -> (b: Byte)
    ensures
        b == spec_mactype_2_u8(mac_type),
{
    match mac_type {
        MACType::Data => 0,
        MACType::Ack => 1,
        MACType::Unknown => 2,
    }
}

/// The frame type a number encodes; numbers other than 0 and 1 are unknown.
pub fn u8_2_mactype(byte: Byte) -> (t: MACType)
    ensures
        t == spec_u8_2_mactype(byte),
{
    match byte {
        0 => MACType::Data,
        1 => MACType::Ack,
        _ => MACType::Unknown,
    }
}

/// Decoding the encoding of a frame type gives the type back.
pub proof fn lemma_mactype_roundtrip(t: MACType)
    ensures
        spec_u8_2_mactype(spec_mactype_2_u8(t)) == t,
{
}

/// The fields of a MAC frame as plain values.
#[verifier::ext_equal]
pub struct MACFrameView {
    pub frame_id: u8,
    pub dest: u8,
    pub src: u8,
    pub mac_type: u8,
    pub payload: Seq<u8>,
}

/// The bytes of frame `v`: destination in the high and source in the low
/// nibble of the first byte, the frame id (six bits) and type (two bits) in
/// the second, then the payload.
pub open spec fn spec_frame_bytes(v: MACFrameView) -> Seq<u8> {
    seq![
        (((v.dest << 4u8) & DEST_MASK) | (v.src & SRC_MASK)) as u8,
        (((v.frame_id << 2u8) & ID_MASK) | (v.mac_type & TYPE_MASK)) as u8,
    ] + v.payload
}

/// The frame id read from received frame bytes: the high six bits of the
/// second byte.
pub open spec fn spec_frame_id_of(data: Seq<u8>) -> u8 {
    (data[1] & ID_MASK) >> 2u8
}

/// The destination read from received frame bytes: the high nibble of the
/// first byte.
pub open spec fn spec_dst_of(data: Seq<u8>) -> u8 {
    (data[0] & DEST_MASK) >> 4u8
}

/// The source read from received frame bytes: the low nibble of the first
/// byte.
pub open spec fn spec_src_of(data: Seq<u8>) -> u8 {
    data[0] & SRC_MASK
}

/// The frame type read from received frame bytes: the low two bits of the
/// second byte.
pub open spec fn spec_type_of(data: Seq<u8>) -> MACType {
    spec_u8_2_mactype(data[1] & TYPE_MASK)
}

/// A MAC frame.
pub struct MACFrame {
    frame_id: Byte,
    dest: MacAddress,
    src: MacAddress,
    mac_type: Byte,
    payload: Vec<Byte>,
}

impl View for MACFrame {
    type V = MACFrameView;

    closed spec fn view(&self) -> MACFrameView {
        MACFrameView {
            frame_id: self.frame_id,
            dest: self.dest,
            src: self.src,
            mac_type: self.mac_type,
            payload: self.payload@,
        }
    }
}

impl MACFrame {
    /// A frame with id 0.
    pub fn new(dest: Byte, src: Byte, mac_type: MACType, payload: Vec<Byte>) -> (f: Self)
        ensures
            f@ == (MACFrameView {
                frame_id: 0,
                dest,
                src,
                mac_type: spec_mactype_2_u8(mac_type),
                payload: payload@,
            }),
    {
        MACFrame { frame_id: 0, dest, src, mac_type: mactype_2_u8(mac_type), payload }
    }

    /// The bytes of the frame: the two header bytes, then the payload.
    pub fn get_whole_frame_bits(&self) -> (res: Vec<Byte>)
        ensures
            res@ == spec_frame_bytes(self@),
    {
        let byte_0 = ((self.dest << 4) & DEST_MASK) | (self.src & SRC_MASK);
        let byte_1 = (self.frame_id << 2) & ID_MASK | (self.mac_type & TYPE_MASK);
        let mut res: Vec<Byte> = Vec::new();
        res.push(byte_0);
        res.push(byte_1);
        extend_bytes(&mut res, &self.payload);
        assert(res@ =~= spec_frame_bytes(self@));
        res
    }

    /// The frame id of received frame bytes (high six bits of the second
    /// byte).
    pub fn get_frame_id(data: &[Byte]) -> (id: Byte)
        requires
            data@.len() >= 2,
        ensures
            id == spec_frame_id_of(data@),
    {
        (data[1] & ID_MASK) >> 2
    }

    pub fn set_frame_id(&mut self, frame_id: Byte)
        ensures
            final(self)@ == (MACFrameView { frame_id, ..old(self)@ }),
    {
        self.frame_id = frame_id;
    }

    /// The destination read from received frame bytes: the high nibble of the
    /// first byte.
    pub fn get_dst(data: &[Byte]) -> (a: MacAddress)
        requires
            data@.len() >= 1,
        ensures
            a == spec_dst_of(data@),
    {
        (data[0] & DEST_MASK) >> 4
    }

    /// The source read from received frame bytes: the low nibble of the first
    /// byte.
    pub fn get_src(data: &[Byte]) -> (a: MacAddress)
        requires
            data@.len() >= 1,
        ensures
            a == spec_src_of(data@),
    {
        data[0] & SRC_MASK
    }

    /// The frame type read from received frame bytes: the low two bits of the
    /// second byte.
    pub fn get_type(data: &[Byte]) -> (t: MACType)
        requires
            data@.len() >= 2,
        ensures
            t == spec_type_of(data@),
    {
        u8_2_mactype(data[1] & TYPE_MASK)
    }

    /// The payload of received frame bytes: everything after the two header
    /// bytes.
    pub fn get_payload(data: &[Byte]) -> (p: &[Byte])
        requires
            data@.len() >= 2,
        ensures
            p@ == data@.subrange(2, data@.len() as int),
    {
        &data[2..data.len()]
    }
}

/// Reading back the bytes of a frame gives its destination and source
/// (modulo 16), its frame id (modulo 64), its type number (modulo 4) and its
/// payload.
pub proof fn lemma_frame_header_roundtrip(v: MACFrameView)
    ensures
        spec_dst_of(spec_frame_bytes(v)) == v.dest % 16,
        spec_src_of(spec_frame_bytes(v)) == v.src % 16,
        spec_frame_id_of(spec_frame_bytes(v)) == v.frame_id % 64,
        spec_frame_bytes(v)[1] & TYPE_MASK == v.mac_type % 4,
        spec_frame_bytes(v).subrange(2, spec_frame_bytes(v).len() as int) == v.payload,
{
    let b = spec_frame_bytes(v);
    let id = v.frame_id;
    let t = v.mac_type;
    let d = v.dest;
    let sr = v.src;
    let b0 = (((d << 4u8) & DEST_MASK) | (sr & SRC_MASK)) as u8;
    let b1 = (((id << 2u8) & ID_MASK) | (t & TYPE_MASK)) as u8;
    assert(b[0] == b0);
    assert(b[1] == b1);
    assert((b0 & 0b11110000u8) >> 4u8 == d % 16 && b0 & 0b00001111u8 == sr % 16) by (bit_vector)
        requires
            b0 == ((d << 4u8) & 0b11110000u8) | (sr & 0b00001111u8),
    ;
    assert((b1 & ID_MASK) >> 2u8 == id % 64 && b1 & 0b00000011u8 == t % 4) by (bit_vector)
        requires
            b1 == ((id << 2u8) & 0b11111100u8) | (t & 0b00000011u8),
    ;
    assert(b.subrange(2, b.len() as int) =~= v.payload);
}

/// A frame made by `MACFrame::new` for a destination and source below 16
/// reads back with that destination, source and type, whatever its id.
pub proof fn lemma_new_frame_reads_back(dest: u8, src: u8, mac_type: MACType, payload: Seq<u8>, frame_id: u8)
    requires
        dest < 16,
        src < 16,
    ensures
        ({
            let b = spec_frame_bytes(
                MACFrameView { frame_id, dest, src, mac_type: spec_mactype_2_u8(mac_type), payload },
            );
            &&& spec_dst_of(b) == dest
            &&& spec_src_of(b) == src
            &&& spec_type_of(b) == mac_type
            &&& spec_frame_id_of(b) == frame_id % 64
            &&& b.subrange(2, b.len() as int) == payload
        }),
{
    lemma_frame_header_roundtrip(
        MACFrameView { frame_id, dest, src, mac_type: spec_mactype_2_u8(mac_type), payload },
    );
}

} // verus!
