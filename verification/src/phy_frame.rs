//! The physical-layer frame: a 12-bit length in two hexbits followed by the
//! data, protected by the (24, 16, 9) Reed-Solomon code; and the plain frame
//! used without error correction.

use crate::bits::Byte;
use crate::hexbit::{
    all_hexbit_range, code_rs_hexbit_2_u8, hexbit_values, spec_hexbits_to_bytes, Hexbit,
};
use code_rs::coding::reed_solomon;
use vstd::prelude::*;

verus! {

/// Largest number of data bits in a frame.
pub const MAX_FRAME_DATA_LENGTH: usize = 128;

/// Number of payload bits in a frame.
pub const FRAME_PAYLOAD_LENGTH: usize = 144;

/// Number of bits of the length field.
pub const FRAME_LENGTH_LENGTH: usize = 12;

/// Number of bits of the length field of a frame without error correction.
pub const FRAME_LENGTH_LENGTH_NO_ENCODING: usize = 16;

/// Why a frame could not be built.
#[derive(Debug, Clone, Copy, PartialEq, Eq, Structural)]
pub enum FrameError {
    /// The data is longer than a frame holds (`MAX_FRAME_DATA_LENGTH` bits).
    DataTooLong,
}

/// The two hexbits of a 12-bit length: the high six bits, then the low six.
pub open spec fn spec_length_hexbits(length: usize) -> Seq<u8> {
    seq![(length >> 6usize) as u8, (length & 0b111111usize) as u8]
}

/// The length held by two hexbit values.
pub open spec fn spec_hexbits_length(h0: u8, h1: u8) -> usize {
    (((h0 as usize) << 6usize) | (h1 as usize)) as usize
}

/// The two hexbits of `length`, which must be below 4096.
pub fn usize_length_2_hexbits_length(length: usize) -> (hexbits: Vec<Hexbit>)
    requires
        length < 4096,
    ensures
        hexbit_values(hexbits@) == spec_length_hexbits(length),
        all_hexbit_range(hexbit_values(hexbits@)),
{
    proof {
        assert((length >> 6usize) < 64 && (length & 0b111111usize) < 64) by (bit_vector)
            requires
                length < 4096,
        ;
    }
    let mut hexbits: Vec<Hexbit> = Vec::new();
    hexbits.push(Hexbit::new((length >> 6) as u8));
    hexbits.push(Hexbit::new((length & 0b111111) as u8));
    assert(hexbit_values(hexbits@) =~= spec_length_hexbits(length));
    hexbits
}

/// The length held by two hexbits.
pub fn hexbits_length_2_usize_length(length: Vec<Hexbit>) -> (len: usize)
    requires
        length@.len() == 2,
    ensures
        len == spec_hexbits_length(length@[0]@, length@[1]@),
{
    let mut len: usize = 0;
    len = len | (length[0].bits() as usize);
    len = len << 6;
    len = len | (length[1].bits() as usize);
    proof {
        let h0 = length@[0]@;
        let h1 = length@[1]@;
        assert((((0usize | (h0 as usize)) << 6usize) | (h1 as usize)) == (((h0 as usize) << 6usize)
            | (h1 as usize))) by (bit_vector);
    }
    len
}

/// Reading back the hexbits of a length below 4096 gives the length.
pub proof fn lemma_length_hexbits_roundtrip(length: usize)
    requires
        length < 4096,
    ensures
        spec_hexbits_length(spec_length_hexbits(length)[0], spec_length_hexbits(length)[1])
            == length,
{
    let h0 = (length >> 6usize) as u8;
    let h1 = (length & 0b111111usize) as u8;
    assert((((h0 as usize) << 6usize) | (h1 as usize)) == length) by (bit_vector)
        requires
            length < 4096,
            h0 == (length >> 6usize) as u8,
            h1 == (length & 0b111111usize) as u8,
    ;
}

/// What the medium Reed-Solomon decoder of `code_rs` makes of a 24-hexbit
/// word: the 16 corrected data hexbits, or nothing when the word cannot be
/// corrected.
pub uninterp spec fn rs_medium_decode(word: Seq<u8>) -> Option<Seq<u8>>;

/// The word after decoding in place: on success the data hexbits are
/// replaced by the corrected ones, and the parity hexbits stay; otherwise the
/// word stays as it is.
pub open spec fn rs_medium_corrected(word: Seq<u8>) -> Seq<u8> {
    match rs_medium_decode(word) {
        Some(d) => d + word.subrange(16, 24),
        None => word,
    }
}

/// Decodes a 24-hexbit word in place with
/// `code_rs::coding::reed_solomon::medium::decode`. Claimed: the word stays
/// 24 hexbits of six bits each, and becomes `rs_medium_corrected` of what it
/// was (the decoder only ever writes the first 16 symbols, and only when it
/// succeeds).
#[verifier::external_body]
fn rs_medium_decode_in_place(buf: &mut Vec<Hexbit>)
    requires
        old(buf)@.len() == 24,
        all_hexbit_range(hexbit_values(old(buf)@)),
    ensures
        final(buf)@.len() == 24,
        all_hexbit_range(hexbit_values(final(buf)@)),
        hexbit_values(final(buf)@) == match rs_medium_decode(hexbit_values(old(buf)@)) {
            Some(d) => d + hexbit_values(old(buf)@).subrange(16, 24),
            None => hexbit_values(old(buf)@),
        },
{
    let mut word: [code_rs::bits::Hexbit; 24] = core::array::from_fn(
        |i| code_rs::bits::Hexbit::new(buf[i].bits),
    );
    let _ = reed_solomon::medium::decode(&mut word);
    for i in 0..24 {
        buf[i] = Hexbit { bits: word[i].bits() };
    }
}

/// The data length carried by a decoded payload.
pub open spec fn spec_payload_length(corrected: Seq<u8>) -> usize {
    spec_hexbits_length(corrected[0], corrected[1])
}

/// The data bytes carried by a decoded payload: hexbits 2 to 21.
pub open spec fn spec_payload_data(corrected: Seq<u8>) -> Seq<u8> {
    spec_hexbits_to_bytes(corrected.subrange(2, 22))
}

/// The plain frame of `data` bits announced as `length`: the length in two
/// bytes (big-endian, truncated to 16 bits), the data, then zeros up to 18
/// bytes.
pub open spec fn spec_plain_frame(length: usize, data: Seq<u8>) -> Seq<u8> {
    seq![(length >> 8usize) as u8, (length & 0xffusize) as u8] + data + Seq::new(
        if data.len() + 2 >= 18 {
            0
        } else {
            (16 - data.len()) as nat
        },
        |i: int| 0u8,
    )
}

/// The physical frame: the data length and the encoded payload.
pub struct PHYFrame {
    length: usize,
    payload: Vec<Hexbit>,
}

impl PHYFrame {
    /// Bytes `(length >> 8, length & 0xff)`, then the data, then zeros up to
    /// `(MAX_FRAME_DATA_LENGTH + FRAME_LENGTH_LENGTH_NO_ENCODING) / 8` bytes;
    /// returned with the length.
    pub fn new_no_encoding(length: usize, data: Vec<Byte>) -> (r: (usize, Vec<Byte>))
        ensures
            r.0 == length,
            r.1@.len() == if data@.len() + 2 >= 18 {
                data@.len() + 2
            } else {
                18
            },
            r.1@.subrange(0, 2) == seq![(length >> 8usize) as u8, (length & 0xffusize) as u8],
            r.1@.subrange(2, data@.len() + 2int) == data@,
            forall|i: int| data@.len() + 2 <= i < r.1@.len() ==> #[trigger] r.1@[i] == 0,
            r.1@ == spec_plain_frame(length, data@),
    {
        let mut payload: Vec<Byte> = Vec::new();
        payload.push((length >> 8) as u8);
        payload.push((length & 0xff) as u8);
        let n = data.len();
        for i in 0..n
            invariant
                n == data@.len(),
                payload@.len() == i + 2,
                payload@.subrange(0, 2) == seq![(length >> 8usize) as u8, (length & 0xffusize) as u8],
                payload@.subrange(2, i + 2) == data@.take(i as int),
        {
            payload.push(data[i]);
            assert(payload@.subrange(0, 2) =~= seq![(length >> 8usize) as u8, (length & 0xffusize) as u8]);
            assert(payload@.subrange(2, i + 3) =~= data@.take(i + 1));
        }
        assert(data@.take(n as int) == data@);
        let ghost filled = payload@;
        while payload.len() < (MAX_FRAME_DATA_LENGTH + FRAME_LENGTH_LENGTH_NO_ENCODING) / 8
            invariant
                payload@.len() >= n + 2,
                payload@.len() <= if n + 2 >= 18 {
                    n + 2
                } else {
                    18
                },
                payload@.subrange(0, n + 2) == filled,
                forall|i: int| n + 2 <= i < payload@.len() ==> #[trigger] payload@[i] == 0,
            decreases 18 - payload@.len(),
        {
            payload.push(0);
            assert(payload@.subrange(0, n + 2) =~= filled);
        }
        assert(payload@.subrange(0, 2) == filled.subrange(0, 2));
        assert(payload@.subrange(2, n + 2) == filled.subrange(2, n + 2));
        proof {
            let f = spec_plain_frame(length, data@);
            assert forall|i: int| 0 <= i < f.len() implies #[trigger] payload@[i] == f[i] by {
                if i < 2 {
                    assert(payload@[i] == payload@.subrange(0, 2)[i]);
                } else if i < n + 2 {
                    assert(payload@[i] == payload@.subrange(2, n + 2)[i - 2]);
                }
            }
            assert(payload@ =~= f);
        }
        (length, payload)
    }

    /// Refuses data longer than a frame holds. Data that fits (at most
    /// `MAX_FRAME_DATA_LENGTH` bits and a length to match) is padded to 16
    /// bytes, and 16 is not a multiple of the three bytes that hexbit
    /// conversion takes at a time, so those inputs are not accepted here.
    pub fn data_2_payload(data: Vec<u8>, len: usize) -> (r: Result<Vec<Hexbit>, FrameError>)
        requires
            len > MAX_FRAME_DATA_LENGTH || (data@.len() * 8 <= usize::MAX && data@.len() * 8
                > MAX_FRAME_DATA_LENGTH),
        ensures
            r == Err::<Vec<Hexbit>, FrameError>(FrameError::DataTooLong),
    {
        if len > MAX_FRAME_DATA_LENGTH || data.len() * 8 > MAX_FRAME_DATA_LENGTH {
            return Err(FrameError::DataTooLong);
        }
        vstd::pervasive::unreached()
    }

    /// Corrects a 24-hexbit payload with the Reed-Solomon decoder, then reads
    /// the length from its first two hexbits and the data bytes from the next
    /// twenty.
    pub fn payload_2_data(payload: Vec<Hexbit>) -> (r: Result<(Vec<Byte>, usize), FrameError>)
        requires
            payload@.len() == 24,
            all_hexbit_range(hexbit_values(payload@)),
        ensures
            r matches Ok((data, length)) && data@ == spec_payload_data(
                rs_medium_corrected(hexbit_values(payload@)),
            ) && length == spec_payload_length(rs_medium_corrected(hexbit_values(payload@))),
    {
        let mut word = payload;
        rs_medium_decode_in_place(&mut word);
        Ok(PHYFrame::read_corrected_payload(&word))
    }

    /// Reads a corrected 24-hexbit payload: the length from its first two
    /// hexbits and the data bytes from the next twenty.
    pub fn read_corrected_payload(word: &Vec<Hexbit>) -> (r: (Vec<Byte>, usize))
        requires
            word@.len() == 24,
        ensures
            r.0@ == spec_payload_data(hexbit_values(word@)),
            r.1 == spec_payload_length(hexbit_values(word@)),
    {
        let ghost corrected = hexbit_values(word@);
        let mut length_hexbits: Vec<Hexbit> = Vec::new();
        length_hexbits.push(word[0]);
        length_hexbits.push(word[1]);
        let length = hexbits_length_2_usize_length(length_hexbits);
        let mut data_hexbits: Vec<Hexbit> = Vec::new();
        for i in 2..22usize
            invariant
                word@.len() == 24,
                corrected == hexbit_values(word@),
                data_hexbits@.len() == i - 2,
                hexbit_values(data_hexbits@) == corrected.subrange(2, i as int),
        {
            data_hexbits.push(word[i]);
            assert(hexbit_values(data_hexbits@) =~= corrected.subrange(2, i + 1));
        }
        let data = code_rs_hexbit_2_u8(data_hexbits);
        (data, length)
    }

    /// Groups the bytes of `input` by four; its length must be a multiple of
    /// four.
    pub fn construct_payload_format(input: Vec<u8>) -> (payload: Vec<Vec<u8>>)
        requires
            input@.len() % 4 == 0,
        ensures
            payload@.len() == input@.len() / 4,
            forall|k: int|
                0 <= k < payload@.len() ==> #[trigger] payload@[k]@ == input@.subrange(
                    4 * k,
                    4 * k + 4,
                ),
    {
        let mut payload: Vec<Vec<u8>> = Vec::new();
        let mut i: usize = 0;
        while i < input.len()
            invariant
                input@.len() % 4 == 0,
                i % 4 == 0,
                i <= input@.len(),
                payload@.len() == i / 4,
                forall|k: int|
                    0 <= k < payload@.len() ==> #[trigger] payload@[k]@ == input@.subrange(
                        4 * k,
                        4 * k + 4,
                    ),
            decreases input@.len() - i,
        {
            let mut payload_shard: Vec<u8> = Vec::new();
            for j in 0..4usize
                invariant
                    i + 4 <= input.len(),
                    payload_shard@ == input@.subrange(i as int, (i + j) as int),
            {
                payload_shard.push(input[i + j]);
                assert(payload_shard@ =~= input@.subrange(i as int, (i + j + 1) as int));
            }
            payload.push(payload_shard);
            i = i + 4;
        }
        payload
    }
}

} // verus!
