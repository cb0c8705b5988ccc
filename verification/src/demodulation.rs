//! The decisions of the demodulator that do not touch samples: its state
//! machine, the correlation of two integer signals, and the decoding of the
//! received bits of one frame.

use crate::bits::{
    read_compressed_u8_2_data, read_data_2_compressed_u8, spec_compress, spec_decompress, Bit,
    Byte,
};
use crate::hexbit::{hexbit_values, spec_bytes_to_hexbits, u8_2_code_rs_hexbit};
use crate::phy_frame::{
    rs_medium_corrected, spec_payload_data, spec_payload_length, spec_plain_frame, FrameError,
    PHYFrame,
};
use vstd::prelude::*;

verus! {

/// What the demodulator is doing.
#[derive(Debug, Clone, Copy, PartialEq, Eq, Structural)]
pub enum DemodulationState {
    DetectPreamble,
    RecvFrame,
    Stop,
}

/// The state that follows `s`: detecting and receiving alternate, and a
/// stopped demodulator stays stopped.
pub open spec fn spec_next_state(s: DemodulationState) -> DemodulationState {
    match s {
        DemodulationState::DetectPreamble => DemodulationState::RecvFrame,
        DemodulationState::RecvFrame => DemodulationState::DetectPreamble,
        DemodulationState::Stop => DemodulationState::Stop,
    }
}

impl DemodulationState {
    /// The state that follows this one.
    pub fn next(&self) -> (s: Self)
        ensures
            s == spec_next_state(*self),
    {
        match self {
            DemodulationState::DetectPreamble => DemodulationState::RecvFrame,
            DemodulationState::RecvFrame => DemodulationState::DetectPreamble,
            DemodulationState::Stop => DemodulationState::Stop,
        }
    }
}

/// Two steps from any state lead back to it.
pub proof fn lemma_next_state_involution(s: DemodulationState)
    ensures
        spec_next_state(spec_next_state(s)) == s,
{
}

/// The sum of the products of the first `n` pairs of entries of `a` and `b`.
pub open spec fn spec_dot(a: Seq<i64>, b: Seq<i64>, n: nat) -> int
    decreases n,
{
    if n == 0 {
        0
    } else {
        spec_dot(a, b, (n - 1) as nat) + a[n - 1] * b[n - 1]
    }
}

/// The shorter length of `a` and `b`.
pub open spec fn min_len(a: Seq<i64>, b: Seq<i64>) -> nat {
    if a.len() <= b.len() {
        a.len()
    } else {
        b.len()
    }
}

/// Every product and every partial sum, up to the shorter length, fits in
/// 64 bits.
pub open spec fn dot_fits(a: Seq<i64>, b: Seq<i64>) -> bool {
    forall|k: nat|
        k < min_len(a, b) ==> i64::MIN <= #[trigger] (a[k as int] * b[k as int]) <= i64::MAX && i64::MIN
            <= spec_dot(a, b, k + 1) <= i64::MAX
}

/// The dot product of `a` and `b`, pairing entries up to the shorter length.
pub fn dot_product_iter(a: &[i64], b: &[i64]) -> (r: i64)
    requires
        dot_fits(a@, b@),
    ensures
        r == spec_dot(a@, b@, min_len(a@, b@)),
{
    let n = if a.len() <= b.len() {
        a.len()
    } else {
        b.len()
    };
    let mut acc: i64 = 0;
    for i in 0..n
        invariant
            n == min_len(a@, b@),
            dot_fits(a@, b@),
            acc == spec_dot(a@, b@, i as nat),
    {
        let ghost k = i as nat;
        assert(i64::MIN <= a@[k as int] * b@[k as int] <= i64::MAX && i64::MIN <= spec_dot(
            a@,
            b@,
            k + 1,
        ) <= i64::MAX);
        let p = a[i] * b[i];
        acc = acc + p;
    }
    acc
}

/// The bits of one received frame decoded: packed into bytes, split into
/// hexbits, corrected with the Reed-Solomon code, then read as length and
/// data bytes. The bits must fill exactly 18 bytes.
pub fn decode(input_data: &Vec<Bit>) -> (r: Result<(Vec<Byte>, usize), FrameError>)
    requires
        (input_data@.len() + 7) / 8 == 18,
    ensures
        r matches Ok((data, length)) && data@ == spec_payload_data(
            rs_medium_corrected(spec_bytes_to_hexbits(spec_compress(input_data@))),
        ) && length == spec_payload_length(
            rs_medium_corrected(spec_bytes_to_hexbits(spec_compress(input_data@))),
        ),
{
    let mut bits: Vec<Bit> = Vec::new();
    crate::bits::extend_bytes(&mut bits, input_data);
    let bytes = read_data_2_compressed_u8(bits);
    assert(bits@ == input_data@);
    let hexbits = u8_2_code_rs_hexbit(bytes);
    assert(hexbit_values(hexbits@).len() == hexbits@.len());
    PHYFrame::payload_2_data(hexbits)
}

/// The bits of one received frame without error correction decoded: packed
/// into bytes, the length read from the first two (big-endian), and the data
/// bytes that follow, `data_bits_length / 8` of them.
pub fn decode_no_encoding(input_data: &Vec<Bit>, data_bits_length: usize) -> (r: (Vec<Byte>, usize))
    requires
        data_bits_length <= usize::MAX - 16,
        (16 + data_bits_length) / 8 <= (input_data@.len() + 7) / 8,
    ensures
        r.0@ == spec_compress(input_data@).subrange(2, (16 + data_bits_length) / 8),
        r.1 == spec_compress(input_data@)[0] * 256 + spec_compress(input_data@)[1],
{
    let mut bits: Vec<Bit> = Vec::new();
    crate::bits::extend_bytes(&mut bits, input_data);
    assert(bits@ == input_data@);
    let compressed = read_data_2_compressed_u8(bits);
    let end = (16 + data_bits_length) / 8;
    let length: usize = (compressed[0] as usize) * 256 + compressed[1] as usize;
    let data = vstd::slice::slice_to_vec(&compressed.as_slice()[2..end]);
    (data, length)
}

/// A plain frame, spread into bits and decoded again, gives back its length
/// (below 2^16) and its data, followed by the zero padding.
pub proof fn lemma_plain_frame_roundtrip(length: usize, data: Seq<u8>, data_bits_length: usize)
    requires
        length < 0x10000,
        8 * data.len() <= data_bits_length,
        (16 + data_bits_length) / 8 <= spec_plain_frame(length, data).len(),
    ensures
        ({
            let c = spec_compress(spec_decompress(spec_plain_frame(length, data)));
            &&& c[0] * 256 + c[1] == length
            &&& c.subrange(2, 2 + data.len() as int) == data
            &&& forall|i: int| 2 + data.len() <= i < (16 + data_bits_length) / 8 ==> #[trigger] c[i] == 0
        }),
{
    let f = spec_plain_frame(length, data);
    crate::bits::lemma_compress_decompress(f);
    let hi = (length >> 8usize) as u8;
    let lo = (length & 0xffusize) as u8;
    assert(f[0] == hi && f[1] == lo);
    assert(hi * 256 + lo == length) by (bit_vector)
        requires
            length < 0x10000,
            hi == (length >> 8usize) as u8,
            lo == (length & 0xffusize) as u8,
    ;
    assert(f.subrange(2, 2 + data.len() as int) =~= data);
    assert forall|i: int| 2 + data.len() <= i < (16 + data_bits_length) / 8 implies #[trigger] f[i]
        == 0 by {
        assert(f[i] == Seq::new(
            if data.len() + 2 >= 18 {
                0
            } else {
                (16 - data.len()) as nat
            },
            |j: int| 0u8,
        )[i - 2 - data.len()]);
    }
}

/// The bits of a decoded frame that are kept: none when the announced
/// `length` exceeds `bits_len`, else the first `length` bits of `data`.
pub fn decoded_frame_bits(data: Vec<Byte>, length: usize, bits_len: usize) -> (r: Option<Vec<Bit>>)
    requires
        length <= bits_len ==> length <= 8 * data@.len(),
        8 * data@.len() <= usize::MAX,
    ensures
        length > bits_len ==> r is None,
        length <= bits_len ==> (r matches Some(bits) && bits@ == spec_decompress(data@).take(
            length as int,
        )),
{
    if length > bits_len {
        return None;
    }
    let all = read_compressed_u8_2_data(data);
    Some(vstd::slice::slice_to_vec(&all.as_slice()[0..length]))
}

} // verus!
