//! Six-bit symbols ("hexbits") and their conversion to and from bytes: every
//! three bytes become four hexbits, most significant bits first.

use crate::bits::Byte;
use vstd::prelude::*;

verus! {

/// A six-bit symbol, kept in the low bits of a byte.
#[derive(Clone, Copy, Debug)]
pub struct Hexbit {
    pub(crate) bits: u8,
}

impl View for Hexbit {
    type V = u8;

    closed spec fn view(&self) -> u8 {
        self.bits
    }
}

impl Hexbit {
    /// A hexbit holding `bits`, which must fit in six bits.
    pub fn new(bits: u8) -> (h: Hexbit)
        requires
            bits < 64,
        ensures
            h@ == bits,
    {
        Hexbit { bits }
    }

    /// The six bits held.
    pub fn bits(&self) -> (b: u8)
        ensures
            b == self@,
    {
        self.bits
    }
}

/// The values of a sequence of hexbits.
pub open spec fn hexbit_values(hs: Seq<Hexbit>) -> Seq<u8> {
    hs.map_values(|h: Hexbit| h@)
}

/// Every value is below 64.
pub open spec fn all_hexbit_range(s: Seq<u8>) -> bool {
    forall|i: int| 0 <= i < s.len() ==> #[trigger] s[i] < 64
}

/// Hexbit `r` (0..4) of the byte triple `b0 b1 b2`.
pub open spec fn triple_hexbit(b0: u8, b1: u8, b2: u8, r: int) -> u8 {
    if r == 0 {
        b0 >> 2u8
    } else if r == 1 {
        (((b0 & 3u8) << 4u8) | (b1 >> 4u8)) as u8
    } else if r == 2 {
        (((b1 & 15u8) << 2u8) | (b2 >> 6u8)) as u8
    } else {
        b2 & 63u8
    }
}

/// The hexbit values of `bytes`, four for every three bytes.
pub open spec fn spec_bytes_to_hexbits(bytes: Seq<u8>) -> Seq<u8> {
    Seq::new(
        bytes.len() / 3 * 4,
        |k: int| triple_hexbit(bytes[3 * (k / 4)], bytes[3 * (k / 4) + 1], bytes[3 * (k / 4) + 2], k % 4),
    )
}

/// Byte `r` (0..3) of the hexbit quadruple `h0 h1 h2 h3` (shifts truncate).
pub open spec fn quad_byte(h0: u8, h1: u8, h2: u8, h3: u8, r: int) -> u8 {
    if r == 0 {
        ((h0 << 2u8) | (h1 >> 4u8)) as u8
    } else if r == 1 {
        ((h1 << 4u8) | (h2 >> 2u8)) as u8
    } else {
        ((h2 << 6u8) | h3) as u8
    }
}

/// The bytes of the hexbit values `hs`, three for every four hexbits.
pub open spec fn spec_hexbits_to_bytes(hs: Seq<u8>) -> Seq<u8> {
    Seq::new(
        hs.len() / 4 * 3,
        |k: int| quad_byte(hs[4 * (k / 3)], hs[4 * (k / 3) + 1], hs[4 * (k / 3) + 2], hs[4 * (k / 3) + 3], k % 3),
    )
}

proof fn lemma_triple_hexbit_range(b0: u8, b1: u8, b2: u8)
    ensures
        triple_hexbit(b0, b1, b2, 0) < 64,
        triple_hexbit(b0, b1, b2, 1) < 64,
        triple_hexbit(b0, b1, b2, 2) < 64,
        triple_hexbit(b0, b1, b2, 3) < 64,
{
    assert(b0 >> 2u8 < 64) by (bit_vector);
    assert(((b0 & 3u8) << 4u8) | (b1 >> 4u8) < 64) by (bit_vector);
    assert(((b1 & 15u8) << 2u8) | (b2 >> 6u8) < 64) by (bit_vector);
    assert(b2 & 63u8 < 64) by (bit_vector);
}

/// Splits every three bytes into four hexbits, most significant bits first.
/// The length of `data` must be a multiple of three.
pub fn u8_2_code_rs_hexbit(data: Vec<Byte>) -> (hexbits: Vec<Hexbit>)
    requires
        data@.len() % 3 == 0,
    ensures
        hexbit_values(hexbits@) == spec_bytes_to_hexbits(data@),
        all_hexbit_range(hexbit_values(hexbits@)),
{
    let mut hexbits: Vec<Hexbit> = Vec::new();
    let n = data.len();
    let mut i: usize = 0;
    while i < n
        invariant
            n == data@.len(),
            n % 3 == 0,
            i % 3 == 0,
            i <= n,
            hexbits@.len() == i / 3 * 4,
            forall|k: int|
                0 <= k < hexbits@.len() ==> #[trigger] hexbits@[k]@ == triple_hexbit(
                    data@[3 * (k / 4)],
                    data@[3 * (k / 4) + 1],
                    data@[3 * (k / 4) + 2],
                    k % 4,
                ),
        decreases n - i,
    {
        let b0 = data[i];
        let b1 = data[i + 1];
        let b2 = data[i + 2];
        proof {
            lemma_triple_hexbit_range(b0, b1, b2);
        }
        let ghost old_len = hexbits@.len();
        hexbits.push(Hexbit::new(b0 >> 2));
        hexbits.push(Hexbit::new(((b0 & 0b11) << 4) | (b1 >> 4)));
        hexbits.push(Hexbit::new(((b1 & 0b1111) << 2) | (b2 >> 6)));
        hexbits.push(Hexbit::new(b2 & 0b111111));
        proof {
            assert forall|k: int| old_len <= k < hexbits@.len() implies #[trigger] hexbits@[k]@
                == triple_hexbit(data@[3 * (k / 4)], data@[3 * (k / 4) + 1], data@[3 * (k / 4) + 2], k % 4)
                by {
                assert(k / 4 == i / 3 && k % 4 == k - old_len) by (nonlinear_arith)
                    requires
                        old_len == i / 3 * 4,
                        i % 3 == 0,
                        old_len <= k < old_len + 4,
                ;
            }
        }
        i = i + 3;
    }
    proof {
        assert(hexbit_values(hexbits@) =~= spec_bytes_to_hexbits(data@));
        assert forall|k: int| 0 <= k < hexbit_values(hexbits@).len() implies #[trigger] hexbit_values(
            hexbits@,
        )[k] < 64 by {
            lemma_triple_hexbit_range(data@[3 * (k / 4)], data@[3 * (k / 4) + 1], data@[3 * (k / 4) + 2]);
        }
    }
    hexbits
}

/// Joins every four hexbits into three bytes, most significant bits first.
/// The length of `data` must be a multiple of four.
pub fn code_rs_hexbit_2_u8(data: Vec<Hexbit>) -> (bytes: Vec<Byte>)
    requires
        data@.len() % 4 == 0,
    ensures
        bytes@ == spec_hexbits_to_bytes(hexbit_values(data@)),
{
    let ghost hs = hexbit_values(data@);
    let mut u8s: Vec<Byte> = Vec::new();
    let n = data.len();
    let mut i: usize = 0;
    while i < n
        invariant
            n == data@.len(),
            hs == hexbit_values(data@),
            n % 4 == 0,
            i % 4 == 0,
            i <= n,
            u8s@.len() == i / 4 * 3,
            forall|k: int|
                0 <= k < u8s@.len() ==> #[trigger] u8s@[k] == quad_byte(
                    hs[4 * (k / 3)],
                    hs[4 * (k / 3) + 1],
                    hs[4 * (k / 3) + 2],
                    hs[4 * (k / 3) + 3],
                    k % 3,
                ),
        decreases n - i,
    {
        let h0 = data[i].bits();
        let h1 = data[i + 1].bits();
        let h2 = data[i + 2].bits();
        let h3 = data[i + 3].bits();
        let ghost old_len = u8s@.len();
        u8s.push((h0 << 2) | (h1 >> 4));
        u8s.push((h1 << 4) | (h2 >> 2));
        u8s.push((h2 << 6) | h3);
        proof {
            assert forall|k: int| old_len <= k < u8s@.len() implies #[trigger] u8s@[k] == quad_byte(
                hs[4 * (k / 3)],
                hs[4 * (k / 3) + 1],
                hs[4 * (k / 3) + 2],
                hs[4 * (k / 3) + 3],
                k % 3,
            ) by {
                assert(k / 3 == i / 4 && k % 3 == k - old_len) by (nonlinear_arith)
                    requires
                        old_len == i / 4 * 3,
                        i % 4 == 0,
                        old_len <= k < old_len + 3,
                ;
            }
        }
        i = i + 4;
    }
    assert(u8s@ =~= spec_hexbits_to_bytes(hs));
    u8s
}

proof fn lemma_triple_roundtrip(b0: u8, b1: u8, b2: u8)
    ensures
        quad_byte(triple_hexbit(b0, b1, b2, 0), triple_hexbit(b0, b1, b2, 1), triple_hexbit(b0, b1, b2, 2), triple_hexbit(b0, b1, b2, 3), 0) == b0,
        quad_byte(triple_hexbit(b0, b1, b2, 0), triple_hexbit(b0, b1, b2, 1), triple_hexbit(b0, b1, b2, 2), triple_hexbit(b0, b1, b2, 3), 1) == b1,
        quad_byte(triple_hexbit(b0, b1, b2, 0), triple_hexbit(b0, b1, b2, 1), triple_hexbit(b0, b1, b2, 2), triple_hexbit(b0, b1, b2, 3), 2) == b2,
{
    let h0 = b0 >> 2u8;
    let h1 = (((b0 & 3u8) << 4u8) | (b1 >> 4u8)) as u8;
    let h2 = (((b1 & 15u8) << 2u8) | (b2 >> 6u8)) as u8;
    let h3 = b2 & 63u8;
    assert(((h0 << 2u8) | (h1 >> 4u8)) == b0) by (bit_vector)
        requires
            h0 == b0 >> 2u8,
            h1 == ((b0 & 3u8) << 4u8) | (b1 >> 4u8),
    ;
    assert(((h1 << 4u8) | (h2 >> 2u8)) == b1) by (bit_vector)
        requires
            h1 == ((b0 & 3u8) << 4u8) | (b1 >> 4u8),
            h2 == ((b1 & 15u8) << 2u8) | (b2 >> 6u8),
    ;
    assert(((h2 << 6u8) | h3) == b2) by (bit_vector)
        requires
            h2 == ((b1 & 15u8) << 2u8) | (b2 >> 6u8),
            h3 == b2 & 63u8,
    ;
}

proof fn lemma_quad_roundtrip(h0: u8, h1: u8, h2: u8, h3: u8)
    requires
        h0 < 64,
        h1 < 64,
        h2 < 64,
        h3 < 64,
    ensures
        triple_hexbit(quad_byte(h0, h1, h2, h3, 0), quad_byte(h0, h1, h2, h3, 1), quad_byte(h0, h1, h2, h3, 2), 0) == h0,
        triple_hexbit(quad_byte(h0, h1, h2, h3, 0), quad_byte(h0, h1, h2, h3, 1), quad_byte(h0, h1, h2, h3, 2), 1) == h1,
        triple_hexbit(quad_byte(h0, h1, h2, h3, 0), quad_byte(h0, h1, h2, h3, 1), quad_byte(h0, h1, h2, h3, 2), 2) == h2,
        triple_hexbit(quad_byte(h0, h1, h2, h3, 0), quad_byte(h0, h1, h2, h3, 1), quad_byte(h0, h1, h2, h3, 2), 3) == h3,
{
    let b0 = ((h0 << 2u8) | (h1 >> 4u8)) as u8;
    let b1 = ((h1 << 4u8) | (h2 >> 2u8)) as u8;
    let b2 = ((h2 << 6u8) | h3) as u8;
    assert({
        &&& b0 >> 2u8 == h0
        &&& ((b0 & 3u8) << 4u8) | (b1 >> 4u8) == h1
        &&& ((b1 & 15u8) << 2u8) | (b2 >> 6u8) == h2
        &&& b2 & 63u8 == h3
    }) by (bit_vector)
        requires
            h0 < 64 && h1 < 64 && h2 < 64 && h3 < 64,
            b0 == (h0 << 2u8) | (h1 >> 4u8),
            b1 == (h1 << 4u8) | (h2 >> 2u8),
            b2 == (h2 << 6u8) | h3,
    ;
}

/// Joining the hexbits of a byte sequence (of a length divisible by three)
/// gives the bytes back.
pub proof fn lemma_bytes_hexbits_roundtrip(bytes: Seq<u8>)
    requires
        bytes.len() % 3 == 0,
    ensures
        spec_hexbits_to_bytes(spec_bytes_to_hexbits(bytes)) == bytes,
{
    let hs = spec_bytes_to_hexbits(bytes);
    let out = spec_hexbits_to_bytes(hs);
    assert(hs.len() / 4 * 3 == bytes.len()) by (nonlinear_arith)
        requires
            hs.len() == bytes.len() / 3 * 4,
            bytes.len() % 3 == 0,
    ;
    assert forall|k: int| 0 <= k < bytes.len() implies #[trigger] out[k] == bytes[k] by {
        let g = k / 3;
        let r = k % 3;
        assert(0 <= g && 3 * g + 2 < bytes.len() && 4 * g + 3 < hs.len() && k == 3 * g + r && 0
            <= r < 3) by (nonlinear_arith)
            requires
                0 <= k < bytes.len(),
                bytes.len() % 3 == 0,
                hs.len() == bytes.len() / 3 * 4,
                g == k / 3,
                r == k % 3,
        ;
        assert forall|t: int| 0 <= t < 4 implies #[trigger] hs[4 * g + t] == triple_hexbit(
            bytes[3 * g],
            bytes[3 * g + 1],
            bytes[3 * g + 2],
            t,
        ) by {
            assert((4 * g + t) / 4 == g && (4 * g + t) % 4 == t) by (nonlinear_arith)
                requires
                    0 <= t < 4,
                    0 <= g,
            ;
        }
        lemma_triple_roundtrip(bytes[3 * g], bytes[3 * g + 1], bytes[3 * g + 2]);
        assert(hs[4 * g] == triple_hexbit(bytes[3 * g], bytes[3 * g + 1], bytes[3 * g + 2], 0));
        assert(hs[4 * g + 1] == triple_hexbit(bytes[3 * g], bytes[3 * g + 1], bytes[3 * g + 2], 1));
        assert(hs[4 * g + 2] == triple_hexbit(bytes[3 * g], bytes[3 * g + 1], bytes[3 * g + 2], 2));
        assert(hs[4 * g + 3] == triple_hexbit(bytes[3 * g], bytes[3 * g + 1], bytes[3 * g + 2], 3));
    }
    assert(out =~= bytes);
}

/// Splitting the bytes of a hexbit sequence (of a length divisible by four,
/// every value below 64) gives the hexbits back.
pub proof fn lemma_hexbits_bytes_roundtrip(hs: Seq<u8>)
    requires
        hs.len() % 4 == 0,
        all_hexbit_range(hs),
    ensures
        spec_bytes_to_hexbits(spec_hexbits_to_bytes(hs)) == hs,
{
    let bytes = spec_hexbits_to_bytes(hs);
    let out = spec_bytes_to_hexbits(bytes);
    assert(bytes.len() / 3 * 4 == hs.len()) by (nonlinear_arith)
        requires
            bytes.len() == hs.len() / 4 * 3,
            hs.len() % 4 == 0,
    ;
    assert forall|k: int| 0 <= k < hs.len() implies #[trigger] out[k] == hs[k] by {
        let g = k / 4;
        let r = k % 4;
        assert(0 <= g && 4 * g + 3 < hs.len() && 3 * g + 2 < bytes.len() && k == 4 * g + r && 0
            <= r < 4) by (nonlinear_arith)
            requires
                0 <= k < hs.len(),
                hs.len() % 4 == 0,
                bytes.len() == hs.len() / 4 * 3,
                g == k / 4,
                r == k % 4,
        ;
        assert forall|t: int| 0 <= t < 3 implies #[trigger] bytes[3 * g + t] == quad_byte(
            hs[4 * g],
            hs[4 * g + 1],
            hs[4 * g + 2],
            hs[4 * g + 3],
            t,
        ) by {
            assert((3 * g + t) / 3 == g && (3 * g + t) % 3 == t) by (nonlinear_arith)
                requires
                    0 <= t < 3,
                    0 <= g,
            ;
        }
        assert(hs[4 * g] < 64 && hs[4 * g + 1] < 64 && hs[4 * g + 2] < 64 && hs[4 * g + 3] < 64);
        lemma_quad_roundtrip(hs[4 * g], hs[4 * g + 1], hs[4 * g + 2], hs[4 * g + 3]);
        assert(bytes[3 * g] == quad_byte(hs[4 * g], hs[4 * g + 1], hs[4 * g + 2], hs[4 * g + 3], 0));
        assert(bytes[3 * g + 1] == quad_byte(hs[4 * g], hs[4 * g + 1], hs[4 * g + 2], hs[4 * g + 3], 1));
        assert(bytes[3 * g + 2] == quad_byte(hs[4 * g], hs[4 * g + 1], hs[4 * g + 2], hs[4 * g + 3], 2));
    }
    assert(out =~= hs);
}

} // verus!
