//! Packing of bit sequences (one bit per byte) into bytes, most significant
//! bit first, and the reverse.

use rand::Rng;
use vstd::prelude::*;

verus! {

/// One bit, stored in a byte (0 or 1).
pub type Bit = u8;

/// One byte.
pub type Byte = u8;

/// The byte formed by the first `n` entries of `s`, the `j`-th of them shifted
/// left by `7 - j` and the results or-ed together (shifts truncate to 8 bits).
pub open spec fn pack_prefix(s: Seq<u8>, n: nat) -> u8
    decreases n,
{
    if n == 0 {
        0
    } else {
        (pack_prefix(s, (n - 1) as nat) | (s[n - 1] << ((8 - n) as u8))) as u8
    }
}

/// Number of entries of the `k`-th group of eight in a sequence of length `len`.
pub open spec fn chunk_len(len: nat, k: nat) -> nat {
    if len >= 8 * k + 8 {
        8
    } else if len >= 8 * k {
        (len - 8 * k) as nat
    } else {
        0
    }
}

/// The `k`-th packed byte of `bits`.
pub open spec fn chunk_byte(bits: Seq<u8>, k: nat) -> u8 {
    pack_prefix(bits.skip(8 * k as int), chunk_len(bits.len(), k))
}

/// `bits` packed eight to a byte, first bit in the most significant position;
/// a last, incomplete group is packed as if padded with zeros.
pub open spec fn spec_compress(bits: Seq<u8>) -> Seq<u8> {
    Seq::new((bits.len() + 7) / 8, |k: int| chunk_byte(bits, k as nat))
}

/// Bit `j` (0 = most significant) of byte `b`.
pub open spec fn bit_of(b: u8, j: int) -> u8 {
    ((b >> ((7 - j) as u8)) & 1u8) as u8
}

/// Each byte of `bytes` spread into its eight bits, most significant first.
pub open spec fn spec_decompress(bytes: Seq<u8>) -> Seq<u8> {
    Seq::new(8 * bytes.len(), |k: int| bit_of(bytes[k / 8], k % 8))
}

/// Every entry is 0 or 1.
pub open spec fn all_bits(s: Seq<u8>) -> bool {
    forall|i: int| 0 <= i < s.len() ==> #[trigger] s[i] <= 1
}

/// The eight entries of `s` that equal the bits of `b` pack back into `b`.
proof fn lemma_pack_of_bits(s: Seq<u8>, b: u8)
    requires
        s.len() >= 8,
        forall|j: int| 0 <= j < 8 ==> #[trigger] s[j] == bit_of(b, j),
    ensures
        pack_prefix(s, 8) == b,
{
    reveal_with_fuel(pack_prefix, 9);
    let s0 = s[0];
    let s1 = s[1];
    let s2 = s[2];
    let s3 = s[3];
    let s4 = s[4];
    let s5 = s[5];
    let s6 = s[6];
    let s7 = s[7];
    assert(s0 == (b >> 7u8) & 1u8);
    assert(s1 == (b >> 6u8) & 1u8);
    assert(s2 == (b >> 5u8) & 1u8);
    assert(s3 == (b >> 4u8) & 1u8);
    assert(s4 == (b >> 3u8) & 1u8);
    assert(s5 == (b >> 2u8) & 1u8);
    assert(s6 == (b >> 1u8) & 1u8);
    assert(s7 == (b >> 0u8) & 1u8);
    assert(((((((((0u8 | (s0 << 7u8)) | (s1 << 6u8)) | (s2 << 5u8)) | (s3 << 4u8)) | (s4 << 3u8))
        | (s5 << 2u8)) | (s6 << 1u8)) | (s7 << 0u8)) == b) by (bit_vector)
        requires
            s0 == (b >> 7u8) & 1u8,
            s1 == (b >> 6u8) & 1u8,
            s2 == (b >> 5u8) & 1u8,
            s3 == (b >> 4u8) & 1u8,
            s4 == (b >> 3u8) & 1u8,
            s5 == (b >> 2u8) & 1u8,
            s6 == (b >> 1u8) & 1u8,
            s7 == (b >> 0u8) & 1u8,
    ;
}

/// Packing the first `m` entries of `s` equals packing eight entries that
/// agree with `s` below `m` and are zero from `m` on.
proof fn lemma_pack_padded(s: Seq<u8>, t: Seq<u8>, m: nat, n: nat)
    requires
        m <= 8,
        n <= 8,
        t.len() == 8,
        s.len() >= m,
        forall|j: int| 0 <= j < m ==> #[trigger] t[j] == s[j],
        forall|j: int| m <= j < 8 ==> #[trigger] t[j] == 0,
    ensures
        pack_prefix(t, n) == pack_prefix(s, if n <= m { n } else { m }),
    decreases n,
{
    if n > 0 {
        lemma_pack_padded(s, t, m, (n - 1) as nat);
        if n > m {
            let p = pack_prefix(t, (n - 1) as nat);
            let k = (8 - n) as u8;
            assert(t[n - 1] == 0);
            assert((p | (0u8 << k)) == p) by (bit_vector);
        }
    }
}

/// Reading bit `j` of a byte packed from eight 0/1 entries gives entry `j`.
proof fn lemma_bits_of_pack(t: Seq<u8>)
    requires
        t.len() == 8,
        all_bits(t),
    ensures
        forall|j: int| 0 <= j < 8 ==> #[trigger] bit_of(pack_prefix(t, 8), j) == t[j],
{
    reveal_with_fuel(pack_prefix, 9);
    let t0 = t[0];
    let t1 = t[1];
    let t2 = t[2];
    let t3 = t[3];
    let t4 = t[4];
    let t5 = t[5];
    let t6 = t[6];
    let t7 = t[7];
    let p = pack_prefix(t, 8);
    assert(p == ((((((((0u8 | (t0 << 7u8)) | (t1 << 6u8)) | (t2 << 5u8)) | (t3 << 4u8)) | (t4
        << 3u8)) | (t5 << 2u8)) | (t6 << 1u8)) | (t7 << 0u8)));
    assert({
        &&& (p >> 7u8) & 1u8 == t0
        &&& (p >> 6u8) & 1u8 == t1
        &&& (p >> 5u8) & 1u8 == t2
        &&& (p >> 4u8) & 1u8 == t3
        &&& (p >> 3u8) & 1u8 == t4
        &&& (p >> 2u8) & 1u8 == t5
        &&& (p >> 1u8) & 1u8 == t6
        &&& (p >> 0u8) & 1u8 == t7
    }) by (bit_vector)
        requires
            t0 <= 1 && t1 <= 1 && t2 <= 1 && t3 <= 1 && t4 <= 1 && t5 <= 1 && t6 <= 1 && t7 <= 1,
            p == ((((((((0u8 | (t0 << 7u8)) | (t1 << 6u8)) | (t2 << 5u8)) | (t3 << 4u8)) | (t4
                << 3u8)) | (t5 << 2u8)) | (t6 << 1u8)) | (t7 << 0u8)),
    ;
    assert forall|j: int| 0 <= j < 8 implies #[trigger] bit_of(p, j) == t[j] by {
        if j == 0 {
        } else if j == 1 {
        } else if j == 2 {
        } else if j == 3 {
        } else if j == 4 {
        } else if j == 5 {
        } else if j == 6 {
        } else {
        }
    }
}

/// Packing the bits of a byte sequence gives the byte sequence back.
pub proof fn lemma_compress_decompress(bytes: Seq<u8>)
    ensures
        spec_compress(spec_decompress(bytes)) == bytes,
{
    let d = spec_decompress(bytes);
    assert forall|k: int| 0 <= k < bytes.len() implies #[trigger] chunk_byte(d, k as nat)
        == bytes[k] by {
        let s = d.skip(8 * k);
        assert(chunk_len(d.len(), k as nat) == 8);
        assert forall|j: int| 0 <= j < 8 implies #[trigger] s[j] == bit_of(bytes[k], j) by {
            assert((8 * k + j) / 8 == k && (8 * k + j) % 8 == j) by (nonlinear_arith)
                requires
                    0 <= j < 8,
            ;
        }
        lemma_pack_of_bits(s, bytes[k]);
    }
    assert(spec_compress(d) =~= bytes);
}

/// Spreading packed bits again gives the original 0/1 sequence, followed by
/// zeros up to the next multiple of eight.
pub proof fn lemma_decompress_compress(bits: Seq<u8>)
    requires
        all_bits(bits),
    ensures
        spec_decompress(spec_compress(bits)).len() == 8 * ((bits.len() + 7) / 8),
        forall|k: int| 0 <= k < bits.len() ==> #[trigger] spec_decompress(spec_compress(bits))[k] == bits[k],
        forall|k: int|
            bits.len() <= k < spec_decompress(spec_compress(bits)).len() ==> #[trigger] spec_decompress(
                spec_compress(bits),
            )[k] == 0,
{
    let c = spec_compress(bits);
    let d = spec_decompress(c);
    assert forall|k: int| 0 <= k < d.len() implies #[trigger] d[k] == (if k < bits.len() {
        bits[k]
    } else {
        0
    }) by {
        let q = k / 8;
        let j = k % 8;
        assert(0 <= q < c.len() && 0 <= j < 8 && k == 8 * q + j) by (nonlinear_arith)
            requires
                0 <= k < d.len(),
                d.len() == 8 * c.len(),
                q == k / 8,
                j == k % 8,
        ;
        let s = bits.skip(8 * q);
        let m = chunk_len(bits.len(), q as nat);
        let t = Seq::new(8, |i: int| if i < m { s[i] } else { 0u8 });
        assert(all_bits(t));
        lemma_pack_padded(s, t, m, 8);
        lemma_bits_of_pack(t);
        assert(d[k] == bit_of(pack_prefix(t, 8), j));
    }
}

/// Packs a sequence of bits into bytes, eight bits to a byte, first bit in the
/// most significant position; a last, incomplete byte is padded with zeros.
pub fn read_data_2_compressed_u8(data: Vec<Bit>) -> (compressed: Vec<Byte>)
    ensures
        compressed@ == spec_compress(data@),
{
    let mut compressed_data: Vec<Byte> = Vec::new();
    let mut cnt: u32 = 0;
    let mut byte: u8 = 0;
    let n = data.len();
    for i in 0..n
        invariant
            n == data@.len(),
            cnt as int == i % 8,
            compressed_data@.len() == i / 8,
            byte == pack_prefix(data@.skip(8 * (i / 8) as int), cnt as nat),
            forall|k: int|
                0 <= k < compressed_data@.len() ==> #[trigger] compressed_data@[k] == chunk_byte(
                    data@,
                    k as nat,
                ),
    {
        proof {
            let q = i / 8;
            assert(data@.skip(8 * q as int)[cnt as int] == data@[i as int]);
        }
        byte = byte | (data[i] << (7 - cnt));
        cnt = cnt + 1;
        if cnt == 8 {
            proof {
                let q = (i / 8) as nat;
                assert(chunk_len(data@.len(), q) == 8);
            }
            compressed_data.push(byte);
            byte = 0;
            cnt = 0;
        }
    }
    if cnt != 0 {
        proof {
            let q = (n / 8) as nat;
            assert(chunk_len(data@.len(), q) == cnt);
        }
        compressed_data.push(byte);
    }
    assert(compressed_data@ =~= spec_compress(data@));
    compressed_data
}

/// Spreads each byte into its eight bits, most significant first.
pub fn read_compressed_u8_2_data(data: Vec<Byte>) -> (bits: Vec<Bit>)
    requires
        8 * data@.len() <= usize::MAX,
    ensures
        bits@ == spec_decompress(data@),
{
    let mut decompressed_data: Vec<Bit> = Vec::new();
    let n = data.len();
    for i in 0..n
        invariant
            n == data@.len(),
            8 * n <= usize::MAX,
            decompressed_data@.len() == 8 * i,
            forall|k: int|
                0 <= k < decompressed_data@.len() ==> #[trigger] decompressed_data@[k] == bit_of(
                    data@[k / 8],
                    k % 8,
                ),
    {
        for j in 0..8u32
            invariant
                i < n,
                n == data@.len(),
                decompressed_data@.len() == 8 * i + j,
                forall|k: int|
                    0 <= k < decompressed_data@.len() ==> #[trigger] decompressed_data@[k]
                        == bit_of(data@[k / 8], k % 8),
        {
            let b = (data[i] >> (7 - j)) & 1;
            proof {
                let k = 8 * i + j;
                assert(k / 8 == i && k % 8 == j) by (nonlinear_arith)
                    requires
                        k == 8 * i + j,
                        j < 8,
                ;
            }
            decompressed_data.push(b);
        }
    }
    assert(decompressed_data@ =~= spec_decompress(data@));
    decompressed_data
}

/// A uniformly random bit drawn from the thread-local generator of `rand`
/// (`rand::thread_rng().gen_range(0..2)`); only its range is promised.
#[verifier::external_body]
fn random_bit() -> (b: Bit)
    ensures
        b < 2,
{
    rand::thread_rng().gen_range(0..2)
}

/// `len` random bits.
pub fn gen_random_data(len: usize) -> (data: Vec<Bit>)
    ensures
        data@.len() == len,
        all_bits(data@),
{
    let mut data: Vec<Bit> = Vec::new();
    for i in 0..len
        invariant
            data@.len() == i,
            all_bits(data@),
    {
        let b = random_bit();
        data.push(b);
    }
    data
}

/// Appends the bytes of `src` to `dst`.
pub(crate) fn extend_bytes(dst: &mut Vec<u8>, src: &Vec<u8>)
    ensures
        final(dst)@ == old(dst)@ + src@,
{
    let n = src.len();
    for i in 0..n
        invariant
            n == src@.len(),
            dst@ == old(dst)@ + src@.take(i as int),
    {
        assert(src@.take(i + 1) == src@.take(i as int).push(src@[i as int]));
        dst.push(src[i]);
    }
    assert(src@.take(n as int) == src@);
}

} // verus!
