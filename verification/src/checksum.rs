//! The Internet checksum: the ones' complement of the ones' complement sum
//! of 16-bit big-endian words.

use vstd::prelude::*;

verus! {

/// The 16-bit big-endian word starting at byte `i` of `s`; a missing low byte
/// counts as zero.
pub open spec fn word_at(s: Seq<u8>, i: int) -> nat {
    (s[i] * 256 + (if i + 1 < s.len() {
        s[i + 1] as int
    } else {
        0int
    })) as nat
}

/// The sum of the first `n` words of `s` (words start at even offsets).
pub open spec fn word_sum(s: Seq<u8>, n: nat) -> nat
    decreases n,
{
    if n == 0 {
        0
    } else {
        word_sum(s, (n - 1) as nat) + word_at(s, 2 * (n - 1))
    }
}

pub proof fn lemma_fold_decreases(x: nat)
    requires
        x >= 0x10000,
    ensures
        x % 0x10000 + x / 0x10000 < x,
{
    assert(x == 0x10000 * (x / 0x10000) + x % 0x10000) by (nonlinear_arith);
    assert(x / 0x10000 >= 1) by (nonlinear_arith)
        requires
            x >= 0x10000,
    ;
}

/// `x` with its carries above 16 bits added back in, until it fits in 16 bits.
pub open spec fn fold_carries(x: nat) -> nat
    decreases x,
{
    if x < 0x10000 {
        x
    } else {
        proof {
            lemma_fold_decreases(x);
        }
        fold_carries(x % 0x10000 + x / 0x10000)
    }
}

/// The Internet checksum of the first `n` words of `s`.
pub open spec fn internet_checksum(s: Seq<u8>, n: nat) -> u16 {
    (0xFFFF - fold_carries(word_sum(s, n))) as u16
}

pub proof fn lemma_fold_carries_range(x: nat)
    ensures
        fold_carries(x) < 0x10000,
    decreases x,
{
    if x >= 0x10000 {
        lemma_fold_decreases(x);
        lemma_fold_carries_range(x % 0x10000 + x / 0x10000);
    }
}

/// Each word is at most `0xFFFF`, so `n` of them sum to at most `0xFFFF * n`.
pub proof fn lemma_word_sum_bound(s: Seq<u8>, n: nat)
    ensures
        word_sum(s, n) <= 0xFFFF * n,
    decreases n,
{
    if n > 0 {
        lemma_word_sum_bound(s, (n - 1) as nat);
        let i = 2 * (n - 1);
        assert(word_at(s, i) <= 0xFFFF);
    }
}

/// Word sums only grow with more words.
pub proof fn lemma_word_sum_monotone(s: Seq<u8>, m: nat, n: nat)
    requires
        m <= n,
    ensures
        word_sum(s, m) <= word_sum(s, n),
    decreases n,
{
    if m < n {
        lemma_word_sum_monotone(s, m, (n - 1) as nat);
    }
}

/// The big-endian word formed from two bytes, as computed with shifts.
pub proof fn lemma_be_word(hi: u8, lo: u8)
    ensures
        ((hi as u32) << 8u32 | lo as u32) == hi * 256 + lo,
{
    assert(((hi as u32) << 8u32 | lo as u32) == hi * 256 + lo) by (bit_vector);
}

/// Folds the carries of a running 32-bit word sum and complements the result:
/// the last step of the Internet checksum.
pub fn finish_checksum(sum: u32) -> (c: u16)
    ensures
        c == 0xFFFF - fold_carries(sum as nat),
{
    let mut s = sum;
    while s >> 16 != 0
        invariant
            fold_carries(s as nat) == fold_carries(sum as nat),
        decreases s,
    {
        proof {
            assert(s >> 16u32 == s / 0x10000 && s & 0xFFFFu32 == s % 0x10000) by (bit_vector);
            assert(s >> 16u32 != 0 ==> s >= 0x10000) by (bit_vector);
            lemma_fold_decreases(s as nat);
        }
        s = (s & 0xFFFF) + (s >> 16);
    }
    proof {
        assert(s >> 16u32 == 0 ==> s < 0x10000) by (bit_vector);
        assert(s < 0x10000 ==> (!s) as u16 == 0xFFFF - s) by (bit_vector);
    }
    !s as u16
}

/// Word sums grow with the bytes summed: if every byte of `s1` is at most the
/// byte of `s2` at the same place, so is every word sum.
pub proof fn lemma_word_sum_pointwise(s1: Seq<u8>, s2: Seq<u8>, n: nat)
    requires
        s1.len() == s2.len(),
        forall|i: int| 0 <= i < s1.len() ==> #[trigger] s1[i] <= s2[i],
        2 * n <= s1.len() + 1,
    ensures
        word_sum(s1, n) <= word_sum(s2, n),
    decreases n,
{
    if n > 0 {
        lemma_word_sum_pointwise(s1, s2, (n - 1) as nat);
        let i = 2 * (n - 1);
        assert(s1[i] <= s2[i]);
        if i + 1 < s1.len() {
            assert(s1[i + 1] <= s2[i + 1]);
        }
    }
}

/// Word sums over the same words, from word `m` to word `n`, grow alike.
pub proof fn lemma_word_sum_same_words(s1: Seq<u8>, s2: Seq<u8>, m: nat, n: nat)
    requires
        m <= n,
        forall|k: int| m <= k < n ==> #[trigger] word_at(s1, 2 * k) == word_at(s2, 2 * k),
    ensures
        word_sum(s1, n) - word_sum(s1, m) == word_sum(s2, n) - word_sum(s2, m),
    decreases n,
{
    if m < n {
        lemma_word_sum_same_words(s1, s2, m, (n - 1) as nat);
        assert(word_at(s1, 2 * (n - 1)) == word_at(s2, 2 * (n - 1)));
    }
}

/// Number of 16-bit words in `s`, a last odd byte counting as a word.
pub open spec fn padded_word_count(s: Seq<u8>) -> nat {
    ((s.len() + 1) / 2) as nat
}

/// The sum of the first `n` big-endian words of `s`, a missing low byte
/// counting as zero; the sum must fit in 32 bits.
pub fn sum_words(s: &Vec<u8>, n: usize) -> (sum: u32)
    requires
        2 * n <= s@.len() + 1,
        word_sum(s@, n as nat) <= u32::MAX,
    ensures
        sum == word_sum(s@, n as nat),
{
    let len = s.len();
    let mut sum: u32 = 0;
    let mut k: usize = 0;
    while k < n
        invariant
            len == s@.len(),
            2 * n <= len + 1,
            k <= n,
            sum == word_sum(s@, k as nat),
            word_sum(s@, n as nat) <= u32::MAX,
        decreases n - k,
    {
        let i = 2 * k;
        let hi = s[i];
        let mut word: u16 = (hi as u16) << 8;
        proof {
            assert(((hi as u16) << 8u16) == hi * 256) by (bit_vector);
        }
        if len - i > 1 {
            let lo = s[i + 1];
            proof {
                let w = word;
                assert((w | (lo as u16)) == w + lo) by (bit_vector)
                    requires
                        w == (hi as u16) << 8u16,
                ;
            }
            word = word | (lo as u16);
        }
        proof {
            assert(word == word_at(s@, i as int));
            lemma_word_sum_monotone(s@, (k + 1) as nat, n as nat);
        }
        sum = sum + word as u32;
        k = k + 1;
    }
    sum
}

/// Whether the sum of the first `n` words of `s` fits in 32 bits.
pub fn word_sum_fits_u32(s: &Vec<u8>, n: usize) -> (b: bool)
    requires
        2 * n <= s@.len() + 1,
    ensures
        b == (word_sum(s@, n as nat) <= u32::MAX),
{
    let len = s.len();
    let mut sum: u64 = 0;
    let mut k: usize = 0;
    while k < n
        invariant
            len == s@.len(),
            2 * n <= len + 1,
            k <= n,
            sum == word_sum(s@, k as nat),
            sum <= u32::MAX,
        decreases n - k,
    {
        let i = 2 * k;
        let hi: u64 = s[i] as u64;
        let lo: u64 = if len - i > 1 {
            s[i + 1] as u64
        } else {
            0
        };
        assert(hi * 256 + lo == word_at(s@, i as int));
        sum = sum + hi * 256 + lo;
        k = k + 1;
        if sum > 0xFFFF_FFFF {
            proof {
                lemma_word_sum_monotone(s@, k as nat, n as nat);
            }
            return false;
        }
    }
    true
}

} // verus!
