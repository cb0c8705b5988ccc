//! Integer helpers: the least common multiple.

use vstd::prelude::*;

verus! {

/// The greatest common divisor of `a` and `b` (Euclid); `spec_gcd(0, 0)` is 0.
pub open spec fn spec_gcd(a: nat, b: nat) -> nat
    decreases b,
{
    if b == 0 {
        a
    } else {
        spec_gcd(b, a % b)
    }
}

/// The greatest common divisor, by `num_integer::gcd`. Claimed: the result is
/// the greatest common divisor as `spec_gcd` defines it (with `gcd(0, 0) = 0`
/// and `gcd(a, 0) = a`), as the crate documents.
#[verifier::external_body]
fn gcd_u64(a: u64, b: u64) -> (g: u64)
    ensures
        g == spec_gcd(a as nat, b as nat),
{
    num_integer::gcd(a, b)
}

/// The least common multiple `a * b / gcd(a, b)`; the product must fit in 64
/// bits and `a`, `b` must not both be zero.
pub fn lcm(a: u64, b: u64) -> (l: u64)
    requires
        a as nat * b as nat <= u64::MAX,
        a != 0 || b != 0,
    ensures
        l == (a as nat * b as nat) / spec_gcd(a as nat, b as nat),
{
    let g = gcd_u64(a, b);
    proof {
        lemma_gcd_positive(a as nat, b as nat);
    }
    a * b / g
}

/// The gcd of two numbers not both zero is positive.
pub proof fn lemma_gcd_positive(a: nat, b: nat)
    requires
        a != 0 || b != 0,
    ensures
        spec_gcd(a, b) > 0,
    decreases b,
{
    if b != 0 {
        lemma_gcd_positive(b, a % b);
    }
}

/// `x` is `d` times `x / d` when `d` divides it.
proof fn lemma_exact_div(x: int, d: int)
    requires
        d > 0,
        x % d == 0,
    ensures
        x == d * (x / d),
{
    vstd::arithmetic::div_mod::lemma_fundamental_div_mod(x, d);
}

/// The gcd divides both numbers.
pub proof fn lemma_gcd_divides(a: nat, b: nat)
    ensures
        spec_gcd(a, b) == 0 || (a % spec_gcd(a, b) == 0 && b % spec_gcd(a, b) == 0),
    decreases b,
{
    if b != 0 {
        lemma_gcd_divides(b, a % b);
        let g = spec_gcd(a, b) as int;
        assert(spec_gcd(a, b) == spec_gcd(b, a % b));
        assert((a % b) as int == (a as int) % (b as int));
        if g != 0 {
            let q = a as int / b as int;
            let r = a as int % b as int;
            vstd::arithmetic::div_mod::lemma_fundamental_div_mod(a as int, b as int);
            lemma_exact_div(b as int, g);
            lemma_exact_div(r, g);
            let kb = b as int / g;
            let kr = r / g;
            assert(a == g * (q * kb + kr)) by (nonlinear_arith)
                requires
                    a == b * q + r,
                    b == g * kb,
                    r == g * kr,
            ;
            vstd::arithmetic::div_mod::lemma_mod_multiples_basic(q * kb + kr, g);
            assert((q * kb + kr) * g == g * (q * kb + kr)) by (nonlinear_arith);
            assert((a as int) % g == 0);
            assert(b % spec_gcd(a, b) == 0);
            assert(a % spec_gcd(a, b) == 0);
        }
    } else if a != 0 {
        assert(a % a == 0 && 0nat % a == 0) by (nonlinear_arith)
            requires
                a > 0,
        ;
    }
}

/// The least common multiple is a multiple of both numbers.
pub proof fn lemma_lcm_common_multiple(a: nat, b: nat)
    requires
        a != 0 || b != 0,
    ensures
        a == 0 || ((a * b) / spec_gcd(a, b)) % a == 0,
        b == 0 || ((a * b) / spec_gcd(a, b)) % b == 0,
{
    lemma_gcd_positive(a, b);
    lemma_gcd_divides(a, b);
    let g = spec_gcd(a, b) as int;
    lemma_exact_div(a as int, g);
    lemma_exact_div(b as int, g);
    let ka = a as int / g;
    let kb = b as int / g;
    assert(a * b == g * (ka * b)) by (nonlinear_arith)
        requires
            a == g * ka,
    ;
    assert(a * b == g * (a * kb)) by (nonlinear_arith)
        requires
            b == g * kb,
    ;
    vstd::arithmetic::div_mod::lemma_div_multiples_vanish(ka * b, g);
    assert((a * b) as int / g == ka * b);
    if a != 0 {
        vstd::arithmetic::div_mod::lemma_mod_multiples_basic(kb, a as int);
        assert(a * kb == kb * a) by (nonlinear_arith);
        vstd::arithmetic::div_mod::lemma_div_multiples_vanish(a * kb, g);
    }
    if b != 0 {
        vstd::arithmetic::div_mod::lemma_mod_multiples_basic(ka, b as int);
    }
}

} // verus!
