//! The other side of an image that is brought to a given height or width.
//!
//! The side is the target multiplied by the image's aspect ratio and cut off
//! to a whole number of pixels, where ratio and product are worked out in
//! single precision binary floating point: each of the three sizes, their
//! quotient and the product is taken to the nearest number with a significand
//! of 24 bits, ties going to the even significand. This module states that
//! arithmetic over the natural numbers and computes it in integers, bit for
//! bit what the floating point unit gives.

use vstd::prelude::*;
use vstd::arithmetic::power2::*;
use vstd::arithmetic::div_mod::*;
use vstd::arithmetic::mul::*;

verus! {

/// The number of binary digits of `n`: 0 for 0, and for any other number one
/// more than the digits of its half.
pub open spec fn bit_length(n: nat) -> nat
    decreases n,
{
    if n == 0 {
        0
    } else {
        1 + bit_length(n / 2)
    }
}

/// The whole number nearest to `n / d`; of two that are equally near, the even
/// one.
pub open spec fn round_half_even(n: nat, d: nat) -> nat {
    let quotient = n / d;
    let rest = n % d;
    if 2 * rest < d {
        quotient
    } else if 2 * rest > d {
        quotient + 1
    } else if quotient % 2 == 0 {
        quotient
    } else {
        quotient + 1
    }
}

/// The number nearest to `n / d` among those with at most 24 significant
/// binary digits, for a whole number (`d == 1`) or a quotient of at least
/// `2^23`; of two that are equally near, the one whose last digit is 0.
pub open spec fn round_to_24_bits(n: nat, d: nat) -> nat {
    let quotient = n / d;
    if quotient < 0x100_0000 {
        round_half_even(n, d)
    } else {
        let unit = pow2((bit_length(quotient) - 24) as nat);
        round_half_even(n, d * unit) * unit
    }
}

/// By how many binary digits the ratio is scaled up to make it whole: a
/// quotient of two sizes below `2^32`, taken to 24 significant digits, has
/// none further down.
pub open spec fn ratio_shift() -> nat {
    55
}

/// The side that belongs to `target` in an image whose sides are `numerator`
/// (the side that is asked for) and `denominator` (the side that `target`
/// replaces): `target * (numerator / denominator)` in single precision, cut
/// off to a whole number. A numerator of 0 gives 0, as does a target of 0; any
/// other ratio to 0 gives the largest side there is, and so does a product
/// beyond it.
pub open spec fn scaled_side(target: u32, numerator: u32, denominator: u32) -> u32 {
    let t = round_to_24_bits(target as nat, 1);
    let a = round_to_24_bits(numerator as nat, 1);
    let b = round_to_24_bits(denominator as nat, 1);
    if a == 0 || t == 0 {
        0
    } else if b == 0 {
        u32::MAX
    } else {
        let ratio = round_to_24_bits(a * pow2(ratio_shift()), b);
        let product = round_to_24_bits(t * ratio, 1);
        let whole = product / pow2(ratio_shift());
        if whole > u32::MAX {
            u32::MAX
        } else {
            whole as u32
        }
    }
}

/// A number stands between the two powers of two that its digits name.
pub proof fn lemma_bit_length_bounds(n: nat)
    ensures
        n < pow2(bit_length(n)),
        n > 0 ==> pow2((bit_length(n) - 1) as nat) <= n,
    decreases n,
{
    reveal(pow2);
    if n == 0 {
        lemma_pow2_pos(0);
    } else {
        lemma_bit_length_bounds(n / 2);
        lemma_pow2_unfold(bit_length(n));
        if n / 2 > 0 {
            lemma_pow2_unfold((bit_length(n) - 1) as nat);
        } else {
            assert(bit_length(n / 2) == 0);
            lemma2_to64();
        }
    }
}

/// A number below `2^k` has at most `k` digits.
pub proof fn lemma_bit_length_below(n: nat, k: nat)
    requires
        n < pow2(k),
    ensures
        bit_length(n) <= k,
{
    lemma_bit_length_bounds(n);
    if n > 0 && bit_length(n) > k {
        if bit_length(n) - 1 > k {
            lemma_pow2_strictly_increases(k, (bit_length(n) - 1) as nat);
        }
    }
}

/// A number of at least `2^k` has more than `k` digits.
pub proof fn lemma_bit_length_above(n: nat, k: nat)
    requires
        pow2(k) <= n,
    ensures
        bit_length(n) > k,
{
    lemma_bit_length_bounds(n);
    if bit_length(n) < k {
        lemma_pow2_strictly_increases(bit_length(n), k);
    }
}

fn bit_length_of(n: u128) -> (b: u32)
    ensures
        b == bit_length(n as nat),
        b <= 128,
{
    let mut rest: u128 = n;
    let mut b: u32 = 0;
    proof {
        lemma2_to64_rest();
        lemma_pow2_adds(64, 64);
        lemma_bit_length_below(n as nat, 128);
    }
    while rest > 0
        invariant
            bit_length(n as nat) == b + bit_length(rest as nat),
            bit_length(n as nat) <= 128,
        decreases rest,
    {
        rest = rest / 2;
        b = b + 1;
    }
    b
}

fn power_of_two(k: u32) -> (p: u128)
    requires
        k <= 127,
    ensures
        p == pow2(k as nat),
{
    let mut p: u128 = 1;
    let mut i: u32 = 0;
    proof {
        lemma2_to64();
        lemma2_to64_rest();
        lemma_pow2_adds(64, 63);
    }
    while i < k
        invariant
            i <= k <= 127,
            p == pow2(i as nat),
            pow2(127) == 0x8000_0000_0000_0000_0000_0000_0000_0000,
        decreases k - i,
    {
        proof {
            lemma_pow2_unfold((i + 1) as nat);
            if i + 1 < 127 {
                lemma_pow2_strictly_increases((i + 1) as nat, 127);
            }
        }
        p = p * 2;
        i = i + 1;
    }
    p
}

fn round_half_even_of(n: u128, d: u128) -> (r: u128)
    requires
        d > 0,
        n / d < u128::MAX,
    ensures
        r == round_half_even(n as nat, d as nat),
        n / d <= r <= n / d + 1,
{
    let quotient: u128 = n / d;
    let rest: u128 = n % d;
    if rest < d - rest {
        quotient
    } else if rest > d - rest {
        quotient + 1
    } else if quotient % 2 == 0 {
        quotient
    } else {
        quotient + 1
    }
}

fn round_to_24_bits_of(n: u128, d: u128) -> (r: u128)
    requires
        d > 0,
        n < pow2(127),
    ensures
        r == round_to_24_bits(n as nat, d as nat),
        r <= 2 * (n / d) + 1,
{
    proof {
        lemma2_to64();
        lemma2_to64_rest();
        lemma_pow2_adds(64, 63);
        lemma_fundamental_div_mod(n as int, d as int);
        lemma_div_pos_is_pos(n as int, d as int);
        lemma_mul_inequality(1, d as int, (n / d) as int);
    }
    let quotient: u128 = n / d;
    assert(quotient <= n);
    if quotient < 0x100_0000 {
        round_half_even_of(n, d)
    } else {
        let digits: u32 = bit_length_of(quotient);
        proof {
            lemma_bit_length_bounds(quotient as nat);
            lemma_bit_length_below(quotient as nat, 127);
            lemma_bit_length_above(quotient as nat, 24);
        }
        let unit: u128 = power_of_two(digits - 24);
        proof {
            let q = quotient as int;
            let u = unit as int;
            lemma_pow2_adds((digits - 24) as nat, 24);
            lemma_pow2_adds((digits - 24) as nat, 23);
            lemma_pow2_unfold(digits as nat);
            assert(pow2(digits as nat) == u * 0x100_0000);
            assert(pow2((digits - 1) as nat) == u * 0x80_0000);
            assert(0 < u <= q);
            lemma_mul_inequality(u, q, d as int);
            lemma_mul_is_commutative(u, d as int);
            lemma_mul_is_commutative(q, d as int);
            assert(d * u <= n);
            assert(d * u > 0) by (nonlinear_arith)
                requires
                    d > 0,
                    u > 0,
            ;
            lemma_div_denominator(n as int, d as int, u);
            lemma_multiply_divide_lt(q, u, 0x100_0000);
            assert(n as int / (d * u) < 0x100_0000);
        }
        let scaled: u128 = d * unit;
        let significand: u128 = round_half_even_of(n, scaled);
        assert(significand * unit <= 0x100_0000 * unit) by (nonlinear_arith)
            requires
                significand <= 0x100_0000,
                unit >= 0,
        ;
        significand * unit
    }
}

/// The side that belongs to `target` in an image whose sides are `numerator`
/// and `denominator`.
pub fn scaled_dimension(target: u32, numerator: u32, denominator: u32) -> (side: u32)
    ensures
        side == scaled_side(target, numerator, denominator),
{
    proof {
        lemma2_to64();
        lemma2_to64_rest();
        lemma_pow2_adds(64, 63);
        lemma_pow2_adds(64, 23);
        lemma_pow2_adds(64, 57);
    }
    let t: u128 = round_to_24_bits_of(target as u128, 1);
    let a: u128 = round_to_24_bits_of(numerator as u128, 1);
    let b: u128 = round_to_24_bits_of(denominator as u128, 1);
    if a == 0 || t == 0 {
        return 0;
    }
    if b == 0 {
        return u32::MAX;
    }
    let shift: u128 = power_of_two(55);
    assert(shift == 0x80_0000_0000_0000);
    let ratio: u128 = round_to_24_bits_of(a * shift, b);
    proof {
        let up = (a * shift) as int;
        lemma_div_is_ordered_by_denominator(up, 1, b as int);
        assert(up / (b as int) <= up);
        assert(ratio <= 2 * up + 1);
    }
    assert(t * ratio <= 0x2_0000_0000 * ratio) by (nonlinear_arith)
        requires
            t <= 0x2_0000_0000,
            ratio >= 0,
    ;
    let product: u128 = round_to_24_bits_of(t * ratio, 1);
    let whole: u128 = product / shift;
    if whole > u32::MAX as u128 {
        u32::MAX
    } else {
        whole as u32
    }
}

} // verus!
