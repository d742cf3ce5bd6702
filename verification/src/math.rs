//! 256-bit intermediate arithmetic for exchange-rate and fee math.

use vstd::prelude::*;
use vstd::arithmetic::div_mod::{lemma_div_denominator, lemma_div_is_ordered, lemma_fundamental_div_mod_converse};
use vstd::arithmetic::power2::{lemma_pow2_adds, lemma_pow2_pos, lemma2_to64, pow2};
use vstd::bits::lemma_u128_shr_is_div;

verus! {

/// 2^64 as a mathematical integer.
pub open spec fn base64() -> int {
    0x1_0000_0000_0000_0000int
}

/// 2^128 as a mathematical integer.
pub open spec fn base128() -> int {
    0x1_0000_0000_0000_0000_0000_0000_0000_0000int
}

/// The value of a 256-bit number given as its (high, low) 128-bit halves.
pub open spec fn wide_value(hi: u128, lo: u128) -> int {
    hi * base128() + lo
}

/// `floor(a * b / c)`, the exact quotient that `mul_div_floor` computes.
pub open spec fn mul_div_spec(a: u128, b: u128, c: u128) -> int {
    (a * b) / (c as int)
}

proof fn lemma_split_u128(x: u128)
    ensures
        x == (x >> 64u128) * base64() + (x & 0xffff_ffff_ffff_ffffu128),
        (x >> 64u128) < base64(),
        (x & 0xffff_ffff_ffff_ffffu128) < base64(),
{
    assert(x == (x >> 64u128) * 0x1_0000_0000_0000_0000 + (x & 0xffff_ffff_ffff_ffffu128)) by (bit_vector);
    assert((x >> 64u128) < 0x1_0000_0000_0000_0000) by (bit_vector);
    assert((x & 0xffff_ffff_ffff_ffffu128) < 0x1_0000_0000_0000_0000) by (bit_vector);
}

proof fn lemma_half_products(x: int, y: int)
    requires
        0 <= x < base64(),
        0 <= y < base64(),
    ensures
        0 <= x * y <= u128::MAX,
{
    assert(0 <= x * y <= (base64() - 1) * (base64() - 1)) by (nonlinear_arith)
        requires
            0 <= x < base64(),
            0 <= y < base64(),
    ;
    assert((base64() - 1) * (base64() - 1) == 0xffff_ffff_ffff_fffe_0000_0000_0000_0001int) by (nonlinear_arith);
}

proof fn lemma_product_bound(a: u128, b: u128)
    ensures
        0 <= a * b < base128() * base128(),
{
    assert(0 <= a * b < base128() * base128()) by (nonlinear_arith)
        requires
            0 <= a < base128(),
            0 <= b < base128(),
    ;
}

/// Computes `a * b` as a 256-bit number split into (high, low) u128 halves.
pub fn widening_mul_u128(a: u128, b: u128) -> (r: (u128, u128))
    ensures
        wide_value(r.0, r.1) == a * b,
{
    let mask: u128 = 0xffff_ffff_ffff_ffff;
    let a_lo = a & mask;
    let a_hi = a >> 64;
    let b_lo = b & mask;
    let b_hi = b >> 64;
    proof {
        lemma_split_u128(a);
        lemma_split_u128(b);
        lemma_half_products(a_lo as int, b_lo as int);
        lemma_half_products(a_lo as int, b_hi as int);
        lemma_half_products(a_hi as int, b_lo as int);
        lemma_half_products(a_hi as int, b_hi as int);
    }
    let ll = a_lo * b_lo;
    let lh = a_lo * b_hi;
    let hl = a_hi * b_lo;
    let hh = a_hi * b_hi;

    // The middle terms `lh + hl` may exceed a `u128`; the carry is tracked
    // explicitly.
    let mid_sum = lh.wrapping_add(hl);
    let mid_carry = mid_sum < lh;
    let mid_shifted = mid_sum << 64u32;
    let low = ll.wrapping_add(mid_shifted);
    let low_carry = low < ll;
    let carry_word: u128 = if mid_carry { 0x1_0000_0000_0000_0000 } else { 0 };
    let low_carry_word: u128 = if low_carry { 1 } else { 0 };
    let mid_high = mid_sum >> 64u32;

    proof {
        let c: int = if mid_carry { 1 } else { 0 };
        let lc: int = if low_carry { 1 } else { 0 };
        assert(lh + hl == c * base128() + mid_sum);
        assert(mid_sum == mid_high * base64() + (mid_sum & 0xffff_ffff_ffff_ffffu128)) by {
            lemma_split_u128(mid_sum);
            assert(mid_sum >> 64u32 == mid_sum >> 64u128) by (bit_vector);
        }
        assert(mid_high < base64()) by {
            lemma_split_u128(mid_sum);
            assert(mid_sum >> 64u32 == mid_sum >> 64u128) by (bit_vector);
        }
        assert(mid_shifted == (mid_sum & 0xffff_ffff_ffff_ffffu128) * 0x1_0000_0000_0000_0000) by (bit_vector)
            requires
                mid_shifted == mid_sum << 64u32,
        ;
        assert(ll + mid_shifted == lc * base128() + low);
        let msl = (mid_sum & 0xffff_ffff_ffff_ffffu128) as int;
        let s = hh + mid_high + c * base64() + lc;
        assert(a * b == s * base128() + low) by (nonlinear_arith)
            requires
                a == a_hi * base64() + a_lo,
                b == b_hi * base64() + b_lo,
                ll == a_lo * b_lo,
                lh == a_lo * b_hi,
                hl == a_hi * b_lo,
                hh == a_hi * b_hi,
                lh + hl == c * base128() + mid_sum,
                mid_sum == mid_high * base64() + msl,
                mid_shifted == msl * base64(),
                ll + mid_shifted == lc * base128() + low,
                s == hh + mid_high + c * base64() + lc,
                base128() == base64() * base64(),
        ;
        lemma_product_bound(a, b);
        assert(s < base128()) by (nonlinear_arith)
            requires
                a * b == s * base128() + low,
                0 <= low,
                a * b < base128() * base128(),
        ;
        assert(0 <= hh + mid_high);
        assert(hh + mid_high + carry_word <= s);
    }
    let high = hh.wrapping_add(mid_high).wrapping_add(carry_word).wrapping_add(low_carry_word);
    (high, low)
}

proof fn lemma_shift_step(rem: u128, bit: u128)
    requires
        bit < 2,
    ensures
        (rem >> 127u128) * base128() + ((rem << 1u32) | bit) == 2 * rem + bit,
        (rem >> 127u128) < 2,
{
    assert((rem >> 127u128) * 0x1_0000_0000_0000_0000_0000_0000_0000_0000int + ((rem << 1u32) | bit) == 2 * rem + bit)
        by (bit_vector)
        requires
            bit < 2,
    ;
    assert((rem >> 127u128) < 2) by (bit_vector);
}

proof fn lemma_bit_of(lo: u128, i: u128)
    requires
        i < 128,
    ensures
        (lo >> i) & 1 == (lo >> i) % 2,
        (lo >> i) & 1 < 2,
{
    assert((lo >> i) & 1 == (lo >> i) % 2) by (bit_vector);
    assert((lo >> i) & 1 < 2) by (bit_vector);
}

proof fn lemma_pow2_128()
    ensures
        pow2(128) == base128(),
{
    lemma2_to64();
    lemma_pow2_adds(64, 64);
}

/// Long division of the 256-bit dividend `(hi, lo)` by `divisor`, returning
/// the floored quotient. The quotient fits in a `u128` because `hi < divisor`.
pub fn div_256_by_128_floor(hi: u128, lo: u128, divisor: u128) -> (q: u128)
    requires
        hi < divisor,
    ensures
        q == wide_value(hi, lo) / (divisor as int),
{
    // `rem` is the working remainder (< divisor at the top of each iteration).
    // When a left-shift moves its top bit out of the `u128`, the lost bit is
    // tracked in `carry`: the effective remainder is `carry * 2^128 + rem`.
    let mut rem = hi;
    let mut quot: u128 = 0;
    let mut i: u32 = 128;
    proof {
        lemma2_to64();
        lemma_pow2_128();
        assert(hi * pow2(0) == hi);
        assert(lo as int / (pow2(128) as int) == 0);
    }
    while i > 0
        invariant
            i <= 128,
            rem < divisor,
            0 <= quot < pow2((128 - i) as nat),
            quot * divisor + rem == hi * pow2((128 - i) as nat) + (lo as int) / (pow2(i as nat) as int),
        decreases i,
    {
        let ghost old_quot = quot as int;
        let ghost old_rem = rem as int;
        let ghost j = (128 - i) as nat;
        i = i - 1;
        let carry = rem >> 127u32;
        let bit = (lo >> i) & 1;
        proof {
            assert(rem >> 127u32 == rem >> 127u128) by (bit_vector);
            assert((lo >> i) == (lo >> (i as u128))) by (bit_vector) requires i < 128;
            lemma_bit_of(lo, i as u128);
            lemma_shift_step(rem, bit);
        }
        rem = (rem << 1u32) | bit;
        let ghost e: int = 2 * old_rem + bit;
        proof {
            // The prefix of the dividend grows by one bit.
            lemma_pow2_pos(i as nat);
            lemma_pow2_pos((i + 1) as nat);
            lemma_pow2_adds(i as nat, 1);
            lemma2_to64();
            lemma_u128_shr_is_div(lo, i as u128);
            lemma_div_denominator(lo as int, pow2(i as nat) as int, 2);
            let t = lo as int / (pow2(i as nat) as int);
            assert(t == 2 * (t / 2) + t % 2);
            assert(lo as int / (pow2((i + 1) as nat) as int) == t / 2);
            lemma_pow2_adds(j, 1);
            assert(pow2((128 - i) as nat) == pow2(j) * 2);
            assert(quot < 0x8000_0000_0000_0000_0000_0000_0000_0000u128) by {
                lemma_pow2_adds(j, (127 - j) as nat);
                lemma_pow2_pos((127 - j) as nat);
                assert(pow2(127) * 2 == base128()) by {
                    lemma_pow2_adds(127, 1);
                    lemma_pow2_128();
                }
                assert(pow2(j) <= pow2(127)) by (nonlinear_arith)
                    requires
                        pow2(127) == pow2(j) * pow2((127 - j) as nat),
                        pow2((127 - j) as nat) > 0,
                        pow2(j) > 0,
                ;
            }
            assert(2 * (quot * divisor + old_rem) + bit == (2 * quot) * divisor + e) by (nonlinear_arith)
                requires
                    e == 2 * old_rem + bit,
            ;
        }
        let ghost shifted = rem as int;
        if carry == 1 || rem >= divisor {
            proof {
                assert(e >= divisor);
                assert(e - divisor < divisor);
            }
            rem = rem.wrapping_sub(divisor);
            assert(rem == e - divisor);
            assert((quot << 1u32) | 1 == 2 * quot + 1) by (bit_vector)
                requires
                    quot < 0x8000_0000_0000_0000_0000_0000_0000_0000u128,
            ;
            quot = (quot << 1u32) | 1;
            assert(quot * divisor + rem == (2 * old_quot) * divisor + e) by (nonlinear_arith)
                requires
                    quot == 2 * old_quot + 1,
                    rem == e - divisor,
            ;
        } else {
            assert(quot << 1u32 == 2 * quot) by (bit_vector)
                requires
                    quot < 0x8000_0000_0000_0000_0000_0000_0000_0000u128,
            ;
            quot = quot << 1u32;
            assert(rem == e);
            assert(quot * divisor + rem == (2 * old_quot) * divisor + e) by (nonlinear_arith)
                requires
                    quot == 2 * old_quot,
                    rem == e,
            ;
        }
        proof {
            assert(quot * divisor + rem == hi * pow2((128 - i) as nat) + (lo as int) / (pow2(i as nat) as int)) by (nonlinear_arith)
                requires
                    quot * divisor + rem == (2 * old_quot) * divisor + e,
                    e == 2 * old_rem + bit,
                    old_quot * divisor + old_rem == hi * pow2(j) + (lo as int) / (pow2((i + 1) as nat) as int),
                    pow2((128 - i) as nat) == pow2(j) * 2,
                    (lo as int) / (pow2(i as nat) as int) == 2 * ((lo as int) / (pow2((i + 1) as nat) as int)) + bit,
            ;
        }
    }
    proof {
        lemma2_to64();
        lemma_pow2_128();
        assert(i == 0);
        assert((lo as int) / (pow2(0) as int) == lo);
        assert(quot * divisor + rem == hi * base128() + lo);
        lemma_fundamental_div_mod_converse(wide_value(hi, lo), divisor as int, quot as int, rem as int);
    }
    quot
}

proof fn lemma_quotient_fits_iff(hi: u128, lo: u128, c: u128)
    requires
        c > 0,
    ensures
        (hi < c) <==> (wide_value(hi, lo) / (c as int) <= u128::MAX),
{
    let x = wide_value(hi, lo);
    if hi >= c {
        assert(x >= (c as int) * base128()) by (nonlinear_arith)
            requires
                hi >= c,
                x == hi * base128() + lo,
                lo >= 0,
        ;
        lemma_div_is_ordered((c as int) * base128(), x, c as int);
        assert(((c as int) * base128()) / (c as int) == base128()) by (nonlinear_arith)
            requires
                c > 0,
        ;
    } else {
        assert(x < (c as int) * base128()) by (nonlinear_arith)
            requires
                hi < c,
                x == hi * base128() + lo,
                lo < base128(),
        ;
        assert(x / (c as int) < base128()) by (nonlinear_arith)
            requires
                x < (c as int) * base128(),
                c > 0,
                x >= 0,
        ;
    }
}

/// Returns `floor((a * b) / c)` using 256-bit intermediate precision.
///
/// The caller must guarantee `c != 0` and that the quotient fits in a `u128`
/// (the cases in which the computation has no answer).
pub fn mul_div_floor(a: u128, b: u128, c: u128) -> (r: u128)
    requires
        c != 0,
        mul_div_spec(a, b, c) <= u128::MAX,
    ensures
        r == mul_div_spec(a, b, c),
{
    if let Some(product) = a.checked_mul(b) {
        return product / c;
    }
    let (hi, lo) = widening_mul_u128(a, b);
    proof {
        lemma_quotient_fits_iff(hi, lo, c);
    }
    div_256_by_128_floor(hi, lo, c)
}

/// `floor((a * b) / c)`, or `None` when `c == 0` or the quotient does not fit
/// in a `u128`.
pub fn checked_mul_div_floor(a: u128, b: u128, c: u128) -> (r: Option<u128>)
    ensures
        r == (if c == 0 || mul_div_spec(a, b, c) > u128::MAX {
            None::<u128>
        } else {
            Some(mul_div_spec(a, b, c) as u128)
        }),
{
    if c == 0 {
        return None;
    }
    if let Some(product) = a.checked_mul(b) {
        proof {
            assert(mul_div_spec(a, b, c) <= product) by (nonlinear_arith)
                requires
                    mul_div_spec(a, b, c) == (product as int) / (c as int),
                    c >= 1,
                    product >= 0,
            ;
        }
        return Some(product / c);
    }
    let (hi, lo) = widening_mul_u128(a, b);
    proof {
        lemma_quotient_fits_iff(hi, lo, c);
    }
    if hi >= c {
        None
    } else {
        Some(div_256_by_128_floor(hi, lo, c))
    }
}

} // verus!
