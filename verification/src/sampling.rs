//! The two integer transforms behind the optimizer's randomized choices.
//!
//! The optimizer consumes raw 64-bit draws. A mutation decision takes the
//! top 53 bits of a draw (a uniform value in `[0, 2^53)`) and compares them
//! against a threshold derived from the configured probability; a stochastic
//! survival choice takes the top 21 bits (a uniform `u` in `[0, 1)` at
//! 2^-21 granularity) and maps them to the rank `floor(u^3 * size)`. Both
//! transforms are exact integer computations, verified against the
//! mathematical statement.

use vstd::prelude::*;
use vstd::arithmetic::div_mod::lemma_multiply_divide_lt;
use vstd::arithmetic::power2::{
    pow2, lemma2_to64, lemma2_to64_rest, lemma_pow2_pos, lemma_pow2_strictly_increases,
};
use vstd::bits::{lemma_u64_pow2_no_overflow, lemma_u64_shl_is_mul};

use crate::score::{exp_bits, frac_bits, mag_bits, sign_bit};

verus! {

/// The bit pattern encodes a probability: not below zero, not NaN, at most
/// one. That is, the sign bit is clear (or the value is a zero: negative
/// zero is not below zero) and the magnitude does not exceed that of the
/// encoding of one.
pub open spec fn valid_prob_bits(b: u64) -> bool {
    &&& (sign_bit(b) == 0 || mag_bits(b) == 0)
    &&& (exp_bits(b) < 0x3ff || (exp_bits(b) == 0x3ff && frac_bits(b) == 0))
}

/// How many of the 2^53 equally likely mutation draws count as "mutate":
/// the least integer at or above `p * 2^53`, where `p` is the probability
/// encoded by the (valid) pattern `b`. A draw below this threshold mutates,
/// so the event has probability within 2^-53 of `p`, and exactly 0 or 1 at
/// the endpoints.
pub open spec fn mutate_threshold_spec(b: u64) -> int {
    let e = exp_bits(b) as int;
    let m = frac_bits(b) as int;
    if e == 0 {
        // zero or subnormal: at most 2^-1022, so the ceiling is 0 or 1
        if m == 0 {
            0
        } else {
            1
        }
    } else if e == 0x3ff {
        // exactly one
        0x20_0000_0000_0000
    } else {
        // p * 2^53 == (2^52 + m) / 2^(1022 - e)
        let num = 0x10_0000_0000_0000 + m;
        let sh = (1022 - e) as nat;
        if sh >= 54 {
            1
        } else {
            (num + pow2(sh) - 1) / pow2(sh) as int
        }
    }
}

/// Computes the mutation threshold from a probability's bit pattern.
pub fn mutate_threshold(b: u64) -> (t: u64)
    requires
        valid_prob_bits(b),
    ensures
        t == mutate_threshold_spec(b),
{
    let e = (b >> 52) & 0x7ff;
    let m = b & 0xf_ffff_ffff_ffff;
    assert(b & 0xf_ffff_ffff_ffff < 0x10_0000_0000_0000) by (bit_vector);
    if e == 0 {
        if m == 0 {
            0
        } else {
            1
        }
    } else if e == 0x3ff {
        0x20_0000_0000_0000
    } else {
        let sh = 1022 - e;
        if sh >= 54 {
            1
        } else {
            let num = 0x10_0000_0000_0000 + m;
            let p2 = 1u64 << sh;
            proof {
                lemma_u64_pow2_no_overflow(sh as nat);
                lemma_u64_shl_is_mul(1u64, sh);
                lemma_pow2_pos(sh as nat);
                lemma_pow2_strictly_increases(sh as nat, 54);
                lemma2_to64();
                lemma2_to64_rest();
                assert(pow2(54) == 0x40_0000_0000_0000);
            }
            (num + p2 - 1) / p2
        }
    }
}

/// The rank drawn by the stochastic survival strategy: `floor(u^3 * size)`,
/// where `u` in `[0, 1)` is the top 21 bits of the raw draw scaled by 2^-21.
/// Cubing concentrates the probability mass on low ranks, the best records,
/// while leaving every rank below `size` reachable.
pub open spec fn cubic_rank_spec(raw: u64, size: u64) -> int {
    let t = (raw >> 43) as int;
    (t * t * t * size) / 0x8000_0000_0000_0000
}

/// Computes the cubic rank transform of one raw draw.
pub fn cubic_rank(raw: u64, size: u64) -> (r: u64)
    requires
        1 <= size <= u32::MAX,
    ensures
        r == cubic_rank_spec(raw, size),
        r < size,
{
    let t = raw >> 43;
    assert(raw >> 43 < 0x20_0000) by (bit_vector);
    let t1 = t as u128;
    let s1 = size as u128;
    proof {
        assert(t1 * t1 < 0x4_0000_0000_0000) by (nonlinear_arith)
            requires
                t1 < 0x20_0000,
        ;
        assert(t1 * t1 * t1 < 0x8000_0000_0000_0000) by (nonlinear_arith)
            requires
                t1 < 0x20_0000,
                t1 * t1 < 0x4_0000_0000_0000,
        ;
        assert(t1 * t1 * t1 * s1 < 0x8000_0000_0000_0000 * 0x1_0000_0000) by (nonlinear_arith)
            requires
                t1 * t1 * t1 < 0x8000_0000_0000_0000,
                s1 <= 0xffff_ffff,
        ;
        assert(t1 * t1 * t1 * s1 < 0x8000_0000_0000_0000 * s1) by (nonlinear_arith)
            requires
                t1 * t1 * t1 < 0x8000_0000_0000_0000,
                1 <= s1,
        ;
    }
    let prod = t1 * t1 * t1 * s1;
    let r128 = prod / 0x8000_0000_0000_0000u128;
    proof {
        lemma_multiply_divide_lt(prod as int, 0x8000_0000_0000_0000, s1 as int);
    }
    r128 as u64
}

} // verus!
