//! Fitness scores and the ordering rule used by every sort of the population.
//!
//! A score is the raw bit pattern of an IEEE 754 double-precision value.
//! The optimizer never computes on scores; it only orders them. The ordering
//! is descending by encoded value, with the dedicated NaN rule: a NaN score
//! is ordered after every non-NaN score, and two NaN scores compare equal.
//! Both of these are pure bit logic, stated and verified below.

use vstd::prelude::*;

verus! {

/// Exponent field of a double, eleven bits.
pub open spec fn exp_bits(b: u64) -> u64 {
    (b >> 52) & 0x7ff
}

/// Fraction (mantissa) field of a double, fifty-two bits.
pub open spec fn frac_bits(b: u64) -> u64 {
    b & 0xf_ffff_ffff_ffff
}

/// Sign bit of a double.
pub open spec fn sign_bit(b: u64) -> u64 {
    b >> 63
}

/// Magnitude: everything but the sign bit.
pub open spec fn mag_bits(b: u64) -> u64 {
    b & 0x7fff_ffff_ffff_ffff
}

/// The bit pattern encodes a NaN: exponent all ones, fraction nonzero.
pub open spec fn is_nan_bits(b: u64) -> bool {
    exp_bits(b) == 0x7ff && frac_bits(b) != 0
}

/// The two non-NaN patterns encode equal values: identical bits, or both
/// are zeroes (positive and negative zero compare equal).
pub open spec fn val_eq_bits(a: u64, b: u64) -> bool {
    a == b || (mag_bits(a) == 0 && mag_bits(b) == 0)
}

/// The value encoded by `a` is strictly below the value encoded by `b`,
/// for non-NaN patterns: sign-magnitude ordering. Non-negative doubles
/// order as their magnitudes do; negative doubles order the other way.
pub open spec fn val_lt_bits(a: u64, b: u64) -> bool {
    if sign_bit(a) != sign_bit(b) {
        sign_bit(a) == 1 && !(mag_bits(a) == 0 && mag_bits(b) == 0)
    } else if sign_bit(a) == 0 {
        mag_bits(a) < mag_bits(b)
    } else {
        mag_bits(b) < mag_bits(a)
    }
}

/// The ordering rule of the population: a record scored `a` may stand at or
/// before one scored `b` when the population is sorted best first. Descending
/// by value; NaN after everything; NaN beside NaN.
pub open spec fn ranks_before_bits(a: u64, b: u64) -> bool {
    if is_nan_bits(a) {
        is_nan_bits(b)
    } else {
        is_nan_bits(b) || val_lt_bits(b, a) || val_eq_bits(a, b)
    }
}

/// A fitness score: the bit pattern of an IEEE 754 double. Higher is better.
#[derive(Clone, Copy, PartialEq, Eq, Structural, Debug)]
pub struct Score {
    pub bits: u64,
}

impl Score {
    /// The score encodes NaN, which the optimizer treats as worst possible.
    pub fn is_nan(&self) -> (r: bool)
        ensures
            r == is_nan_bits(self.bits),
    {
        ((self.bits >> 52) & 0x7ff) == 0x7ff && (self.bits & 0xf_ffff_ffff_ffff) != 0
    }

    /// Decides the ordering rule: may `self` stand at or before `other`
    /// in a population sorted best first?
    pub fn ranks_before(&self, other: &Score) -> (r: bool)
        ensures
            r == ranks_before_bits(self.bits, other.bits),
    {
        let a = self.bits;
        let b = other.bits;
        let a_nan = ((a >> 52) & 0x7ff) == 0x7ff && (a & 0xf_ffff_ffff_ffff) != 0;
        let b_nan = ((b >> 52) & 0x7ff) == 0x7ff && (b & 0xf_ffff_ffff_ffff) != 0;
        if a_nan {
            b_nan
        } else if b_nan {
            true
        } else {
            let sa = a >> 63;
            let sb = b >> 63;
            let ma = a & 0x7fff_ffff_ffff_ffff;
            let mb = b & 0x7fff_ffff_ffff_ffff;
            if a == b || (ma == 0 && mb == 0) {
                true
            } else if sb != sa {
                sb == 1
            } else if sa == 0 {
                mb < ma
            } else {
                ma < mb
            }
        }
    }
}

/// Two patterns with the same sign and the same magnitude are the same word.
proof fn lemma_sign_mag_extensional(a: u64, b: u64)
    requires
        sign_bit(a) == sign_bit(b),
        mag_bits(a) == mag_bits(b),
    ensures
        a == b,
{
    assert((a >> 63 == b >> 63 && a & 0x7fff_ffff_ffff_ffff == b & 0x7fff_ffff_ffff_ffff)
        ==> a == b) by (bit_vector);
}

/// The sign bit is a single bit.
proof fn lemma_sign_bit_range(a: u64)
    ensures
        sign_bit(a) == 0 || sign_bit(a) == 1,
{
    assert(a >> 63 == 0 || a >> 63 == 1) by (bit_vector);
}

/// The ordering rule is reflexive.
pub proof fn lemma_ranks_before_refl(a: u64)
    ensures
        ranks_before_bits(a, a),
{
}

/// The ordering rule is total: of any two scores, one may stand before
/// the other.
pub proof fn lemma_ranks_before_total(a: u64, b: u64)
    ensures
        ranks_before_bits(a, b) || ranks_before_bits(b, a),
{
    lemma_sign_bit_range(a);
    lemma_sign_bit_range(b);
    if !is_nan_bits(a) && !is_nan_bits(b) {
        if sign_bit(a) == sign_bit(b) && mag_bits(a) == mag_bits(b) {
            lemma_sign_mag_extensional(a, b);
        }
    }
}

/// The ordering rule is transitive.
pub proof fn lemma_ranks_before_trans(a: u64, b: u64, c: u64)
    requires
        ranks_before_bits(a, b),
        ranks_before_bits(b, c),
    ensures
        ranks_before_bits(a, c),
{
    lemma_sign_bit_range(a);
    lemma_sign_bit_range(b);
    lemma_sign_bit_range(c);
}

} // verus!
