//! Exact representation of one g2 correlation value as a ratio of integers,
//! together with the conversion to the fixed-point form in which values are
//! persisted and averaged.
//!
//! Intensity counts are integers, so every g2 value produced by the
//! correlation engine is a rational number; holding it as a numerator and a
//! positive denominator keeps the whole numeric pipeline exact and free of
//! floating point.

use vstd::arithmetic::div_mod::lemma_fundamental_div_mod_converse_div;
use vstd::prelude::*;

verus! {

/// Fixed-point scale used when a g2 value is flattened to a single integer:
/// the integer `s` stands for the real number `s / 2^32`.
pub const G2_SCALE: u64 = 0x1_0000_0000;

/// Largest magnitude a flattened g2 value is allowed to take; conversions
/// clamp to this bound (about 2^90 in real-number terms, far beyond any
/// physically meaningful correlation amplitude).
pub const G2_SCALED_CAP: i128 = 0x400_0000_0000_0000_0000_0000_0000_0000;

/// One g2 correlation value, stored exactly as `num / den`.
#[derive(Debug, Clone, Copy)]
pub struct G2Value {
    pub num: i128,
    pub den: i128,
}

impl G2Value {
    /// A well-formed value has a positive denominator and a numerator whose
    /// magnitude stays clear of the extreme ends of `i128`.
    pub open spec fn wf(self) -> bool {
        &&& 0 < self.den < 0x4000_0000_0000_0000_0000_0000_0000_0000
        &&& -0x4000_0000_0000_0000_0000_0000_0000_0000 < self.num
            < 0x4000_0000_0000_0000_0000_0000_0000_0000
    }

    /// Both sides stand for the same rational number.
    pub open spec fn same_value(self, other: G2Value) -> bool {
        self.num * other.den == other.num * self.den
    }

    /// The rational number `num / den` is exactly zero.
    pub open spec fn is_zero(self) -> bool {
        self.num == 0
    }

    /// The exact zero value.
    pub fn zero() -> (r: G2Value)
        ensures
            r.num == 0,
            r.den == 1,
            r.wf(),
    {
        G2Value { num: 0, den: 1 }
    }
}

/// `floor(n * 2^32 / d)` for a non-negative numerator.
pub open spec fn spec_floor_scaled(n: int, d: int) -> int {
    (n * G2_SCALE) / d
}

/// The fixed-point form of `num / den`: the scaled magnitude is rounded
/// towards zero and clamped to `G2_SCALED_CAP`.
pub open spec fn spec_to_scaled(num: int, den: int) -> int {
    if num >= 0 {
        if spec_floor_scaled(num, den) > G2_SCALED_CAP {
            G2_SCALED_CAP as int
        } else {
            spec_floor_scaled(num, den)
        }
    } else {
        if spec_floor_scaled(-num, den) > G2_SCALED_CAP {
            -(G2_SCALED_CAP as int)
        } else {
            -spec_floor_scaled(-num, den)
        }
    }
}

/// `floor(a * 2^32 / d)` for unsigned magnitudes, by schoolbook long
/// division: the integer part first, then 32 fraction bits one at a time.
fn floor_scaled_u128(a: u128, d: u128) -> (q: u128)
    requires
        0 < d < 0x4000_0000_0000_0000_0000_0000_0000_0000,
        a < 0x4000_0000_0000_0000_0000_0000_0000_0000,
        a / d < 0x400_0000_0000_0000_0000_0000,
    ensures
        q == spec_floor_scaled(a as int, d as int),
{
    let hi = a / d;
    let mut rem = a % d;
    let mut frac: u128 = 0;
    let mut i: usize = 0;
    let ghost mut p: int = 1;
    proof {
        vstd::arithmetic::power2::lemma2_to64();
    }
    while i < 32
        invariant
            i <= 32,
            0 < d < 0x4000_0000_0000_0000_0000_0000_0000_0000,
            hi < 0x400_0000_0000_0000_0000_0000,
            0 <= rem < d,
            p == vstd::arithmetic::power2::pow2(i as nat),
            frac < p,
            p <= 0x1_0000_0000,
            (a % d) * p == frac * d + rem,
        decreases 32 - i,
    {
        proof {
            vstd::arithmetic::power2::lemma2_to64();
            vstd::arithmetic::power2::lemma_pow2_strictly_increases(i as nat, 32);
            vstd::arithmetic::power2::lemma_pow2_unfold((i + 1) as nat);
            assert((a % d) * (2 * p) == 2 * ((a % d) * p)) by (nonlinear_arith);
            assert((2 * frac) * d == 2 * (frac * d)) by (nonlinear_arith);
            assert((2 * frac + 1) * d == 2 * (frac * d) + d) by (nonlinear_arith);
        }
        proof {
            p = 2 * p;
        }
        rem = rem * 2;
        frac = frac * 2;
        if rem >= d {
            rem = rem - d;
            frac = frac + 1;
        }
        i = i + 1;
        proof {
            if i < 32 {
                vstd::arithmetic::power2::lemma_pow2_strictly_increases(i as nat, 32);
            }
        }
    }
    proof {
        assert(p == 0x1_0000_0000) by {
            vstd::arithmetic::power2::lemma2_to64();
        }
        assert(a == d * hi + (a % d)) by {
            vstd::arithmetic::div_mod::lemma_fundamental_div_mod(a as int, d as int);
        }
        assert(a * 0x1_0000_0000 == (hi * 0x1_0000_0000 + frac) * d + rem) by (nonlinear_arith)
            requires
                a == d * hi + (a % d),
                (a % d) * 0x1_0000_0000 == frac * d + rem,
        ;
        lemma_fundamental_div_mod_converse_div(
            a * 0x1_0000_0000,
            d as int,
            hi * 0x1_0000_0000 + frac,
            rem as int,
        );
    }
    proof {
        vstd::arithmetic::mul::lemma_mul_inequality(
            hi as int,
            0x400_0000_0000_0000_0000_0000 - 1,
            0x1_0000_0000,
        );
        assert(hi * 0x1_0000_0000 <= (0x400_0000_0000_0000_0000_0000 - 1) * 0x1_0000_0000);
        assert((0x400_0000_0000_0000_0000_0000 - 1) * 0x1_0000_0000
            < 0x1_0000_0000_0000_0000_0000_0000_0000_0000);
    }
    hi * 0x1_0000_0000 + frac
}

impl G2Value {
    /// Flattens the exact value to fixed point (scale `G2_SCALE`), rounding
    /// towards zero and clamping at `G2_SCALED_CAP`.
    pub fn to_scaled(&self) -> (s: i128)
        requires
            self.wf(),
        ensures
            s == spec_to_scaled(self.num as int, self.den as int),
            -G2_SCALED_CAP <= s <= G2_SCALED_CAP,
    {
        let neg = self.num < 0;
        let a: u128 = if neg {
            (-self.num) as u128
        } else {
            self.num as u128
        };
        let d: u128 = self.den as u128;
        if a / d >= 0x400_0000_0000_0000_0000_0000 {
            proof {
                let n = a as int;
                let dd = d as int;
                let q0 = n / dd;
                vstd::arithmetic::div_mod::lemma_fundamental_div_mod(n, dd);
                vstd::arithmetic::div_mod::lemma_mod_bound(n, dd);
                assert(n * 0x1_0000_0000 >= (q0 * 0x1_0000_0000) * dd) by (nonlinear_arith)
                    requires
                        n >= dd * q0,
                        dd > 0,
                ;
                vstd::arithmetic::div_mod::lemma_div_is_ordered(
                    (q0 * 0x1_0000_0000) * dd,
                    n * 0x1_0000_0000,
                    dd,
                );
                vstd::arithmetic::div_mod::lemma_div_by_multiple(q0 * 0x1_0000_0000, dd);
                assert(q0 >= 0x400_0000_0000_0000_0000_0000);
                vstd::arithmetic::mul::lemma_mul_inequality(
                    0x400_0000_0000_0000_0000_0000,
                    q0,
                    0x1_0000_0000,
                );
                assert(q0 * 0x1_0000_0000 >= 0x400_0000_0000_0000_0000_0000_0000_0000);
                assert(spec_floor_scaled(n, dd) >= G2_SCALED_CAP);
            }
            if neg {
                -G2_SCALED_CAP
            } else {
                G2_SCALED_CAP
            }
        } else {
            let q = floor_scaled_u128(a, d);
            if q > G2_SCALED_CAP as u128 {
                if neg {
                    -G2_SCALED_CAP
                } else {
                    G2_SCALED_CAP
                }
            } else {
                if neg {
                    -(q as i128)
                } else {
                    q as i128
                }
            }
        }
    }
}

} // verus!
