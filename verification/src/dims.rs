//! Page-dimension validation.
//!
//! The document renderer reports page bounds as real-valued widths and
//! heights. A dimension is carried here exactly, as a dyadic number
//! `(-1)^neg * mantissa * 2^exp` — the lossless form of a binary
//! floating-point value, decoded outside this crate. Validation rejects
//! negative values and values above `u32::MAX`, and otherwise truncates
//! toward zero to an unsigned integer, exactly as the mathematical floor.

use vstd::prelude::*;
use vstd::arithmetic::power2::{pow2, lemma_pow2_pos, lemma_pow2_strictly_increases, lemma2_to64};
use vstd::arithmetic::div_mod::{lemma_fundamental_div_mod, lemma_basic_div};
use vstd::bits::lemma_u64_shl_is_mul;

verus! {

/// One page dimension, as the exact value `(-1)^neg * mantissa * 2^exp`.
/// Any finite binary floating-point width or height has exactly this form.
#[derive(Clone, Copy, Debug)]
pub struct PageDim {
    pub neg: bool,
    pub mantissa: u64,
    pub exp: i32,
}

/// Why a dimension was rejected.
#[derive(Clone, Copy, Debug, PartialEq, Eq)]
pub enum DimError {
    /// The value is strictly negative.
    Negative,
    /// The value exceeds `u32::MAX`.
    TooLarge,
}

/// The dimension's value is strictly negative.
pub open spec fn dim_is_negative(d: PageDim) -> bool {
    d.neg && d.mantissa != 0
}

/// The dimension's magnitude `mantissa * 2^exp` exceeds `u32::MAX`.
pub open spec fn dim_too_large(d: PageDim) -> bool {
    if d.exp >= 0 {
        d.mantissa * pow2(d.exp as nat) > u32::MAX
    } else {
        d.mantissa > u32::MAX * pow2((-d.exp) as nat)
    }
}

/// The floor of the dimension's magnitude `mantissa * 2^exp`.
pub open spec fn dim_floor(d: PageDim) -> int {
    if d.exp >= 0 {
        d.mantissa * pow2(d.exp as nat)
    } else {
        (d.mantissa as int) / (pow2((-d.exp) as nat) as int)
    }
}

/// Validates one page dimension: a negative value or a value above
/// `u32::MAX` is rejected, any other value is truncated toward zero.
pub fn check_dimension(d: &PageDim) -> (r: Result<u32, DimError>)
    ensures
        r == Err::<u32, DimError>(DimError::Negative) <==> dim_is_negative(*d),
        r == Err::<u32, DimError>(DimError::TooLarge) <==> (!dim_is_negative(*d)
            && dim_too_large(*d)),
        r is Ok <==> (!dim_is_negative(*d) && !dim_too_large(*d)),
        r is Ok ==> r->Ok_0 == dim_floor(*d),
{
    if d.neg && d.mantissa != 0 {
        return Err(DimError::Negative);
    }
    if d.mantissa == 0 {
        proof {
            if d.exp < 0 {
                let k = (-d.exp) as nat;
                lemma_pow2_pos(k);
                lemma_basic_div(0, pow2(k) as int);
                assert(u32::MAX * pow2(k) >= 0) by (nonlinear_arith)
                    requires pow2(k) >= 1;
            }
        }
        return Ok(0);
    }
    if d.exp >= 0 {
        let e: u32 = d.exp as u32;
        if e >= 32 {
            proof {
                lemma2_to64();
                if e > 32 {
                    lemma_pow2_strictly_increases(32, e as nat);
                }
                assert(d.mantissa * pow2(e as nat) >= pow2(e as nat)) by (nonlinear_arith)
                    requires d.mantissa >= 1, pow2(e as nat) >= 0;
            }
            return Err(DimError::TooLarge);
        }
        let e64: u64 = e as u64;
        proof {
            lemma2_to64();
            if e > 0 {
                lemma_pow2_strictly_increases(e as nat, 32);
            }
            lemma_pow2_pos(e as nat);
            lemma_u64_shl_is_mul(1u64, e64);
        }
        let p: u64 = 1u64 << e64;
        let limit: u64 = (u32::MAX as u64) / p;
        proof {
            lemma_fundamental_div_mod(u32::MAX as int, p as int);
            if d.mantissa > limit {
                assert(d.mantissa * pow2(e as nat) > u32::MAX) by (nonlinear_arith)
                    requires
                        pow2(e as nat) == p,
                        d.mantissa >= limit + 1,
                        u32::MAX == p * limit + u32::MAX as int % p as int,
                        0 <= (u32::MAX as int % p as int),
                        (u32::MAX as int % p as int) < p;
            } else {
                assert(d.mantissa * pow2(e as nat) <= u32::MAX) by (nonlinear_arith)
                    requires
                        pow2(e as nat) == p,
                        d.mantissa <= limit,
                        u32::MAX == p * limit + u32::MAX as int % p as int,
                        0 <= (u32::MAX as int % p as int);
            }
        }
        if d.mantissa > limit {
            return Err(DimError::TooLarge);
        }
        let v: u64 = d.mantissa * p;
        Ok(v as u32)
    } else {
        if d.exp <= -64 {
            proof {
                let k = (-d.exp) as nat;
                lemma2_to64();
                if k > 64 {
                    lemma_pow2_strictly_increases(64, k);
                }
                lemma_pow2_pos(k);
                lemma_basic_div(d.mantissa as int, pow2(k) as int);
                assert(pow2(k) <= u32::MAX * pow2(k)) by (nonlinear_arith)
                    requires pow2(k) >= 1;
            }
            return Ok(0);
        }
        let k: u32 = (-d.exp) as u32;
        let k64: u64 = k as u64;
        proof {
            lemma2_to64();
            lemma_pow2_strictly_increases(k as nat, 64);
            lemma_pow2_pos(k as nat);
            lemma_u64_shl_is_mul(1u64, k64);
        }
        let p: u64 = 1u64 << k64;
        let q: u64 = d.mantissa / p;
        let rem: u64 = d.mantissa % p;
        proof {
            lemma_fundamental_div_mod(d.mantissa as int, p as int);
            if q > u32::MAX as u64 {
                assert(d.mantissa > u32::MAX * pow2(k as nat)) by (nonlinear_arith)
                    requires
                        pow2(k as nat) == p,
                        d.mantissa == p * q + rem,
                        q >= u32::MAX + 1,
                        rem >= 0,
                        p >= 1;
            } else if rem != 0 && q == u32::MAX as u64 {
                assert(d.mantissa > u32::MAX * pow2(k as nat)) by (nonlinear_arith)
                    requires
                        pow2(k as nat) == p,
                        d.mantissa == p * q + rem,
                        q == u32::MAX,
                        rem >= 1;
            } else {
                assert(d.mantissa <= u32::MAX * pow2(k as nat)) by (nonlinear_arith)
                    requires
                        pow2(k as nat) == p,
                        d.mantissa == p * q + rem,
                        q <= u32::MAX,
                        0 <= rem < p,
                        (q == u32::MAX ==> rem == 0);
            }
        }
        if q > u32::MAX as u64 {
            return Err(DimError::TooLarge);
        }
        if rem != 0 && q == u32::MAX as u64 {
            return Err(DimError::TooLarge);
        }
        Ok(q as u32)
    }
}

} // verus!
