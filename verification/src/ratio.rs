//! Positive rational numbers used for aspect-correction factors, scale
//! factors and line-height multipliers, in place of machine floats.

use vstd::prelude::*;

verus! {

/// A positive rational number `num / den`.
#[derive(Debug, Clone, Copy, PartialEq, Eq, Structural)]
pub struct Ratio {
    pub num: u32,
    pub den: u32,
}

impl Ratio {
    /// A ratio is usable only when both parts are positive.
    pub open spec fn wf(self) -> bool {
        self.num > 0 && self.den > 0
    }

    pub fn new(num: u32, den: u32) -> (r: Ratio)
        ensures
            r.num == num,
            r.den == den,
    {
        Ratio { num, den }
    }

    /// `self <= bound` as a comparison of fractions.
    pub open spec fn spec_le_int(self, bound: int) -> bool {
        self.num <= bound * self.den
    }

    /// Whether the ratio is at most the given whole number.
    pub fn le_int(&self, bound: u32) -> (r: bool)
        requires
            self.wf(),
        ensures
            r == self.spec_le_int(bound as int),
    {
        proof {
            lemma_u32_product_fits(bound as int, self.den as int);
        }
        self.num as u64 <= bound as u64 * self.den as u64
    }
}

/// `floor(a * num / den)`, the exact rational product of a value with a ratio.
pub open spec fn mul_ratio(a: int, num: int, den: int) -> int {
    a * num / den
}

/// `a` scaled up by `r`, floored; saturates at `u32::MAX`, never below `min`.
pub fn mul_ratio_clamped(a: u32, r: Ratio, min: u32) -> (out: u32)
    requires
        r.wf(),
    ensures
        out == clamp_u32(mul_ratio(a as int, r.num as int, r.den as int), min as int),
{
    proof {
        lemma_u32_product_fits(a as int, r.num as int);
    }
    let wide: u64 = a as u64 * r.num as u64 / r.den as u64;
    clamp_to_u32(wide, min)
}

/// The product of two values below `2^32` fits in a `u64`.
pub proof fn lemma_u32_product_fits(a: int, b: int)
    requires
        0 <= a <= u32::MAX,
        0 <= b <= u32::MAX,
    ensures
        0 <= a * b <= u64::MAX,
        a > 0 && b > 0 ==> a * b > 0,
{
    assert(a * b <= u32::MAX as int * u32::MAX as int && 0 <= a * b && (a > 0 && b > 0 ==> a * b
        > 0)) by (nonlinear_arith)
        requires
            0 <= a <= u32::MAX,
            0 <= b <= u32::MAX,
    ;
}

/// Clamps a mathematical integer into `[min, u32::MAX]`.
pub open spec fn clamp_u32(v: int, min: int) -> int {
    if v < min {
        min
    } else if v > u32::MAX {
        u32::MAX as int
    } else {
        v
    }
}

/// Clamps a wide intermediate into `[min, u32::MAX]`.
pub fn clamp_to_u32(v: u64, min: u32) -> (out: u32)
    ensures
        out == clamp_u32(v as int, min as int),
{
    if v < min as u64 {
        min
    } else if v > u32::MAX as u64 {
        u32::MAX
    } else {
        v as u32
    }
}

/// The product of three values below `2^32` fits in a `u128`.
pub proof fn lemma_u32_product3_fits(a: int, b: int, c: int)
    requires
        0 <= a <= u32::MAX,
        0 <= b <= u32::MAX,
        0 <= c <= u32::MAX,
    ensures
        0 <= a * b * c <= u128::MAX,
{
    assert(0 <= a * b * c <= u32::MAX as int * u32::MAX as int * u32::MAX as int)
        by (nonlinear_arith)
        requires
            0 <= a <= u32::MAX,
            0 <= b <= u32::MAX,
            0 <= c <= u32::MAX,
    ;
}

/// `floor(a * n1 * n2 / (d1 * d2))`, clamped into `[min, u32::MAX]`: the
/// exact rational scaling of `a` by `n1/d1` and `n2/d2` in one division.
pub fn scale_by_ratios_clamped(a: u32, n1: u32, n2: u32, d1: u32, d2: u32, min: u32) -> (out: u32)
    requires
        d1 > 0,
        d2 > 0,
    ensures
        out == clamp_u32(a as int * n1 as int * n2 as int / (d1 as int * d2 as int), min as int),
{
    proof {
        lemma_u32_product_fits(a as int, n1 as int);
        lemma_u32_product3_fits(a as int, n1 as int, n2 as int);
        lemma_u32_product_fits(d1 as int, d2 as int);
    }
    let num: u128 = a as u128 * n1 as u128 * n2 as u128;
    let den: u128 = d1 as u128 * d2 as u128;
    let wide: u128 = num / den;
    proof {
        lemma_div_nonneg_le(num as int, den as int);
    }
    if wide < min as u128 {
        min
    } else if wide > u32::MAX as u128 {
        u32::MAX
    } else {
        wide as u32
    }
}

/// A floor division of non-negative values stays within its numerator.
pub proof fn lemma_div_nonneg_le(num: int, den: int)
    requires
        0 <= num,
        0 < den,
    ensures
        0 <= num / den <= num,
{
    assert(0 <= num / den <= num) by (nonlinear_arith)
        requires
            0 <= num,
            0 < den,
    ;
}

} // verus!
