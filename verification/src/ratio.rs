use vstd::prelude::*;

verus! {

/// An exact rational `num / den` with `den >= 1`.  Sampling intervals and
/// tainting bounds are such rationals: monetary units divided by a count.
#[derive(Debug, Clone, Copy)]
pub struct Ratio {
    pub num: i128,
    pub den: u64,
}

/// A rational that may be positive infinity (the threshold of a plan whose
/// sample size is zero, or the reassessed interval of an empty sample).
#[derive(Debug, Clone, Copy)]
pub enum ExtRatio {
    Finite(Ratio),
    Infinite,
}

impl Ratio {
    pub open spec fn wf(self) -> bool {
        self.den >= 1
    }

    /// Spec-level equality of the represented rational numbers.
    pub open spec fn same_value(self, other: Ratio) -> bool {
        self.num * other.den == other.num * self.den
    }
}

impl ExtRatio {
    pub open spec fn wf(self) -> bool {
        match self {
            ExtRatio::Finite(r) => r.wf(),
            ExtRatio::Infinite => true,
        }
    }
}

/// `x` clamped to the machine word: sample sizes saturate at `usize::MAX`.
pub open spec fn spec_sat_usize(x: int) -> int {
    if x <= usize::MAX {
        x
    } else {
        usize::MAX as int
    }
}

/// Clamps a draw count to the machine word.
pub fn sat_usize(x: u64) -> (r: usize)
    ensures
        r == spec_sat_usize(x as int),
{
    if x <= usize::MAX as u64 {
        x as usize
    } else {
        usize::MAX
    }
}

/// `num / den` rounded to the nearest integer, ties to even.
pub open spec fn spec_round_half_even(num: int, den: int) -> int
    recommends
        den >= 1,
{
    let q = num / den;
    let r = num % den;
    if 2 * r < den {
        q
    } else if 2 * r > den {
        q + 1
    } else if q % 2 == 0 {
        q
    } else {
        q + 1
    }
}

/// `num / den` rounded up.
pub open spec fn spec_ceil_div(num: int, den: int) -> int
    recommends
        den >= 1,
{
    if num % den == 0 {
        num / den
    } else {
        num / den + 1
    }
}

/// Rounds `num / den` to the nearest integer, ties to even.
pub fn round_half_even(num: u128, den: u128) -> (r: u128)
    requires
        1 <= den,
        num < u128::MAX - 1,
    ensures
        r == spec_round_half_even(num as int, den as int),
{
    let q = num / den;
    let rem = num % den;
    assert(q * den + rem == num) by (nonlinear_arith)
        requires den >= 1 && q == num / den && rem == num % den
    ;
    if rem < den - rem {
        q
    } else if rem > den - rem {
        q + 1
    } else if q % 2 == 0 {
        q
    } else {
        q + 1
    }
}

/// Rounds `num / den` up to the next integer.
pub fn ceil_div_u128(num: u128, den: u128) -> (r: u128)
    requires
        1 <= den,
        num < u128::MAX,
    ensures
        r == spec_ceil_div(num as int, den as int),
{
    let q = num / den;
    let rem = num % den;
    assert(q * den + rem == num) by (nonlinear_arith)
        requires den >= 1 && q == num / den && rem == num % den
    ;
    if rem == 0 {
        q
    } else {
        q + 1
    }
}

/// Rounds `num / den` up to the next integer, for a possibly negative
/// numerator.
pub fn ceil_div_i128(num: i128, den: i128) -> (r: i128)
    requires
        1 <= den,
        i128::MIN < num,
    ensures
        r == spec_ceil_div(num as int, den as int),
{
    if num >= 0 {
        let q = ceil_div_u128(num as u128, den as u128);
        proof {
            assert(0 <= spec_ceil_div(num as int, den as int) <= num) by (nonlinear_arith)
                requires den >= 1 && num >= 0
            ;
        }
        q as i128
    } else {
        // For a negative numerator the ceiling is the negated floor of the
        // magnitude: ceil(-a / d) == -(a / d).
        let a = (-num) as u128;
        let d = den as u128;
        let qa = a / d;
        let ra = a % d;
        proof {
            assert(qa * d + ra == a && ra < d) by (nonlinear_arith)
                requires d >= 1 && qa == a / d && ra == a % d
            ;
            if ra == 0 {
                assert(num as int == (-(qa as int)) * (den as int) + 0) by (nonlinear_arith)
                    requires num as int == -(a as int) && a == qa * d && d == den
                ;
                vstd::arithmetic::div_mod::lemma_fundamental_div_mod_converse(
                    num as int, den as int, -(qa as int), 0);
            } else {
                assert(num as int == (-(qa as int) - 1) * (den as int) + (den - ra))
                    by (nonlinear_arith)
                    requires
                        num as int == -(a as int),
                        a == qa * d + ra,
                        0 < ra < d,
                        d == den,
                ;
                vstd::arithmetic::div_mod::lemma_fundamental_div_mod_converse(
                    num as int, den as int, -(qa as int) - 1, (den - ra) as int);
            }
        }
        -(qa as i128)
    }
}

} // verus!
