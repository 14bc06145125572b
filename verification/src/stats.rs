use vstd::prelude::*;
use crate::errors::MusError;
use crate::ratio::{ceil_div_u128, spec_ceil_div};
use statrs::distribution::{ContinuousCDF, DiscreteCDF, Gamma, Hypergeometric};

verus! {

/// Whether the hypergeometric CDF `P[X <= q]` for a population of
/// `population` monetary units with `successes` wrong units and `draws`
/// draws lies at or below `alpha_ppm` parts per million.  The value is
/// whatever `statrs` computes; it depends on the arguments alone.
pub uninterp spec fn hyper_cdf_within(
    population: u64,
    successes: u64,
    draws: u64,
    q: u64,
    alpha_ppm: u32,
) -> bool;

/// Relies on `statrs::distribution::Hypergeometric::cdf`: compares the CDF at
/// `q` against `alpha_ppm` parts per million.  `Hypergeometric::new` only
/// rejects `successes > population` or `draws > population`, which the
/// preconditions rule out.
#[verifier::external_body]
fn hyper_cdf_at_most(
    population: u64,
    successes: u64,
    draws: u64,
    q: u64,
    alpha_ppm: u32,
) -> (r: bool)
    requires
        1 <= population,
        successes <= population,
        draws <= population,
        1 <= alpha_ppm,
    ensures
        r == hyper_cdf_within(population, successes, draws, q, alpha_ppm),
{
    let hg = Hypergeometric::new(population, successes, draws).unwrap();
    let million = Gamma::new(1_000_000u32.into(), 1u32.into()).unwrap().shape();
    let alpha = Gamma::new(alpha_ppm.into(), 1u32.into()).unwrap().shape();
    hg.cdf(q) * million <= alpha
}

/// The quantile of the Gamma distribution with shape `shape_micros` micro
/// units and rate one, taken at probability `p_ppm` parts per million, scaled
/// to micro units.  The value is whatever `statrs` computes; it depends on
/// the arguments alone.
pub uninterp spec fn gamma_quantile_scaled(shape_micros: u32, p_ppm: u32) -> u64;

/// Relies on `statrs::distribution::Gamma::inverse_cdf` with rate one.
/// `Gamma::new` only rejects a non-positive or non-finite shape or rate, and
/// `inverse_cdf` only panics on a probability outside `[0, 1]`; the
/// preconditions rule both out.
#[verifier::external_body]
fn gamma_quantile(shape_micros: u32, p_ppm: u32) -> (r: u64)
    requires
        1 <= shape_micros,
        0 < p_ppm < 1_000_000,
    ensures
        r == gamma_quantile_scaled(shape_micros, p_ppm),
{
    let million = Gamma::new(1_000_000u32.into(), 1u32.into()).unwrap().shape();
    let shape = Gamma::new(shape_micros.into(), 1u32.into()).unwrap().shape();
    let p = Gamma::new(p_ppm.into(), 1u32.into()).unwrap().shape();
    let g = Gamma::new(shape / million, 1u32.into()).unwrap();
    (g.inverse_cdf(p / million) * million) as u64
}

/// The first draw count in `[k, hi]` whose CDF test passes, or `hi` when
/// none does.
pub open spec fn spec_first_sat(
    population: u64,
    successes: u64,
    q: u64,
    alpha_ppm: u32,
    k: u64,
    hi: u64,
) -> u64
    decreases hi - k,
{
    if k >= hi {
        hi
    } else if hyper_cdf_within(population, successes, k, q, alpha_ppm) {
        k
    } else {
        spec_first_sat(population, successes, q, alpha_ppm, (k + 1) as u64, hi)
    }
}

proof fn lemma_first_sat_skip(
    population: u64,
    successes: u64,
    q: u64,
    alpha_ppm: u32,
    lo: u64,
    k: u64,
    hi: u64,
)
    requires
        lo <= k <= hi,
        forall|j: u64| lo <= j < k ==> !hyper_cdf_within(population, successes, j, q, alpha_ppm),
    ensures
        spec_first_sat(population, successes, q, alpha_ppm, lo, hi)
            == spec_first_sat(population, successes, q, alpha_ppm, k, hi),
    decreases k - lo,
{
    if lo < k {
        lemma_first_sat_skip(population, successes, q, alpha_ppm, (lo + 1) as u64, k, hi);
    }
}

/// The smallest number of monetary-unit draws `k <= hi` for which the
/// hypergeometric CDF test passes, where `hi = min(k_max, m + n_black)`;
/// falls back to `hi` when no draw count passes.  `m` is the number of wrong
/// units, `n_black` the number of good units.
fn min_draws_for_cdf_at_most_q(q: u64, alpha_ppm: u32, m: u64, n_black: u64, k_max: u64) -> (r: u64)
    requires
        1 <= m + n_black,
        m + n_black <= 0xffff_ffff_ffff_ffff,
        1 <= alpha_ppm,
    ensures
        r == spec_first_sat(
            (m + n_black) as u64, m, q, alpha_ppm, 0,
            if k_max <= m + n_black { k_max } else { (m + n_black) as u64 },
        ),
        r <= if k_max <= m + n_black { k_max } else { (m + n_black) as u64 },
{
    let n_total: u64 = m + n_black;
    let hi: u64 = if k_max <= n_total { k_max } else { n_total };
    let mut k: u64 = 0;
    while k < hi
        invariant
            k <= hi,
            hi <= n_total,
            n_total == m + n_black,
            1 <= n_total,
            1 <= alpha_ppm,
            hi == if k_max <= m + n_black { k_max } else { (m + n_black) as u64 },
            forall|j: u64| j < k ==> !hyper_cdf_within(n_total, m, j, q, alpha_ppm),
        decreases hi - k,
    {
        if hyper_cdf_at_most(n_total, m, k, q, alpha_ppm) {
            proof {
                lemma_first_sat_skip(n_total, m, q, alpha_ppm, 0, k, hi);
            }
            return k;
        }
        k = k + 1;
    }
    proof {
        lemma_first_sat_skip(n_total, m, q, alpha_ppm, 0, hi, hi);
    }
    hi
}

/// The next shape of the quantile fixed point, in micro units: one plus the
/// error ratio `ee / te` times the previous factor estimate, saturated at
/// `u32::MAX` micro units.
pub open spec fn spec_shape_next(ee: u64, te: u64, f_prev: u64) -> u32
    recommends
        1 <= te,
{
    let s = 1_000_000 + (ee * f_prev) / (te as int);
    if s <= u32::MAX {
        s as u32
    } else {
        u32::MAX
    }
}

fn shape_next(ee: u64, te: u64, f_prev: u64) -> (r: u32)
    requires
        1 <= te,
    ensures
        r == spec_shape_next(ee, te, f_prev),
{
    proof {
        assert(ee * f_prev <= 0xffff_ffff_ffff_ffff * 0xffff_ffff_ffff_ffff)
            by (nonlinear_arith)
            requires ee <= 0xffff_ffff_ffff_ffff && f_prev <= 0xffff_ffff_ffff_ffff
        ;
    }
    let s: u128 = 1_000_000 + (ee as u128 * f_prev as u128) / (te as u128);
    if s <= 0xffff_ffff {
        s as u32
    } else {
        0xffff_ffff
    }
}

/// The outcome of running the quantile fixed point for `iters` more rounds
/// from the estimate `f`: the factor in micro units once two successive
/// estimates agree to within one micro unit, or nothing when the budget runs
/// out first.
pub open spec fn spec_factor_iter(ee: u64, te: u64, conf_ppm: u32, f: u64, iters: nat) -> Option<u64>
    decreases iters,
{
    if iters == 0 {
        None
    } else {
        let f2 = gamma_quantile_scaled(spec_shape_next(ee, te, f), conf_ppm);
        if f2 <= f + 1 && f <= f2 + 1 {
            Some(f2)
        } else {
            spec_factor_iter(ee, te, conf_ppm, f2, (iters - 1) as nat)
        }
    }
}

/// The MUS confidence factor in micro units: the Gamma quantile at the
/// confidence level whose shape is the fixed point of
/// `shape = 1 + (ee / te) * factor`, seeded with shape one; direct when the
/// expected error is zero.
pub open spec fn spec_mus_factor(ee: u64, te: u64, conf_ppm: u32) -> Option<u64>
    recommends
        1 <= te,
{
    let f0 = gamma_quantile_scaled(1_000_000, conf_ppm);
    if ee == 0 {
        Some(f0)
    } else {
        spec_factor_iter(ee, te, conf_ppm, f0, 1000)
    }
}

/// Computes the MUS confidence factor by fixed-point iteration of the Gamma
/// quantile, converging when successive estimates agree to within one micro
/// unit, capped at one thousand rounds.
fn mus_factor(conf_ppm: u32, ee: u64, te: u64) -> (r: Result<u64, MusError>)
    requires
        0 < conf_ppm < 1_000_000,
        1 <= te,
    ensures
        ee >= te ==> (r matches Err(MusError::InvalidInput(m)) && m@ == "pct_ratio must be in [0,1)"@),
        ee < te ==> (match spec_mus_factor(ee, te, conf_ppm) {
            Some(f) => r matches Ok(v) && v == f,
            None => r matches Err(MusError::Calculation(m))
                && m@ == "MUS.factor iteration did not converge"@,
        }),
{
    if ee >= te {
        return Err(MusError::InvalidInput("pct_ratio must be in [0,1)".to_owned()));
    }
    let f0 = gamma_quantile(1_000_000, conf_ppm);
    if ee == 0 {
        return Ok(f0);
    }
    let mut f: u64 = f0;
    let mut i: u64 = 0;
    while i < 1000
        invariant
            i <= 1000,
            0 < conf_ppm < 1_000_000,
            1 <= te,
            0 < ee < te,
            f0 == gamma_quantile_scaled(1_000_000, conf_ppm),
            spec_factor_iter(ee, te, conf_ppm, f0, 1000)
                == spec_factor_iter(ee, te, conf_ppm, f, (1000 - i) as nat),
        decreases 1000 - i,
    {
        let shape = shape_next(ee, te, f);
        let f2 = gamma_quantile(shape, conf_ppm);
        let diff = if f2 >= f { f2 - f } else { f - f2 };
        proof {
            assert(spec_factor_iter(ee, te, conf_ppm, f, (1000 - i) as nat)
                == if f2 <= f + 1 && f <= f2 + 1 {
                    Some(f2)
                } else {
                    spec_factor_iter(ee, te, conf_ppm, f2, (1000 - i - 1) as nat)
                });
        }
        if diff <= 1 {
            return Ok(f2);
        }
        f = f2;
        i = i + 1;
    }
    Err(MusError::Calculation("MUS.factor iteration did not converge".to_owned()))
}

/// The conservative sample size: the confidence factor rounded up to the
/// next hundredth, divided by the tolerable error and scaled by the book
/// value, rounded up.
pub open spec fn spec_n_conservative(conf_ppm: u32, te: u64, ee: u64, bv: u64) -> Option<int>
    recommends
        1 <= te,
{
    match spec_mus_factor(ee, te, conf_ppm) {
        Some(f) => {
            let cf = spec_ceil_div(f as int, 10000) * 10000;
            Some(spec_ceil_div(cf * bv, te * 1_000_000))
        },
        None => None,
    }
}

/// The sample size of the conservative (Gamma quantile) sizing formula.
pub(crate) fn mus_calc_n_conservative(conf_ppm: u32, te: u64, ee: u64, bv: u64) -> (r: Result<
    usize,
    MusError,
>)
    requires
        0 < conf_ppm < 1_000_000,
        1 <= te,
        bv <= 0x8000_0000_0000,
    ensures
        ee >= te ==> (r matches Err(MusError::InvalidInput(m)) && m@ == "pct_ratio must be in [0,1)"@),
        ee < te ==> (match spec_n_conservative(conf_ppm, te, ee, bv) {
            Some(n) => r matches Ok(v) && v == if n <= usize::MAX { n } else { usize::MAX as int },
            None => r matches Err(MusError::Calculation(m))
                && m@ == "MUS.factor iteration did not converge"@,
        }),
{
    let f = match mus_factor(conf_ppm, ee, te) {
        Ok(f) => f,
        Err(e) => {
            return Err(e);
        },
    };
    let cf: u128 = ceil_div_u128(f as u128, 10000) * 10000;
    proof {
        let ff = f as int;
        vstd::arithmetic::div_mod::lemma_fundamental_div_mod(ff, 10000);
        assert(cf <= ff + 10000);
        assert(cf * bv <= 0x2_0000_0000_0000_0000 * 0x8000_0000_0000) by (nonlinear_arith)
            requires cf <= 0x2_0000_0000_0000_0000 && bv <= 0x8000_0000_0000
        ;
    }
    let n: u128 = ceil_div_u128(cf * (bv as u128), (te as u128) * 1_000_000);
    if n <= usize::MAX as u128 {
        Ok(n as usize)
    } else {
        Ok(usize::MAX)
    }
}

/// The draw count that `calculate_n_hyper` yields for an assumed error count
/// `q`: population `account_value` units of which `tolerable_error` may be
/// wrong, capped at `min(n_black + q, account_value)` draws.
pub open spec fn spec_n_hyper(q: u64, alpha_ppm: u32, tolerable_error: u64, account_value: u64) -> u64 {
    let n_black = (account_value - tolerable_error) as u64;
    let k_upper = if n_black + q <= account_value {
        (n_black + q) as u64
    } else {
        account_value
    };
    spec_first_sat(account_value, tolerable_error, q, alpha_ppm, 0, k_upper)
}

/// The number of monetary units that must be drawn so that observing at most
/// `q` wrong units keeps the risk of accepting a misstatement of
/// `tolerable_error` units at or below `alpha_ppm` parts per million.
pub(crate) fn calculate_n_hyper(q: u64, alpha_ppm: u32, tolerable_error: u64, account_value: u64) -> (r: u64)
    requires
        1 <= account_value,
        tolerable_error <= account_value,
        q <= 0x1_0000_0000,
        account_value <= 0x8000_0000_0000,
        1 <= alpha_ppm,
    ensures
        r == spec_n_hyper(q, alpha_ppm, tolerable_error, account_value),
        r <= account_value,
{
    let n_black: u64 = account_value - tolerable_error;
    let k_upper: u64 = if n_black + q <= account_value { n_black + q } else { account_value };
    min_draws_for_cdf_at_most_q(q, alpha_ppm, tolerable_error, n_black, k_upper)
}

} // verus!
