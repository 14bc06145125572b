use vstd::prelude::*;
use crate::errors::MusError;
use crate::ratio::{ExtRatio, Ratio};

verus! {

/// Advisory conditions observed while planning; none aborts the call.
#[derive(Debug, Clone, Copy, PartialEq, Eq, Structural)]
pub enum PlanWarning {
    /// Some book values are zero; they have no chance of selection.
    ZeroValues,
    /// Some book values are negative; they count as zero.
    NegativeValues,
    /// The parameter combination implies an impractically large sample.
    LargeSampleImplied,
    /// The tolerable error covers the whole book value; no sampling needed.
    NoSamplingNecessary,
    /// The computed sample would exceed the population; audit everything.
    AuditEverything,
}

/// Caller-supplied planning parameters.
///
/// Monetary amounts are whole monetary units.  The confidence level is in
/// parts per million.  With `errors_as_pct` set, `tolerable_error` and
/// `expected_error` are parts per million of the total book value instead of
/// absolute amounts.  `None` for an error bound means it was never resolved.
#[derive(Debug, Clone)]
pub struct PlanningOptions {
    pub col_name_book_values: String,
    pub confidence_ppm: u32,
    pub tolerable_error: Option<u64>,
    pub expected_error: Option<u64>,
    pub n_min: usize,
    pub errors_as_pct: bool,
    pub conservative: bool,
    pub combined: bool,
}

impl Default for PlanningOptions {
    /// Ninety percent confidence, unresolved error bounds, no floor.
    fn default() -> (r: Self)
        ensures
            r.col_name_book_values@ == "book.value"@,
            r.confidence_ppm == 900_000,
            r.tolerable_error is None,
            r.expected_error is None,
            r.n_min == 0,
            !r.errors_as_pct,
            !r.conservative,
            !r.combined,
    {
        PlanningOptions {
            col_name_book_values: "book.value".to_owned(),
            confidence_ppm: 900_000,
            tolerable_error: None,
            expected_error: None,
            n_min: 0,
            errors_as_pct: false,
            conservative: false,
            combined: false,
        }
    }
}

/// The outcome of planning: the population, the resolved parameters, the
/// sample size, and the derived bounds.
#[derive(Debug, Clone)]
pub struct Plan {
    /// The book values, unchanged; negative values count as zero.
    pub data: Vec<i64>,
    pub col_name_book_values: String,
    pub confidence_ppm: u32,
    /// Resolved tolerable error, whole monetary units.
    pub tolerable_error: u64,
    /// Resolved expected error, whole monetary units.
    pub expected_error: u64,
    /// Sum of the non-negative book values.
    pub book_value: u64,
    /// Required sample size.
    pub n: usize,
    /// `book_value / n`; infinite exactly when `n == 0`.
    pub high_value_threshold: ExtRatio,
    /// `expected_error / book_value * n`; zero when the book value is zero.
    pub tolerable_taintings: Ratio,
    pub combined: bool,
    /// Advisory conditions, in the order they were observed.
    pub warnings: Vec<PlanWarning>,
}

impl Plan {
    /// Structural soundness: the stored book value is the sum of the
    /// non-negative data, within the bounds the arithmetic relies on, and the
    /// threshold is `book_value / n`, infinite exactly when `n == 0`.
    pub open spec fn wf(self) -> bool {
        &&& self.book_value == sum_nonneg(self.data@)
        &&& self.book_value <= 0x8000_0000_0000
        &&& self.data@.len() <= 0x100_0000
        &&& match self.high_value_threshold {
            ExtRatio::Finite(r) => self.n > 0 && r.num == self.book_value && r.den == self.n,
            ExtRatio::Infinite => self.n == 0,
        }
    }
}

/// The sum of the non-negative entries: negative book values count as zero.
pub open spec fn sum_nonneg(s: Seq<i64>) -> int
    decreases s.len(),
{
    if s.len() == 0 {
        0
    } else {
        sum_nonneg(s.drop_last()) + if s.last() >= 0 {
            s.last() as int
        } else {
            0
        }
    }
}

pub proof fn lemma_sum_nonneg_take_step(s: Seq<i64>, i: int)
    requires
        0 <= i < s.len(),
    ensures
        sum_nonneg(s.take(i + 1)) == sum_nonneg(s.take(i)) + if s[i] >= 0 {
            s[i] as int
        } else {
            0
        },
        sum_nonneg(s.take(i)) >= 0,
    decreases i,
{
    let t = s.take(i + 1);
    assert(t.drop_last() =~= s.take(i));
    assert(t.last() == s[i]);
    if i > 0 {
        lemma_sum_nonneg_take_step(s, i - 1);
    } else {
        assert(s.take(0).len() == 0);
    }
}

pub proof fn lemma_sum_nonneg_take_le(s: Seq<i64>, i: int)
    requires
        0 <= i <= s.len(),
    ensures
        sum_nonneg(s.take(i)) <= sum_nonneg(s),
        sum_nonneg(s) >= 0,
    decreases s.len() - i,
{
    if i == s.len() {
        assert(s.take(i) =~= s);
        if s.len() == 0 {
        } else {
            lemma_sum_nonneg_take_step(s, s.len() - 1);
            assert(s.take(s.len() as int) =~= s);
        }
    } else {
        lemma_sum_nonneg_take_step(s, i);
        lemma_sum_nonneg_take_le(s, i + 1);
    }
}

/// Sums the non-negative book values.
fn sum_nonneg_exec(values: &Vec<i64>) -> (r: u64)
    requires
        sum_nonneg(values@) <= u64::MAX,
    ensures
        r == sum_nonneg(values@),
{
    let mut acc: u64 = 0;
    let n = values.len();
    for i in 0..n
        invariant
            n == values@.len(),
            sum_nonneg(values@) <= u64::MAX,
            acc == sum_nonneg(values@.take(i as int)),
    {
        proof {
            lemma_sum_nonneg_take_step(values@, i as int);
            lemma_sum_nonneg_take_le(values@, i + 1);
        }
        let v = values[i];
        if v >= 0 {
            acc = acc + (v as u64);
        }
    }
    proof {
        assert(values@.take(n as int) =~= values@);
    }
    acc
}

/// The integer square root: the largest `r` with `r * r <= x`.
pub open spec fn isqrt_spec(x: int) -> int {
    choose|r: int| 0 <= r && #[trigger] (r * r) <= x && x < (r + 1) * (r + 1)
}

proof fn lemma_isqrt_unique(x: int, a: int, b: int)
    requires
        0 <= a && a * a <= x && x < (a + 1) * (a + 1),
        0 <= b && b * b <= x && x < (b + 1) * (b + 1),
    ensures
        a == b,
{
    assert(a == b) by (nonlinear_arith)
        requires
            0 <= a && a * a <= x && x < (a + 1) * (a + 1),
            0 <= b && b * b <= x && x < (b + 1) * (b + 1),
    ;
}

/// Computes the integer square root by binary search.
fn isqrt64(x: u64) -> (r: u64)
    ensures
        r == isqrt_spec(x as int),
        r * r <= x < (r + 1) * (r + 1),
        r <= 0x1_0000_0000,
{
    let mut lo: u64 = 0;
    let mut hi: u64 = 0x1_0000_0000;
    proof {
        assert((0x1_0000_0000u64 + 1) * (0x1_0000_0000u64 + 1) > x as int) by (nonlinear_arith)
            requires x <= 0xffff_ffff_ffff_ffffu64
        ;
    }
    while lo < hi
        invariant
            lo <= hi,
            lo * lo <= x,
            (x as int) < (hi + 1) * (hi + 1),
            hi <= 0x1_0000_0000,
        decreases hi - lo,
    {
        let mid: u64 = lo + (hi - lo + 1) / 2;
        proof {
            assert((mid as u128) * (mid as u128) <= 0x1_0000_0000u128 * 0x1_0000_0000u128)
                by (nonlinear_arith)
                requires mid <= 0x1_0000_0000u64
            ;
        }
        let sq: u128 = (mid as u128) * (mid as u128);
        if sq <= x as u128 {
            lo = mid;
        } else {
            proof {
                assert((x as int) < (mid - 1 + 1) * (mid - 1 + 1) || mid * mid <= x)
                    by (nonlinear_arith)
                    requires (x as int) < (mid as int) * (mid as int) || mid * mid <= x
                ;
            }
            hi = mid - 1;
        }
    }
    proof {
        assert(lo == isqrt_spec(x as int)) by {
            assert(0 <= lo && lo * lo <= x && (x as int) < (lo + 1) * (lo + 1));
            let w = isqrt_spec(x as int);
            lemma_isqrt_unique(x as int, lo as int, w);
        }
    }
    lo
}

/// Whether both error bounds are given as parts per million of book value.
pub open spec fn pct_mode(o: PlanningOptions) -> bool {
    o.errors_as_pct && o.tolerable_error is Some && o.expected_error is Some
}

/// The tolerable error in monetary units after percentage resolution.
pub open spec fn spec_resolved_te(bv: int, o: PlanningOptions) -> Option<u64> {
    if pct_mode(o) {
        Some(((o.tolerable_error->Some_0) * bv / 1_000_000) as u64)
    } else {
        o.tolerable_error
    }
}

/// The expected error in monetary units after percentage resolution.
pub open spec fn spec_resolved_ee(bv: int, o: PlanningOptions) -> Option<u64> {
    if pct_mode(o) {
        Some(((o.expected_error->Some_0) * bv / 1_000_000) as u64)
    } else {
        o.expected_error
    }
}

/// The acceptable risk in parts per million: one minus the confidence level.
pub open spec fn spec_alpha(o: PlanningOptions) -> u32
    recommends
        o.confidence_ppm < 1_000_000,
{
    (1_000_000 - o.confidence_ppm) as u32
}

/// Whether the parameter combination implies an impractically large sample:
/// the error-rate margin times the risk times the root of the error spread
/// falls below seven hundredths.
pub open spec fn spec_warn_large(te: u64, ee: u64, alpha_ppm: u32, bv: u64) -> bool {
    ee <= te && te * alpha_ppm * isqrt_spec(te - ee) < 70_000 * bv
}

/// Whether assuming `i` wrong units already covers the implied error rate:
/// the draws needed for `i` errors, scaled by the expected error rate, stay
/// at or below `i`.
pub open spec fn spec_crosses(i: u64, alpha: u32, te: u64, ee: u64, bv: u64) -> bool {
    crate::stats::spec_n_hyper(i, alpha, te, bv) * ee <= i * bv
}

/// The first assumed error count at or above `i` that crosses, or `len`.
pub open spec fn spec_crossing(len: u64, alpha: u32, te: u64, ee: u64, bv: u64, i: u64) -> u64
    decreases len - i,
{
    if i >= len {
        len
    } else if spec_crosses(i, alpha, te, ee, bv) {
        i
    } else {
        spec_crossing(len, alpha, te, ee, bv, (i + 1) as u64)
    }
}

proof fn lemma_crossing_skip(len: u64, alpha: u32, te: u64, ee: u64, bv: u64, lo: u64, k: u64)
    requires
        lo <= k <= len,
        forall|j: u64| lo <= j < k ==> !spec_crosses(j, alpha, te, ee, bv),
    ensures
        spec_crossing(len, alpha, te, ee, bv, lo) == spec_crossing(len, alpha, te, ee, bv, k),
    decreases k - lo,
{
    if lo < k {
        lemma_crossing_skip(len, alpha, te, ee, bv, (lo + 1) as u64, k);
    }
}

/// The optimal sample size before floors: `Ok((n, audit))` where `audit`
/// records the "audit everything" clamp, or the calculation failure message.
pub open spec fn spec_n_optimal(len: u64, alpha: u32, te: u64, ee: u64, bv: u64) -> Result<
    (int, bool),
    Seq<char>,
>
    recommends
        1 <= te,
        1 <= len,
{
    let n0 = crate::stats::spec_n_hyper(0, alpha, te, bv) as int;
    if te >= bv {
        Ok((0, false))
    } else if n0 < 1 {
        Err("Undefined: if 0 errors occur, sample size must be positive"@)
    } else if !spec_crosses(len, alpha, te, ee, bv) {
        Ok((len as int, true))
    } else if ee == 0 {
        Ok((crate::ratio::spec_sat_usize(n0), false))
    } else {
        let i = spec_crossing(len, alpha, te, ee, bv, 0);
        if i == 0 {
            Ok((crate::ratio::spec_sat_usize(n0), false))
        } else {
            let ni = crate::stats::spec_n_hyper((i - 1) as u64, alpha, te, bv) as int;
            let nip1 = crate::stats::spec_n_hyper(i, alpha, te, bv) as int;
            let d = nip1 - ni;
            if d < 0 || (d > 0 && bv <= ee * d) {
                Err("denominator non-positive in interpolation"@)
            } else if d == 0 {
                Err("n.optimal not plausible"@)
            } else {
                let q = crate::ratio::spec_ceil_div(ni * bv - (i - 1) * d * bv, bv - ee * d);
                let nopt = if q < 0 {
                    0
                } else {
                    q
                };
                if nopt > len {
                    Ok((len as int, true))
                } else if nopt == nip1 + 1 {
                    Ok((crate::ratio::spec_sat_usize(nip1), false))
                } else if nopt < ni || nopt > nip1 {
                    Err("n.optimal not plausible"@)
                } else {
                    Ok((crate::ratio::spec_sat_usize(nopt), false))
                }
            }
        }
    }
}

/// The planning failure, if any: `Some((invalid_input, message))`, with
/// `invalid_input` telling the error variant apart, in the order the checks
/// run; `None` means planning succeeds.
pub open spec fn spec_plan_error(values: Seq<i64>, o: PlanningOptions) -> Option<(bool, Seq<char>)> {
    let bv = sum_nonneg(values);
    let te_res = spec_resolved_te(bv, o);
    let ee_res = spec_resolved_ee(bv, o);
    if values.len() == 0 {
        Some((true, "data must contain at least one item"@))
    } else if !(0 < o.confidence_ppm < 1_000_000) {
        Some((true, "confidence.level must be in (0,1)"@))
    } else if te_res is None || te_res->Some_0 == 0 {
        Some((true, "tolerable.error must be > 0"@))
    } else if ee_res is None {
        Some((true, "expected.error must be >= 0"@))
    } else if o.n_min >= values.len() {
        Some((true, "n.min must be < number of items"@))
    } else {
        let te = te_res->Some_0;
        let ee = ee_res->Some_0;
        match spec_n_optimal(values.len() as u64, spec_alpha(o), te, ee, bv as u64) {
            Err(m) => Some((false, m)),
            Ok(_) => if o.conservative {
                if ee >= te {
                    Some((true, "pct_ratio must be in [0,1)"@))
                } else {
                    match crate::stats::spec_n_conservative(o.confidence_ppm, te, ee, bv as u64) {
                        Some(_) => None,
                        None => Some((false, "MUS.factor iteration did not converge"@)),
                    }
                }
            } else {
                None
            },
        }
    }
}

/// The final sample size of a successful planning call: the optimal size,
/// raised to the floor and, in conservative mode, to the conservative size.
pub open spec fn spec_plan_n(values: Seq<i64>, o: PlanningOptions) -> int
    recommends
        spec_plan_error(values, o) is None,
{
    let bv = sum_nonneg(values);
    let te = spec_resolved_te(bv, o)->Some_0;
    let ee = spec_resolved_ee(bv, o)->Some_0;
    let nopt = (spec_n_optimal(values.len() as u64, spec_alpha(o), te, ee, bv as u64)->Ok_0).0;
    let floored = if nopt >= o.n_min {
        nopt
    } else {
        o.n_min as int
    };
    if o.conservative {
        let nc = crate::stats::spec_n_conservative(o.confidence_ppm, te, ee, bv as u64)->Some_0;
        let nc_sat = if nc <= usize::MAX {
            nc
        } else {
            usize::MAX as int
        };
        if floored >= nc_sat {
            floored
        } else {
            nc_sat
        }
    } else {
        floored
    }
}

/// The advisory warnings of a successful planning call, in order of
/// observation.
pub open spec fn spec_plan_warnings(values: Seq<i64>, o: PlanningOptions) -> Seq<PlanWarning>
    recommends
        spec_plan_error(values, o) is None,
{
    let bv = sum_nonneg(values);
    let te = spec_resolved_te(bv, o)->Some_0;
    let ee = spec_resolved_ee(bv, o)->Some_0;
    let zeros: Seq<PlanWarning> = if exists|k: int| 0 <= k < values.len() && values[k] == 0 {
        seq![PlanWarning::ZeroValues]
    } else {
        seq![]
    };
    let negs: Seq<PlanWarning> = if exists|k: int| 0 <= k < values.len() && values[k] < 0 {
        seq![PlanWarning::NegativeValues]
    } else {
        seq![]
    };
    let large: Seq<PlanWarning> = if spec_warn_large(te, ee, spec_alpha(o), bv as u64) {
        seq![PlanWarning::LargeSampleImplied]
    } else {
        seq![]
    };
    let tail: Seq<PlanWarning> = if te >= bv {
        seq![PlanWarning::NoSamplingNecessary]
    } else {
        match spec_n_optimal(values.len() as u64, spec_alpha(o), te, ee, bv as u64) {
            Ok((n, audit)) => if audit {
                seq![PlanWarning::AuditEverything]
            } else {
                seq![]
            },
            Err(_) => seq![],
        }
    };
    zeros + negs + large + tail
}

/// Computes the optimal sample size before floors, together with the flag
/// that records the audit-everything clamp.
#[verifier::rlimit(100)]
fn optimal_size(num_items: usize, alpha: u32, te: u64, ee: u64, bv: u64) -> (r: Result<
    (usize, bool),
    MusError,
>)
    requires
        1 <= num_items <= 0x100_0000,
        1 <= te,
        bv <= 0x8000_0000_0000,
        ee <= 0x8000_0000_0000,
        1 <= alpha,
    ensures
        (match spec_n_optimal(num_items as u64, alpha, te, ee, bv) {
            Ok((n, a)) => r matches Ok(p) && p.0 == n && p.1 == a,
            Err(m) => r matches Err(MusError::Calculation(mm)) && mm@ == m,
        }),
{
    let ghost spec_opt = spec_n_optimal(num_items as u64, alpha, te, ee, bv);
    let len64: u64 = num_items as u64;
    if te >= bv {
        proof {
            assert(spec_opt == Ok::<(int, bool), Seq<char>>((0int, false)));
        }
        return Ok((0, false));
    } else {
        let n0 = crate::stats::calculate_n_hyper(0, alpha, te, bv);
        if n0 < 1 {
            return Err(MusError::Calculation(
                "Undefined: if 0 errors occur, sample size must be positive".to_owned()));
        }
        let nlen = crate::stats::calculate_n_hyper(len64, alpha, te, bv);
        proof {
            assert((nlen as u128) * (ee as u128) <= 0x4000_0000_0000_0000_0000_0000u128)
                by (nonlinear_arith)
                requires nlen <= 0x8000_0000_0000u64 && ee <= 0x8000_0000_0000u64
            ;
        }
        proof {
            vstd::arithmetic::mul::lemma_mul_upper_bound(
                len64 as int, 0x100_0000, bv as int, 0x8000_0000_0000);
        }
        if (nlen as u128) * (ee as u128) > (len64 as u128) * (bv as u128) {
            proof {
                assert(spec_opt == Ok::<(int, bool), Seq<char>>((num_items as int, true)));
            }
            return Ok((num_items, true));
        } else if ee == 0 {
            proof {
                assert(spec_opt == Ok::<(int, bool), Seq<char>>(
                    (crate::ratio::spec_sat_usize(n0 as int), false)));
            }
            return Ok((crate::ratio::sat_usize(n0), false));
        } else {
            let mut i: u64 = 0;
            loop
                invariant_except_break
                    i <= len64,
                    forall|j: u64| j < i ==> !spec_crosses(j, alpha, te, ee, bv),
                    spec_crosses(len64, alpha, te, ee, bv),
                    0 < te < bv <= 0x8000_0000_0000,
                    1 <= alpha,
                    len64 <= 0x100_0000,
                    ee <= 0x8000_0000_0000,
                ensures
                    i <= len64,
                    spec_crosses(i, alpha, te, ee, bv),
                    forall|j: u64| j < i ==> !spec_crosses(j, alpha, te, ee, bv),
                    0 < te < bv <= 0x8000_0000_0000,
                    1 <= alpha,
                    len64 <= 0x100_0000,
                    ee <= 0x8000_0000_0000,
                decreases len64 - i,
            {
                let nh = crate::stats::calculate_n_hyper(i, alpha, te, bv);
                proof {
                    assert((nh as u128) * (ee as u128) <= 0x4000_0000_0000_0000_0000_0000u128)
                        by (nonlinear_arith)
                        requires nh <= 0x8000_0000_0000u64 && ee <= 0x8000_0000_0000u64
                    ;
                }
                proof {
                    vstd::arithmetic::mul::lemma_mul_upper_bound(
                        i as int, 0x100_0000, bv as int, 0x8000_0000_0000);
                }
                if (nh as u128) * (ee as u128) <= (i as u128) * (bv as u128) {
                    break;
                }
                i = i + 1;
            }
            proof {
                lemma_crossing_skip(len64, alpha, te, ee, bv, 0, i);
                assert(i == spec_crossing(len64, alpha, te, ee, bv, 0));
            }
            if i == 0 {
                proof {
                    assert(spec_opt == Ok::<(int, bool), Seq<char>>(
                        (crate::ratio::spec_sat_usize(n0 as int), false)));
                }
                return Ok((crate::ratio::sat_usize(n0), false));
            } else {
                let ni = crate::stats::calculate_n_hyper(i - 1, alpha, te, bv);
                let nip1 = crate::stats::calculate_n_hyper(i, alpha, te, bv);
                if nip1 < ni {
                    return Err(MusError::Calculation(
                        "denominator non-positive in interpolation".to_owned()));
                }
                if nip1 == ni {
                    return Err(MusError::Calculation("n.optimal not plausible".to_owned()));
                }
                let d: u64 = nip1 - ni;
                proof {
                    assert((ee as u128) * (d as u128) <= 0x8000_0000_0000u128 * 0x8000_0000_0000u128)
                        by (nonlinear_arith)
                        requires ee <= 0x8000_0000_0000u64 && d <= 0x8000_0000_0000u64
                    ;
                }
                if (bv as u128) <= (ee as u128) * (d as u128) {
                    return Err(MusError::Calculation(
                        "denominator non-positive in interpolation".to_owned()));
                }
                proof {
                    assert((ni as i128) * (bv as i128) <= 0x8000_0000_0000i128 * 0x8000_0000_0000i128
                        && ((i - 1) as i128) * (d as i128) * (bv as i128)
                            <= 0x100_0000i128 * 0x8000_0000_0000i128 * 0x8000_0000_0000i128
                        && (ee as i128) * (d as i128) <= 0x8000_0000_0000i128 * 0x8000_0000_0000i128
                        && ((i - 1) as i128) * (d as i128) >= 0
                        && ((i - 1) as i128) * (d as i128) * (bv as i128) >= 0)
                        by (nonlinear_arith)
                        requires
                            ni <= 0x8000_0000_0000u64,
                            bv <= 0x8000_0000_0000u64,
                            1 <= i <= 0x100_0000u64,
                            d <= 0x8000_0000_0000u64,
                            ee <= 0x8000_0000_0000u64,
                    ;
                }
                proof {
                    vstd::arithmetic::mul::lemma_mul_upper_bound(
                        ni as int, 0x8000_0000_0000, bv as int, 0x8000_0000_0000);
                    vstd::arithmetic::mul::lemma_mul_upper_bound(
                        (i - 1) as int, 0x100_0000, d as int, 0x8000_0000_0000);
                    vstd::arithmetic::mul::lemma_mul_upper_bound(
                        ee as int, 0x8000_0000_0000, d as int, 0x8000_0000_0000);
                }
                let t: i128 = ((i - 1) as i128) * (d as i128);
                proof {
                    vstd::arithmetic::mul::lemma_mul_upper_bound(
                        t as int, (0x100_0000 * 0x8000_0000_0000) as int,
                        bv as int, 0x8000_0000_0000);
                }
                let nu: i128 = (ni as i128) * (bv as i128) - t * (bv as i128);
                let dd: i128 = (bv as i128) - (ee as i128) * (d as i128);
                let q = crate::ratio::ceil_div_i128(nu, dd);
                let nopt_c: i128 = if q < 0 { 0 } else { q };
                proof {
                    assert(0 <= nopt_c);
                }
                if nopt_c > len64 as i128 {
                    proof {
                        assert(spec_opt == Ok::<(int, bool), Seq<char>>((num_items as int, true)));
                    }
                    return Ok((num_items, true));
                } else if nopt_c == nip1 as i128 + 1 {
                    proof {
                        assert(spec_opt == Ok::<(int, bool), Seq<char>>(
                            (crate::ratio::spec_sat_usize(nip1 as int), false)));
                    }
                    return Ok((crate::ratio::sat_usize(nip1), false));
                } else if nopt_c < ni as i128 || nopt_c > nip1 as i128 {
                    return Err(MusError::Calculation("n.optimal not plausible".to_owned()));
                } else {
                    proof {
                        assert(nopt_c <= nip1 as i128);
                        assert(spec_opt == Ok::<(int, bool), Seq<char>>(
                            (crate::ratio::spec_sat_usize(nopt_c as int), false)));
                    }
                    return Ok((crate::ratio::sat_usize(nopt_c as u64), false));
                }
            }
        }
    }
}

/// Plans a monetary unit sample: validates the inputs, searches the
/// hypergeometric model for the optimal sample size, applies the configured
/// floors, and derives the high-value threshold and tainting bound.
///
/// The bounds demanded of the inputs are what the exact integer arithmetic
/// needs to stay within machine words.
#[verifier::rlimit(100)]
pub fn mus_planning(book_values: &Vec<i64>, opts: PlanningOptions) -> (r: Result<Plan, MusError>)
    requires
        book_values@.len() <= 0x100_0000,
        sum_nonneg(book_values@) <= 0x8000_0000_0000,
        pct_mode(opts) ==> opts.tolerable_error->Some_0 <= 1_000_000_000
            && opts.expected_error->Some_0 <= 1_000_000,
        !pct_mode(opts) && opts.expected_error is Some ==> opts.expected_error->Some_0
            <= 0x8000_0000_0000,
    ensures
        (match spec_plan_error(book_values@, opts) {
            Some((invalid, msg)) => (match r {
                Err(MusError::InvalidInput(m)) => invalid && m@ == msg,
                Err(MusError::Calculation(m)) => !invalid && m@ == msg,
                Ok(_) => false,
            }),
            None => (match r {
                Ok(p) => {
                    &&& p.wf()
                    &&& p.data@ == book_values@
                    &&& p.col_name_book_values@ == opts.col_name_book_values@
                    &&& p.confidence_ppm == opts.confidence_ppm
                    &&& p.book_value == sum_nonneg(book_values@)
                    &&& p.tolerable_error == spec_resolved_te(sum_nonneg(book_values@), opts)->Some_0
                    &&& p.expected_error == spec_resolved_ee(sum_nonneg(book_values@), opts)->Some_0
                    &&& p.n == spec_plan_n(book_values@, opts)
                    &&& p.combined == opts.combined
                    &&& p.warnings@ == spec_plan_warnings(book_values@, opts)
                    &&& (p.book_value == 0 ==> p.tolerable_taintings == (Ratio { num: 0, den: 1 }))
                    &&& (p.book_value > 0 ==> p.tolerable_taintings == (Ratio {
                        num: (p.expected_error * p.n) as i128,
                        den: p.book_value,
                    }))
                },
                Err(_) => false,
            }),
        }),
{
    let ghost vs = book_values@;
    let num_items = book_values.len();
    if num_items == 0 {
        return Err(MusError::InvalidInput("data must contain at least one item".to_owned()));
    }
    if !(opts.confidence_ppm > 0 && opts.confidence_ppm < 1_000_000) {
        return Err(MusError::InvalidInput("confidence.level must be in (0,1)".to_owned()));
    }
    let mut has_zero = false;
    let mut has_negative = false;
    for idx in 0..num_items
        invariant
            num_items == vs.len(),
            vs == book_values@,
            has_zero == exists|k: int| 0 <= k < idx && vs[k] == 0,
            has_negative == exists|k: int| 0 <= k < idx && vs[k] < 0,
    {
        let v = book_values[idx];
        if v == 0 {
            has_zero = true;
        }
        if v < 0 {
            has_negative = true;
        }
    }
    let bv = sum_nonneg_exec(book_values);
    proof {
        lemma_sum_nonneg_take_le(vs, 0);
    }

    // Resolve percentage-based error bounds against the book value.
    let te_res: Option<u64>;
    let ee_res: Option<u64>;
    if opts.errors_as_pct && opts.tolerable_error.is_some() && opts.expected_error.is_some() {
        let tp = *opts.tolerable_error.as_ref().unwrap();
        let ep = *opts.expected_error.as_ref().unwrap();
        proof {
            assert(tp * bv <= 1_000_000_000 * 0x8000_0000_0000) by (nonlinear_arith)
                requires tp <= 1_000_000_000 && bv <= 0x8000_0000_0000
            ;
            assert(ep * bv <= 1_000_000 * 0x8000_0000_0000) by (nonlinear_arith)
                requires ep <= 1_000_000 && bv <= 0x8000_0000_0000
            ;
            vstd::arithmetic::div_mod::lemma_div_is_ordered(
                (tp * bv) as int, (1_000_000_000 * 0x8000_0000_0000) as int, 1_000_000);
            vstd::arithmetic::div_mod::lemma_div_is_ordered(
                (ep * bv) as int, (1_000_000 * 0x8000_0000_0000) as int, 1_000_000);
        }
        te_res = Some(((tp as u128) * (bv as u128) / 1_000_000) as u64);
        ee_res = Some(((ep as u128) * (bv as u128) / 1_000_000) as u64);
    } else {
        te_res = opts.tolerable_error;
        ee_res = opts.expected_error;
    }

    let te: u64 = match te_res {
        Some(t) => {
            if t == 0 {
                return Err(MusError::InvalidInput("tolerable.error must be > 0".to_owned()));
            }
            t
        },
        None => {
            return Err(MusError::InvalidInput("tolerable.error must be > 0".to_owned()));
        },
    };
    let ee: u64 = match ee_res {
        Some(e) => e,
        None => {
            return Err(MusError::InvalidInput("expected.error must be >= 0".to_owned()));
        },
    };
    if opts.n_min >= num_items {
        return Err(MusError::InvalidInput("n.min must be < number of items".to_owned()));
    }
    proof {
        assert(ee <= 0x8000_0000_0000);
    }
    let alpha: u32 = 1_000_000 - opts.confidence_ppm;

    let w_large: bool;
    if ee <= te {
        let s = isqrt64(te - ee);
        proof {
            vstd::arithmetic::mul::lemma_mul_upper_bound(
                te as int, u64::MAX as int, alpha as int, 1_000_000);
        }
        let t1: u128 = (te as u128) * (alpha as u128);
        proof {
            vstd::arithmetic::mul::lemma_mul_upper_bound(
                t1 as int, (u64::MAX as int) * 1_000_000, s as int, 0x1_0000_0000);
        }
        let t2: u128 = t1 * (s as u128);
        w_large = t2 < 70_000u128 * (bv as u128);
    } else {
        w_large = false;
    }
    proof {
        assert(w_large == spec_warn_large(te, ee, alpha, bv));
    }

    let pair = match optimal_size(num_items, alpha, te, ee, bv) {
        Ok(p) => p,
        Err(e) => {
            return Err(e);
        },
    };
    let n_opt: usize = pair.0;
    let audit: bool = pair.1;

    let mut n_final: usize = if n_opt >= opts.n_min {
        n_opt
    } else {
        opts.n_min
    };
    if opts.conservative {
        match crate::stats::mus_calc_n_conservative(opts.confidence_ppm, te, ee, bv) {
            Ok(nc) => {
                if nc > n_final {
                    n_final = nc;
                }
            },
            Err(e) => {
                return Err(e);
            },
        }
    }

    let threshold = if n_final == 0 {
        ExtRatio::Infinite
    } else {
        ExtRatio::Finite(Ratio { num: bv as i128, den: n_final as u64 })
    };
    let taint = if bv == 0 {
        Ratio { num: 0, den: 1 }
    } else {
        proof {
            assert((ee as i128) * (n_final as i128)
                <= 0x8000_0000_0000i128 * 0xffff_ffff_ffff_ffffi128) by (nonlinear_arith)
                requires ee <= 0x8000_0000_0000u64 && n_final <= usize::MAX
            ;
        }
        Ratio { num: (ee as i128) * (n_final as i128), den: bv }
    };

    let mut warnings: Vec<PlanWarning> = Vec::new();
    if has_zero {
        warnings.push(PlanWarning::ZeroValues);
    }
    if has_negative {
        warnings.push(PlanWarning::NegativeValues);
    }
    if w_large {
        warnings.push(PlanWarning::LargeSampleImplied);
    }
    if te >= bv {
        warnings.push(PlanWarning::NoSamplingNecessary);
    } else if audit {
        warnings.push(PlanWarning::AuditEverything);
    }
    proof {
        assert(warnings@ =~= spec_plan_warnings(vs, opts));
    }

    let plan = Plan {
        data: book_values.clone(),
        col_name_book_values: opts.col_name_book_values,
        confidence_ppm: opts.confidence_ppm,
        tolerable_error: te,
        expected_error: ee,
        book_value: bv,
        n: n_final,
        high_value_threshold: threshold,
        tolerable_taintings: taint,
        combined: opts.combined,
        warnings,
    };
    proof {
        assert(plan.data@ =~= vs);
    }
    Ok(plan)
}

} // verus!
