use vstd::prelude::*;
use crate::errors::MusError;
use crate::planning::{sum_nonneg, Plan};
use crate::ratio::{spec_round_half_even, ExtRatio, Ratio};
use crate::rng::uniform_unit;

verus! {

/// Caller-supplied extraction parameters.  The start point, when given, is
/// in hundredths of a monetary unit and must lie within the sampling
/// interval.
#[derive(Debug, Clone, Copy)]
pub struct ExtractionOptions {
    pub start_point: Option<u64>,
    pub seed: Option<u64>,
    pub obey_n_as_min: bool,
    pub combined: bool,
}

impl Default for ExtractionOptions {
    /// A random start point, no fixed seed, plain partition.
    fn default() -> (r: Self)
        ensures
            r.start_point is None,
            r.seed is None,
            !r.obey_n_as_min,
            !r.combined,
    {
        ExtractionOptions { start_point: None, seed: None, obey_n_as_min: false, combined: false }
    }
}

/// One selected item: its book value, the monetary unit that hit it, and the
/// cumulative monetary-unit range it covers.
#[derive(Debug, Clone, Copy, PartialEq, Eq, Structural)]
pub struct ExtractedItem {
    pub book_value: i64,
    pub mus_hit: u64,
    pub cum_before: u64,
    pub cum_after: u64,
}

/// The outcome of extraction: the partition into certain and sampled items,
/// the resolved start point, and the ordered selection.
#[derive(Debug, Clone)]
pub struct Extraction {
    pub plan: Plan,
    /// Resolved start point, hundredths of a monetary unit.
    pub start_point: u64,
    pub seed: Option<u64>,
    pub obey_n_as_min: bool,
    /// Items at or above the threshold, audited with certainty.
    pub high_values: Vec<i64>,
    /// The remaining items, each with its cumulative monetary-unit count.
    pub sample_population: Vec<(i64, u64)>,
    /// The reassessed interval: sampled amount over sample size.
    pub sampling_interval: ExtRatio,
    /// The ordered selection.
    pub sample: Vec<ExtractedItem>,
    pub extensions: usize,
    pub n_qty: Vec<usize>,
    pub combined: bool,
}

/// Whether a book value reaches the threshold `num / den`.
pub open spec fn spec_is_high(v: i64, num: int, den: int) -> bool
    recommends
        den >= 1,
{
    v * den >= num
}

/// The items at or above the threshold, in order.
pub open spec fn spec_highs(data: Seq<i64>, num: int, den: int) -> Seq<i64>
    decreases data.len(),
{
    if data.len() == 0 {
        Seq::empty()
    } else {
        let rest = spec_highs(data.drop_last(), num, den);
        if spec_is_high(data.last(), num, den) {
            rest.push(data.last())
        } else {
            rest
        }
    }
}

/// The items below the threshold, in order: the sampling population.
pub open spec fn spec_lows(data: Seq<i64>, num: int, den: int) -> Seq<i64>
    decreases data.len(),
{
    if data.len() == 0 {
        Seq::empty()
    } else {
        let rest = spec_lows(data.drop_last(), num, den);
        if spec_is_high(data.last(), num, den) {
            rest
        } else {
            rest.push(data.last())
        }
    }
}

/// The plain sum of a sequence of book values, negatives included.
pub open spec fn sum_all(s: Seq<i64>) -> int
    decreases s.len(),
{
    if s.len() == 0 {
        0
    } else {
        sum_all(s.drop_last()) + s.last()
    }
}

/// The cumulative monetary-unit count up to and including index `i`:
/// values are rounded at zero, so negative items have an empty span.
pub open spec fn spec_cum_at(lows: Seq<i64>, i: int) -> int
    recommends
        0 <= i < lows.len(),
{
    sum_nonneg(lows.take(i + 1))
}

/// One stabilization step: the interval the current partition implies, or
/// nothing when no slots remain for sampling.
pub open spec fn spec_stab_next(data: Seq<i64>, n: int, num: int, den: int) -> Option<(int, int)> {
    let slots = n - spec_highs(data, num, den).len();
    if slots <= 0 {
        None
    } else {
        Some((sum_all(spec_lows(data, num, den)), slots))
    }
}

/// The fixed point of re-partitioning: the interval whose implied interval
/// equals itself, reached within `fuel` steps, or nothing.
pub open spec fn spec_stabilize(data: Seq<i64>, n: int, num: int, den: int, fuel: nat) -> Option<
    (int, int),
>
    decreases fuel,
{
    match spec_stab_next(data, n, num, den) {
        None => None,
        Some((n2, d2)) => if n2 * den == num * d2 {
            Some((n2, d2))
        } else if fuel == 0 {
            None
        } else {
            spec_stabilize(data, n, n2, d2, (fuel - 1) as nat)
        },
    }
}

/// The retained monetary-unit hit positions among the first `j` grid points:
/// `round(start + j * step)`, kept while they stay within the population.
pub open spec fn spec_hits(sc: int, step: int, total: int, j: nat) -> Seq<int>
    decreases j,
{
    if j == 0 {
        Seq::empty()
    } else {
        let rest = spec_hits(sc, step, total, (j - 1) as nat);
        let u = spec_round_half_even(sc + (j - 1) * step, 100);
        if u <= total {
            rest.push(u)
        } else {
            rest
        }
    }
}

/// The least index whose cumulative count reaches `u`, searching from `i`;
/// the length when none does.
pub open spec fn spec_first_cover(lows: Seq<i64>, u: int, i: int) -> int
    decreases lows.len() - i,
{
    if i < 0 || i >= lows.len() {
        lows.len() as int
    } else if spec_cum_at(lows, i) >= u {
        i
    } else {
        spec_first_cover(lows, u, i + 1)
    }
}

/// The selected items for the given hit positions, in order: each hit maps
/// to the first item whose cumulative count reaches it.
pub open spec fn spec_sample(lows: Seq<i64>, hits: Seq<int>) -> Seq<ExtractedItem>
    decreases hits.len(),
{
    if hits.len() == 0 {
        Seq::empty()
    } else {
        let rest = spec_sample(lows, hits.drop_last());
        let u = hits.last();
        let idx = spec_first_cover(lows, u, 0);
        if idx >= lows.len() {
            rest
        } else {
            rest.push(ExtractedItem {
                book_value: lows[idx],
                mus_hit: u as u64,
                cum_before: if idx == 0 {
                    0
                } else {
                    spec_cum_at(lows, idx - 1) as u64
                },
                cum_after: spec_cum_at(lows, idx) as u64,
            })
        }
    }
}

/// What a successful extraction looks like once the interval `num / den` and
/// the start point `sc` are fixed.
pub open spec fn spec_extraction_fields(
    plan: Plan,
    opts: ExtractionOptions,
    num: int,
    den: int,
    sc: int,
    e: Extraction,
) -> bool {
    let highs = spec_highs(plan.data@, num, den);
    let lows = spec_lows(plan.data@, num, den);
    let draws = if plan.n >= highs.len() {
        plan.n - highs.len()
    } else {
        0
    };
    let step = spec_round_half_even(100 * num, den);
    let total = sum_nonneg(lows);
    let hits = spec_hits(sc, step, total, (draws + 1) as nat);
    let sample = spec_sample(lows, hits);
    &&& e.plan.data@ == plan.data@
    &&& e.plan.col_name_book_values@ == plan.col_name_book_values@
    &&& e.plan.confidence_ppm == plan.confidence_ppm
    &&& e.plan.tolerable_error == plan.tolerable_error
    &&& e.plan.expected_error == plan.expected_error
    &&& e.plan.book_value == plan.book_value
    &&& e.plan.n == plan.n
    &&& e.plan.high_value_threshold == plan.high_value_threshold
    &&& e.plan.tolerable_taintings == plan.tolerable_taintings
    &&& e.plan.combined == plan.combined
    &&& e.plan.warnings@ == plan.warnings@
    &&& e.start_point == sc
    &&& e.seed == opts.seed
    &&& e.obey_n_as_min == opts.obey_n_as_min
    &&& e.combined == opts.combined
    &&& e.extensions == 0
    &&& e.high_values@ == highs
    &&& e.sample_population@ == Seq::new(lows.len(), |i: int| (lows[i], spec_cum_at(lows, i) as u64))
    &&& e.sample@ == sample
    &&& e.n_qty@ == seq![sample.len() as usize]
    &&& e.sampling_interval == if sample.len() == 0 {
        ExtRatio::Infinite
    } else {
        ExtRatio::Finite(Ratio { num: sum_all(lows) as i128, den: sample.len() as u64 })
    }
}

/// The outcome once the interval is fixed: the start point is validated or
/// drawn, and the fields follow.
pub open spec fn spec_extraction_from_interval(
    plan: Plan,
    opts: ExtractionOptions,
    num: int,
    den: int,
    r: Result<Extraction, MusError>,
) -> bool {
    match opts.start_point {
        Some(sc) => if num < 0 || sc * den > 100 * num {
            r matches Err(MusError::InvalidInput(m))
                && m@ == "start.point must be in [0, interval]"@
        } else {
            r matches Ok(e) && spec_extraction_fields(plan, opts, num, den, sc as int, e)
        },
        None => if num < 0 {
            r matches Err(MusError::Calculation(_))
        } else {
            match opts.seed {
                Some(seed) => r matches Ok(e) && spec_extraction_fields(
                    plan, opts, num, den,
                    uniform_unit(seed, (100 * num / den) as u64) as int, e)
                    && e.start_point * den <= 100 * num,
                None => r matches Ok(e) && (exists|seed: u64| spec_extraction_fields(
                    plan, opts, num, den,
                    #[trigger] uniform_unit(seed, (100 * num / den) as u64) as int, e))
                    && e.start_point * den <= 100 * num,
            }
        },
    }
}

/// The full contract of extraction: it fails exactly on a zero sample size,
/// a failed interval stabilization, a start point outside the interval, or a
/// negative interval with no explicit start point; otherwise the partition,
/// grid and selection are as specified.
pub open spec fn extraction_matches(
    plan: Plan,
    opts: ExtractionOptions,
    r: Result<Extraction, MusError>,
) -> bool
    recommends
        plan.wf(),
{
    if plan.n == 0 {
        r matches Err(MusError::InvalidInput(m)) && m@ == "plan.n must be > 0 for extraction"@
    } else {
        if opts.obey_n_as_min {
            match spec_stabilize(
                plan.data@, plan.n as int, plan.book_value as int, plan.n as int,
                (plan.data@.len() + 2) as nat,
            ) {
                None => r matches Err(MusError::Calculation(_)),
                Some((p, q)) => spec_extraction_from_interval(plan, opts, p, q, r),
            }
        } else {
            spec_extraction_from_interval(
                plan, opts, plan.book_value as int, plan.n as int, r)
        }
    }
}

/// Copies a vector of plain values.
fn copy_vec<T: Copy>(v: &Vec<T>) -> (r: Vec<T>)
    ensures
        r@ == v@,
{
    let mut out: Vec<T> = Vec::new();
    let n = v.len();
    for i in 0..n
        invariant
            n == v@.len(),
            out@ == v@.take(i as int),
    {
        proof {
            assert(v@.take(i as int + 1) =~= v@.take(i as int).push(v@[i as int]));
        }
        out.push(v[i]);
    }
    proof {
        assert(v@.take(n as int) =~= v@);
    }
    out
}

/// Copies a plan field by field.
fn clone_plan(p: &Plan) -> (r: Plan)
    ensures
        r.data@ == p.data@,
        r.col_name_book_values@ == p.col_name_book_values@,
        r.confidence_ppm == p.confidence_ppm,
        r.tolerable_error == p.tolerable_error,
        r.expected_error == p.expected_error,
        r.book_value == p.book_value,
        r.n == p.n,
        r.high_value_threshold == p.high_value_threshold,
        r.tolerable_taintings == p.tolerable_taintings,
        r.combined == p.combined,
        r.warnings@ == p.warnings@,
{
    Plan {
        data: copy_vec(&p.data),
        col_name_book_values: p.col_name_book_values.clone(),
        confidence_ppm: p.confidence_ppm,
        tolerable_error: p.tolerable_error,
        expected_error: p.expected_error,
        book_value: p.book_value,
        n: p.n,
        high_value_threshold: p.high_value_threshold,
        tolerable_taintings: p.tolerable_taintings,
        combined: p.combined,
        warnings: copy_vec(&p.warnings),
    }
}

/// Splits the population at the threshold `num / den`.
fn partition(data: &Vec<i64>, num: i128, den: u64) -> (r: (Vec<i64>, Vec<i64>))
    requires
        1 <= den,
    ensures
        r.0@ == spec_highs(data@, num as int, den as int),
        r.1@ == spec_lows(data@, num as int, den as int),
        r.0@.len() + r.1@.len() == data@.len(),
{
    let mut his: Vec<i64> = Vec::new();
    let mut los: Vec<i64> = Vec::new();
    let n = data.len();
    for i in 0..n
        invariant
            n == data@.len(),
            1 <= den,
            his@ == spec_highs(data@.take(i as int), num as int, den as int),
            los@ == spec_lows(data@.take(i as int), num as int, den as int),
            his@.len() + los@.len() == i,
    {
        let v = data[i];
        proof {
            assert(data@.take(i as int + 1).drop_last() =~= data@.take(i as int));
            assert(data@.take(i as int + 1).last() == v);
            assert({
                let p = (v as int) * (den as int);
                -0x8000_0000_0000_0000_0000_0000_0000_0000 < p
                    < 0x8000_0000_0000_0000_0000_0000_0000_0000
            }) by (nonlinear_arith)
                requires
                    -0x8000_0000_0000_0000 <= v as int <= 0x7fff_ffff_ffff_ffff,
                    1 <= den as int <= 0xffff_ffff_ffff_ffff,
            ;
        }
        if (v as i128) * (den as i128) >= num {
            his.push(v);
        } else {
            los.push(v);
        }
    }
    proof {
        assert(data@.take(n as int) =~= data@);
    }
    (his, los)
}

proof fn lemma_sum_all_bounds(s: Seq<i64>)
    ensures
        -(s.len() * 0x8000_0000_0000_0000) <= sum_all(s) <= s.len() * 0x8000_0000_0000_0000,
    decreases s.len(),
{
    if s.len() > 0 {
        lemma_sum_all_bounds(s.drop_last());
    }
}

/// Sums the book values, negatives included.
pub(crate) fn sum_all_exec(v: &Vec<i64>) -> (r: i128)
    requires
        v@.len() <= 0x1_0000_0000,
    ensures
        r == sum_all(v@),
{
    let mut acc: i128 = 0;
    let n = v.len();
    for i in 0..n
        invariant
            n == v@.len() <= 0x1_0000_0000,
            acc == sum_all(v@.take(i as int)),
            -((i as int) * 0x8000_0000_0000_0000) <= acc <= (i as int) * 0x8000_0000_0000_0000,
    {
        proof {
            assert(v@.take(i as int + 1).drop_last() =~= v@.take(i as int));
            assert(v@.take(i as int + 1).last() == v@[i as int]);
        }
        acc = acc + (v[i] as i128);
        proof {
            lemma_sum_all_bounds(v@.take(i as int + 1));
        }
    }
    proof {
        assert(v@.take(n as int) =~= v@);
    }
    acc
}

/// The plain sum never exceeds the sum of the non-negative entries.
pub(crate) proof fn lemma_sum_all_le_nonneg(s: Seq<i64>)
    ensures
        sum_all(s) <= sum_nonneg(s),
    decreases s.len(),
{
    if s.len() > 0 {
        lemma_sum_all_le_nonneg(s.drop_last());
    }
}

/// The sampling population's non-negative sum never exceeds the whole
/// population's.
proof fn lemma_lows_sum(data: Seq<i64>, num: int, den: int)
    ensures
        0 <= sum_nonneg(spec_lows(data, num, den)) <= sum_nonneg(data),
    decreases data.len(),
{
    if data.len() == 0 {
    } else {
        lemma_lows_sum(data.drop_last(), num, den);
        let rest = spec_lows(data.drop_last(), num, den);
        if !spec_is_high(data.last(), num, den) {
            assert(rest.push(data.last()).drop_last() =~= rest);
        }
    }
}

/// Equality of two rationals with word-sized parts, compared exactly through
/// quotient and remainder so no product overflows.
fn rational_eq(a: i128, b: u64, c: i128, d: u64) -> (r: bool)
    requires
        1 <= b,
        1 <= d,
        i128::MIN < a,
        i128::MIN < c,
    ensures
        r == (a * d == c * b),
{
    if a >= 0 && c >= 0 {
        unsigned_rational_eq(a as u128, b as u128, c as u128, d as u128)
    } else if a < 0 && c < 0 {
        proof {
            assert((a * d == c * b) == ((-a) * d == (-c) * b)) by (nonlinear_arith);
        }
        unsigned_rational_eq((-a) as u128, b as u128, (-c) as u128, d as u128)
    } else {
        proof {
            if a < 0 {
                assert(a * d < 0 <= c * b) by (nonlinear_arith)
                    requires a < 0 && c >= 0 && b >= 1 && d >= 1
                ;
            } else {
                assert(c * b < 0 <= a * d) by (nonlinear_arith)
                    requires c < 0 && a >= 0 && b >= 1 && d >= 1
                ;
            }
        }
        false
    }
}

fn unsigned_rational_eq(a: u128, b: u128, c: u128, d: u128) -> (r: bool)
    requires
        1 <= b <= 0xffff_ffff_ffff_ffff,
        1 <= d <= 0xffff_ffff_ffff_ffff,
    ensures
        r == (a * d == c * b),
{
    let q1 = a / b;
    let r1 = a % b;
    let q2 = c / d;
    let r2 = c % d;
    proof {
        assert(q1 * b + r1 == a && r1 < b) by (nonlinear_arith)
            requires b >= 1 && q1 == a / b && r1 == a % b
        ;
        assert(q2 * d + r2 == c && r2 < d) by (nonlinear_arith)
            requires d >= 1 && q2 == c / d && r2 == c % d
        ;
        vstd::arithmetic::mul::lemma_mul_upper_bound(
            r1 as int, 0xffff_ffff_ffff_fffe, d as int, 0xffff_ffff_ffff_ffff);
        vstd::arithmetic::mul::lemma_mul_upper_bound(
            r2 as int, 0xffff_ffff_ffff_fffe, b as int, 0xffff_ffff_ffff_ffff);
        if q1 == q2 && r1 * d == r2 * b {
            assert(a * d == c * b) by (nonlinear_arith)
                requires
                    a == q1 * b + r1,
                    c == q2 * d + r2,
                    q1 == q2,
                    r1 * d == r2 * b,
            ;
        }
        if a * d == c * b {
            assert(q1 == q2 && r1 * d == r2 * b) by (nonlinear_arith)
                requires
                    a == q1 * b + r1,
                    c == q2 * d + r2,
                    0 <= r1 < b,
                    0 <= r2 < d,
                    1 <= b,
                    1 <= d,
                    a * d == c * b,
            ;
        }
    }
    q1 == q2 && r1 * d == r2 * b
}

/// Cumulative counts are monotone in the index.
proof fn lemma_cum_mono(lows: Seq<i64>, i: int, j: int)
    requires
        0 <= i <= j < lows.len(),
    ensures
        spec_cum_at(lows, i) <= spec_cum_at(lows, j),
    decreases j - i,
{
    if i < j {
        lemma_cum_mono(lows, i, j - 1);
        crate::planning::lemma_sum_nonneg_take_step(lows, j);
    }
}

/// Builds the cumulative monetary-unit counts and their total.
fn build_cum(lows: &Vec<i64>) -> (r: (Vec<u64>, u64))
    requires
        sum_nonneg(lows@) <= 0x8000_0000_0000,
    ensures
        r.0@.len() == lows@.len(),
        forall|i: int| 0 <= i < lows@.len() ==> r.0@[i] == spec_cum_at(lows@, i),
        r.1 == sum_nonneg(lows@),
{
    let mut cum: Vec<u64> = Vec::new();
    let mut running: u64 = 0;
    let n = lows.len();
    for i in 0..n
        invariant
            n == lows@.len(),
            sum_nonneg(lows@) <= 0x8000_0000_0000,
            running == sum_nonneg(lows@.take(i as int)),
            cum@.len() == i,
            forall|k: int| 0 <= k < i ==> cum@[k] == spec_cum_at(lows@, k),
    {
        proof {
            crate::planning::lemma_sum_nonneg_take_step(lows@, i as int);
            crate::planning::lemma_sum_nonneg_take_le(lows@, i + 1);
        }
        let v = lows[i];
        if v >= 0 {
            running = running + (v as u64);
        }
        cum.push(running);
    }
    proof {
        assert(lows@.take(n as int) =~= lows@);
    }
    (cum, running)
}

proof fn lemma_first_cover_skip(lows: Seq<i64>, u: int, lo: int, k: int)
    requires
        0 <= lo <= k <= lows.len(),
        forall|j: int| lo <= j < k ==> spec_cum_at(lows, j) < u,
    ensures
        spec_first_cover(lows, u, lo) == spec_first_cover(lows, u, k),
    decreases k - lo,
{
    if lo < k {
        lemma_first_cover_skip(lows, u, lo + 1, k);
    }
}

/// Finds the first item whose cumulative count reaches the hit `u`, by
/// binary search over the sorted cumulative counts.
fn find_cover(cum: &Vec<u64>, u: u64, Ghost(lows): Ghost<Seq<i64>>) -> (r: usize)
    requires
        cum@.len() == lows.len(),
        forall|i: int| 0 <= i < lows.len() ==> cum@[i] == spec_cum_at(lows, i),
    ensures
        r == spec_first_cover(lows, u as int, 0),
{
    let mut lo: usize = 0;
    let mut hi: usize = cum.len();
    while lo < hi
        invariant
            lo <= hi <= cum@.len(),
            cum@.len() == lows.len(),
            forall|i: int| 0 <= i < lows.len() ==> cum@[i] == spec_cum_at(lows, i),
            forall|j: int| 0 <= j < lo ==> spec_cum_at(lows, j) < u,
            forall|j: int| hi <= j < lows.len() ==> spec_cum_at(lows, j) >= u,
        decreases hi - lo,
    {
        let mid = lo + (hi - lo) / 2;
        if cum[mid] < u {
            proof {
                assert forall|j: int| 0 <= j <= mid implies spec_cum_at(lows, j) < u by {
                    lemma_cum_mono(lows, j, mid as int);
                }
            }
            lo = mid + 1;
        } else {
            proof {
                assert forall|j: int| mid <= j < lows.len() implies spec_cum_at(lows, j) >= u by {
                    lemma_cum_mono(lows, mid as int, j);
                }
            }
            hi = mid;
        }
    }
    proof {
        lemma_first_cover_skip(lows, u as int, 0, lo as int);
    }
    lo
}

/// Pointwise agreement of the retained hits with their specification.
pub open spec fn hits_match(hits: Seq<u64>, sq: Seq<int>) -> bool {
    hits.len() == sq.len() && forall|k: int| 0 <= k < hits.len() ==> hits[k] == sq[k]
}

/// Performs the selection once the interval `p / q` and start point `sc`
/// are fixed: partitions, builds the grid and cumulative counts, and maps
/// each retained hit to its covering item.
#[verifier::rlimit(100)]
fn extract_with(plan: &Plan, opts: ExtractionOptions, p: i128, q: u64, sc: u64) -> (e: Extraction)
    requires
        plan.wf(),
        1 <= q,
        0 <= p <= 0x8000_0000_0000,
        sc as int <= 100 * p,
    ensures
        spec_extraction_fields(*plan, opts, p as int, q as int, sc as int, e),
{
    let pq = partition(&plan.data, p, q);
    let his = pq.0;
    let los = pq.1;
    let draws: usize = if plan.n >= his.len() {
        plan.n - his.len()
    } else {
        0
    };
    let step128: u128 = crate::ratio::round_half_even(100 * (p as u128), q as u128);
    proof {
        vstd::arithmetic::div_mod::lemma_div_is_ordered_by_denominator(
            100 * (p as int), 1, q as int);
        assert(step128 <= 100 * (p as int) + 1);
    }
    let step: u64 = step128 as u64;
    proof {
        lemma_lows_sum(plan.data@, p as int, q as int);
    }
    let ct = build_cum(&los);
    let cum = ct.0;
    let total = ct.1;

    let ghost scv = sc as int;
    let ghost stepv = step as int;
    let ghost totalv = total as int;
    let mut hits: Vec<u64> = Vec::new();
    let mut j: usize = 0;
    loop
        invariant_except_break
            j <= draws,
            sc as int == scv,
            step as int == stepv,
            total as int == totalv,
            sc <= 0x320_0000_0000_0000,
            step <= 0x320_0000_0000_0001,
            total <= 0x8000_0000_0000,
            hits_match(hits@, spec_hits(scv, stepv, totalv, j as nat)),
            forall|k: int| 0 <= k < hits@.len() ==> hits@[k] <= total,
        ensures
            hits_match(hits@, spec_hits(scv, stepv, totalv, (draws + 1) as nat)),
            forall|k: int| 0 <= k < hits@.len() ==> hits@[k] <= total,
        decreases draws - j,
    {
        proof {
            vstd::arithmetic::mul::lemma_mul_upper_bound(
                j as int, 0xffff_ffff_ffff_ffff, step as int, 0x320_0000_0000_0001);
        }
        let x: u128 = (sc as u128) + (j as u128) * (step as u128);
        let u = crate::ratio::round_half_even(x, 100);
        proof {
            assert(spec_hits(scv, stepv, totalv, (j + 1) as nat) == {
                let rest = spec_hits(scv, stepv, totalv, j as nat);
                if u as int <= totalv {
                    rest.push(u as int)
                } else {
                    rest
                }
            });
            vstd::arithmetic::div_mod::lemma_div_is_ordered_by_denominator(x as int, 1, 100);
        }
        if u <= total as u128 {
            hits.push(u as u64);
        }
        if j == draws {
            break;
        }
        j = j + 1;
    }

    let ghost sq = spec_hits(scv, stepv, totalv, (draws + 1) as nat);
    let mut sample: Vec<ExtractedItem> = Vec::new();
    let hn = hits.len();
    for k in 0..hn
        invariant
            hn == hits@.len(),
            hits_match(hits@, sq),
            cum@.len() == los@.len(),
            forall|i: int| 0 <= i < los@.len() ==> cum@[i] == spec_cum_at(los@, i),
            sample@ == spec_sample(los@, sq.take(k as int)),
    {
        let u = hits[k];
        let idx = find_cover(&cum, u, Ghost(los@));
        proof {
            assert(sq.take(k as int + 1).drop_last() =~= sq.take(k as int));
            assert(sq.take(k as int + 1).last() == sq[k as int]);
        }
        if idx < cum.len() {
            let before: u64 = if idx == 0 {
                0
            } else {
                cum[idx - 1]
            };
            let after: u64 = cum[idx];
            sample.push(ExtractedItem {
                book_value: los[idx],
                mus_hit: u,
                cum_before: before,
                cum_after: after,
            });
        }
    }
    proof {
        assert(sq.take(hn as int) =~= sq);
    }

    let pop_sum = sum_all_exec(&los);
    let slen = sample.len();
    let interval = if slen == 0 {
        ExtRatio::Infinite
    } else {
        ExtRatio::Finite(Ratio { num: pop_sum, den: slen as u64 })
    };
    let mut spop: Vec<(i64, u64)> = Vec::new();
    let ln = los.len();
    for i in 0..ln
        invariant
            ln == los@.len(),
            cum@.len() == los@.len(),
            forall|k: int| 0 <= k < los@.len() ==> cum@[k] == spec_cum_at(los@, k),
            spop@.len() == i,
            forall|k: int| 0 <= k < i ==> spop@[k] == (los@[k], spec_cum_at(los@, k) as u64),
    {
        spop.push((los[i], cum[i]));
    }
    let mut n_qty: Vec<usize> = Vec::new();
    n_qty.push(slen);

    let e = Extraction {
        plan: clone_plan(plan),
        start_point: sc,
        seed: opts.seed,
        obey_n_as_min: opts.obey_n_as_min,
        high_values: his,
        sample_population: spop,
        sampling_interval: interval,
        sample,
        extensions: 0,
        n_qty,
        combined: opts.combined,
    };
    proof {
        assert(e.sample_population@ =~= Seq::new(
            spec_lows(plan.data@, p as int, q as int).len(),
            |i: int| (spec_lows(plan.data@, p as int, q as int)[i],
                spec_cum_at(spec_lows(plan.data@, p as int, q as int), i) as u64),
        ));
        assert(e.n_qty@ =~= seq![slen]);
    }
    e
}

/// Extracts the sample a plan calls for: splits off the high-value items,
/// stabilizes the interval when `obey_n_as_min` is set, resolves the start
/// point, and selects by systematic monetary-unit sampling.
#[verifier::rlimit(100)]
pub fn mus_extraction(plan: &Plan, opts: ExtractionOptions) -> (r: Result<Extraction, MusError>)
    requires
        plan.wf(),
    ensures
        extraction_matches(*plan, opts, r),
{
    if plan.n == 0 {
        return Err(MusError::InvalidInput("plan.n must be > 0 for extraction".to_owned()));
    }
    let mut p: i128 = plan.book_value as i128;
    let mut q: u64 = plan.n as u64;
    let ghost fuel0 = (plan.data@.len() + 2) as nat;
    let ghost stab0 = spec_stabilize(
        plan.data@, plan.n as int, plan.book_value as int, plan.n as int, fuel0);
    if opts.obey_n_as_min {
        let cap: usize = plan.data.len() + 2;
        let mut iter: usize = 0;
        loop
            invariant_except_break
                iter <= cap,
                cap == plan.data@.len() + 2,
                plan.wf(),
                1 <= plan.n,
                1 <= q,
                i128::MIN < p,
                p <= 0x8000_0000_0000,
                opts.obey_n_as_min,
                stab0 == spec_stabilize(
                    plan.data@, plan.n as int, plan.book_value as int, plan.n as int,
                    (plan.data@.len() + 2) as nat),
                stab0 == spec_stabilize(
                    plan.data@, plan.n as int, p as int, q as int, (cap - iter) as nat),
            ensures
                stab0 == Some((p as int, q as int)),
                1 <= q,
                i128::MIN < p,
                p <= 0x8000_0000_0000,
            decreases cap - iter,
        {
            let pq2 = partition(&plan.data, p, q);
            let his = pq2.0;
            let los = pq2.1;
            if plan.n <= his.len() {
                proof {
                    assert(spec_stab_next(plan.data@, plan.n as int, p as int, q as int) is None);
                    assert(stab0 is None);
                }
                return Err(MusError::Calculation(
                    "no items left for sampling after removing high values".to_owned()));
            }
            let d2: u64 = (plan.n - his.len()) as u64;
            proof {
                lemma_sum_all_bounds(los@);
                lemma_sum_all_le_nonneg(los@);
                lemma_lows_sum(plan.data@, p as int, q as int);
            }
            let n2: i128 = sum_all_exec(&los);
            if rational_eq(n2, d2, p, q) {
                p = n2;
                q = d2;
                break;
            }
            if iter == cap {
                return Err(MusError::Calculation(
                    "sampling interval did not stabilize".to_owned()));
            }
            p = n2;
            q = d2;
            iter = iter + 1;
        }
    }
    let sc: u64;
    let ghost mut gseed: u64 = 0;
    match opts.start_point {
        Some(s) => {
            if p < 0 {
                return Err(MusError::InvalidInput(
                    "start.point must be in [0, interval]".to_owned()));
            }
            proof {
                vstd::arithmetic::mul::lemma_mul_upper_bound(
                    s as int, 0xffff_ffff_ffff_ffff, q as int, 0xffff_ffff_ffff_ffff);
            }
            if (s as u128) * (q as u128) > 100u128 * (p as u128) {
                return Err(MusError::InvalidInput(
                    "start.point must be in [0, interval]".to_owned()));
            }
            proof {
                assert(s as int <= 100 * (p as int)) by (nonlinear_arith)
                    requires (s as int) * (q as int) <= 100 * (p as int) && 1 <= q && 0 <= s
                ;
            }
            sc = s;
        },
        None => {
            if p < 0 {
                return Err(MusError::Calculation("sampling interval is negative".to_owned()));
            }
            let hi128: u128 = 100u128 * (p as u128) / (q as u128);
            proof {
                vstd::arithmetic::div_mod::lemma_div_is_ordered_by_denominator(
                    100 * (p as int), 1, q as int);
            }
            let hi = hi128 as u64;
            let seed: u64 = match opts.seed {
                Some(s) => s,
                None => crate::rng::entropy_seed(),
            };
            sc = crate::rng::seeded_uniform(seed, hi);
            proof {
                gseed = seed;
                assert(hi as int == 100 * (p as int) / (q as int));
                assert(sc == crate::rng::uniform_unit(
                    gseed, (100 * (p as int) / (q as int)) as u64));
                // the draw is at most the interval, in hundredths
                vstd::arithmetic::div_mod::lemma_fundamental_div_mod(100 * (p as int), q as int);
                assert((sc as int) * (q as int) <= 100 * (p as int)) by (nonlinear_arith)
                    requires
                        sc as int <= 100 * (p as int) / (q as int),
                        1 <= q,
                        100 * (p as int) == (q as int) * (100 * (p as int) / (q as int))
                            + (100 * (p as int)) % (q as int),
                        0 <= (100 * (p as int)) % (q as int),
                ;
            }
        },
    }
    let e = extract_with(plan, opts, p, q, sc);
    proof {
        if opts.start_point is None && opts.seed is None {
            assert(spec_extraction_fields(
                *plan, opts, p as int, q as int,
                crate::rng::uniform_unit(gseed, (100 * (p as int) / (q as int)) as u64) as int,
                e));
        }
    }
    Ok(e)
}

} // verus!
