//! The library's stated laws, proved once and for all.
//!
//! One law of the planner is deliberately absent: that a larger expected
//! error never shrinks the computed sample size.  It rests on monotonicity
//! of the hypergeometric CDF in the draw count, a property of the
//! distribution itself that lives behind the trusted `statrs` call and so
//! cannot be established here; the test suite exercises it on concrete
//! populations instead.

use vstd::prelude::*;
use crate::errors::MusError;
use crate::extraction::{
    extraction_matches, spec_extraction_fields, spec_highs, spec_hits, spec_is_high, spec_lows,
    spec_sample, Extraction, ExtractionOptions,
};
use crate::planning::{
    spec_crosses, spec_crossing, spec_n_optimal, spec_plan_error, spec_plan_n, spec_resolved_te,
    sum_nonneg, Plan, PlanningOptions,
};
use crate::ratio::ExtRatio;

verus! {

/// The first crossing point is sound: nothing before it crosses, and it
/// crosses itself unless it is the bound.
proof fn lemma_crossing_props(len: u64, alpha: u32, te: u64, ee: u64, bv: u64, lo: u64)
    requires
        lo <= len,
    ensures
        ({
            let i = spec_crossing(len, alpha, te, ee, bv, lo);
            &&& lo <= i <= len
            &&& (i < len ==> spec_crosses(i, alpha, te, ee, bv))
            &&& forall|j: u64| lo <= j < i ==> !spec_crosses(j, alpha, te, ee, bv)
        }),
    decreases len - lo,
{
    if lo < len && !spec_crosses(lo, alpha, te, ee, bv) {
        lemma_crossing_props(len, alpha, te, ee, bv, (lo + 1) as u64);
    }
}

/// LAW: with no configured floor and the standard sizing formula, a plan's
/// sample size is zero exactly when the tolerable error reaches the total
/// book value.
pub proof fn lemma_zero_sample_iff_covered(values: Seq<i64>, o: PlanningOptions)
    requires
        o.n_min == 0,
        !o.conservative,
        values.len() <= 0x100_0000,
        sum_nonneg(values) <= 0x8000_0000_0000,
        spec_plan_error(values, o) is None,
    ensures
        spec_plan_n(values, o) == 0 <==> spec_resolved_te(sum_nonneg(values), o)->Some_0
            >= sum_nonneg(values),
{
    crate::planning::lemma_sum_nonneg_take_le(values, 0);
    let bv = sum_nonneg(values) as u64;
    let te = spec_resolved_te(bv as int, o)->Some_0;
    let ee = crate::planning::spec_resolved_ee(bv as int, o)->Some_0;
    let alpha = crate::planning::spec_alpha(o);
    let len = values.len() as u64;
    let opt = spec_n_optimal(len, alpha, te, ee, bv);
    let n0 = crate::stats::spec_n_hyper(0, alpha, te, bv) as int;
    if te >= bv {
    } else {
        assert(opt is Ok);
        assert(n0 >= 1);
        assert(len >= 1);
        if !spec_crosses(len, alpha, te, ee, bv) {
            assert(opt->Ok_0.0 == len as int);
        } else if ee == 0 {
        } else {
            let i = spec_crossing(len, alpha, te, ee, bv, 0);
            lemma_crossing_props(len, alpha, te, ee, bv, 0);
            if i == 0 {
            } else {
                assert(!spec_crosses((i - 1) as u64, alpha, te, ee, bv));
                let ni = crate::stats::spec_n_hyper((i - 1) as u64, alpha, te, bv) as int;
                let nip1 = crate::stats::spec_n_hyper(i, alpha, te, bv) as int;
                assert(ni * ee > (i - 1) * bv);
                if i == 1 {
                    assert(ni >= 1);
                } else {
                    assert((i - 1) * bv >= 1 * bv) by (nonlinear_arith)
                        requires i >= 2 && bv >= 0
                    ;
                    assert(ni * ee >= 1);
                    assert(ni >= 1) by (nonlinear_arith)
                        requires ni * ee >= 1 && ee >= 0
                    ;
                }
                assert(opt->Ok_0.0 >= 1);
            }
        }
    }
}

/// LAW: a well-formed plan's high-value threshold is its book value divided
/// by its sample size, and infinite exactly when the sample size is zero.
pub proof fn lemma_threshold_form(p: Plan)
    requires
        p.wf(),
    ensures
        p.n > 0 ==> (p.high_value_threshold matches ExtRatio::Finite(r) && r.num == p.book_value
            && r.den == p.n),
        p.n == 0 <==> p.high_value_threshold is Infinite,
{
}

/// LAW: with an explicit start point or an explicit seed, two extractions
/// from the same plan and options agree: they fail alike, and on success
/// they share the start point, the partition, and the selected sequence.
pub proof fn lemma_extraction_deterministic(
    plan: Plan,
    opts: ExtractionOptions,
    r1: Result<Extraction, MusError>,
    r2: Result<Extraction, MusError>,
)
    requires
        plan.wf(),
        opts.start_point is Some || opts.seed is Some,
        extraction_matches(plan, opts, r1),
        extraction_matches(plan, opts, r2),
    ensures
        r1 is Ok <==> r2 is Ok,
        (r1 is Ok && r2 is Ok) ==> {
            let e1 = r1->Ok_0;
            let e2 = r2->Ok_0;
            &&& e1.start_point == e2.start_point
            &&& e1.seed == e2.seed
            &&& e1.high_values@ == e2.high_values@
            &&& e1.sample_population@ == e2.sample_population@
            &&& e1.sample@ == e2.sample@
            &&& e1.sampling_interval == e2.sampling_interval
        },
{
}

/// Each level of the hit grid adds at most one retained position.
proof fn lemma_hits_len(sc: int, step: int, total: int, j: nat)
    ensures
        spec_hits(sc, step, total, j).len() <= j,
    decreases j,
{
    if j > 0 {
        lemma_hits_len(sc, step, total, (j - 1) as nat);
    }
}

/// The selection has at most one entry per retained hit.
proof fn lemma_sample_len(lows: Seq<i64>, hits: Seq<int>)
    ensures
        spec_sample(lows, hits).len() <= hits.len(),
    decreases hits.len(),
{
    if hits.len() > 0 {
        lemma_sample_len(lows, hits.drop_last());
    }
}

/// Every item of the sampling population lies below the threshold.
proof fn lemma_lows_below(data: Seq<i64>, num: int, den: int)
    ensures
        forall|k: int| 0 <= k < spec_lows(data, num, den).len()
            ==> !spec_is_high(#[trigger] spec_lows(data, num, den)[k], num, den),
    decreases data.len(),
{
    if data.len() > 0 {
        lemma_lows_below(data.drop_last(), num, den);
        let rest = spec_lows(data.drop_last(), num, den);
        if !spec_is_high(data.last(), num, den) {
            assert forall|k: int| 0 <= k < spec_lows(data, num, den).len()
                implies !spec_is_high(#[trigger] spec_lows(data, num, den)[k], num, den) by {
                if k < rest.len() {
                    assert(spec_lows(data, num, den)[k] == rest[k]);
                }
            }
        }
    }
}

proof fn lemma_first_cover_bounds(lows: Seq<i64>, u: int, i: int)
    requires
        0 <= i <= lows.len(),
    ensures
        i <= crate::extraction::spec_first_cover(lows, u, i) <= lows.len(),
    decreases lows.len() - i,
{
    if i < lows.len() && !(crate::extraction::spec_cum_at(lows, i) >= u) {
        lemma_first_cover_bounds(lows, u, i + 1);
    }
}

/// Every selected item's book value comes from the sampling population.
proof fn lemma_sample_from_lows(lows: Seq<i64>, hits: Seq<int>)
    ensures
        forall|k: int| 0 <= k < spec_sample(lows, hits).len()
            ==> lows.contains(#[trigger] spec_sample(lows, hits)[k].book_value),
    decreases hits.len(),
{
    if hits.len() > 0 {
        lemma_sample_from_lows(lows, hits.drop_last());
        let rest = spec_sample(lows, hits.drop_last());
        let s = spec_sample(lows, hits);
        assert forall|k: int| 0 <= k < s.len()
            implies lows.contains(#[trigger] s[k].book_value) by {
            if k < rest.len() {
                assert(s[k] == rest[k]);
            } else {
                let idx = crate::extraction::spec_first_cover(lows, hits.last(), 0);
                lemma_first_cover_bounds(lows, hits.last(), 0);
                if idx < lows.len() {
                    assert(s[k].book_value == lows[idx]);
                    assert(0 <= idx < lows.len() && lows[idx] == s[k].book_value);
                    assert(lows.contains(s[k].book_value));
                } else {
                    assert(s == rest);
                    assert(false);
                }
            }
        }
    }
}

/// Every item at or above the threshold stands in the high-value list.
proof fn lemma_highs_complete(data: Seq<i64>, num: int, den: int)
    ensures
        forall|j: int| 0 <= j < data.len() && spec_is_high(#[trigger] data[j], num, den)
            ==> spec_highs(data, num, den).contains(data[j]),
    decreases data.len(),
{
    if data.len() > 0 {
        lemma_highs_complete(data.drop_last(), num, den);
        let rest = spec_highs(data.drop_last(), num, den);
        assert forall|j: int| 0 <= j < data.len() && spec_is_high(#[trigger] data[j], num, den)
            implies spec_highs(data, num, den).contains(data[j]) by {
            if j < data.len() - 1 {
                assert(data.drop_last()[j] == data[j]);
                assert(rest.contains(data[j]));
                let w = choose|w: int| 0 <= w < rest.len() && rest[w] == data[j];
                if spec_is_high(data.last(), num, den) {
                    assert(spec_highs(data, num, den)[w] == rest[w]);
                } else {
                    assert(spec_highs(data, num, den)[w] == rest[w]);
                }
            } else {
                assert(data[j] == data.last());
                let s = spec_highs(data, num, den);
                assert(s.last() == data.last());
            }
        }
    }
}

/// LAW: extraction fills at most the sampling slots plus the closing grid
/// point: the selection and the certain items together never exceed
/// `plan.n + 1`, and with at least one high-value item the selection alone
/// stays within `plan.n`.  High-value items are all present in
/// `high_values`, and every selected item lies strictly below the threshold.
pub proof fn lemma_extraction_partition(
    plan: Plan,
    opts: ExtractionOptions,
    num: int,
    den: int,
    sc: int,
    e: Extraction,
)
    requires
        plan.n >= 1,
        spec_extraction_fields(plan, opts, num, den, sc, e),
    ensures
        e.sample@.len() <= plan.n + 1,
        e.high_values@.len() >= 1 ==> e.sample@.len() <= plan.n,
        forall|j: int| 0 <= j < plan.data@.len()
            && spec_is_high(#[trigger] plan.data@[j], num, den)
            ==> e.high_values@.contains(plan.data@[j]),
        forall|k: int| 0 <= k < e.sample@.len()
            ==> !spec_is_high(#[trigger] e.sample@[k].book_value, num, den),
{
    let highs = spec_highs(plan.data@, num, den);
    let lows = spec_lows(plan.data@, num, den);
    let draws = if plan.n >= highs.len() {
        plan.n - highs.len()
    } else {
        0
    };
    let step = crate::ratio::spec_round_half_even(100 * num, den);
    let total = sum_nonneg(lows);
    let hits = spec_hits(sc, step, total, (draws + 1) as nat);
    lemma_hits_len(sc, step, total, (draws + 1) as nat);
    lemma_sample_len(lows, hits);
    lemma_highs_complete(plan.data@, num, den);
    lemma_lows_below(plan.data@, num, den);
    lemma_sample_from_lows(lows, hits);
    assert forall|k: int| 0 <= k < e.sample@.len()
        implies !spec_is_high(#[trigger] e.sample@[k].book_value, num, den) by {
        assert(lows.contains(e.sample@[k].book_value));
        let w = choose|w: int| 0 <= w < lows.len() && lows[w] == e.sample@[k].book_value;
        assert(!spec_is_high(lows[w], num, den));
    }
}

/// LAW: a successful extraction never selects more than one item beyond
/// the sampling slots: the selection stays within `plan.n + 1`, and within
/// `plan.n` whenever any high-value item was split off.
pub proof fn lemma_extraction_within_plan(
    plan: Plan,
    opts: ExtractionOptions,
    r: Result<Extraction, MusError>,
)
    requires
        plan.wf(),
        plan.n >= 1,
        extraction_matches(plan, opts, r),
        r is Ok,
    ensures
        (r->Ok_0).sample@.len() <= plan.n + 1,
        (r->Ok_0).high_values@.len() >= 1 ==> (r->Ok_0).sample@.len() <= plan.n,
{
    let e = r->Ok_0;
    let pq: (int, int) = if opts.obey_n_as_min {
        crate::extraction::spec_stabilize(
            plan.data@, plan.n as int, plan.book_value as int, plan.n as int,
            (plan.data@.len() + 2) as nat)->Some_0
    } else {
        (plan.book_value as int, plan.n as int)
    };
    let num = pq.0;
    let den = pq.1;
    match opts.start_point {
        Some(sc) => {
            lemma_extraction_partition(plan, opts, num, den, sc as int, e);
        },
        None => {
            match opts.seed {
                Some(seed) => {
                    lemma_extraction_partition(
                        plan, opts, num, den,
                        crate::rng::uniform_unit(seed, (100 * num / den) as u64) as int, e);
                },
                None => {
                    let seed = choose|s: u64| spec_extraction_fields(
                        plan, opts, num, den,
                        #[trigger] crate::rng::uniform_unit(s, (100 * num / den) as u64) as int,
                        e);
                    lemma_extraction_partition(
                        plan, opts, num, den,
                        crate::rng::uniform_unit(seed, (100 * num / den) as u64) as int, e);
                },
            }
        },
    }
}


} // verus!
