use vstd::prelude::*;
use crate::planning::sum_nonneg;

verus! {

/// The systematic sweep over the amounts: thresholds are
/// `(u + j * total) / n` for `j < n`; each threshold falling inside an
/// item's cumulative span selects that item's index.  The state is the item
/// `i` and the next threshold `t`.
pub open spec fn spec_pps_sweep(
    amounts: Seq<i64>,
    n: int,
    total: int,
    u: int,
    i: int,
    t: int,
) -> Seq<usize>
    decreases amounts.len() - i, n - t,
{
    if t >= n || i >= amounts.len() || i < 0 || t < 0 {
        Seq::empty()
    } else {
        let prev = sum_nonneg(amounts.take(i));
        let cum = sum_nonneg(amounts.take(i + 1));
        if u + t * total <= cum * n {
            let rest = spec_pps_sweep(amounts, n, total, u, i, t + 1);
            if u + t * total > prev * n {
                seq![i as usize] + rest
            } else {
                rest
            }
        } else {
            spec_pps_sweep(amounts, n, total, u, i + 1, t)
        }
    }
}

/// The raw index sequence of the sweep for offset numerator `u`:
/// empty when no thresholds exist or the population has no positive total.
pub open spec fn spec_pps(amounts: Seq<i64>, n: int, u: int) -> Seq<usize> {
    let total = sum_all_amounts(amounts);
    if n <= 0 || amounts.len() == 0 || total <= 0 {
        Seq::empty()
    } else {
        spec_pps_sweep(amounts, n, total, u, 0, 0)
    }
}

/// The plain sum of the amounts, negatives included.
pub open spec fn sum_all_amounts(s: Seq<i64>) -> int {
    crate::extraction::sum_all(s)
}

/// Adjacent duplicates removed, keeping the first occurrence.
pub open spec fn spec_dedup(s: Seq<usize>) -> Seq<usize>
    decreases s.len(),
{
    if s.len() == 0 {
        Seq::empty()
    } else {
        let rest = spec_dedup(s.drop_last());
        if rest.len() > 0 && rest.last() == s.last() {
            rest
        } else {
            rest.push(s.last())
        }
    }
}

/// Every index of the sweep lies in `[i, amounts.len())`, the sequence is
/// nondecreasing, and it has at most `n - t` entries.
proof fn lemma_sweep_shape(amounts: Seq<i64>, n: int, total: int, u: int, i: int, t: int)
    requires
        amounts.len() <= usize::MAX,
    ensures
        ({
            let s = spec_pps_sweep(amounts, n, total, u, i, t);
            &&& s.len() <= if n - t >= 0 { n - t } else { 0 }
            &&& forall|k: int| 0 <= k < s.len() ==> i <= #[trigger] s[k] < amounts.len()
            &&& forall|k1: int, k2: int| 0 <= k1 <= k2 < s.len() ==> s[k1] <= s[k2]
        }),
    decreases amounts.len() - i, n - t,
{
    if t >= n || i >= amounts.len() || i < 0 || t < 0 {
    } else {
        let prev = sum_nonneg(amounts.take(i));
        let cum = sum_nonneg(amounts.take(i + 1));
        if u + t * total <= cum * n {
            lemma_sweep_shape(amounts, n, total, u, i, t + 1);
            let rest = spec_pps_sweep(amounts, n, total, u, i, t + 1);
            if u + t * total > prev * n {
                let s = seq![i as usize] + rest;
                assert(s.len() == 1 + rest.len());
                assert forall|k: int| 0 <= k < s.len() implies i <= #[trigger] s[k]
                    < amounts.len() by {
                    if k == 0 {
                        assert(s[0] == i as usize);
                    } else {
                        assert(s[k] == rest[k - 1]);
                    }
                }
                assert forall|k1: int, k2: int| 0 <= k1 <= k2 < s.len() implies s[k1]
                    <= s[k2] by {
                    if k1 == 0 {
                        if k2 > 0 {
                            assert(s[k2] == rest[k2 - 1]);
                            assert(i <= rest[k2 - 1]);
                        }
                    } else {
                        assert(s[k1] == rest[k1 - 1]);
                        assert(s[k2] == rest[k2 - 1]);
                    }
                }
            }
        } else {
            lemma_sweep_shape(amounts, n, total, u, i + 1, t);
        }
    }
}

/// Deduplication of a nondecreasing sequence is strictly increasing, no
/// longer than the input, and keeps every element within the input's set.
proof fn lemma_dedup_shape(s: Seq<usize>)
    requires
        forall|k1: int, k2: int| 0 <= k1 <= k2 < s.len() ==> s[k1] <= s[k2],
    ensures
        ({
            let d = spec_dedup(s);
            &&& d.len() <= s.len()
            &&& forall|k: int| 0 <= k < d.len() ==> s.contains(d[k])
            &&& forall|k1: int, k2: int| 0 <= k1 < k2 < d.len() ==> d[k1] < d[k2]
            &&& (s.len() > 0 ==> d.len() > 0 && d.last() == s.last())
        }),
    decreases s.len(),
{
    if s.len() > 0 {
        let pre = s.drop_last();
        assert(forall|k1: int, k2: int| 0 <= k1 <= k2 < pre.len() ==> pre[k1] <= pre[k2]);
        lemma_dedup_shape(pre);
        let d = spec_dedup(s);
        let dp = spec_dedup(pre);
        assert forall|k: int| 0 <= k < d.len() implies s.contains(d[k]) by {
            if k < dp.len() {
                assert(pre.contains(dp[k]));
                let w = choose|w: int| 0 <= w < pre.len() && pre[w] == dp[k];
                assert(s[w] == dp[k]);
            } else {
                assert(d[k] == s.last());
                assert(s[s.len() - 1] == s.last());
            }
        }
        assert forall|k1: int, k2: int| 0 <= k1 < k2 < d.len() implies d[k1] < d[k2] by {
            if k2 < dp.len() {
            } else if dp.len() > 0 && dp.last() == s.last() {
            } else {
                if k2 == dp.len() {
                    assert(d[k2] == s.last());
                    if pre.len() > 0 {
                        assert(dp.last() <= s.last()) by {
                            assert(pre.contains(dp[dp.len() - 1]));
                            let w = choose|w: int| 0 <= w < pre.len() && pre[w] == dp[dp.len() - 1];
                            assert(s[w] <= s[s.len() - 1]);
                        }
                        assert(d[k1] <= dp.last());
                    }
                }
            }
        }
    }
}

/// Computes the raw systematic hit indices for a known offset numerator
/// `u`: threshold `j` is the rational `(u + j * total) / n`.
pub fn pps_indices_from(amounts: &Vec<i64>, n: usize, u: u64) -> (r: Vec<usize>)
    requires
        amounts@.len() <= 0x100_0000,
        sum_nonneg(amounts@) <= 0x8000_0000_0000,
        1 <= n,
        0 < sum_all_amounts(amounts@),
        u < sum_all_amounts(amounts@),
        1 <= amounts@.len(),
    ensures
        r@ == spec_pps(amounts@, n as int, u as int),
{
    let total: i128 = crate::extraction::sum_all_exec(amounts);
    let ghost totv = total as int;
    proof {
        crate::planning::lemma_sum_nonneg_take_le(amounts@, 0);
        crate::extraction::lemma_sum_all_le_nonneg(amounts@);
    }
    let totalu: u128 = total as u128;
    let nn: u128 = n as u128;
    let mut out: Vec<usize> = Vec::new();
    let mut i: usize = 0;
    let mut t: u64 = 0;
    let len = amounts.len();
    let mut prev: u64 = 0;
    let mut cum: u64 = 0;
    while i < len && (t as usize) < n
        invariant
            i <= len,
            len == amounts@.len() <= 0x100_0000,
            sum_nonneg(amounts@) <= 0x8000_0000_0000,
            1 <= n,
            t <= n,
            totv == sum_all_amounts(amounts@),
            0 < totv <= 0x8000_0000_0000,
            u < totv,
            totalu == totv,
            nn == n,
            prev == sum_nonneg(amounts@.take(i as int)),
            cum == prev,
            spec_pps_sweep(amounts@, n as int, totv, u as int, 0, 0) == out@ + spec_pps_sweep(
                amounts@, n as int, totv, u as int, i as int, t as int),
        decreases amounts@.len() - i, n - t,
    {
        proof {
            crate::planning::lemma_sum_nonneg_take_step(amounts@, i as int);
            crate::planning::lemma_sum_nonneg_take_le(amounts@, i as int + 1);
        }
        let v = amounts[i];
        let cum2: u64 = if v >= 0 {
            cum + (v as u64)
        } else {
            cum
        };
        proof {
            vstd::arithmetic::mul::lemma_mul_upper_bound(
                t as int, 0xffff_ffff_ffff_ffff, totv, 0x8000_0000_0000);
            vstd::arithmetic::mul::lemma_mul_upper_bound(
                cum2 as int, 0x8000_0000_0000, nn as int, 0xffff_ffff_ffff_ffff);
            vstd::arithmetic::mul::lemma_mul_upper_bound(
                prev as int, 0x8000_0000_0000, nn as int, 0xffff_ffff_ffff_ffff);
        }
        let lhs: u128 = (u as u128) + (t as u128) * totalu;
        if lhs <= (cum2 as u128) * nn {
            if lhs > (prev as u128) * nn {
                out.push(i);
                proof {
                    assert(seq![i as usize] + spec_pps_sweep(
                        amounts@, n as int, totv, u as int, i as int, t as int + 1)
                        =~= seq![i as usize].add(spec_pps_sweep(
                            amounts@, n as int, totv, u as int, i as int, t as int + 1)));
                    assert(out@ =~= out@.drop_last().push(i as usize));
                    assert((out@.drop_last() + (seq![i as usize] + spec_pps_sweep(
                        amounts@, n as int, totv, u as int, i as int, t as int + 1)))
                        =~= (out@ + spec_pps_sweep(
                            amounts@, n as int, totv, u as int, i as int, t as int + 1)));
                }
            }
            t = t + 1;
        } else {
            prev = cum2;
            cum = cum2;
            i = i + 1;
        }
    }
    proof {
        assert(spec_pps_sweep(amounts@, n as int, totv, u as int, i as int, t as int)
            =~= Seq::<usize>::empty());
        assert(out@ + Seq::<usize>::empty() =~= out@);
        assert(out@ =~= spec_pps(amounts@, n as int, u as int));
    }
    out
}

/// Draws the random offset and computes the raw systematic hit indices:
/// the empty sequence when there is nothing to draw from, else the sweep for
/// some offset below the total.
pub fn pps_systematic_indices(amounts: &Vec<i64>, n: usize) -> (r: Vec<usize>)
    requires
        amounts@.len() <= 0x100_0000,
        sum_nonneg(amounts@) <= 0x8000_0000_0000,
    ensures
        (n == 0 || amounts@.len() == 0 || sum_all_amounts(amounts@) <= 0) ==> r@
            == Seq::<usize>::empty(),
        exists|u: int|
            0 <= u && (sum_all_amounts(amounts@) > 0 ==> u < sum_all_amounts(amounts@))
                && r@ == #[trigger] spec_pps(amounts@, n as int, u),
{
    if n == 0 || amounts.len() == 0 {
        let out: Vec<usize> = Vec::new();
        proof {
            assert(out@ =~= spec_pps(amounts@, n as int, 0));
        }
        return out;
    }
    let total: i128 = crate::extraction::sum_all_exec(amounts);
    proof {
        crate::planning::lemma_sum_nonneg_take_le(amounts@, 0);
        crate::extraction::lemma_sum_all_le_nonneg(amounts@);
    }
    if total <= 0 {
        let out: Vec<usize> = Vec::new();
        proof {
            assert(out@ =~= spec_pps(amounts@, n as int, 0));
        }
        return out;
    }
    let u = crate::rng::random_below(total as u64);
    pps_indices_from(amounts, n, u)
}

/// Removes adjacent duplicate indices, keeping the first occurrence.
pub fn dedup_indices(idxs: &Vec<usize>) -> (r: Vec<usize>)
    ensures
        r@ == spec_dedup(idxs@),
{
    let mut out: Vec<usize> = Vec::new();
    let len = idxs.len();
    for i in 0..len
        invariant
            len == idxs@.len(),
            out@ == spec_dedup(idxs@.take(i as int)),
    {
        proof {
            assert(idxs@.take(i as int + 1).drop_last() =~= idxs@.take(i as int));
        }
        let v = idxs[i];
        if out.len() == 0 {
            out.push(v);
        } else {
            let lastv = out[out.len() - 1];
            if lastv != v {
                out.push(v);
            }
        }
    }
    proof {
        assert(idxs@.take(len as int) =~= idxs@);
    }
    out
}

/// Selects up to `n` distinct item indices by probability-proportional-to-
/// size systematic sampling: the returned indices are strictly increasing,
/// within bounds, and at most `n` many.
pub fn select_pps(amounts: &Vec<i64>, n: usize) -> (r: Vec<usize>)
    requires
        amounts@.len() <= 0x100_0000,
        sum_nonneg(amounts@) <= 0x8000_0000_0000,
    ensures
        r@.len() <= n,
        forall|k: int| 0 <= k < r@.len() ==> r@[k] < amounts@.len(),
        forall|k1: int, k2: int| 0 <= k1 < k2 < r@.len() ==> r@[k1] < r@[k2],
        exists|u: int|
            0 <= u && (sum_all_amounts(amounts@) > 0 ==> u < sum_all_amounts(amounts@)) && r@
                == spec_dedup(#[trigger] spec_pps(amounts@, n as int, u)),
{
    let raw = pps_systematic_indices(amounts, n);
    let ghost uw = choose|u: int|
        0 <= u && (sum_all_amounts(amounts@) > 0 ==> u < sum_all_amounts(amounts@))
            && raw@ == #[trigger] spec_pps(amounts@, n as int, u);
    proof {
        lemma_sweep_shape(amounts@, n as int, sum_all_amounts(amounts@), uw, 0, 0);
        lemma_dedup_shape(raw@);
    }
    let out = dedup_indices(&raw);
    out
}

} // verus!