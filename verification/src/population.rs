use vstd::prelude::*;
use rand::seq::SliceRandom;
use crate::errors::MusError;
use crate::journal::{
    parse_amount, spec_get_from, spec_parse_amount, DateYmd, JournalData, Record,
    spec_parse_flex_from,
};
use crate::planning::{sum_nonneg, PlanningOptions};
use crate::text::{chars_of, spec_contains_seq, spec_prefix_of, to_lowercase_str, trim_str, trimmed,
    lower_of};

verus! {

/// Whether a ledger movement is a debit or a credit.
#[derive(Debug, Clone, Copy, PartialEq, Eq, Structural)]
pub enum TransactionType {
    Debit,
    Credit,
}

/// One configured sampling rule; every field is optional.
#[derive(Debug, Clone)]
pub struct Rule {
    pub population_name: Option<String>,
    pub account_codes: Option<Vec<String>>,
    pub transaction_type: Option<TransactionType>,
    pub value_column: Option<String>,
}

/// A rule resolved for one population: a name, an optional account-code
/// filter, a direction, and an optional explicit amount column.
#[derive(Debug, Clone)]
pub struct ResolvedRule {
    pub population_name: String,
    pub account_codes: Option<Vec<String>>,
    pub transaction_type: TransactionType,
    pub value_column: Option<String>,
}

/// The fixed context columns of a summary report.
#[derive(Debug, Clone)]
pub struct SummaryCtx {
    pub method: String,
    pub start: String,
    pub end: String,
    pub note: String,
}

/// The amount a record's cell denotes, in hundredths; zero when the column
/// is absent.
pub open spec fn spec_cell_amount(values: Seq<(String, String)>, key: Seq<char>) -> int {
    match spec_get_from(values, key, 0) {
        Some(v) => spec_parse_amount(v),
        None => 0,
    }
}

/// The effective amount of a record under a rule: the explicit value column
/// when configured, else the debit or credit column per the direction.
pub open spec fn spec_effective_amount(
    values: Seq<(String, String)>,
    vc: Option<Seq<char>>,
    dc: Option<Seq<char>>,
    cc: Option<Seq<char>>,
    dir: TransactionType,
) -> int {
    match vc {
        Some(c) => spec_cell_amount(values, c),
        None => match dir {
            TransactionType::Debit => match dc {
                Some(c) => spec_cell_amount(values, c),
                None => 0,
            },
            TransactionType::Credit => match cc {
                Some(c) => spec_cell_amount(values, c),
                None => 0,
            },
        },
    }
}

fn cell_amount(r: &Record, key: &String) -> (a: i64)
    ensures
        a == spec_cell_amount(r.values@, key@),
{
    match r.get(key) {
        Some(v) => parse_amount(v.as_str()),
        None => 0,
    }
}

/// Reads the effective amount of a record under a rule.
pub fn effective_amount_for_rule(
    r: &Record,
    value_col: Option<&String>,
    debit_col: Option<&String>,
    credit_col: Option<&String>,
    direction: &TransactionType,
) -> (a: i64)
    ensures
        a == spec_effective_amount(
            r.values@,
            (match value_col {
                Some(c) => Some(c@),
                None => None,
            }),
            (match debit_col {
                Some(c) => Some(c@),
                None => None,
            }),
            (match credit_col {
                Some(c) => Some(c@),
                None => None,
            }),
            *direction,
        ),
{
    match value_col {
        Some(c) => cell_amount(r, c),
        None => match direction {
            TransactionType::Debit => match debit_col {
                Some(c) => cell_amount(r, c),
                None => 0,
            },
            TransactionType::Credit => match credit_col {
                Some(c) => cell_amount(r, c),
                None => 0,
            },
        },
    }
}

/// The effective amounts of a population, in order.
pub open spec fn spec_amounts(
    pop: Seq<Record>,
    vc: Option<Seq<char>>,
    dc: Option<Seq<char>>,
    cc: Option<Seq<char>>,
    dir: TransactionType,
) -> Seq<i64> {
    Seq::new(pop.len(), |i: int| spec_effective_amount(pop[i].values@, vc, dc, cc, dir) as i64)
}

/// Reads the effective amounts of all records.
pub fn amounts_from_population(
    population: &Vec<Record>,
    value_col: Option<&String>,
    debit_col: Option<&String>,
    credit_col: Option<&String>,
    direction: &TransactionType,
) -> (r: Vec<i64>)
    ensures
        r@ == spec_amounts(
            population@,
            (match value_col {
                Some(c) => Some(c@),
                None => None,
            }),
            (match debit_col {
                Some(c) => Some(c@),
                None => None,
            }),
            (match credit_col {
                Some(c) => Some(c@),
                None => None,
            }),
            *direction,
        ),
{
    let ghost vcv = match value_col {
        Some(c) => Some(c@),
        None => None,
    };
    let ghost dcv = match debit_col {
        Some(c) => Some(c@),
        None => None,
    };
    let ghost ccv = match credit_col {
        Some(c) => Some(c@),
        None => None,
    };
    let mut out: Vec<i64> = Vec::new();
    let n = population.len();
    for i in 0..n
        invariant
            n == population@.len(),
            vcv == (match value_col {
                Some(c) => Some(c@),
                None => None::<Seq<char>>,
            }),
            dcv == (match debit_col {
                Some(c) => Some(c@),
                None => None::<Seq<char>>,
            }),
            ccv == (match credit_col {
                Some(c) => Some(c@),
                None => None::<Seq<char>>,
            }),
            out@.len() == i,
            forall|k: int| 0 <= k < i ==> out@[k] == spec_effective_amount(
                population@[k].values@, vcv, dcv, ccv, *direction) as i64,
    {
        let a = effective_amount_for_rule(
            &population[i], value_col, debit_col, credit_col, direction);
        out.push(a);
    }
    proof {
        assert(out@ =~= spec_amounts(population@, vcv, dcv, ccv, *direction));
    }
    out
}

/// Copies a record, values and all.
pub fn clone_record(r: &Record) -> (c: Record)
    ensures
        c.values@ == r.values@,
{
    let mut values: Vec<(String, String)> = Vec::new();
    let n = r.values.len();
    for i in 0..n
        invariant
            n == r.values@.len(),
            values@.len() == i,
            forall|k: int| 0 <= k < i ==> values@[k] == r.values@[k],
    {
        values.push((r.values[i].0.clone(), r.values[i].1.clone()));
    }
    proof {
        assert(values@ =~= r.values@);
    }
    Record { values }
}

/// The planning failure, if any, for the options this orchestrator fixes
/// (no floor, absolute error bounds, the standard sizing formula), stated
/// over the effective amounts alone; meaningful for a non-empty population.
pub open spec fn spec_sampling_plan_error(amounts: Seq<i64>, conf: u32, te: u64, ee: u64) -> Option<
    (bool, Seq<char>),
> {
    if !(0 < conf < 1_000_000) {
        Some((true, "confidence.level must be in (0,1)"@))
    } else if te == 0 {
        Some((true, "tolerable.error must be > 0"@))
    } else {
        match crate::planning::spec_n_optimal(
            amounts.len() as u64, (1_000_000 - conf) as u32, te, ee, sum_nonneg(amounts) as u64,
        ) {
            Err(m) => Some((false, m)),
            Ok(_) => None,
        }
    }
}

/// The sample size the planner yields for the orchestrator's options.
pub open spec fn spec_sampling_plan_n(amounts: Seq<i64>, conf: u32, te: u64, ee: u64) -> int {
    let nopt = (crate::planning::spec_n_optimal(
        amounts.len() as u64, (1_000_000 - conf) as u32, te, ee, sum_nonneg(amounts) as u64,
    )->Ok_0).0;
    if nopt >= 0 {
        nopt
    } else {
        0
    }
}

/// For the orchestrator's options, planning reduces to the amount-only
/// specification above.
proof fn lemma_sampling_plan_specs(
    amounts: Seq<i64>,
    o: PlanningOptions,
    conf: u32,
    te: u64,
    ee: u64,
)
    requires
        o.confidence_ppm == conf,
        o.tolerable_error == Some(te),
        o.expected_error == Some(ee),
        o.n_min == 0,
        !o.errors_as_pct,
        !o.conservative,
        amounts.len() >= 1,
    ensures
        crate::planning::spec_plan_error(amounts, o) == spec_sampling_plan_error(
            amounts, conf, te, ee),
        crate::planning::spec_plan_error(amounts, o) is None
            ==> crate::planning::spec_plan_n(amounts, o) == spec_sampling_plan_n(
            amounts, conf, te, ee),
{
    let bv = sum_nonneg(amounts);
    assert(!crate::planning::pct_mode(o));
    assert(crate::planning::spec_resolved_te(bv, o) == Some(te));
    assert(crate::planning::spec_resolved_ee(bv, o) == Some(ee));
    assert(crate::planning::spec_alpha(o) == (1_000_000 - conf) as u32);
}

/// A positive plain sum needs at least one entry.
proof fn lemma_positive_sum_nonempty(s: Seq<i64>)
    requires
        crate::extraction::sum_all(s) > 0,
    ensures
        s.len() >= 1,
{
}

/// Selects records by monetary unit sampling under a rule: plans the sample
/// size from the effective amounts, selects indices by systematic
/// probability-proportional-to-size sampling, and keeps the first hit of
/// each index.
///
/// Fails when the population's total effective amount is not positive or too
/// large for exact arithmetic, or when planning fails.
pub fn perform_mus_sampling_with_rules(
    population: &Vec<Record>,
    rule: &ResolvedRule,
    tolerable_error: u64,
    expected_error: u64,
    confidence_ppm: u32,
) -> (r: Result<Vec<Record>, MusError>)
    requires
        population@.len() <= 0x100_0000,
        expected_error <= 0x8000_0000_0000,
    ensures
        exists|dcv: Option<Seq<char>>, ccv: Option<Seq<char>>, amounts: Seq<i64>, u: int|
            #![trigger crate::pps::spec_pps(amounts, spec_sampling_plan_n(
                amounts, confidence_ppm, tolerable_error, expected_error), u),
                spec_col_opt(spec_probe(population@), crate::journal::debit_col_cands(), dcv),
                spec_col_opt(spec_probe(population@), crate::journal::credit_col_cands(), ccv)]
            {
                &&& spec_col_opt(spec_probe(population@), crate::journal::debit_col_cands(), dcv)
                &&& spec_col_opt(spec_probe(population@), crate::journal::credit_col_cands(), ccv)
                &&& amounts == spec_amounts(
                    population@,
                    (match rule.value_column {
                        Some(c) => Some(c@),
                        None => None,
                    }),
                    dcv,
                    ccv,
                    rule.transaction_type,
                )
                &&& (match r {
                    Ok(out) => {
                        let n = spec_sampling_plan_n(
                            amounts, confidence_ppm, tolerable_error, expected_error);
                        let sel = crate::pps::spec_dedup(crate::pps::spec_pps(amounts, n, u));
                        &&& sum_nonneg(amounts) <= 0x8000_0000_0000
                        &&& crate::extraction::sum_all(amounts) > 0
                        &&& spec_sampling_plan_error(
                            amounts, confidence_ppm, tolerable_error, expected_error) is None
                        &&& 0 <= u
                        &&& (n > 0 ==> u < crate::extraction::sum_all(amounts))
                        &&& (n == 0 ==> out@.len() == 0)
                        &&& out@.len() == sel.len()
                        &&& sel.len() <= n
                        &&& forall|k: int| 0 <= k < sel.len() ==> 0 <= sel[k] < population@.len()
                            && (#[trigger] out@[k]).values@
                            == population@[sel[k] as int].values@
                        &&& forall|k1: int, k2: int| 0 <= k1 < k2 < sel.len() ==> sel[k1]
                            < sel[k2]
                    },
                    Err(e) => {
                        if sum_nonneg(amounts) > 0x8000_0000_0000 {
                            e matches MusError::InvalidInput(m)
                                && m@ == "population amount is too large for exact planning"@
                        } else if crate::extraction::sum_all(amounts) <= 0 {
                            e matches MusError::InvalidInput(m)
                                && m@ == "population amount is empty or not positive"@
                        } else {
                            match spec_sampling_plan_error(
                                amounts, confidence_ppm, tolerable_error, expected_error) {
                                Some((invalid, msg)) => (match e {
                                    MusError::InvalidInput(m) => invalid && m@ == msg,
                                    MusError::Calculation(m) => !invalid && m@ == msg,
                                }),
                                None => false,
                            }
                        }
                    },
                })
            },
{
    // Probe the first record's own columns for the debit and credit names,
    // as a population carries no separate header row.
    let header_probe: Vec<String> = match population.len() {
        0 => Vec::new(),
        _ => keys_of(&population[0]),
    };
    proof {
        let probe = spec_probe(population@);
        assert(header_probe@.len() == probe.len());
        assert forall|i: int| 0 <= i < probe.len() implies (#[trigger] probe[i])@
            == header_probe@[i]@ by {
            if population@.len() > 0 {
                assert(probe[i] == population@[0].values@.map_values(
                    |p: (String, String)| p.0)[i]);
            }
        }
    }
    let debit_col = crate::journal::find_debit_col(&header_probe);
    let credit_col = crate::journal::find_credit_col(&header_probe);
    let ghost dcv = match &debit_col {
        Some(h) => Some(h@),
        None => None::<Seq<char>>,
    };
    let ghost ccv = match &credit_col {
        Some(h) => Some(h@),
        None => None::<Seq<char>>,
    };
    proof {
        lemma_col_opt_transfer(
            header_probe@, spec_probe(population@), crate::journal::debit_col_cands(), debit_col);
        lemma_col_opt_transfer(
            header_probe@, spec_probe(population@), crate::journal::credit_col_cands(),
            credit_col);
    }
    let amounts = amounts_from_population(
        population,
        rule.value_column.as_ref(),
        debit_col.as_ref(),
        credit_col.as_ref(),
        &rule.transaction_type,
    );
    proof {
        assert(amounts@ == spec_amounts(
            population@,
            (match rule.value_column {
                Some(c) => Some(c@),
                None => None,
            }),
            dcv,
            ccv,
            rule.transaction_type,
        ));
    }
    // Bound the population so the exact integer planner applies.
    let mut total_ok = true;
    let mut acc: u64 = 0;
    let n = amounts.len();
    for i in 0..n
        invariant
            n == amounts@.len(),
            total_ok ==> acc == sum_nonneg(amounts@.take(i as int)),
            total_ok ==> acc <= 0x8000_0000_0000,
            !total_ok ==> sum_nonneg(amounts@) > 0x8000_0000_0000,
    {
        proof {
            crate::planning::lemma_sum_nonneg_take_step(amounts@, i as int);
        }
        if total_ok {
            let v = amounts[i];
            if v > 0 {
                if (v as u64) > 0x8000_0000_0000 || acc > 0x8000_0000_0000 - (v as u64) {
                    proof {
                        lemma_sum_nonneg_take_grows(amounts@, i + 1);
                    }
                    total_ok = false;
                } else {
                    acc = acc + (v as u64);
                }
            }
        }
    }
    if !total_ok {
        proof {
            assert(spec_col_opt(spec_probe(population@), crate::journal::debit_col_cands(), dcv));
            assert(spec_col_opt(spec_probe(population@), crate::journal::credit_col_cands(), ccv));
            let _t = crate::pps::spec_pps(
                amounts@,
                spec_sampling_plan_n(amounts@, confidence_ppm, tolerable_error, expected_error),
                0int,
            );
        }
        return Err(MusError::InvalidInput(
            "population amount is too large for exact planning".to_owned()));
    }
    proof {
        assert(amounts@.take(n as int) =~= amounts@);
    }
    let total = crate::extraction::sum_all_exec(&amounts);
    if total <= 0 {
        proof {
            assert(spec_col_opt(spec_probe(population@), crate::journal::debit_col_cands(), dcv));
            assert(spec_col_opt(spec_probe(population@), crate::journal::credit_col_cands(), ccv));
            let _t = crate::pps::spec_pps(
                amounts@,
                spec_sampling_plan_n(amounts@, confidence_ppm, tolerable_error, expected_error),
                0int,
            );
        }
        return Err(MusError::InvalidInput(
            "population amount is empty or not positive".to_owned()));
    }
    let mut opts = PlanningOptions::default();
    opts.confidence_ppm = confidence_ppm;
    opts.tolerable_error = Some(tolerable_error);
    opts.expected_error = Some(expected_error);
    let plan = match crate::planning::mus_planning(&amounts, opts) {
        Ok(p) => p,
        Err(e) => {
            proof {
                lemma_positive_sum_nonempty(amounts@);
                lemma_sampling_plan_specs(
                    amounts@, opts, confidence_ppm, tolerable_error, expected_error);
                assert(spec_col_opt(
                    spec_probe(population@), crate::journal::debit_col_cands(), dcv));
                assert(spec_col_opt(
                    spec_probe(population@), crate::journal::credit_col_cands(), ccv));
                let _t = crate::pps::spec_pps(
                    amounts@,
                    spec_sampling_plan_n(
                        amounts@, confidence_ppm, tolerable_error, expected_error),
                    0int,
                );
            }
            return Err(e);
        },
    };
    if plan.n == 0 {
        let out: Vec<Record> = Vec::new();
        proof {
            lemma_positive_sum_nonempty(amounts@);
            lemma_sampling_plan_specs(
                amounts@, opts, confidence_ppm, tolerable_error, expected_error);
            assert(spec_sampling_plan_n(
                amounts@, confidence_ppm, tolerable_error, expected_error) == 0);
            assert(crate::pps::spec_pps(
                amounts@,
                spec_sampling_plan_n(amounts@, confidence_ppm, tolerable_error, expected_error),
                0int,
            ) =~= Seq::<usize>::empty());
            assert(crate::pps::spec_dedup(Seq::<usize>::empty()) =~= Seq::<usize>::empty());
            assert(spec_col_opt(spec_probe(population@), crate::journal::debit_col_cands(), dcv));
            assert(spec_col_opt(spec_probe(population@), crate::journal::credit_col_cands(), ccv));
        }
        return Ok(out);
    }
    let idxs = crate::pps::select_pps(&amounts, plan.n);
    let ghost uw = choose|u: int|
        0 <= u && (crate::pps::sum_all_amounts(amounts@) > 0 ==> u < crate::pps::sum_all_amounts(
            amounts@)) && idxs@ == crate::pps::spec_dedup(
            #[trigger] crate::pps::spec_pps(amounts@, plan.n as int, u));
    let mut out: Vec<Record> = Vec::new();
    let m = idxs.len();
    for k in 0..m
        invariant
            m == idxs@.len(),
            amounts@.len() == population@.len(),
            forall|t: int| 0 <= t < m ==> idxs@[t] < amounts@.len(),
            out@.len() == k,
            forall|t: int| 0 <= t < k ==> (#[trigger] out@[t]).values@
                == population@[idxs@[t] as int].values@,
    {
        out.push(clone_record(&population[idxs[k]]));
    }
    proof {
        lemma_positive_sum_nonempty(amounts@);
        lemma_sampling_plan_specs(amounts@, opts, confidence_ppm, tolerable_error, expected_error);
        assert(plan.n as int == spec_sampling_plan_n(
            amounts@, confidence_ppm, tolerable_error, expected_error));
        assert(idxs@ == crate::pps::spec_dedup(
            crate::pps::spec_pps(amounts@, plan.n as int, uw)));
        assert(0 <= uw && uw < crate::extraction::sum_all(amounts@));
        assert(spec_col_opt(spec_probe(population@), crate::journal::debit_col_cands(), dcv));
        assert(spec_col_opt(spec_probe(population@), crate::journal::credit_col_cands(), ccv));
        assert(crate::pps::spec_pps(
            amounts@,
            spec_sampling_plan_n(amounts@, confidence_ppm, tolerable_error, expected_error),
            uw,
        ) == crate::pps::spec_pps(amounts@, plan.n as int, uw));
    }
    Ok(out)
}

/// Finder results carry over to any header list with the same name views.
proof fn lemma_col_opt_transfer(
    a: Seq<String>,
    b: Seq<String>,
    cands: Seq<Seq<char>>,
    r: Option<String>,
)
    requires
        a.len() == b.len(),
        forall|i: int| 0 <= i < a.len() ==> (#[trigger] b[i])@ == a[i]@,
        crate::journal::spec_found_col(a, cands, r),
    ensures
        spec_col_opt(b, cands, (match r {
            Some(h) => Some(h@),
            None => None,
        })),
{
    match r {
        Some(h) => {
            let i = choose|i: int|
                {
                    &&& 0 <= i < a.len()
                    &&& crate::journal::spec_col_match(#[trigger] a[i]@, cands)
                    &&& h@ == a[i]@
                    &&& forall|j: int| 0 <= j < i ==> !crate::journal::spec_col_match(
                        #[trigger] a[j]@, cands)
                };
            assert(b[i]@ == a[i]@);
            assert forall|j: int| 0 <= j < i implies !crate::journal::spec_col_match(
                #[trigger] b[j]@, cands) by {
                assert(b[j]@ == a[j]@);
            }
            assert(crate::journal::spec_col_match(b[i]@, cands));
        },
        None => {
            assert forall|i: int| 0 <= i < b.len() implies !crate::journal::spec_col_match(
                #[trigger] b[i]@, cands) by {
                assert(b[i]@ == a[i]@);
            }
        },
    }
}

/// The sum of non-negative prefix entries only grows.
proof fn lemma_sum_nonneg_take_grows(s: Seq<i64>, i: int)
    requires
        0 <= i <= s.len(),
    ensures
        sum_nonneg(s.take(i)) <= sum_nonneg(s),
    decreases s.len() - i,
{
    crate::planning::lemma_sum_nonneg_take_le(s, i);
}

/// The keys of a record's columns, in order, as character sequences.
pub open spec fn spec_keys_of(r: Record) -> Seq<String> {
    r.values@.map_values(|p: (String, String)| p.0)
}

/// The header names probed from the first record, when there is one.
pub open spec fn spec_probe(pop: Seq<Record>) -> Seq<String> {
    if pop.len() == 0 {
        Seq::empty()
    } else {
        spec_keys_of(pop[0])
    }
}

/// Whether `v` is the view of the first header matching `cands`.
pub open spec fn spec_col_opt(headers: Seq<String>, cands: Seq<Seq<char>>, v: Option<Seq<char>>) -> bool {
    match v {
        None => forall|i: int| 0 <= i < headers.len()
            ==> !crate::journal::spec_col_match(#[trigger] headers[i]@, cands),
        Some(hv) => exists|i: int|
            {
                &&& 0 <= i < headers.len()
                &&& crate::journal::spec_col_match(#[trigger] headers[i]@, cands)
                &&& hv == headers[i]@
                &&& forall|j: int| 0 <= j < i ==> !crate::journal::spec_col_match(
                    #[trigger] headers[j]@, cands)
            },
    }
}

/// The keys of a record's columns, in order.
fn keys_of(r: &Record) -> (ks: Vec<String>)
    ensures
        ks@.len() == r.values@.len(),
        forall|k: int| 0 <= k < r.values@.len() ==> ks@[k]@ == (#[trigger] r.values@[k]).0@,
{
    let mut out: Vec<String> = Vec::new();
    let n = r.values.len();
    for i in 0..n
        invariant
            n == r.values@.len(),
            out@.len() == i,
            forall|k: int| 0 <= k < i ==> out@[k]@ == (#[trigger] r.values@[k]).0@,
    {
        out.push(r.values[i].0.clone());
    }
    out
}

/// The date a ledger cell denotes, if any.
pub open spec fn spec_date_of(v: Seq<char>) -> Option<DateYmd> {
    if trimmed(v).len() == 0 {
        None
    } else {
        match spec_parse_flex_from(trimmed(v), 0) {
            Some(d) => Some(DateYmd { year: d.0, month: d.1, day: d.2 }),
            None => None,
        }
    }
}

/// The direction a direction cell's text names: credit wins over debit when
/// both appear; the comparison against the English words is case-folded.
pub open spec fn spec_dir_from_text(v: Seq<char>) -> Option<bool> {
    let t = trimmed(v);
    let is_d = spec_contains_seq(t, seq!['借']) || lower_of(t) == "debit"@;
    let is_c = spec_contains_seq(t, seq!['贷']) || lower_of(t) == "credit"@;
    if is_c {
        Some(false)
    } else if is_d {
        Some(true)
    } else {
        None
    }
}

/// The record's direction: the direction column's text when decisive, else
/// the signs of the debit, credit and signed amounts.
pub open spec fn spec_is_debit(
    values: Seq<(String, String)>,
    dirc: Option<Seq<char>>,
    dc: Option<Seq<char>>,
    cc: Option<Seq<char>>,
    sgc: Option<Seq<char>>,
) -> Option<bool> {
    let from_text = (match dirc {
        Some(c) => (match spec_get_from(values, c, 0) {
            Some(v) => spec_dir_from_text(v),
            None => None,
        }),
        None => None,
    });
    match from_text {
        Some(b) => Some(b),
        None => {
            let d = (match dc {
                Some(c) => spec_cell_amount(values, c),
                None => 0,
            });
            let cam = (match cc {
                Some(c) => spec_cell_amount(values, c),
                None => 0,
            });
            if d > 0 {
                Some(true)
            } else if cam > 0 {
                Some(false)
            } else if d < 0 {
                Some(true)
            } else if cam < 0 {
                Some(false)
            } else {
                match sgc {
                    Some(c) => {
                        let sa = spec_cell_amount(values, c);
                        if sa > 0 {
                            Some(true)
                        } else if sa < 0 {
                            Some(false)
                        } else {
                            None
                        }
                    },
                    None => None,
                }
            }
        },
    }
}

/// Whether one ledger row enters the population: inside the period, on the
/// requested report subject, matching an account-code prefix when codes are
/// configured, of the rule's direction, and with a positive effective
/// amount.
pub open spec fn spec_row_selected(
    values: Seq<(String, String)>,
    period: (DateYmd, DateYmd),
    account: Seq<char>,
    codes: Seq<Seq<char>>,
    datec: Option<Seq<char>>,
    acctc: Option<Seq<char>>,
    dc: Option<Seq<char>>,
    cc: Option<Seq<char>>,
    dirc: Option<Seq<char>>,
    subjc: Option<Seq<char>>,
    sgc: Option<Seq<char>>,
    rule_dir: TransactionType,
    vcol: Option<Seq<char>>,
) -> bool {
    let date_ok = (match datec {
        Some(c) => (match spec_get_from(values, c, 0) {
            Some(v) => (match spec_date_of(v) {
                Some(d) => period.0.spec_le(d) && d.spec_le(period.1),
                None => false,
            }),
            None => false,
        }),
        None => true,
    });
    let subj_ok = (match subjc {
        Some(c) => (match spec_get_from(values, c, 0) {
            Some(v) => trimmed(v) == account,
            None => true,
        }),
        None => true,
    });
    let codes_ok = if codes.len() == 0 {
        true
    } else {
        match acctc {
            Some(c) => (match spec_get_from(values, c, 0) {
                Some(code) => exists|j: int| 0 <= j < codes.len() && spec_prefix_of(
                    trimmed(code), #[trigger] codes[j]),
                None => true,
            }),
            None => true,
        }
    };
    let dir_ok = (match (rule_dir, spec_is_debit(values, dirc, dc, cc, sgc)) {
        (TransactionType::Debit, Some(b)) => b,
        (TransactionType::Credit, Some(b)) => !b,
        _ => false,
    });
    let amt_ok = spec_effective_amount(values, vcol, dc, cc, rule_dir) > 0;
    date_ok && subj_ok && codes_ok && dir_ok && amt_ok
}

fn opt_view(c: Option<&String>) -> (r: Ghost<Option<Seq<char>>>)
    ensures
        r@ == (match c {
            Some(s) => Some(s@),
            None => None::<Seq<char>>,
        }),
{
    match c {
        Some(s) => Ghost(Some(s@)),
        None => Ghost(None),
    }
}

/// Decides one row, mirroring `spec_row_selected`.
#[verifier::rlimit(100)]
fn row_selected(
    r: &Record,
    period: (DateYmd, DateYmd),
    account: &Vec<char>,
    codes: &Vec<String>,
    datec: Option<&String>,
    acctc: Option<&String>,
    dc: Option<&String>,
    cc: Option<&String>,
    dirc: Option<&String>,
    subjc: Option<&String>,
    sgc: Option<&String>,
    rule_dir: TransactionType,
    vcol: Option<&String>,
) -> (sel: bool)
    ensures
        sel == spec_row_selected(
            r.values@,
            period,
            account@,
            codes@.map_values(|c: String| c@),
            opt_view_spec(datec),
            opt_view_spec(acctc),
            opt_view_spec(dc),
            opt_view_spec(cc),
            opt_view_spec(dirc),
            opt_view_spec(subjc),
            opt_view_spec(sgc),
            rule_dir,
            opt_view_spec(vcol),
        ),
{
    let ghost codesv = codes@.map_values(|c: String| c@);
    // period filter
    let date_ok: bool = match datec {
        Some(c) => match r.get(c) {
            Some(v) => match crate::journal::parse_date_flex(v.as_str()) {
                Some(d) => period.0.le(&d) && d.le(&period.1),
                None => false,
            },
            None => false,
        },
        None => true,
    };
    // report subject filter
    let subj_ok: bool = match subjc {
        Some(c) => match r.get(c) {
            Some(v) => {
                let t = trim_str(v.as_str());
                let tv = chars_of(t);
                crate::text::chars_eq(&tv, account)
            },
            None => true,
        },
        None => true,
    };
    // account-code prefix filter
    let codes_ok: bool = if codes.len() == 0 {
        true
    } else {
        match acctc {
            Some(c) => match r.get(c) {
                Some(code) => {
                    let ct = trim_str(code.as_str());
                    let ctv = chars_of(ct);
                    let m = codes.len();
                    let mut hit = false;
                    for j in 0..m
                        invariant
                            m == codes@.len(),
                            codesv == codes@.map_values(|c2: String| c2@),
                            ctv@ == trimmed(spec_get_from(r.values@, c@, 0)->Some_0),
                            spec_get_from(r.values@, c@, 0) is Some,
                            !hit ==> forall|t: int| 0 <= t < j ==> !spec_prefix_of(
                                ctv@, #[trigger] codesv[t]),
                            hit ==> exists|t: int| 0 <= t < codesv.len() && spec_prefix_of(
                                ctv@, #[trigger] codesv[t]),
                    {
                        if !hit {
                            let cj = chars_of(codes[j].as_str());
                            if crate::text::starts_with_chars(&ctv, &cj) {
                                proof {
                                    assert(codesv[j as int] == codes@[j as int]@);
                                }
                                hit = true;
                            }
                        }
                    }
                    hit
                },
                None => true,
            },
            None => true,
        }
    };
    // direction
    let from_text: Option<bool> = match dirc {
        Some(c) => match r.get(c) {
            Some(v) => dir_from_text(v.as_str()),
            None => None,
        },
        None => None,
    };
    let is_debit: Option<bool> = match from_text {
        Some(b) => Some(b),
        None => {
            let d = match dc {
                Some(c) => cell_amount(r, c),
                None => 0,
            };
            let cam = match cc {
                Some(c) => cell_amount(r, c),
                None => 0,
            };
            if d > 0 {
                Some(true)
            } else if cam > 0 {
                Some(false)
            } else if d < 0 {
                Some(true)
            } else if cam < 0 {
                Some(false)
            } else {
                match sgc {
                    Some(c) => {
                        let sa = cell_amount(r, c);
                        if sa > 0 {
                            Some(true)
                        } else if sa < 0 {
                            Some(false)
                        } else {
                            None
                        }
                    },
                    None => None,
                }
            }
        },
    };
    let dir_ok: bool = match (rule_dir, is_debit) {
        (TransactionType::Debit, Some(b)) => b,
        (TransactionType::Credit, Some(b)) => !b,
        _ => false,
    };
    let amt = effective_amount_for_rule(r, vcol, dc, cc, &rule_dir);
    let amt_ok = amt > 0;
    date_ok && subj_ok && codes_ok && dir_ok && amt_ok
}

/// The view of an optional column name.
pub open spec fn opt_view_spec(c: Option<&String>) -> Option<Seq<char>> {
    match c {
        Some(s) => Some(s@),
        None => None,
    }
}

/// The view of an owned optional column name.
pub open spec fn opt_view_owned(c: Option<String>) -> Option<Seq<char>> {
    match c {
        Some(s) => Some(s@),
        None => None,
    }
}

/// Reads a direction cell.
fn dir_from_text(v: &str) -> (r: Option<bool>)
    ensures
        r == spec_dir_from_text(v@),
{
    let t = trim_str(v);
    let tv = chars_of(t);
    let mut jie: Vec<char> = Vec::new();
    jie.push('借');
    let mut dai: Vec<char> = Vec::new();
    dai.push('贷');
    proof {
        assert(jie@ =~= seq!['借']);
        assert(dai@ =~= seq!['贷']);
    }
    let low = to_lowercase_str(t);
    let lowv = chars_of(low.as_str());
    let debitw = chars_of("debit");
    let creditw = chars_of("credit");
    let is_d = crate::text::contains_chars(&tv, &jie) || crate::text::chars_eq(&lowv, &debitw);
    let is_c = crate::text::contains_chars(&tv, &dai) || crate::text::chars_eq(&lowv, &creditw);
    if is_c {
        Some(false)
    } else if is_d {
        Some(true)
    } else {
        None
    }
}

/// The rows of the population, in order: those `spec_row_selected` keeps.
pub open spec fn spec_selected_rows(
    rows: Seq<Record>,
    period: (DateYmd, DateYmd),
    account: Seq<char>,
    codes: Seq<Seq<char>>,
    datec: Option<Seq<char>>,
    acctc: Option<Seq<char>>,
    dc: Option<Seq<char>>,
    cc: Option<Seq<char>>,
    dirc: Option<Seq<char>>,
    subjc: Option<Seq<char>>,
    sgc: Option<Seq<char>>,
    rule_dir: TransactionType,
    vcol: Option<Seq<char>>,
    recs: Seq<Record>,
) -> bool
    decreases rows.len(),
{
    if rows.len() == 0 {
        recs.len() == 0
    } else {
        let keep = spec_row_selected(
            rows.last().values@, period, account, codes, datec, acctc, dc, cc, dirc, subjc, sgc,
            rule_dir, vcol);
        if keep {
            recs.len() > 0 && recs.last().values@ == rows.last().values@ && spec_selected_rows(
                rows.drop_last(), period, account, codes, datec, acctc, dc, cc, dirc, subjc, sgc,
                rule_dir, vcol, recs.drop_last())
        } else {
            spec_selected_rows(
                rows.drop_last(), period, account, codes, datec, acctc, dc, cc, dirc, subjc, sgc,
                rule_dir, vcol, recs)
        }
    }
}

/// The trimmed, non-empty account codes of a rule.
pub open spec fn spec_norm_codes(cs: Seq<String>) -> Seq<Seq<char>>
    decreases cs.len(),
{
    if cs.len() == 0 {
        Seq::empty()
    } else {
        let rest = spec_norm_codes(cs.drop_last());
        if trimmed(cs.last()@).len() == 0 {
            rest
        } else {
            rest.push(trimmed(cs.last()@))
        }
    }
}

/// Builds the population for one account under one rule: locates the ledger
/// columns by name, then keeps the rows inside the period, on the subject,
/// matching the code prefixes, of the rule's direction, and with a positive
/// effective amount.
pub fn build_population(
    data: &JournalData,
    period: (DateYmd, DateYmd),
    account_name: &str,
    rule: &ResolvedRule,
) -> (out: Vec<Record>)
    ensures
        exists|
            datec: Option<Seq<char>>,
            acctc: Option<Seq<char>>,
            dcv: Option<Seq<char>>,
            ccv: Option<Seq<char>>,
            dirc: Option<Seq<char>>,
            subjc: Option<Seq<char>>,
            sgc: Option<Seq<char>>,
        |
            {
                &&& #[trigger] spec_col_opt(data.headers@, crate::journal::date_col_cands(), datec)
                &&& #[trigger] spec_col_opt(
                    data.headers@, crate::journal::acct_code_col_cands(), acctc)
                &&& #[trigger] spec_col_opt(data.headers@, crate::journal::debit_col_cands(), dcv)
                &&& #[trigger] spec_col_opt(data.headers@, crate::journal::credit_col_cands(), ccv)
                &&& #[trigger] spec_col_opt(
                    data.headers@, crate::journal::direction_col_cands(), dirc)
                &&& #[trigger] spec_col_opt(
                    data.headers@, crate::journal::signed_amount_col_cands(), sgc)
                &&& #[trigger] spec_subject_col(data.headers@, subjc)
                &&& spec_selected_rows(
                    data.rows@,
                    period,
                    account_name@,
                    spec_norm_codes(match rule.account_codes {
                        Some(cs) => cs@,
                        None => Seq::empty(),
                    }),
                    datec,
                    acctc,
                    dcv,
                    ccv,
                    dirc,
                    subjc,
                    sgc,
                    rule.transaction_type,
                    (match rule.value_column {
                        Some(c) => Some(c@),
                        None => None,
                    }),
                    out@,
                )
            },
{
    let date_col = crate::journal::find_date_col(&data.headers);
    let acct_col = crate::journal::find_acct_code_col(&data.headers);
    let debit_col = crate::journal::find_debit_col(&data.headers);
    let credit_col = crate::journal::find_credit_col(&data.headers);
    let dir_col = crate::journal::find_direction_col(&data.headers);
    let subject_col = crate::journal::find_report_subject_col(&data.headers);
    let signed_col = crate::journal::find_signed_amount_col(&data.headers);
    proof {
        lemma_col_opt_same(data.headers@, crate::journal::date_col_cands(), date_col);
        lemma_col_opt_same(data.headers@, crate::journal::acct_code_col_cands(), acct_col);
        lemma_col_opt_same(data.headers@, crate::journal::debit_col_cands(), debit_col);
        lemma_col_opt_same(data.headers@, crate::journal::credit_col_cands(), credit_col);
        lemma_col_opt_same(data.headers@, crate::journal::direction_col_cands(), dir_col);
        lemma_col_opt_same(data.headers@, crate::journal::signed_amount_col_cands(), signed_col);
    }
    // normalize the configured account codes
    let mut codes: Vec<String> = Vec::new();
    let ghost rawcodes: Seq<String> = match &rule.account_codes {
        Some(cs) => cs@,
        None => Seq::empty(),
    };
    if let Some(cs) = rule.account_codes.as_ref() {
        let m = cs.len();
        for j in 0..m
            invariant
                m == cs@.len(),
                rawcodes == cs@,
                codes@.map_values(|c: String| c@) =~= spec_norm_codes(cs@.take(j as int)),
        {
            proof {
                assert(cs@.take(j as int + 1).drop_last() =~= cs@.take(j as int));
            }
            let t = trim_str(cs[j].as_str());
            if !t.is_empty() {
                codes.push(t.to_owned());
            }
            proof {
                assert(codes@.map_values(|c: String| c@) =~= spec_norm_codes(
                    cs@.take(j as int + 1)));
            }
        }
        proof {
            assert(cs@.take(m as int) =~= cs@);
        }
    }
    proof {
        assert(codes@.map_values(|c: String| c@) =~= spec_norm_codes(rawcodes));
    }
    let account = chars_of(account_name);
    let mut out: Vec<Record> = Vec::new();
    let n = data.rows.len();
    let ghost codesv = codes@.map_values(|c: String| c@);
    let ghost datev = opt_view_owned(date_col);
    let ghost acctv = opt_view_owned(acct_col);
    let ghost dcv = opt_view_owned(debit_col);
    let ghost ccv = opt_view_owned(credit_col);
    let ghost dirv = opt_view_owned(dir_col);
    let ghost subjv = opt_view_owned(subject_col);
    let ghost sgv = opt_view_owned(signed_col);
    let ghost vcolv: Option<Seq<char>> = match &rule.value_column {
        Some(c) => Some(c@),
        None => None,
    };
    for i in 0..n
        invariant
            n == data.rows@.len(),
            account@ == account_name@,
            codesv == codes@.map_values(|c: String| c@),
            datev == opt_view_owned(date_col),
            acctv == opt_view_owned(acct_col),
            dcv == opt_view_owned(debit_col),
            ccv == opt_view_owned(credit_col),
            dirv == opt_view_owned(dir_col),
            subjv == opt_view_owned(subject_col),
            sgv == opt_view_owned(signed_col),
            vcolv == (match &rule.value_column {
                Some(c) => Some(c@),
                None => None::<Seq<char>>,
            }),
            spec_selected_rows(
                data.rows@.take(i as int), period, account_name@, codesv, datev, acctv, dcv, ccv,
                dirv, subjv, sgv, rule.transaction_type, vcolv, out@),
    {
        let keep = row_selected(
            &data.rows[i],
            period,
            &account,
            &codes,
            date_col.as_ref(),
            acct_col.as_ref(),
            debit_col.as_ref(),
            credit_col.as_ref(),
            dir_col.as_ref(),
            subject_col.as_ref(),
            signed_col.as_ref(),
            rule.transaction_type,
            rule.value_column.as_ref(),
        );
        let ghost pre = out@;
        proof {
            assert(data.rows@.take(i as int + 1).drop_last() =~= data.rows@.take(i as int));
            assert(data.rows@.take(i as int + 1).last() == data.rows@[i as int]);
        }
        if keep {
            out.push(clone_record(&data.rows[i]));
            proof {
                assert(out@.drop_last() =~= pre);
            }
        }
    }
    proof {
        assert(data.rows@.take(n as int) =~= data.rows@);
        assert(spec_col_opt(data.headers@, crate::journal::date_col_cands(), datev));
        assert(spec_col_opt(data.headers@, crate::journal::acct_code_col_cands(), acctv));
        assert(spec_col_opt(data.headers@, crate::journal::debit_col_cands(), dcv));
        assert(spec_col_opt(data.headers@, crate::journal::credit_col_cands(), ccv));
        assert(spec_col_opt(data.headers@, crate::journal::direction_col_cands(), dirv));
        assert(spec_col_opt(data.headers@, crate::journal::signed_amount_col_cands(), sgv));
        assert(spec_subject_col(data.headers@, subjv));
        assert(spec_selected_rows(
            data.rows@, period, account_name@, codesv, datev, acctv, dcv, ccv, dirv, subjv, sgv,
            rule.transaction_type, vcolv, out@));
    }
    out
}

/// Whether `v` is the view of the first header that, trimmed, names the
/// report-subject column.
pub open spec fn spec_subject_col(headers: Seq<String>, v: Option<Seq<char>>) -> bool {
    match v {
        None => forall|i: int| 0 <= i < headers.len()
            ==> trimmed(#[trigger] headers[i]@) != "报表科目"@,
        Some(hv) => exists|i: int|
            {
                &&& 0 <= i < headers.len()
                &&& trimmed(#[trigger] headers[i]@) == "报表科目"@
                &&& hv == headers[i]@
            },
    }
}

/// A finder result read as an optional view.
proof fn lemma_col_opt_same(headers: Seq<String>, cands: Seq<Seq<char>>, r: Option<String>)
    requires
        crate::journal::spec_found_col(headers, cands, r),
    ensures
        spec_col_opt(headers, cands, (match r {
            Some(h) => Some(h@),
            None => None,
        })),
{
    lemma_col_opt_transfer(headers, headers, cands, r);
}


/// Relies on `rand::seq::SliceRandom::shuffle` over a fresh index vector:
/// a permutation of the indices below `len`, so all entries are in bounds
/// and pairwise distinct.
#[verifier::external_body]
fn shuffled_indices(len: usize) -> (r: Vec<usize>)
    ensures
        r@.len() == len,
        forall|k: int| 0 <= k < len ==> r@[k] < len,
        forall|k1: int, k2: int| 0 <= k1 < k2 < len ==> r@[k1] != r@[k2],
{
    let mut v: Vec<usize> = (0..len).collect();
    v.shuffle(&mut rand::rng());
    v
}

/// The number of set marks.
pub open spec fn spec_count_true(bs: Seq<bool>) -> int
    decreases bs.len(),
{
    if bs.len() == 0 {
        0
    } else {
        spec_count_true(bs.drop_last()) + if bs.last() {
            1int
        } else {
            0int
        }
    }
}

proof fn lemma_count_update(bs: Seq<bool>, i: int)
    requires
        0 <= i < bs.len(),
        !bs[i],
    ensures
        spec_count_true(bs.update(i, true)) == spec_count_true(bs) + 1,
    decreases bs.len(),
{
    if i == bs.len() - 1 {
        assert(bs.update(i, true).drop_last() =~= bs.drop_last());
    } else {
        assert(bs.update(i, true).drop_last() =~= bs.drop_last().update(i, true));
        lemma_count_update(bs.drop_last(), i);
    }
}

/// The marked records, in order.
pub open spec fn spec_marked_rows(pop: Seq<Record>, marks: Seq<bool>, recs: Seq<Record>) -> bool
    decreases pop.len(),
{
    if pop.len() == 0 || marks.len() != pop.len() {
        recs.len() == 0
    } else {
        if marks.last() {
            recs.len() > 0 && recs.last().values@ == pop.last().values@ && spec_marked_rows(
                pop.drop_last(), marks.drop_last(), recs.drop_last())
        } else {
            spec_marked_rows(pop.drop_last(), marks.drop_last(), recs)
        }
    }
}

proof fn lemma_marked_len(pop: Seq<Record>, marks: Seq<bool>, recs: Seq<Record>)
    requires
        marks.len() == pop.len(),
        spec_marked_rows(pop, marks, recs),
    ensures
        recs.len() == spec_count_true(marks),
    decreases pop.len(),
{
    if pop.len() > 0 {
        if marks.last() {
            lemma_marked_len(pop.drop_last(), marks.drop_last(), recs.drop_last());
        } else {
            lemma_marked_len(pop.drop_last(), marks.drop_last(), recs);
        }
    }
}

/// Selects `size` records uniformly at random, keeping the ledger order;
/// a request for at least the whole population returns it unchanged.
pub fn perform_random_sampling_with_rules(population: &Vec<Record>, size: usize) -> (r: Vec<
    Record,
>)
    ensures
        size >= population@.len() ==> r@.len() == population@.len() && (forall|k: int|
            0 <= k < population@.len() ==> (#[trigger] r@[k]).values@
                == population@[k].values@),
        size < population@.len() ==> r@.len() == size && exists|marks: Seq<bool>|
            {
                &&& marks.len() == population@.len()
                &&& spec_count_true(marks) == size
                &&& #[trigger] spec_marked_rows(population@, marks, r@)
            },
{
    let len = population.len();
    if size >= len {
        let mut out: Vec<Record> = Vec::new();
        for i in 0..len
            invariant
                len == population@.len(),
                out@.len() == i,
                forall|k: int| 0 <= k < i ==> (#[trigger] out@[k]).values@
                    == population@[k].values@,
        {
            out.push(clone_record(&population[i]));
        }
        return out;
    }
    let idxs = shuffled_indices(len);
    let mut marks: Vec<bool> = Vec::new();
    for i in 0..len
        invariant
            marks@.len() == i,
            forall|k: int| 0 <= k < i ==> !(#[trigger] marks@[k]),
    {
        marks.push(false);
    }
    proof {
        lemma_count_all_false(marks@);
    }
    for k in 0..size
        invariant
            size < len == population@.len(),
            marks@.len() == len,
            idxs@.len() == len,
            forall|t: int| 0 <= t < len ==> idxs@[t] < len,
            forall|t1: int, t2: int| 0 <= t1 < t2 < len ==> idxs@[t1] != idxs@[t2],
            spec_count_true(marks@) == k,
            forall|j: int| 0 <= j < len ==> ((#[trigger] marks@[j]) <==> exists|t: int|
                0 <= t < k && idxs@[t] == j),
    {
        let j = idxs[k];
        proof {
            if marks@[j as int] {
                let t = choose|t: int| 0 <= t < k && idxs@[t] == j as int;
                assert(idxs@[t] == idxs@[k as int]);
                assert(false);
            }
            lemma_count_update(marks@, j as int);
        }
        marks.set(j, true);
        proof {
            assert forall|j2: int| 0 <= j2 < len implies ((#[trigger] marks@[j2]) <==> exists|
                t: int| 0 <= t < k + 1 && idxs@[t] == j2) by {
                if marks@[j2] {
                    if j2 == j as int {
                        assert(idxs@[k as int] == j2);
                    } else {
                        let t = choose|t: int| 0 <= t < k && idxs@[t] == j2;
                        assert(0 <= t < k + 1 && idxs@[t] == j2);
                    }
                }
            }
        }
    }
    let mut out: Vec<Record> = Vec::new();
    for i in 0..len
        invariant
            len == population@.len(),
            marks@.len() == len,
            spec_marked_rows(population@.take(i as int), marks@.take(i as int), out@),
    {
        let ghost pre = out@;
        proof {
            assert(population@.take(i as int + 1).drop_last() =~= population@.take(i as int));
            assert(marks@.take(i as int + 1).drop_last() =~= marks@.take(i as int));
        }
        if marks[i] {
            out.push(clone_record(&population[i]));
            proof {
                assert(out@.drop_last() =~= pre);
            }
        }
    }
    proof {
        assert(population@.take(len as int) =~= population@);
        assert(marks@.take(len as int) =~= marks@);
        lemma_marked_len(population@, marks@, out@);
    }
    out
}

proof fn lemma_count_all_false(bs: Seq<bool>)
    requires
        forall|k: int| 0 <= k < bs.len() ==> !(#[trigger] bs[k]),
    ensures
        spec_count_true(bs) == 0,
    decreases bs.len(),
{
    if bs.len() > 0 {
        lemma_count_all_false(bs.drop_last());
    }
}


} // verus!
