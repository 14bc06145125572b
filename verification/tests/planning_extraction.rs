use audit_sampling::errors::MusError;
use audit_sampling::extraction::{mus_extraction, ExtractionOptions};
use audit_sampling::planning::{mus_planning, PlanWarning, PlanningOptions};
use audit_sampling::ratio::ExtRatio;

fn ramp_500() -> Vec<i64> {
    let mut data = Vec::new();
    for i in 0..500u64 {
        data.push(((i % 1000) + 1) as i64);
    }
    data
}

fn base_opts(te: u64, ee: u64) -> PlanningOptions {
    let mut o = PlanningOptions::default();
    o.tolerable_error = Some(te);
    o.expected_error = Some(ee);
    o
}

#[test]
fn planning_and_extraction_simple() {
    // 500 invoices with a simple ramp of book values 1..=1000
    let data = ramp_500();
    let opts = base_opts(100_000, 20_000);
    let plan = mus_planning(&data, opts).expect("plan");
    // Basic sanity: a definite, positive sample size within the population
    assert!(plan.n >= 1);
    assert!(plan.n <= 500);
    assert!(matches!(plan.high_value_threshold, ExtRatio::Finite(_)));
    // Extraction with fixed seed and obey_n_as_min for determinism;
    // the start point 5.0 is five hundred hundredths.
    let eopts = ExtractionOptions {
        start_point: Some(500),
        seed: Some(0),
        obey_n_as_min: true,
        combined: false,
    };
    let ext = mus_extraction(&plan, eopts).expect("extract");
    assert!(ext.sample.len() <= plan.n);
    // The reassessed interval equals the sampled population total over the
    // sample size, exactly.
    let pop_sum: i64 = ext.sample_population.iter().map(|(v, _)| *v).sum();
    match ext.sampling_interval {
        ExtRatio::Finite(r) => {
            assert_eq!(r.num, pop_sum as i128);
            assert_eq!(r.den, ext.sample.len() as u64);
        }
        ExtRatio::Infinite => assert_eq!(ext.sample.len(), 0),
    }
}

#[test]
fn zero_sample_iff_tolerable_covers_book_value() {
    // tolerable error exactly the book value: no sampling necessary
    let data = vec![100i64; 10];
    let plan = mus_planning(&data, base_opts(1000, 0)).expect("plan");
    assert_eq!(plan.n, 0);
    assert!(matches!(plan.high_value_threshold, ExtRatio::Infinite));
    assert!(plan.warnings.contains(&PlanWarning::NoSamplingNecessary));
    // and extraction then fails with invalid input
    let e = mus_extraction(&plan, ExtractionOptions::default());
    assert!(matches!(e, Err(MusError::InvalidInput(_))));
    // below the book value a sample is required
    let plan2 = mus_planning(&data, base_opts(999, 0)).expect("plan2");
    assert!(plan2.n > 0);
    match plan2.high_value_threshold {
        ExtRatio::Finite(r) => {
            assert_eq!(r.num, plan2.book_value as i128);
            assert_eq!(r.den, plan2.n as u64);
        }
        ExtRatio::Infinite => panic!("threshold must be finite"),
    }
}

#[test]
fn monotone_in_expected_error() {
    let data = ramp_500();
    let n1 = mus_planning(&data, base_opts(100_000, 10_000)).expect("p1").n;
    let n2 = mus_planning(&data, base_opts(100_000, 30_000)).expect("p2").n;
    assert!(n1 <= n2);
}

#[test]
fn extraction_deterministic_with_seed() {
    let data = ramp_500();
    let plan = mus_planning(&data, base_opts(100_000, 20_000)).expect("plan");
    let eopts = ExtractionOptions {
        start_point: None,
        seed: Some(42),
        obey_n_as_min: false,
        combined: false,
    };
    let e1 = mus_extraction(&plan, eopts).expect("e1");
    let e2 = mus_extraction(&plan, eopts).expect("e2");
    assert_eq!(e1.start_point, e2.start_point);
    // the drawn start point lies within the interval, in hundredths
    assert!(e1.start_point <= 100 * plan.book_value);
    assert_eq!(e1.sample.len(), e2.sample.len());
    for k in 0..e1.sample.len() {
        assert_eq!(e1.sample[k], e2.sample[k]);
    }
    assert_eq!(e1.high_values, e2.high_values);
}

#[test]
fn identical_values_have_unit_spans() {
    // every item worth 100: every selected item's span is exactly 100 wide
    let data = vec![100i64; 500];
    let plan = mus_planning(&data, base_opts(5_000, 0)).expect("plan");
    assert!(plan.n > 0);
    let eopts = ExtractionOptions {
        start_point: Some(100),
        seed: Some(7),
        obey_n_as_min: false,
        combined: false,
    };
    let ext = mus_extraction(&plan, eopts).expect("extract");
    assert!(ext.sample.len() > 0);
    for item in &ext.sample {
        assert_eq!(item.book_value, 100);
        assert_eq!(item.cum_after - item.cum_before, 100);
    }
}

#[test]
fn high_values_always_included() {
    // one dominating item is certain to be audited
    let mut data = vec![10i64; 50];
    data.push(100_000);
    let plan = mus_planning(&data, base_opts(20_000, 0)).expect("plan");
    assert!(plan.n > 0);
    let eopts = ExtractionOptions {
        start_point: Some(0),
        seed: None,
        obey_n_as_min: false,
        combined: false,
    };
    let ext = mus_extraction(&plan, eopts).expect("extract");
    assert!(ext.high_values.contains(&100_000));
    for item in &ext.sample {
        assert!(item.book_value < 100_000);
    }
}

#[test]
fn planning_rejects_bad_inputs() {
    let data = vec![1i64, 2, 3];
    // empty population
    let empty: Vec<i64> = Vec::new();
    assert!(matches!(
        mus_planning(&empty, base_opts(10, 0)),
        Err(MusError::InvalidInput(_))
    ));
    // confidence outside (0, 1)
    let mut o = base_opts(10, 0);
    o.confidence_ppm = 1_000_000;
    assert!(matches!(mus_planning(&data, o), Err(MusError::InvalidInput(_))));
    // unresolved tolerable error
    let mut o2 = PlanningOptions::default();
    o2.expected_error = Some(0);
    assert!(matches!(mus_planning(&data, o2), Err(MusError::InvalidInput(_))));
    // zero tolerable error
    assert!(matches!(
        mus_planning(&data, base_opts(0, 0)),
        Err(MusError::InvalidInput(_))
    ));
    // unresolved expected error
    let mut o3 = PlanningOptions::default();
    o3.tolerable_error = Some(10);
    assert!(matches!(mus_planning(&data, o3), Err(MusError::InvalidInput(_))));
    // floor at least the population size
    let mut o4 = base_opts(2, 0);
    o4.n_min = 3;
    assert!(matches!(mus_planning(&data, o4), Err(MusError::InvalidInput(_))));
}

#[test]
fn extraction_rejects_start_point_outside_interval() {
    let data = vec![100i64; 10];
    let plan = mus_planning(&data, base_opts(100, 0)).expect("plan");
    assert!(plan.n > 0);
    // the interval is book_value / n; a start point far beyond it fails
    let eopts = ExtractionOptions {
        start_point: Some(100 * plan.book_value + 1),
        seed: None,
        obey_n_as_min: false,
        combined: false,
    };
    let e = mus_extraction(&plan, eopts);
    assert!(matches!(e, Err(MusError::InvalidInput(_))));
}

#[test]
fn conservative_sizing_never_shrinks_the_sample() {
    let data = vec![10i64; 100];
    let plain = mus_planning(&data, base_opts(100, 0)).expect("plain");
    let mut o = base_opts(100, 0);
    o.conservative = true;
    let cons = mus_planning(&data, o).expect("cons");
    // the Gamma-quantile size exceeds the plain hypergeometric size here
    assert!(cons.n > plain.n);
    assert!(cons.n >= 1);
}

#[test]
fn percentage_mode_resolves_against_book_value() {
    // ten percent of the book value of 1000 is a tolerable error of 100
    let data = vec![10i64; 100];
    let mut o = PlanningOptions::default();
    o.errors_as_pct = true;
    o.tolerable_error = Some(100_000);  // ten percent, in parts per million
    o.expected_error = Some(0);
    let p = mus_planning(&data, o).expect("plan");
    assert_eq!(p.tolerable_error, 100);
    assert_eq!(p.expected_error, 0);
    let q = mus_planning(&data, base_opts(100, 0)).expect("plain");
    assert_eq!(p.n, q.n);
}

#[test]
fn warnings_report_zero_and_negative_values() {
    let data = vec![0i64, -5, 10, 20];
    let plan = mus_planning(&data, base_opts(30, 0)).expect("plan");
    assert_eq!(plan.book_value, 30);
    assert!(plan.warnings.contains(&PlanWarning::ZeroValues));
    assert!(plan.warnings.contains(&PlanWarning::NegativeValues));
}

#[test]
fn tainting_bound_is_expected_error_rate_times_n() {
    let data = ramp_500();
    let plan = mus_planning(&data, base_opts(100_000, 20_000)).expect("plan");
    let t = plan.tolerable_taintings;
    assert_eq!(t.num, (plan.expected_error as i128) * (plan.n as i128));
    assert_eq!(t.den, plan.book_value);
}

#[test]
fn error_messages_name_the_condition() {
    let empty: Vec<i64> = Vec::new();
    match mus_planning(&empty, base_opts(10, 0)) {
        Err(e) => assert_eq!(e.message(), "data must contain at least one item"),
        Ok(_) => panic!("must fail"),
    }
}
