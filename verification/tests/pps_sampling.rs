use audit_sampling::journal::Record;
use audit_sampling::population::{
    perform_mus_sampling_with_rules, perform_random_sampling_with_rules, ResolvedRule,
    TransactionType,
};
use audit_sampling::pps::{dedup_indices, pps_indices_from, pps_systematic_indices, select_pps};

fn record(pairs: &[(&str, &str)]) -> Record {
    let values = pairs
        .iter()
        .map(|(k, v)| ((*k).to_owned(), (*v).to_owned()))
        .collect();
    Record { values }
}

#[test]
fn select_pps_bounds_and_order() {
    let amounts: Vec<i64> = (1..=10).collect();
    let idxs = select_pps(&amounts, 3);
    assert!(idxs.len() <= 3);
    for k in 0..idxs.len() {
        assert!(idxs[k] < amounts.len());
        if k > 0 {
            assert!(idxs[k - 1] < idxs[k]);
        }
    }
}

#[test]
fn select_pps_empty_cases() {
    let amounts: Vec<i64> = vec![1, 2, 3];
    assert_eq!(select_pps(&amounts, 0).len(), 0);
    let none: Vec<i64> = Vec::new();
    assert_eq!(select_pps(&none, 3).len(), 0);
    let negative: Vec<i64> = vec![-1, -2];
    assert_eq!(select_pps(&negative, 2).len(), 0);
    assert_eq!(pps_systematic_indices(&negative, 2).len(), 0);
}

#[test]
fn pps_indices_for_known_offset() {
    // total 400, two thresholds at monetary positions 0 and 200:
    // position zero covers nothing, position 200 lands on the second item
    let amounts: Vec<i64> = vec![100, 100, 100, 100];
    let idxs = pps_indices_from(&amounts, 2, 0);
    assert_eq!(idxs, vec![1]);
    // offset 100 puts thresholds at positions 50 and 250
    let idxs2 = pps_indices_from(&amounts, 2, 100);
    assert_eq!(idxs2, vec![0, 2]);
}

#[test]
fn pps_large_item_hit_repeatedly_then_deduplicated() {
    // one item worth nearly everything is hit by several thresholds
    let amounts: Vec<i64> = vec![1, 997, 1, 1];
    let idxs = pps_indices_from(&amounts, 4, 2);
    assert!(idxs.len() == 4);
    let uniq = dedup_indices(&idxs);
    assert!(uniq.len() < idxs.len());
    for k in 1..uniq.len() {
        assert!(uniq[k - 1] < uniq[k]);
    }
    assert!(uniq.contains(&1));
}

#[test]
fn random_sampling_keeps_order_and_size() {
    let pop: Vec<Record> = (0..10)
        .map(|i| record(&[("凭证行号", &i.to_string() as &str), ("借方金额", "10")]))
        .collect();
    let all = perform_random_sampling_with_rules(&pop, 10);
    assert_eq!(all.len(), 10);
    let all2 = perform_random_sampling_with_rules(&pop, 99);
    assert_eq!(all2.len(), 10);
    let some = perform_random_sampling_with_rules(&pop, 4);
    assert_eq!(some.len(), 4);
    // records keep the ledger order: their line numbers are increasing
    let mut last = -1i64;
    for r in &some {
        let v: i64 = r.values[0].1.parse().unwrap();
        assert!(v > last);
        last = v;
    }
}

#[test]
fn mus_sampling_selects_distinct_records() {
    let pop: Vec<Record> = (0..50)
        .map(|i| {
            let amt = format!("{}", (i + 1) * 10);
            record(&[("借方金额", &amt as &str), ("贷方金额", "0")])
        })
        .collect();
    let rule = ResolvedRule {
        population_name: "test".to_owned(),
        account_codes: None,
        transaction_type: TransactionType::Debit,
        value_column: None,
    };
    let out = perform_mus_sampling_with_rules(&pop, &rule, 2_000, 0, 900_000).expect("sample");
    assert!(out.len() >= 1);
    assert!(out.len() <= 50);
}

#[test]
fn mus_sampling_propagates_planning_failure() {
    // a confidence level outside (0, 1) is the planner's error, surfaced
    let pop: Vec<Record> = (0..5).map(|_| record(&[("借方金额", "100")])).collect();
    let rule = ResolvedRule {
        population_name: "bad".to_owned(),
        account_codes: None,
        transaction_type: TransactionType::Debit,
        value_column: None,
    };
    match perform_mus_sampling_with_rules(&pop, &rule, 100, 0, 1_000_000) {
        Err(e) => assert_eq!(e.message(), "confidence.level must be in (0,1)"),
        Ok(_) => panic!("must fail"),
    }
}

#[test]
fn mus_sampling_rejects_empty_total() {
    let pop: Vec<Record> = (0..5).map(|_| record(&[("借方金额", "0")])).collect();
    let rule = ResolvedRule {
        population_name: "empty".to_owned(),
        account_codes: None,
        transaction_type: TransactionType::Debit,
        value_column: None,
    };
    let r = perform_mus_sampling_with_rules(&pop, &rule, 100, 0, 900_000);
    assert!(r.is_err());
}
