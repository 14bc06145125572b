use audit_sampling::journal::{
    find_acct_code_col, find_credit_col, find_date_col, find_debit_col, find_direction_col,
    find_report_subject_col, find_signed_amount_col, find_voucher_line_col, normalize_header,
    parse_amount, parse_date_flex, DateYmd, JournalData, Record, rows_to_records,
};
use audit_sampling::population::{build_population, ResolvedRule, TransactionType};
use audit_sampling::sheets::{parse_int_like, sanitize_sheet_name, unique_sheet_name, voucher_order};
use audit_sampling::text::{truncate_chars, truncate_to_bytes};

fn headers(hs: &[&str]) -> Vec<String> {
    hs.iter().map(|s| (*s).to_owned()).collect()
}

fn record_for(hs: &[&str], cells: &[&str]) -> Record {
    let values = hs
        .iter()
        .zip(cells.iter())
        .map(|(k, v)| ((*k).to_owned(), (*v).to_owned()))
        .collect();
    Record { values }
}

#[test]
fn amounts_parse_to_hundredths() {
    assert_eq!(parse_amount("1,234.56"), 123456);
    assert_eq!(parse_amount("  12.3 "), 1230);
    assert_eq!(parse_amount("12"), 1200);
    assert_eq!(parse_amount("-7.25"), -725);
    assert_eq!(parse_amount("(¥1,000)"), -100000);
    assert_eq!(parse_amount("（2.50）"), -250);
    assert_eq!(parse_amount("$3.99"), 399);
    assert_eq!(parse_amount("12.345"), 1234);
    assert_eq!(parse_amount(".5"), 50);
    assert_eq!(parse_amount("5."), 500);
    assert_eq!(parse_amount(""), 0);
    assert_eq!(parse_amount("abc"), 0);
    assert_eq!(parse_amount("1.2.3"), 0);
}

#[test]
fn dates_parse_in_all_formats() {
    let d = DateYmd { year: 2024, month: 1, day: 2 };
    assert_eq!(parse_date_flex("2024-01-02"), Some(d));
    assert_eq!(parse_date_flex("2024/01/02"), Some(d));
    assert_eq!(parse_date_flex("2024.01.02"), Some(d));
    assert_eq!(parse_date_flex("20240102"), Some(d));
    assert_eq!(parse_date_flex("2024-01-02 03:04:05"), Some(d));
    assert_eq!(parse_date_flex("2024-01-02T03:04:05"), Some(d));
    assert_eq!(parse_date_flex("2024年01月02日"), Some(d));
    assert_eq!(parse_date_flex(""), None);
    assert_eq!(parse_date_flex("not a date"), None);
}

#[test]
fn column_finders_match_known_headers() {
    let hs = headers(&[
        "凭证行号", "记账日期", "报表科目", "科目编码", "借方金额", "贷方金额", "方向", "借正贷负",
    ]);
    assert_eq!(find_date_col(&hs).as_deref(), Some("记账日期"));
    assert_eq!(find_acct_code_col(&hs).as_deref(), Some("科目编码"));
    assert_eq!(find_debit_col(&hs).as_deref(), Some("借方金额"));
    assert_eq!(find_credit_col(&hs).as_deref(), Some("贷方金额"));
    assert_eq!(find_direction_col(&hs).as_deref(), Some("方向"));
    assert_eq!(find_report_subject_col(&hs).as_deref(), Some("报表科目"));
    assert_eq!(find_signed_amount_col(&hs).as_deref(), Some("借正贷负"));
    assert_eq!(find_voucher_line_col(&hs).as_deref(), Some("凭证行号"));
    let en = headers(&["Date", "DEBIT_AMOUNT", "Credit"]);
    assert_eq!(find_date_col(&en).as_deref(), Some("Date"));
    assert_eq!(find_debit_col(&en).as_deref(), Some("DEBIT_AMOUNT"));
    assert_eq!(find_credit_col(&en).as_deref(), Some("Credit"));
    let none = headers(&["x", "y"]);
    assert_eq!(find_date_col(&none), None);
    assert_eq!(find_report_subject_col(&none), None);
}

#[test]
fn header_normalization_trims() {
    assert_eq!(normalize_header("  日期  "), "日期");
    assert_eq!(normalize_header("date"), "date");
}

#[test]
fn blank_rows_are_dropped() {
    let hs = headers(&["a", "b"]);
    let rows: Vec<Vec<String>> = vec![
        vec!["1".to_owned(), "2".to_owned()],
        vec!["  ".to_owned(), "".to_owned()],
        vec!["3".to_owned(), "4".to_owned()],
    ];
    let recs = rows_to_records(&hs, &rows);
    assert_eq!(recs.len(), 2);
    assert_eq!(recs[0].values[0], ("a".to_owned(), "1".to_owned()));
    assert_eq!(recs[1].values[1], ("b".to_owned(), "4".to_owned()));
}

#[test]
fn population_filters_period_subject_direction_and_amount() {
    let hs = headers(&["记账日期", "报表科目", "科目编码", "借方金额", "贷方金额"]);
    let rows = vec![
        record_for(&["记账日期", "报表科目", "科目编码", "借方金额", "贷方金额"],
            &["2024-01-05", "营业收入", "6001", "100.00", "0"]),
        // outside the period
        record_for(&["记账日期", "报表科目", "科目编码", "借方金额", "贷方金额"],
            &["2023-01-05", "营业收入", "6001", "100.00", "0"]),
        // wrong subject
        record_for(&["记账日期", "报表科目", "科目编码", "借方金额", "贷方金额"],
            &["2024-01-06", "管理费用", "6602", "50.00", "0"]),
        // credit movement, not debit
        record_for(&["记账日期", "报表科目", "科目编码", "借方金额", "贷方金额"],
            &["2024-01-07", "营业收入", "6001", "0", "80.00"]),
        // zero amount
        record_for(&["记账日期", "报表科目", "科目编码", "借方金额", "贷方金额"],
            &["2024-01-08", "营业收入", "6001", "0", "0"]),
        // wrong account-code prefix
        record_for(&["记账日期", "报表科目", "科目编码", "借方金额", "贷方金额"],
            &["2024-01-09", "营业收入", "9999", "70.00", "0"]),
    ];
    let data = JournalData { headers: hs, rows };
    let rule = ResolvedRule {
        population_name: "营业收入_借方".to_owned(),
        account_codes: Some(vec!["60".to_owned()]),
        transaction_type: TransactionType::Debit,
        value_column: None,
    };
    let start = DateYmd { year: 2024, month: 1, day: 1 };
    let end = DateYmd { year: 2024, month: 12, day: 31 };
    let pop = build_population(&data, (start, end), "营业收入", &rule);
    assert_eq!(pop.len(), 1);
    assert_eq!(pop[0].values[0].1, "2024-01-05");
}

#[test]
fn sheet_names_are_sanitized() {
    assert_eq!(sanitize_sheet_name("a/b*c?"), "abc");
    assert_eq!(sanitize_sheet_name("'quoted'"), "quoted");
    assert_eq!(sanitize_sheet_name("   "), "Sheet");
    assert_eq!(sanitize_sheet_name("[]:"), "Sheet");
    let long = "abcdefghijklmnopqrstuvwxyz0123456789";
    assert_eq!(sanitize_sheet_name(long).chars().count(), 31);
    // wide characters are cut so the name stays within thirty-one bytes
    let wide = "数据表数据表数据表数据表数据表";
    let cut = sanitize_sheet_name(wide);
    assert!(cut.len() <= 31);
    assert_eq!(cut, "数据表数据表数据表数");
}

#[test]
fn sheet_names_are_made_unique() {
    let mut used: Vec<String> = Vec::new();
    let a = unique_sheet_name("收入", &mut used);
    assert_eq!(a, "收入");
    let b = unique_sheet_name("收入", &mut used);
    assert_eq!(b, "收入 (2)");
    let c = unique_sheet_name("收入", &mut used);
    assert_eq!(c, "收入 (3)");
    assert_eq!(used, vec!["收入", "收入 (2)", "收入 (3)"]);
}

#[test]
fn voucher_lines_sort_numbers_before_text() {
    assert_eq!(parse_int_like("1,234"), Some(1234));
    assert_eq!(parse_int_like(" -5 "), Some(-5));
    assert_eq!(parse_int_like("a1"), None);
    assert_eq!(parse_int_like(""), None);
    assert_eq!(parse_int_like("1-2"), None);
    let vc = "凭证行号".to_owned();
    let r2 = record_for(&["凭证行号"], &["2"]);
    let r10 = record_for(&["凭证行号"], &["10"]);
    let rx = record_for(&["凭证行号"], &["x"]);
    let ry = record_for(&["凭证行号"], &["y"]);
    assert_eq!(voucher_order(&r2, &r10, &vc), -1);
    assert_eq!(voucher_order(&r10, &r2, &vc), 1);
    assert_eq!(voucher_order(&r2, &r2, &vc), 0);
    assert_eq!(voucher_order(&r2, &rx, &vc), -1);
    assert_eq!(voucher_order(&rx, &r2, &vc), 1);
    assert_eq!(voucher_order(&rx, &ry, &vc), -1);
}

#[test]
fn truncation_by_characters_and_bytes() {
    assert_eq!(truncate_chars("hello", 3), "hel");
    assert_eq!(truncate_chars("hello", 10), "hello");
    assert_eq!(truncate_chars("数据表", 2), "数据");
    assert_eq!(truncate_to_bytes("hello", 3), "hel");
    // a three-byte character does not fit in two bytes
    assert_eq!(truncate_to_bytes("数据", 2), "");
    assert_eq!(truncate_to_bytes("数据", 3), "数");
    assert_eq!(truncate_to_bytes("数据", 7), "数据");
}
