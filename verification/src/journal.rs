use vstd::prelude::*;
use chrono::Datelike;
use crate::text::{
    chars_of, contains_chars, lower_of, spec_contains_seq, to_lowercase_str, trim_str, trimmed,
};

verus! {

/// One ledger row: column values keyed by header name, in header order.
#[derive(Debug, Clone)]
pub struct Record {
    pub values: Vec<(String, String)>,
}

/// A loaded ledger: its headers and its rows.
#[derive(Debug, Clone)]
pub struct JournalData {
    pub headers: Vec<String>,
    pub rows: Vec<Record>,
}

/// A calendar date as plain values; ordered like the calendar.
#[derive(Debug, Clone, Copy, PartialEq, Eq, Structural)]
pub struct DateYmd {
    pub year: i32,
    pub month: u32,
    pub day: u32,
}

impl DateYmd {
    /// Calendar order: lexicographic on year, month, day.
    pub open spec fn spec_le(self, other: DateYmd) -> bool {
        if self.year != other.year {
            self.year < other.year
        } else if self.month != other.month {
            self.month < other.month
        } else {
            self.day <= other.day
        }
    }

    /// Whether this date is on or before the other.
    pub fn le(&self, other: &DateYmd) -> (r: bool)
        ensures
            r == self.spec_le(*other),
    {
        if self.year != other.year {
            self.year < other.year
        } else if self.month != other.month {
            self.month < other.month
        } else {
            self.day <= other.day
        }
    }
}

/// A header name with surrounding whitespace removed.
pub fn normalize_header(h: &str) -> (r: String)
    ensures
        r@ == trimmed(h@),
{
    let t = trim_str(h);
    t.to_owned()
}

/// The first value stored under the given column name, by exact name match,
/// searching from index `i`.
pub open spec fn spec_get_from(values: Seq<(String, String)>, key: Seq<char>, i: int) -> Option<
    Seq<char>,
>
    decreases values.len() - i,
{
    if i < 0 || i >= values.len() {
        None
    } else if values[i].0@ == key {
        Some(values[i].1@)
    } else {
        spec_get_from(values, key, i + 1)
    }
}

impl Record {
    /// Looks up a column value by name.
    pub fn get(&self, key: &String) -> (r: Option<&String>)
        ensures
            (match r {
                Some(v) => spec_get_from(self.values@, key@, 0) == Some(v@),
                None => spec_get_from(self.values@, key@, 0) is None,
            }),
    {
        let n = self.values.len();
        for i in 0..n
            invariant
                n == self.values@.len(),
                forall|j: int| 0 <= j < i ==> #[trigger] spec_get_from(self.values@, key@, j)
                    == spec_get_from(self.values@, key@, j + 1),
        {
            if self.values[i].0 == *key {
                proof {
                    lemma_get_skip(self.values@, key@, 0, i as int);
                }
                return Some(&self.values[i].1);
            }
        }
        proof {
            lemma_get_skip(self.values@, key@, 0, n as int);
        }
        None
    }
}

proof fn lemma_get_skip(values: Seq<(String, String)>, key: Seq<char>, lo: int, k: int)
    requires
        0 <= lo <= k <= values.len(),
        forall|j: int| lo <= j < k ==> #[trigger] spec_get_from(values, key, j) == spec_get_from(
            values, key, j + 1),
    ensures
        spec_get_from(values, key, lo) == spec_get_from(values, key, k),
    decreases k - lo,
{
    if lo < k {
        lemma_get_skip(values, key, lo + 1, k);
    }
}

/// Whether a header matches one of the candidate names: its lowercase form
/// contains the candidate's lowercase form.
pub open spec fn spec_col_match(h: Seq<char>, cands: Seq<Seq<char>>) -> bool {
    exists|j: int| 0 <= j < cands.len() && spec_contains_seq(lower_of(h), lower_of(#[trigger] cands[j]))
}

/// Finds the first header whose lowercase form contains one of the
/// candidates' lowercase forms.
fn find_col(headers: &Vec<String>, cands: &Vec<String>) -> (r: Option<String>)
    ensures
        (match r {
            None => forall|i: int| 0 <= i < headers@.len()
                ==> !spec_col_match(#[trigger] headers@[i]@, cands@.map_values(|c: String| c@)),
            Some(h) => exists|i: int|
                {
                    &&& 0 <= i < headers@.len()
                    &&& spec_col_match(#[trigger] headers@[i]@, cands@.map_values(|c: String| c@))
                    &&& h@ == headers@[i]@
                    &&& forall|j: int| 0 <= j < i ==> !spec_col_match(
                        #[trigger] headers@[j]@, cands@.map_values(|c: String| c@))
                },
        }),
{
    let ghost cvs = cands@.map_values(|c: String| c@);
    let n = headers.len();
    let m = cands.len();
    for i in 0..n
        invariant
            n == headers@.len(),
            m == cands@.len(),
            cvs == cands@.map_values(|c: String| c@),
            forall|j: int| 0 <= j < i ==> !spec_col_match(#[trigger] headers@[j]@, cvs),
    {
        let low = to_lowercase_str(headers[i].as_str());
        let lowv = chars_of(low.as_str());
        let mut found = false;
        for j in 0..m
            invariant
                m == cands@.len(),
                n == headers@.len(),
                i < n,
                cvs == cands@.map_values(|c: String| c@),
                lowv@ == lower_of(headers@[i as int]@),
                !found ==> forall|t: int| 0 <= t < j ==> !spec_contains_seq(
                    lower_of(headers@[i as int]@), lower_of(#[trigger] cvs[t])),
                found ==> spec_col_match(headers@[i as int]@, cvs),
        {
            if !found {
                let cl = to_lowercase_str(cands[j].as_str());
                let clv = chars_of(cl.as_str());
                if contains_chars(&lowv, &clv) {
                    proof {
                        assert(cvs[j as int] == cands@[j as int]@);
                        assert(spec_contains_seq(
                            lower_of(headers@[i as int]@), lower_of(cvs[j as int])));
                        assert(spec_col_match(headers@[i as int]@, cvs));
                    }
                    found = true;
                }
            }
        }
        if found {
            return Some(headers[i].clone());
        }
    }
    None
}

/// Finds the first header that, trimmed, equals the given name exactly.
fn find_exact(headers: &Vec<String>, name: &str) -> (r: Option<String>)
    ensures
        (match r {
            None => forall|i: int| 0 <= i < headers@.len()
                ==> trimmed(#[trigger] headers@[i]@) != name@,
            Some(h) => exists|i: int|
                {
                    &&& 0 <= i < headers@.len()
                    &&& trimmed(#[trigger] headers@[i]@) == name@
                    &&& h@ == headers@[i]@
                    &&& forall|j: int| 0 <= j < i ==> trimmed(#[trigger] headers@[j]@) != name@
                },
        }),
{
    let nv = chars_of(name);
    let n = headers.len();
    for i in 0..n
        invariant
            n == headers@.len(),
            nv@ == name@,
            forall|j: int| 0 <= j < i ==> trimmed(#[trigger] headers@[j]@) != name@,
    {
        let t = trim_str(headers[i].as_str());
        let tv = chars_of(t);
        if crate::text::chars_eq(&tv, &nv) {
            return Some(headers[i].clone());
        }
    }
    None
}

/// The candidate names of the date column.
pub open spec fn date_col_cands() -> Seq<Seq<char>> {
    seq!["date"@, "日期"@, "记账日期"@, "凭证日期"@]
}

/// The candidate names of the account-code column.
pub open spec fn acct_code_col_cands() -> Seq<Seq<char>> {
    seq!["account_code"@, "科目编码"@, "科目代码"@, "会计科目代码"@, "会计科目编号"@, "科目号"@]
}

/// The candidate names of the debit-amount column.
pub open spec fn debit_col_cands() -> Seq<Seq<char>> {
    seq!["debit"@, "debit_amount"@, "借方"@, "借方发生额"@, "借方金额"@, "借方发生"@]
}

/// The candidate names of the credit-amount column.
pub open spec fn credit_col_cands() -> Seq<Seq<char>> {
    seq!["credit"@, "credit_amount"@, "贷方"@, "贷方发生额"@, "贷方金额"@, "贷方发生"@]
}

/// The candidate names of the direction column.
pub open spec fn direction_col_cands() -> Seq<Seq<char>> {
    seq!["方向"@, "借贷方向"@, "direction"@]
}

/// The candidate names of the signed-amount column.
pub open spec fn signed_amount_col_cands() -> Seq<Seq<char>> {
    seq!["借正贷负"@, "借贷净额"@, "signed"@, "net"@]
}

/// The first header matching `cands`, with nothing before it matching.
pub open spec fn spec_found_col(headers: Seq<String>, cands: Seq<Seq<char>>, r: Option<String>) -> bool {
    match r {
        None => forall|i: int| 0 <= i < headers.len()
            ==> !spec_col_match(#[trigger] headers[i]@, cands),
        Some(h) => exists|i: int|
            {
                &&& 0 <= i < headers.len()
                &&& spec_col_match(#[trigger] headers[i]@, cands)
                &&& h@ == headers[i]@
                &&& forall|j: int| 0 <= j < i ==> !spec_col_match(#[trigger] headers[j]@, cands)
            },
    }
}

/// Finds the date column among the headers.
pub fn find_date_col(headers: &Vec<String>) -> (r: Option<String>)
    ensures
        spec_found_col(headers@, date_col_cands(), r),
{
    let mut cands: Vec<String> = Vec::new();
    cands.push("date".to_owned());
    cands.push("日期".to_owned());
    cands.push("记账日期".to_owned());
    cands.push("凭证日期".to_owned());
    proof {
        assert(cands@.map_values(|c: String| c@) =~= date_col_cands());
    }
    find_col(headers, &cands)
}

/// Finds the account-code column among the headers.
pub fn find_acct_code_col(headers: &Vec<String>) -> (r: Option<String>)
    ensures
        spec_found_col(headers@, acct_code_col_cands(), r),
{
    let mut cands: Vec<String> = Vec::new();
    cands.push("account_code".to_owned());
    cands.push("科目编码".to_owned());
    cands.push("科目代码".to_owned());
    cands.push("会计科目代码".to_owned());
    cands.push("会计科目编号".to_owned());
    cands.push("科目号".to_owned());
    proof {
        assert(cands@.map_values(|c: String| c@) =~= acct_code_col_cands());
    }
    find_col(headers, &cands)
}

/// Finds the debit-amount column among the headers.
pub fn find_debit_col(headers: &Vec<String>) -> (r: Option<String>)
    ensures
        spec_found_col(headers@, debit_col_cands(), r),
{
    let mut cands: Vec<String> = Vec::new();
    cands.push("debit".to_owned());
    cands.push("debit_amount".to_owned());
    cands.push("借方".to_owned());
    cands.push("借方发生额".to_owned());
    cands.push("借方金额".to_owned());
    cands.push("借方发生".to_owned());
    proof {
        assert(cands@.map_values(|c: String| c@) =~= debit_col_cands());
    }
    find_col(headers, &cands)
}

/// Finds the credit-amount column among the headers.
pub fn find_credit_col(headers: &Vec<String>) -> (r: Option<String>)
    ensures
        spec_found_col(headers@, credit_col_cands(), r),
{
    let mut cands: Vec<String> = Vec::new();
    cands.push("credit".to_owned());
    cands.push("credit_amount".to_owned());
    cands.push("贷方".to_owned());
    cands.push("贷方发生额".to_owned());
    cands.push("贷方金额".to_owned());
    cands.push("贷方发生".to_owned());
    proof {
        assert(cands@.map_values(|c: String| c@) =~= credit_col_cands());
    }
    find_col(headers, &cands)
}

/// Finds the direction column among the headers.
pub fn find_direction_col(headers: &Vec<String>) -> (r: Option<String>)
    ensures
        spec_found_col(headers@, direction_col_cands(), r),
{
    let mut cands: Vec<String> = Vec::new();
    cands.push("方向".to_owned());
    cands.push("借贷方向".to_owned());
    cands.push("direction".to_owned());
    proof {
        assert(cands@.map_values(|c: String| c@) =~= direction_col_cands());
    }
    find_col(headers, &cands)
}

/// Finds the signed-amount column among the headers.
pub fn find_signed_amount_col(headers: &Vec<String>) -> (r: Option<String>)
    ensures
        spec_found_col(headers@, signed_amount_col_cands(), r),
{
    let mut cands: Vec<String> = Vec::new();
    cands.push("借正贷负".to_owned());
    cands.push("借贷净额".to_owned());
    cands.push("signed".to_owned());
    cands.push("net".to_owned());
    proof {
        assert(cands@.map_values(|c: String| c@) =~= signed_amount_col_cands());
    }
    find_col(headers, &cands)
}

/// Finds the report-subject column: an exact trimmed match, no aliases.
pub fn find_report_subject_col(headers: &Vec<String>) -> (r: Option<String>)
    ensures
        (match r {
            None => forall|i: int| 0 <= i < headers@.len()
                ==> trimmed(#[trigger] headers@[i]@) != "报表科目"@,
            Some(h) => exists|i: int|
                {
                    &&& 0 <= i < headers@.len()
                    &&& trimmed(#[trigger] headers@[i]@) == "报表科目"@
                    &&& h@ == headers@[i]@
                    &&& forall|j: int| 0 <= j < i ==> trimmed(#[trigger] headers@[j]@) != "报表科目"@
                },
        }),
{
    find_exact(headers, "报表科目")
}

/// Finds the voucher-line column: an exact trimmed match.
pub fn find_voucher_line_col(headers: &Vec<String>) -> (r: Option<String>)
    ensures
        (match r {
            None => forall|i: int| 0 <= i < headers@.len()
                ==> trimmed(#[trigger] headers@[i]@) != "凭证行号"@,
            Some(h) => exists|i: int|
                {
                    &&& 0 <= i < headers@.len()
                    &&& trimmed(#[trigger] headers@[i]@) == "凭证行号"@
                    &&& h@ == headers@[i]@
                    &&& forall|j: int| 0 <= j < i ==> trimmed(#[trigger] headers@[j]@) != "凭证行号"@
                },
        }),
{
    find_exact(headers, "凭证行号")
}

/// Whether a character is an ASCII decimal digit.
pub open spec fn spec_is_digit(c: char) -> bool {
    c == '0' || c == '1' || c == '2' || c == '3' || c == '4' || c == '5' || c == '6' || c == '7'
        || c == '8' || c == '9'
}

/// The value of one decimal digit.
pub open spec fn spec_digit_val(c: char) -> int {
    if c == '1' {
        1
    } else if c == '2' {
        2
    } else if c == '3' {
        3
    } else if c == '4' {
        4
    } else if c == '5' {
        5
    } else if c == '6' {
        6
    } else if c == '7' {
        7
    } else if c == '8' {
        8
    } else if c == '9' {
        9
    } else {
        0
    }
}

/// Whether every character is a decimal digit.
pub open spec fn spec_all_digits(s: Seq<char>) -> bool {
    forall|k: int| 0 <= k < s.len() ==> spec_is_digit(#[trigger] s[k])
}

/// The number the digit characters denote, most significant first.
pub open spec fn spec_digits_num(s: Seq<char>) -> int
    decreases s.len(),
{
    if s.len() == 0 {
        0
    } else {
        spec_digits_num(s.drop_last()) * 10 + spec_digit_val(s.last())
    }
}

/// Ten to the `n`.
pub open spec fn spec_pow10(n: nat) -> int
    decreases n,
{
    if n == 0 {
        1
    } else {
        10 * spec_pow10((n - 1) as nat)
    }
}

proof fn lemma_digits_num_bound(s: Seq<char>)
    ensures
        0 <= spec_digits_num(s) < spec_pow10(s.len()),
    decreases s.len(),
{
    if s.len() > 0 {
        lemma_digits_num_bound(s.drop_last());
    }
}

pub(crate) fn digit_value(c: char) -> (r: Option<u64>)
    ensures
        (match r {
            Some(v) => spec_is_digit(c) && v == spec_digit_val(c),
            None => !spec_is_digit(c),
        }),
{
    if c == '0' {
        Some(0)
    } else if c == '1' {
        Some(1)
    } else if c == '2' {
        Some(2)
    } else if c == '3' {
        Some(3)
    } else if c == '4' {
        Some(4)
    } else if c == '5' {
        Some(5)
    } else if c == '6' {
        Some(6)
    } else if c == '7' {
        Some(7)
    } else if c == '8' {
        Some(8)
    } else if c == '9' {
        Some(9)
    } else {
        None
    }
}

/// Reads a run of at most eighteen digits as a number.
pub(crate) fn digits_num(v: &Vec<char>, from: usize, to: usize) -> (r: Option<u64>)
    requires
        from <= to <= v@.len(),
        to - from <= 18,
    ensures
        (match r {
            Some(x) => spec_all_digits(v@.subrange(from as int, to as int)) && x == spec_digits_num(
                v@.subrange(from as int, to as int)) && x < 1_000_000_000_000_000_000,
            None => !spec_all_digits(v@.subrange(from as int, to as int)),
        }),
{
    let ghost whole = v@.subrange(from as int, to as int);
    let mut acc: u64 = 0;
    let mut i: usize = from;
    while i < to
        invariant
            from <= i <= to <= v@.len(),
            to - from <= 18,
            whole == v@.subrange(from as int, to as int),
            spec_all_digits(v@.subrange(from as int, i as int)),
            acc == spec_digits_num(v@.subrange(from as int, i as int)),
        decreases to - i,
    {
        let d = match digit_value(v[i]) {
            Some(d) => d,
            None => {
                proof {
                    assert(whole[i - from] == v@[i as int]);
                }
                return None;
            },
        };
        proof {
            let pre = v@.subrange(from as int, i as int);
            let nxt = v@.subrange(from as int, i as int + 1);
            assert(nxt.drop_last() =~= pre);
            assert(nxt.last() == v@[i as int]);
            lemma_digits_num_bound(pre);
            assert(spec_pow10(pre.len()) <= spec_pow10(17)) by {
                lemma_pow10_mono(pre.len(), 17);
            }
            assert(spec_pow10(17) == 100_000_000_000_000_000) by {
                reveal_with_fuel(spec_pow10, 19);
            }
        }
        acc = acc * 10 + d;
        i = i + 1;
    }
    proof {
        assert(v@.subrange(from as int, to as int) =~= whole);
        lemma_digits_num_bound(whole);
        lemma_pow10_mono(whole.len(), 18);
        assert(spec_pow10(18) == 1_000_000_000_000_000_000) by {
            reveal_with_fuel(spec_pow10, 20);
        }
    }
    Some(acc)
}

/// Ten to any power is positive.
pub proof fn lemma_pow10_pos(n: nat)
    ensures
        spec_pow10(n) >= 1,
    decreases n,
{
    if n > 0 {
        lemma_pow10_pos((n - 1) as nat);
    }
}

pub(crate) proof fn lemma_pow10_mono(a: nat, b: nat)
    requires
        a <= b,
    ensures
        spec_pow10(a) <= spec_pow10(b),
        spec_pow10(a) >= 1,
    decreases b,
{
    if a < b {
        lemma_pow10_mono(a, (b - 1) as nat);
    } else if b > 0 {
        lemma_pow10_mono((a - 1) as nat, (b - 1) as nat);
    }
}

/// The index of the first decimal point at or after `i`, or the length.
pub open spec fn spec_first_dot(s: Seq<char>, i: int) -> int
    decreases s.len() - i,
{
    if i < 0 || i >= s.len() {
        s.len() as int
    } else if s[i] == '.' {
        i
    } else {
        spec_first_dot(s, i + 1)
    }
}

/// The magnitude in hundredths that an unsigned decimal numeral denotes:
/// whole hundredths, further fraction digits dropped; nothing when the text
/// is not a plain decimal numeral of at most fifteen integer digits.
pub open spec fn spec_cents_unsigned(s: Seq<char>) -> Option<int> {
    let k = spec_first_dot(s, 0);
    if k == s.len() {
        if 1 <= s.len() <= 15 && spec_all_digits(s) {
            Some(100 * spec_digits_num(s))
        } else {
            None
        }
    } else {
        let ip = s.take(k);
        let fp = s.skip(k + 1);
        if spec_all_digits(ip) && spec_all_digits(fp) && ip.len() <= 15 && ip.len() + fp.len()
            >= 1 {
            Some(
                100 * spec_digits_num(ip) + (if fp.len() >= 1 {
                    10 * spec_digit_val(fp[0])
                } else {
                    0
                }) + (if fp.len() >= 2 {
                    spec_digit_val(fp[1])
                } else {
                    0
                }),
            )
        } else {
            None
        }
    }
}

proof fn lemma_first_dot_skip(s: Seq<char>, lo: int, k: int)
    requires
        0 <= lo <= k <= s.len(),
        forall|j: int| lo <= j < k ==> s[j] != '.',
    ensures
        spec_first_dot(s, lo) == spec_first_dot(s, k),
    decreases k - lo,
{
    if lo < k {
        lemma_first_dot_skip(s, lo + 1, k);
    }
}

/// Parses an unsigned decimal numeral to hundredths.
fn cents_unsigned(v: &Vec<char>) -> (r: Option<u64>)
    ensures
        (match r {
            Some(x) => spec_cents_unsigned(v@) == Some(x as int) && x
                <= 99_999_999_999_999_999,
            None => spec_cents_unsigned(v@) is None,
        }),
{
    let n = v.len();
    let mut k: usize = 0;
    while k < n && v[k] != '.'
        invariant
            k <= n == v@.len(),
            forall|j: int| 0 <= j < k ==> v@[j] != '.',
        decreases n - k,
    {
        k = k + 1;
    }
    proof {
        lemma_first_dot_skip(v@, 0, k as int);
        assert(spec_first_dot(v@, 0) == k as int);
    }
    if k == n {
        if n == 0 || n > 15 {
            return None;
        }
        match digits_num(v, 0, n) {
            Some(x) => {
                proof {
                    assert(v@.subrange(0, n as int) =~= v@);
                    lemma_digits_num_bound(v@);
                    lemma_pow10_mono(v@.len(), 15);
                    assert(spec_pow10(15) == 1_000_000_000_000_000) by {
                        reveal_with_fuel(spec_pow10, 17);
                    }
                }
                Some(100 * x)
            },
            None => {
                proof {
                    assert(v@.subrange(0, n as int) =~= v@);
                }
                None
            },
        }
    } else {
        let ghost ip = v@.take(k as int);
        let ghost fp = v@.skip(k as int + 1);
        if k > 15 {
            return None;
        }
        if k == 0 && n == k + 1 {
            // a lone dot: no digits at all
            proof {
                assert(ip.len() + fp.len() == 0);
            }
            return None;
        }
        let ipart = match digits_num(v, 0, k) {
            Some(x) => x,
            None => {
                proof {
                    assert(v@.subrange(0, k as int) =~= ip);
                }
                return None;
            },
        };
        proof {
            assert(v@.subrange(0, k as int) =~= ip);
        }
        // check the fraction digits and read the first two
        let mut d1: u64 = 0;
        let mut d2: u64 = 0;
        let mut i: usize = k + 1;
        while i < n
            invariant
                k + 1 <= i <= n == v@.len(),
                k < n,
                k <= 15,
                fp == v@.skip(k as int + 1),
                ip == v@.take(k as int),
                spec_first_dot(v@, 0) == k as int,
                spec_all_digits(v@.subrange(0, k as int)),
                spec_all_digits(v@.subrange(k as int + 1, i as int)),
                i > k + 1 && fp.len() >= 1 ==> d1 == spec_digit_val(fp[0]),
                i <= k + 1 ==> d1 == 0,
                i > k + 2 && fp.len() >= 2 ==> d2 == spec_digit_val(fp[1]),
                i <= k + 2 ==> d2 == 0,
            decreases n - i,
        {
            let d = match digit_value(v[i]) {
                Some(d) => d,
                None => {
                    proof {
                        assert(fp[i - k - 1] == v@[i as int]);
                        assert(!spec_all_digits(fp));
                    }
                    return None;
                },
            };
            if i == k + 1 {
                d1 = d;
            }
            if i == k + 2 {
                d2 = d;
            }
            proof {
                assert(v@.subrange(k as int + 1, i as int + 1).drop_last() =~= v@.subrange(
                    k as int + 1, i as int));
                assert(v@.subrange(k as int + 1, i as int + 1).last() == v@[i as int]);
            }
            i = i + 1;
        }
        proof {
            assert(v@.subrange(k as int + 1, n as int) =~= fp);
            assert(spec_all_digits(fp));
            assert(spec_all_digits(ip)) by {
                assert forall|t: int| 0 <= t < ip.len() implies spec_is_digit(
                    #[trigger] ip[t]) by {
                    assert(ip[t] == v@[t]);
                }
            }
            lemma_digits_num_bound(ip);
            lemma_pow10_mono(ip.len(), 15);
            assert(spec_pow10(15) == 1_000_000_000_000_000) by {
                reveal_with_fuel(spec_pow10, 17);
            }
        }
        Some(100 * ipart + 10 * d1 + d2)
    }
}

/// The amount a ledger cell denotes, in hundredths of a monetary unit:
/// surrounding whitespace and commas are dropped, a fully parenthesised
/// amount is negated, leading currency marks are dropped, and an optional
/// sign precedes a plain decimal numeral; anything else counts as zero.
pub open spec fn spec_parse_amount(s: Seq<char>) -> int {
    let t1 = spec_strip_commas(crate::text::trimmed(s));
    let wrapped = spec_paren_wrapped(t1);
    let t2 = if wrapped {
        crate::text::spec_drop_trail(
            crate::text::spec_drop_lead(t1, |c: char| spec_is_paren(c)),
            |c: char| spec_is_paren(c),
        )
    } else {
        t1
    };
    let t3 = crate::text::spec_drop_lead(t2, |c: char| spec_is_currency(c));
    let signed = spec_signed_cents(t3);
    let inner = (match signed {
        Some(x) => x,
        None => 0,
    });
    if wrapped {
        -inner
    } else {
        inner
    }
}

/// The commas removed.
pub open spec fn spec_strip_commas(s: Seq<char>) -> Seq<char>
    decreases s.len(),
{
    if s.len() == 0 {
        Seq::empty()
    } else {
        let rest = spec_strip_commas(s.drop_last());
        if s.last() == ',' {
            rest
        } else {
            rest.push(s.last())
        }
    }
}

/// Whether the text is wrapped in a matching pair of parentheses, plain or
/// full-width.
pub open spec fn spec_paren_wrapped(s: Seq<char>) -> bool {
    s.len() > 0 && ((s.first() == '(' && s.last() == ')') || (s.first() == '（' && s.last()
        == '）'))
}

/// A parenthesis character, plain or full-width.
pub open spec fn spec_is_paren(c: char) -> bool {
    c == '(' || c == ')' || c == '（' || c == '）'
}

/// A currency mark that may precede an amount.
pub open spec fn spec_is_currency(c: char) -> bool {
    c == '¥' || c == '￥' || c == '$'
}

/// A decimal numeral with an optional leading sign, in hundredths.
pub open spec fn spec_signed_cents(s: Seq<char>) -> Option<int> {
    if s.len() > 0 && s.first() == '-' {
        match spec_cents_unsigned(s.drop_first()) {
            Some(x) => Some(-x),
            None => None,
        }
    } else if s.len() > 0 && s.first() == '+' {
        spec_cents_unsigned(s.drop_first())
    } else {
        spec_cents_unsigned(s)
    }
}

fn is_paren_char(c: char) -> (r: bool)
    ensures
        r == spec_is_paren(c),
{
    c == '(' || c == ')' || c == '（' || c == '）'
}

fn is_currency_char(c: char) -> (r: bool)
    ensures
        r == spec_is_currency(c),
{
    c == '¥' || c == '￥' || c == '$'
}

/// Parses a ledger amount cell to hundredths of a monetary unit.
#[verifier::rlimit(100)]
pub fn parse_amount(s: &str) -> (r: i64)
    ensures
        r == spec_parse_amount(s@),
{
    let t0 = trim_str(s);
    let v0 = chars_of(t0);
    // drop commas
    let mut v1: Vec<char> = Vec::new();
    let n0 = v0.len();
    for i in 0..n0
        invariant
            n0 == v0@.len(),
            v1@ == spec_strip_commas(v0@.take(i as int)),
    {
        proof {
            assert(v0@.take(i as int + 1).drop_last() =~= v0@.take(i as int));
        }
        if v0[i] != ',' {
            v1.push(v0[i]);
        }
    }
    proof {
        assert(v0@.take(n0 as int) =~= v0@);
    }
    let n1 = v1.len();
    let wrapped = n1 > 0 && ((v1[0] == '(' && v1[n1 - 1] == ')') || (v1[0] == '（' && v1[n1 - 1]
        == '）'));
    let v2: Vec<char>;
    if wrapped {
        // strip parenthesis characters from both ends
        let mut lo: usize = 0;
        while lo < n1 && is_paren_char(v1[lo])
            invariant
                lo <= n1 == v1@.len(),
                forall|k: int| 0 <= k < lo ==> spec_is_paren(#[trigger] v1@[k]),
            decreases n1 - lo,
        {
            lo = lo + 1;
        }
        let mut hi: usize = n1;
        while hi > lo && is_paren_char(v1[hi - 1])
            invariant
                lo <= hi <= n1 == v1@.len(),
                forall|k: int| 0 <= k < lo ==> spec_is_paren(#[trigger] v1@[k]),
                forall|k: int| hi <= k < n1 ==> spec_is_paren(#[trigger] v1@[k]),
            decreases hi,
        {
            hi = hi - 1;
        }
        proof {
            crate::text::lemma_drop_lead(v1@, |c: char| spec_is_paren(c), lo as int);
            let mid = v1@.skip(lo as int);
            crate::text::lemma_drop_trail(mid, |c: char| spec_is_paren(c), hi - lo);
            assert forall|k: int| (hi - lo) <= k < mid.len() implies spec_is_paren(
                #[trigger] mid[k]) by {
                assert(mid[k] == v1@[k + lo]);
            }
            if hi > lo {
                assert(mid[hi - lo - 1] == v1@[hi - 1]);
            }
        }
        let mut midv: Vec<char> = Vec::new();
        let mut t: usize = lo;
        while t < hi
            invariant
                lo <= t <= hi <= n1 == v1@.len(),
                midv@ == v1@.subrange(lo as int, t as int),
            decreases hi - t,
        {
            proof {
                assert(v1@.subrange(lo as int, t as int + 1).drop_last() =~= v1@.subrange(
                    lo as int, t as int));
            }
            midv.push(v1[t]);
            t = t + 1;
        }
        proof {
            assert(v1@.skip(lo as int).take(hi - lo as int) =~= v1@.subrange(lo as int, hi as int));
        }
        v2 = midv;
    } else {
        v2 = v1;
    }
    // strip leading currency marks
    let n2 = v2.len();
    let mut lo2: usize = 0;
    while lo2 < n2 && is_currency_char(v2[lo2])
        invariant
            lo2 <= n2 == v2@.len(),
            forall|k: int| 0 <= k < lo2 ==> spec_is_currency(#[trigger] v2@[k]),
        decreases n2 - lo2,
    {
        lo2 = lo2 + 1;
    }
    proof {
        crate::text::lemma_drop_lead(v2@, |c: char| spec_is_currency(c), lo2 as int);
    }
    let mut v3: Vec<char> = Vec::new();
    let mut t2: usize = lo2;
    while t2 < n2
        invariant
            lo2 <= t2 <= n2 == v2@.len(),
            v3@ == v2@.subrange(lo2 as int, t2 as int),
        decreases n2 - t2,
    {
        proof {
            assert(v2@.subrange(lo2 as int, t2 as int + 1).drop_last() =~= v2@.subrange(
                lo2 as int, t2 as int));
        }
        v3.push(v2[t2]);
        t2 = t2 + 1;
    }
    proof {
        assert(v2@.subrange(lo2 as int, n2 as int) =~= v2@.skip(lo2 as int));
    }
    // optional sign, then the numeral
    let n3 = v3.len();
    let negative = n3 > 0 && v3[0] == '-';
    let has_sign = n3 > 0 && (v3[0] == '-' || v3[0] == '+');
    let mut digits: Vec<char> = Vec::new();
    let start: usize = if has_sign {
        1
    } else {
        0
    };
    let mut t3: usize = start;
    while t3 < n3
        invariant
            start <= t3 <= n3 == v3@.len(),
            digits@ == v3@.subrange(start as int, t3 as int),
        decreases n3 - t3,
    {
        proof {
            assert(v3@.subrange(start as int, t3 as int + 1).drop_last() =~= v3@.subrange(
                start as int, t3 as int));
        }
        digits.push(v3[t3]);
        t3 = t3 + 1;
    }
    proof {
        if has_sign {
            assert(v3@.subrange(1, n3 as int) =~= v3@.drop_first());
        } else {
            assert(v3@.subrange(0, n3 as int) =~= v3@);
        }
    }
    let mag = cents_unsigned(&digits);
    let inner: i64 = match mag {
        Some(x) => {
            proof {
                assert(x <= 100 * 999_999_999_999_999 + 99);
            }
            if negative {
                -(x as i64)
            } else {
                x as i64
            }
        },
        None => 0,
    };
    if wrapped {
        proof {
            assert(inner > i64::MIN);
        }
        -inner
    } else {
        inner
    }
}

/// What `chrono` yields when parsing the text with the given format: the
/// calendar date's year, month and day, or nothing.  It depends on the text
/// and the format alone.
pub uninterp spec fn chrono_ymd(s: Seq<char>, fmt: Seq<char>) -> Option<(i32, u32, u32)>;

/// Relies on `chrono::NaiveDate::parse_from_str`: parses the text against
/// one format; the date's fields are read off with `Datelike`.
#[verifier::external_body]
fn parse_date_fmt(s: &str, fmt: &str) -> (r: Option<DateYmd>)
    ensures
        (match r {
            Some(d) => chrono_ymd(s@, fmt@) == Some((d.year, d.month, d.day)),
            None => chrono_ymd(s@, fmt@) is None,
        }),
{
    match chrono::NaiveDate::parse_from_str(s, fmt) {
        Ok(d) => Some(DateYmd { year: d.year(), month: d.month(), day: d.day() }),
        Err(_) => None,
    }
}

/// The date formats tried, in order.
pub open spec fn date_formats() -> Seq<Seq<char>> {
    seq![
        "%Y-%m-%d"@,
        "%Y/%m/%d"@,
        "%Y.%m.%d"@,
        "%Y%m%d"@,
        "%Y-%m-%d %H:%M:%S"@,
        "%Y/%m/%d %H:%M:%S"@,
        "%Y-%m-%dT%H:%M:%S"@,
        "%Y-%m-%dT%H:%M:%S%.f"@,
        "%Y年%m月%d日"@,
    ]
}

/// The first format that parses the text, tried from index `i` on.
pub open spec fn spec_parse_flex_from(s: Seq<char>, i: int) -> Option<(i32, u32, u32)>
    decreases date_formats().len() - i,
{
    if i < 0 || i >= date_formats().len() {
        None
    } else {
        match chrono_ymd(s, date_formats()[i]) {
            Some(d) => Some(d),
            None => spec_parse_flex_from(s, i + 1),
        }
    }
}

/// Parses a ledger date cell against the known formats, in order; empty
/// (after trimming) or unparsable cells yield nothing.
pub fn parse_date_flex(s: &str) -> (r: Option<DateYmd>)
    ensures
        (if trimmed(s@).len() == 0 {
            r is None
        } else {
            match spec_parse_flex_from(trimmed(s@), 0) {
                Some(d) => r matches Some(x) && d == (x.year, x.month, x.day),
                None => r is None,
            }
        }),
{
    let t = trim_str(s);
    if t.is_empty() {
        return None;
    }
    if let Some(d) = parse_date_fmt(t, "%Y-%m-%d") {
        proof {
            assert(date_formats()[0] == "%Y-%m-%d"@);
        }
        return Some(d);
    }
    proof {
        assert(date_formats()[0] == "%Y-%m-%d"@);
        assert(spec_parse_flex_from(t@, 0) == spec_parse_flex_from(t@, 1));
    }
    if let Some(d) = parse_date_fmt(t, "%Y/%m/%d") {
        proof {
            assert(date_formats()[1] == "%Y/%m/%d"@);
        }
        return Some(d);
    }
    proof {
        assert(date_formats()[1] == "%Y/%m/%d"@);
        assert(spec_parse_flex_from(t@, 1) == spec_parse_flex_from(t@, 2));
    }
    if let Some(d) = parse_date_fmt(t, "%Y.%m.%d") {
        proof {
            assert(date_formats()[2] == "%Y.%m.%d"@);
        }
        return Some(d);
    }
    proof {
        assert(date_formats()[2] == "%Y.%m.%d"@);
        assert(spec_parse_flex_from(t@, 2) == spec_parse_flex_from(t@, 3));
    }
    if let Some(d) = parse_date_fmt(t, "%Y%m%d") {
        proof {
            assert(date_formats()[3] == "%Y%m%d"@);
        }
        return Some(d);
    }
    proof {
        assert(date_formats()[3] == "%Y%m%d"@);
        assert(spec_parse_flex_from(t@, 3) == spec_parse_flex_from(t@, 4));
    }
    if let Some(d) = parse_date_fmt(t, "%Y-%m-%d %H:%M:%S") {
        proof {
            assert(date_formats()[4] == "%Y-%m-%d %H:%M:%S"@);
        }
        return Some(d);
    }
    proof {
        assert(date_formats()[4] == "%Y-%m-%d %H:%M:%S"@);
        assert(spec_parse_flex_from(t@, 4) == spec_parse_flex_from(t@, 5));
    }
    if let Some(d) = parse_date_fmt(t, "%Y/%m/%d %H:%M:%S") {
        proof {
            assert(date_formats()[5] == "%Y/%m/%d %H:%M:%S"@);
        }
        return Some(d);
    }
    proof {
        assert(date_formats()[5] == "%Y/%m/%d %H:%M:%S"@);
        assert(spec_parse_flex_from(t@, 5) == spec_parse_flex_from(t@, 6));
    }
    if let Some(d) = parse_date_fmt(t, "%Y-%m-%dT%H:%M:%S") {
        proof {
            assert(date_formats()[6] == "%Y-%m-%dT%H:%M:%S"@);
        }
        return Some(d);
    }
    proof {
        assert(date_formats()[6] == "%Y-%m-%dT%H:%M:%S"@);
        assert(spec_parse_flex_from(t@, 6) == spec_parse_flex_from(t@, 7));
    }
    if let Some(d) = parse_date_fmt(t, "%Y-%m-%dT%H:%M:%S%.f") {
        proof {
            assert(date_formats()[7] == "%Y-%m-%dT%H:%M:%S%.f"@);
        }
        return Some(d);
    }
    proof {
        assert(date_formats()[7] == "%Y-%m-%dT%H:%M:%S%.f"@);
        assert(spec_parse_flex_from(t@, 7) == spec_parse_flex_from(t@, 8));
    }
    if let Some(d) = parse_date_fmt(t, "%Y年%m月%d日") {
        proof {
            assert(date_formats()[8] == "%Y年%m月%d日"@);
        }
        return Some(d);
    }
    proof {
        assert(date_formats()[8] == "%Y年%m月%d日"@);
        assert(spec_parse_flex_from(t@, 8) == spec_parse_flex_from(t@, 9));
    }
    None
}

/// Whether every value of the zipped row is blank after trimming.
pub open spec fn spec_rec_blank(values: Seq<(String, String)>) -> bool {
    forall|k: int| 0 <= k < values.len() ==> trimmed((#[trigger] values[k]).1@).len() == 0
}

/// Whether a record pairs the headers with the row's cells, position by
/// position, up to the shorter of the two.
pub open spec fn spec_record_matches(hs: Seq<String>, row: Seq<String>, rec: Record) -> bool {
    let m = if hs.len() <= row.len() {
        hs.len() as int
    } else {
        row.len() as int
    };
    &&& rec.values@.len() == m
    &&& forall|k: int| 0 <= k < m ==> (#[trigger] rec.values@[k]).0@ == hs[k]@
        && rec.values@[k].1@ == row[k]@
}

/// Pairs one row's cells with the headers.
fn record_of_row(headers: &Vec<String>, row: &Vec<String>) -> (r: Record)
    ensures
        spec_record_matches(headers@, row@, r),
{
    let m = if headers.len() <= row.len() {
        headers.len()
    } else {
        row.len()
    };
    let mut values: Vec<(String, String)> = Vec::new();
    for k in 0..m
        invariant
            m <= headers@.len(),
            m <= row@.len(),
            values@.len() == k,
            forall|t: int| 0 <= t < k ==> (#[trigger] values@[t]).0@ == headers@[t]@
                && values@[t].1@ == row@[t]@,
    {
        values.push((headers[k].clone(), row[k].clone()));
    }
    Record { values }
}

/// Whether a record is blank: every paired cell trims to empty.
fn rec_is_blank(rec: &Record) -> (r: bool)
    ensures
        r == spec_rec_blank(rec.values@),
{
    let n = rec.values.len();
    for k in 0..n
        invariant
            n == rec.values@.len(),
            forall|t: int| 0 <= t < k ==> trimmed((#[trigger] rec.values@[t]).1@).len() == 0,
    {
        let t = trim_str(rec.values[k].1.as_str());
        if !t.is_empty() {
            return false;
        }
    }
    true
}

/// The rows kept after pairing with the headers: those with at least one
/// non-blank paired cell.
pub open spec fn spec_kept_rows(hs: Seq<String>, rows: Seq<Vec<String>>, recs: Seq<Record>) -> bool
    decreases rows.len(),
{
    if rows.len() == 0 {
        recs.len() == 0
    } else {
        let row = rows.last();
        exists|rec: Record|
            {
                &&& #[trigger] spec_record_matches(hs, row@, rec)
                &&& if spec_rec_blank(rec.values@) {
                    spec_kept_rows(hs, rows.drop_last(), recs)
                } else {
                    recs.len() > 0 && recs.last() == rec && spec_kept_rows(
                        hs, rows.drop_last(), recs.drop_last())
                }
            }
    }
}

/// Assembles records from raw rows: each cell is paired with its header,
/// and rows whose paired cells are all blank are dropped.
pub fn rows_to_records(headers: &Vec<String>, rows: &Vec<Vec<String>>) -> (r: Vec<Record>)
    ensures
        spec_kept_rows(headers@, rows@, r@),
{
    let mut out: Vec<Record> = Vec::new();
    let n = rows.len();
    for i in 0..n
        invariant
            n == rows@.len(),
            spec_kept_rows(headers@, rows@.take(i as int), out@),
    {
        let rec = record_of_row(headers, &rows[i]);
        let blank = rec_is_blank(&rec);
        let ghost pre = out@;
        let ghost wrec = rec;
        proof {
            assert(rows@.take(i as int + 1).drop_last() =~= rows@.take(i as int));
            assert(rows@.take(i as int + 1).last() == rows@[i as int]);
        }
        if !blank {
            out.push(rec);
            proof {
                assert(out@.drop_last() =~= pre);
                assert(out@.last() == wrec);
                assert(spec_record_matches(headers@, rows@[i as int]@, wrec));
                assert(spec_kept_rows(headers@, rows@.take(i as int + 1), out@));
            }
        } else {
            proof {
                assert(spec_record_matches(headers@, rows@[i as int]@, wrec));
                assert(spec_kept_rows(headers@, rows@.take(i as int + 1), out@));
            }
        }
    }
    proof {
        assert(rows@.take(n as int) =~= rows@);
    }
    out
}


} // verus!
