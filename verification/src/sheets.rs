use vstd::prelude::*;
use crate::journal::{spec_all_digits, spec_digits_num, spec_get_from, Record};
use crate::text::{
    chars_of, spec_byte_fit, spec_drop_lead, spec_drop_trail, spec_truncate_chars,
    spec_utf8_len_seq, string_from_chars, trim_str, trimmed, truncate_chars, truncate_to_bytes,
};

verus! {

/// A character a worksheet name may not contain.
pub open spec fn spec_banned_char(c: char) -> bool {
    c == '\\' || c == '/' || c == '*' || c == '?' || c == ':' || c == '[' || c == ']'
}

/// The banned characters removed.
pub open spec fn spec_strip_banned(s: Seq<char>) -> Seq<char>
    decreases s.len(),
{
    if s.len() == 0 {
        Seq::empty()
    } else {
        let rest = spec_strip_banned(s.drop_last());
        if spec_banned_char(s.last()) {
            rest
        } else {
            rest.push(s.last())
        }
    }
}

/// The sanitized worksheet name: banned characters removed, surrounding
/// quotes and whitespace stripped, cut to thirty-one characters and
/// thirty-one UTF-8 bytes, with a plain fallback when nothing remains.
pub open spec fn spec_sanitized(name: Seq<char>) -> Seq<char> {
    let a = spec_strip_banned(name);
    let b = spec_drop_trail(
        spec_drop_lead(a, |c: char| c == '\''),
        |c: char| c == '\'',
    );
    let t = trimmed(b);
    if t.len() == 0 {
        "Sheet"@
    } else {
        let t1 = spec_truncate_chars(t, 31);
        let t2 = if spec_utf8_len_seq(t1) > 31 {
            t1.take(spec_byte_fit(t1, 31, 0))
        } else {
            t1
        };
        if t2.len() == 0 {
            "Sheet"@
        } else {
            t2
        }
    }
}

fn is_banned_char(c: char) -> (r: bool)
    ensures
        r == spec_banned_char(c),
{
    c == '\\' || c == '/' || c == '*' || c == '?' || c == ':' || c == '[' || c == ']'
}

/// Computes the UTF-8 length of a character vector.
fn utf8_len_vec(v: &Vec<char>) -> (r: u128)
    ensures
        r == spec_utf8_len_seq(v@),
{
    let mut acc: u128 = 0;
    let n = v.len();
    for i in 0..n
        invariant
            n == v@.len(),
            acc == spec_utf8_len_seq(v@.take(i as int)),
            acc <= 4 * i,
    {
        proof {
            assert(v@.take(i as int + 1).drop_last() =~= v@.take(i as int));
            assert(v@.take(i as int + 1).last() == v@[i as int]);
        }
        let b = crate::text::char_utf8_len(v[i]);
        acc = acc + (b as u128);
    }
    proof {
        assert(v@.take(n as int) =~= v@);
    }
    acc
}

/// Makes a name acceptable as a worksheet name: at most thirty-one
/// characters and thirty-one UTF-8 bytes.
pub fn sanitize_sheet_name(name: &str) -> (r: String)
    ensures
        r@ == spec_sanitized(name@),
        r@.len() <= 31,
        spec_utf8_len_seq(r@) <= 31,
{
    let v0 = chars_of(name);
    let mut a: Vec<char> = Vec::new();
    let n0 = v0.len();
    for i in 0..n0
        invariant
            n0 == v0@.len(),
            v0@ == name@,
            a@ == spec_strip_banned(v0@.take(i as int)),
    {
        proof {
            assert(v0@.take(i as int + 1).drop_last() =~= v0@.take(i as int));
        }
        if !is_banned_char(v0[i]) {
            a.push(v0[i]);
        }
    }
    proof {
        assert(v0@.take(n0 as int) =~= v0@);
    }
    // strip surrounding quotes
    let na = a.len();
    let mut lo: usize = 0;
    while lo < na && a[lo] == '\''
        invariant
            lo <= na == a@.len(),
            forall|k: int| 0 <= k < lo ==> a@[k] == '\'',
        decreases na - lo,
    {
        lo = lo + 1;
    }
    let mut hi: usize = na;
    while hi > lo && a[hi - 1] == '\''
        invariant
            lo <= hi <= na == a@.len(),
            forall|k: int| 0 <= k < lo ==> a@[k] == '\'',
            forall|k: int| hi <= k < na ==> a@[k] == '\'',
        decreases hi,
    {
        hi = hi - 1;
    }
    proof {
        crate::text::lemma_drop_lead(a@, |c: char| c == '\'', lo as int);
        let mid = a@.skip(lo as int);
        assert forall|k: int| (hi - lo) <= k < mid.len() implies (|c: char| c == '\'')(
            #[trigger] mid[k]) by {
            assert(mid[k] == a@[k + lo]);
        }
        if hi > lo {
            assert(mid[hi - lo - 1] == a@[hi - 1]);
        }
        crate::text::lemma_drop_trail(mid, |c: char| c == '\'', hi - lo);
    }
    let mut b: Vec<char> = Vec::new();
    let mut t: usize = lo;
    while t < hi
        invariant
            lo <= t <= hi <= na == a@.len(),
            b@ == a@.subrange(lo as int, t as int),
        decreases hi - t,
    {
        proof {
            assert(a@.subrange(lo as int, t as int + 1).drop_last() =~= a@.subrange(
                lo as int, t as int));
        }
        b.push(a[t]);
        t = t + 1;
    }
    proof {
        assert(a@.skip(lo as int).take(hi - lo as int) =~= a@.subrange(lo as int, hi as int));
    }
    let bs = string_from_chars(&b);
    let ts = trim_str(bs.as_str());
    if ts.is_empty() {
        proof {
            lemma_fallback_name_short();
        }
        return "Sheet".to_owned();
    }
    let t1 = truncate_chars(ts, 31);
    let t1v = chars_of(t1.as_str());
    let blen = utf8_len_vec(&t1v);
    let t2: String = if blen > 31 {
        proof {
            assert(t1v@.take(0) =~= Seq::<char>::empty());
            crate::text::lemma_byte_fit_within(t1v@, 31, 0);
            lemma_byte_fit_bounds(t1v@, 31, 0);
        }
        truncate_to_bytes(t1.as_str(), 31)
    } else {
        t1
    };
    if t2.as_str().is_empty() {
        proof {
            lemma_fallback_name_short();
        }
        "Sheet".to_owned()
    } else {
        t2
    }
}

/// The fallback name is five ASCII characters, so five bytes.
proof fn lemma_fallback_name_short()
    ensures
        "Sheet"@.len() == 5,
        spec_utf8_len_seq("Sheet"@) == 5,
{
    reveal_strlit("Sheet");
    assert forall|k: int| 0 <= k < "Sheet"@.len() implies ("Sheet"@[k] as u32) < 128 by {
        if k == 0 {
            assert("Sheet"@[0] == 'S');
        } else if k == 1 {
            assert("Sheet"@[1] == 'h');
        } else if k == 2 {
            assert("Sheet"@[2] == 'e');
        } else if k == 3 {
            assert("Sheet"@[3] == 'e');
        } else {
            assert("Sheet"@[4] == 't');
        }
    }
    crate::text::lemma_ascii_utf8("Sheet"@);
}

/// Whether a name with this view is already taken.
pub open spec fn spec_name_used(used: Seq<String>, name: Seq<char>) -> bool {
    exists|i: int| 0 <= i < used.len() && (#[trigger] used[i])@ == name
}

fn name_used(used: &Vec<String>, cand: &String) -> (r: bool)
    ensures
        r == spec_name_used(used@, cand@),
{
    let n = used.len();
    for i in 0..n
        invariant
            n == used@.len(),
            forall|k: int| 0 <= k < i ==> (#[trigger] used@[k])@ != cand@,
    {
        if used[i] == *cand {
            return true;
        }
    }
    false
}

/// The numbered candidate name: the sanitized base cut to leave room for a
/// ` (idx)` suffix in both characters and bytes, then the suffix.
pub open spec fn spec_suffix_candidate(base: Seq<char>, idx: int) -> Seq<char> {
    let suffix = seq![' ', '('] + crate::text::spec_digits(idx) + seq![')'];
    let max_chars = if suffix.len() <= 31 {
        31 - suffix.len()
    } else {
        0
    };
    let base0 = spec_truncate_chars(spec_sanitized(base), max_chars as int);
    let max_bytes = if spec_utf8_len_seq(suffix) <= 31 {
        31 - spec_utf8_len_seq(suffix)
    } else {
        0
    };
    let base1 = base0.take(spec_byte_fit(base0, max_bytes, 0));
    base1 + suffix
}

/// Builds the numbered candidate.
fn suffix_candidate(sanitized: &String, idx: u32) -> (r: Vec<char>)
    requires
        1 <= idx,
    ensures
        r@ == seq![' ', '('] + crate::text::spec_digits(idx as int) + seq![')'],
    decreases 0u32,
{
    let mut out: Vec<char> = Vec::new();
    out.push(' ');
    out.push('(');
    let ds = crate::text::digits_of(idx);
    let m = ds.len();
    for i in 0..m
        invariant
            m == ds@.len(),
            ds@ == crate::text::spec_digits(idx as int),
            out@ == seq![' ', '('] + ds@.take(i as int),
    {
        proof {
            assert((seq![' ', '('] + ds@.take(i as int)).push(ds@[i as int]) =~= seq![' ', '(']
                + ds@.take(i as int + 1));
        }
        out.push(ds[i]);
    }
    out.push(')');
    proof {
        assert(ds@.take(m as int) =~= ds@);
        assert(out@ =~= seq![' ', '('] + crate::text::spec_digits(idx as int) + seq![')']);
    }
    out
}

/// Picks a worksheet name not yet taken: the sanitized base, or the base
/// with the first free numeric suffix; the chosen name is recorded in
/// `used`.  The name is free of collisions unless every numbered candidate
/// was already taken, in which case the last one is used regardless.
pub fn unique_sheet_name(base: &str, used: &mut Vec<String>) -> (r: String)
    ensures
        final(used)@.len() == old(used)@.len() + 1,
        forall|i: int| 0 <= i < old(used)@.len() ==> final(used)@[i] == old(used)@[i],
        final(used)@.last() == r,
        r@.len() <= 31,
        spec_utf8_len_seq(r@) <= 31,
        ({
            let first = spec_truncate_chars(spec_sanitized(base@), 31);
            ||| (r@ == first && !spec_name_used(old(used)@, first))
            ||| (spec_name_used(old(used)@, first) && (exists|k: int|
                #![trigger spec_suffix_candidate(base@, k)]
                {
                    &&& 2 <= k <= u32::MAX
                    &&& r@ == spec_suffix_candidate(base@, k)
                    &&& (forall|j: int| 2 <= j < k ==> spec_name_used(
                        old(used)@, #[trigger] spec_suffix_candidate(base@, j)))
                    &&& (!spec_name_used(old(used)@, r@) || k == u32::MAX)
                }))
        }),
{
    let sanitized = sanitize_sheet_name(base);
    let candidate = truncate_chars(sanitized.as_str(), 31);
    proof {
        lemma_sanitized_short(base@);
        assert(candidate@ == sanitized@);
        assert(candidate@.len() <= 31);
    }
    if !name_used(used, &candidate) {
        used.push(candidate.clone());
        return candidate;
    }
    let mut idx: u32 = 2;
    loop
        invariant
            2 <= idx,
            used@ == old(used)@,
            sanitized@ == spec_sanitized(base@),
            spec_name_used(old(used)@, spec_truncate_chars(spec_sanitized(base@), 31)),
            forall|j: int| 2 <= j < idx ==> spec_name_used(
                old(used)@, #[trigger] spec_suffix_candidate(base@, j)),
        ensures
            used@ == old(used)@,
        decreases u32::MAX - idx,
    {
        let sfx = suffix_candidate(&sanitized, idx);
        let sfx_chars = sfx.len();
        let max_base_chars: usize = if sfx_chars <= 31 {
            31 - sfx_chars
        } else {
            0
        };
        let base0 = truncate_chars(sanitized.as_str(), max_base_chars);
        let sfx_bytes = utf8_len_vec(&sfx);
        let max_base_bytes: usize = if sfx_bytes <= 31 {
            31 - (sfx_bytes as usize)
        } else {
            0
        };
        let base1 = truncate_to_bytes(base0.as_str(), max_base_bytes);
        let mut cv = chars_of(base1.as_str());
        let m = sfx.len();
        let ghost cv0 = cv@;
        for i in 0..m
            invariant
                m == sfx@.len(),
                cv@ == cv0 + sfx@.take(i as int),
        {
            proof {
                assert((cv0 + sfx@.take(i as int)).push(sfx@[i as int]) =~= cv0 + sfx@.take(
                    i as int + 1));
            }
            cv.push(sfx[i]);
        }
        proof {
            assert(sfx@.take(m as int) =~= sfx@);
        }
        let cand = string_from_chars(&cv);
        proof {
            lemma_candidate_short(base@, idx as int);
            let suffix = seq![' ', '('] + crate::text::spec_digits(idx as int) + seq![')'];
            assert(sfx@ == suffix);
            assert(sfx_chars == suffix.len());
            assert(max_base_chars as int == if suffix.len() <= 31 {
                31 - suffix.len()
            } else {
                0int
            });
            assert(base0@ == spec_truncate_chars(spec_sanitized(base@), max_base_chars as int));
            assert(sfx_bytes == spec_utf8_len_seq(suffix));
            assert(max_base_bytes as int == if spec_utf8_len_seq(suffix) <= 31 {
                31 - spec_utf8_len_seq(suffix)
            } else {
                0int
            });
            assert(base1@ == base0@.take(spec_byte_fit(base0@, max_base_bytes as int, 0)));
            assert(cv@ =~= base1@ + sfx@);
            assert(cand@ =~= spec_suffix_candidate(base@, idx as int));
            // the candidate fits in thirty-one bytes: the suffix is ASCII
            // and the base is cut to the bytes the suffix leaves free
            let ds = crate::text::spec_digits(idx as int);
            crate::text::lemma_digits_ascii(idx as int);
            assert forall|k: int| 0 <= k < sfx@.len() implies ((#[trigger] sfx@[k]) as u32)
                < 128 by {
                if k == 0 {
                    assert(sfx@[0] == ' ');
                } else if k == 1 {
                    assert(sfx@[1] == '(');
                } else if k < 2 + ds.len() {
                    assert(sfx@[k] == ds[k - 2]);
                } else {
                    assert(sfx@[k] == ')');
                }
            }
            crate::text::lemma_ascii_utf8(sfx@);
            assert(base0@.take(0) =~= Seq::<char>::empty());
            crate::text::lemma_byte_fit_within(base0@, max_base_bytes as int, 0);
            crate::text::lemma_utf8_concat(base1@, sfx@);
            assert(spec_utf8_len_seq(cand@) <= 31);
        }
        if !name_used(used, &cand) {
            used.push(cand.clone());
            return cand;
        }
        if idx == u32::MAX {
            used.push(cand.clone());
            return cand;
        }
        idx = idx + 1;
    }
}

/// A sanitized name never exceeds thirty-one characters.
proof fn lemma_sanitized_short(name: Seq<char>)
    ensures
        spec_truncate_chars(spec_sanitized(name), 31).len() <= 31,
{
    assert("Sheet"@.len() == 5) by {
        reveal_strlit("Sheet");
    }
}

/// A numbered candidate never exceeds thirty-one characters.
proof fn lemma_candidate_short(base: Seq<char>, idx: int)
    requires
        0 <= idx <= u32::MAX,
    ensures
        spec_suffix_candidate(base, idx).len() <= 31,
{
    assert(crate::journal::spec_pow10(10) == 10_000_000_000) by {
        reveal_with_fuel(crate::journal::spec_pow10, 11);
    }
    lemma_digits_len(idx, 10);
    let suffix = seq![' ', '('] + crate::text::spec_digits(idx) + seq![')'];
    assert(suffix.len() <= 13);
    let max_chars = if suffix.len() <= 31 {
        31 - suffix.len()
    } else {
        0
    };
    let base0 = spec_truncate_chars(spec_sanitized(base), max_chars as int);
    let max_bytes = if spec_utf8_len_seq(suffix) <= 31 {
        31 - spec_utf8_len_seq(suffix)
    } else {
        0int
    };
    lemma_byte_fit_le(base0, max_bytes);
}

/// A number below ten to the `cap` has at most `cap` digits.
proof fn lemma_digits_len(n: int, cap: nat)
    requires
        n < crate::journal::spec_pow10(cap),
    ensures
        crate::text::spec_digits(n).len() <= cap,
    decreases cap,
{
    if n > 0 {
        if cap == 0 {
            crate::journal::lemma_pow10_pos(0);
        } else {
            assert(n / 10 < crate::journal::spec_pow10((cap - 1) as nat)) by (nonlinear_arith)
                requires
                    n < 10 * crate::journal::spec_pow10((cap - 1) as nat),
                    n > 0,
            ;
            lemma_digits_len(n / 10, (cap - 1) as nat);
        }
    }
}

proof fn lemma_byte_fit_le(s: Seq<char>, max: int)
    ensures
        0 <= spec_byte_fit(s, max, 0) <= s.len(),
{
    lemma_byte_fit_bounds(s, max, 0);
}

proof fn lemma_byte_fit_bounds(s: Seq<char>, max: int, i: int)
    requires
        0 <= i <= s.len(),
    ensures
        i <= spec_byte_fit(s, max, i) <= s.len(),
    decreases s.len() - i,
{
    if i < s.len() && !(spec_utf8_len_seq(s.take(i + 1)) > max) {
        lemma_byte_fit_bounds(s, max, i + 1);
    }
}

/// The integer a voucher-line cell denotes: commas and whitespace are
/// dropped; only an optional leading minus and up to eighteen digits parse.
pub open spec fn spec_parse_int_like(s: Seq<char>) -> Option<i64> {
    let t = crate::journal::spec_strip_commas(trimmed(s));
    if t.len() == 0 {
        None
    } else if !(forall|k: int| 0 <= k < t.len() ==> crate::journal::spec_is_digit(
        #[trigger] t[k]) || t[k] == '-') {
        None
    } else {
        let neg = t.first() == '-';
        let d = if neg {
            t.drop_first()
        } else {
            t
        };
        if 1 <= d.len() <= 18 && spec_all_digits(d) {
            if neg {
                Some((-spec_digits_num(d)) as i64)
            } else {
                Some(spec_digits_num(d) as i64)
            }
        } else {
            None
        }
    }
}

/// Parses a voucher-line cell as an integer, if it is one.
pub fn parse_int_like(s: &str) -> (r: Option<i64>)
    ensures
        r == spec_parse_int_like(s@),
{
    let t0 = trim_str(s);
    let v0 = chars_of(t0);
    let mut t: Vec<char> = Vec::new();
    let n0 = v0.len();
    for i in 0..n0
        invariant
            n0 == v0@.len(),
            t@ == crate::journal::spec_strip_commas(v0@.take(i as int)),
    {
        proof {
            assert(v0@.take(i as int + 1).drop_last() =~= v0@.take(i as int));
        }
        if v0[i] != ',' {
            t.push(v0[i]);
        }
    }
    proof {
        assert(v0@.take(n0 as int) =~= v0@);
    }
    let n = t.len();
    if n == 0 {
        return None;
    }
    for i in 0..n
        invariant
            n == t@.len(),
            1 <= n,
            t@ == crate::journal::spec_strip_commas(trimmed(s@)),
            forall|k: int| 0 <= k < i ==> crate::journal::spec_is_digit(#[trigger] t@[k])
                || t@[k] == '-',
    {
        let c = t[i];
        let okc = c == '-' || match crate::journal::digit_value(c) {
            Some(_) => true,
            None => false,
        };
        if !okc {
            proof {
                assert(!(crate::journal::spec_is_digit(t@[i as int]) || t@[i as int] == '-'));
            }
            return None;
        }
    }
    let neg = t[0] == '-';
    let start: usize = if neg {
        1
    } else {
        0
    };
    let dl = n - start;
    if dl < 1 || dl > 18 {
        proof {
            if neg {
                assert(t@.drop_first() =~= t@.subrange(1, n as int));
            }
        }
        return None;
    }
    let x = match crate::journal::digits_num(&t, start, n) {
        Some(x) => x,
        None => {
            proof {
                if neg {
                    assert(t@.drop_first() =~= t@.subrange(1, n as int));
                } else {
                    assert(t@ =~= t@.subrange(0, n as int));
                }
            }
            return None;
        },
    };
    proof {
        if neg {
            assert(t@.drop_first() =~= t@.subrange(1, n as int));
        } else {
            assert(t@ =~= t@.subrange(0, n as int));
        }
    }
    if neg {
        Some(-(x as i64))
    } else {
        Some(x as i64)
    }
}

/// Lexicographic order of two character sequences by code point: negative,
/// zero or positive as the first compares to the second.
pub open spec fn spec_lex_cmp(a: Seq<char>, b: Seq<char>) -> int
    decreases a.len(),
{
    if a.len() == 0 && b.len() == 0 {
        0
    } else if a.len() == 0 {
        -1
    } else if b.len() == 0 {
        1
    } else if a.first() != b.first() {
        if (a.first() as u32) < (b.first() as u32) {
            -1
        } else {
            1
        }
    } else {
        spec_lex_cmp(a.drop_first(), b.drop_first())
    }
}

fn lex_cmp(a: &Vec<char>, b: &Vec<char>) -> (r: i32)
    ensures
        r == spec_lex_cmp(a@, b@),
{
    let na = a.len();
    let nb = b.len();
    proof {
        assert(a@.skip(0) =~= a@);
        assert(b@.skip(0) =~= b@);
    }
    let mut i: usize = 0;
    while i < na && i < nb
        invariant
            i <= na == a@.len(),
            i <= nb == b@.len(),
            spec_lex_cmp(a@, b@) == spec_lex_cmp(a@.skip(i as int), b@.skip(i as int)),
        decreases na - i,
    {
        proof {
            assert(a@.skip(i as int).drop_first() =~= a@.skip(i as int + 1));
            assert(b@.skip(i as int).drop_first() =~= b@.skip(i as int + 1));
        }
        let ca = a[i];
        let cb = b[i];
        if ca != cb {
            if (ca as u32) < (cb as u32) {
                return -1;
            } else {
                return 1;
            }
        }
        i = i + 1;
    }
    if i < nb {
        -1
    } else if i < na {
        1
    } else {
        0
    }
}

/// The report order of two ledger rows by their voucher-line cells: numbers
/// in numeric order, numbers before text, text in lexicographic order.
pub open spec fn spec_voucher_cmp(
    a: Seq<(String, String)>,
    b: Seq<(String, String)>,
    vc: Seq<char>,
) -> int {
    let av = (match spec_get_from(a, vc, 0) {
        Some(v) => v,
        None => Seq::empty(),
    });
    let bv = (match spec_get_from(b, vc, 0) {
        Some(v) => v,
        None => Seq::empty(),
    });
    match (spec_parse_int_like(av), spec_parse_int_like(bv)) {
        (Some(x), Some(y)) => if x < y {
            -1
        } else if x > y {
            1
        } else {
            0
        },
        (Some(x), None) => -1,
        (None, Some(y)) => 1,
        (None, None) => spec_lex_cmp(av, bv),
    }
}

/// Compares two records by their voucher-line cells for report sorting.
pub fn voucher_order(a: &Record, b: &Record, vc: &String) -> (r: i32)
    ensures
        r == spec_voucher_cmp(a.values@, b.values@, vc@),
{
    let av: String = match a.get(vc) {
        Some(v) => v.clone(),
        None => String::new(),
    };
    let bv: String = match b.get(vc) {
        Some(v) => v.clone(),
        None => String::new(),
    };
    let pa = parse_int_like(av.as_str());
    let pb = parse_int_like(bv.as_str());
    match (pa, pb) {
        (Some(x), Some(y)) => {
            if x < y {
                -1
            } else if x > y {
                1
            } else {
                0
            }
        },
        (Some(_), None) => -1,
        (None, Some(_)) => 1,
        (None, None) => {
            let va = chars_of(av.as_str());
            let vb = chars_of(bv.as_str());
            lex_cmp(&va, &vb)
        },
    }
}


} // verus!
