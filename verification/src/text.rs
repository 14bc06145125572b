use vstd::prelude::*;

verus! {

/// The characters of the string, as a vector.  Relies on `str::chars`,
/// whose sequence of items is the string's view.
#[verifier::external_body]
pub fn chars_of(s: &str) -> (r: Vec<char>)
    ensures
        r@ == s@,
{
    s.chars().collect()
}

/// A string built from the characters.  Relies on `String`'s
/// `FromIterator<char>`, which collects exactly the iterated characters.
#[verifier::external_body]
pub fn string_from_chars(v: &Vec<char>) -> (r: String)
    ensures
        r@ == v@,
{
    v.iter().collect()
}

/// The lowercase form of a character sequence.  It depends on the
/// characters alone.
pub uninterp spec fn lower_of(s: Seq<char>) -> Seq<char>;

/// Relies on `str::to_lowercase`: the Unicode lowercase mapping of the
/// string, a function of its characters alone.
#[verifier::external_body]
pub fn to_lowercase_str(s: &str) -> (r: String)
    ensures
        r@ == lower_of(s@),
{
    s.to_lowercase()
}

/// The string with leading and trailing whitespace removed.  It depends on
/// the characters alone.
pub uninterp spec fn trimmed(s: Seq<char>) -> Seq<char>;

/// Relies on `str::trim`: the same characters without leading and trailing
/// whitespace, so never longer than the input; empty input stays empty.
#[verifier::external_body]
pub fn trim_str(s: &str) -> (r: &str)
    ensures
        r@ == trimmed(s@),
        r@.len() <= s@.len(),
        s@.len() == 0 ==> r@.len() == 0,
{
    s.trim()
}

/// The number of bytes of a character's UTF-8 form: one below 0x80, two
/// below 0x800, three below 0x10000, else four.
pub open spec fn utf8_len_of(c: char) -> int {
    if (c as u32) < 0x80 {
        1
    } else if (c as u32) < 0x800 {
        2
    } else if (c as u32) < 0x10000 {
        3
    } else {
        4
    }
}

/// Computes the UTF-8 encoded length of one character.
pub fn char_utf8_len(c: char) -> (r: usize)
    ensures
        r == utf8_len_of(c),
        1 <= r <= 4,
{
    let u = c as u32;
    if u < 0x80 {
        1
    } else if u < 0x800 {
        2
    } else if u < 0x1_0000 {
        3
    } else {
        4
    }
}

/// Whether `needle` occurs contiguously inside `hay`.
pub open spec fn spec_contains_seq(hay: Seq<char>, needle: Seq<char>) -> bool {
    exists|k: int|
        0 <= k && k + needle.len() <= hay.len() && #[trigger] hay.subrange(
            k, k + needle.len()) == needle
}

/// Whether `hay` matches `needle` at position `k`.
fn matches_at(hay: &Vec<char>, needle: &Vec<char>, k: usize) -> (r: bool)
    requires
        k + needle@.len() <= hay@.len(),
    ensures
        r == (hay@.subrange(k as int, k as int + needle@.len() as int) == needle@),
{
    let m = needle.len();
    let hn = hay.len();
    for j in 0..m
        invariant
            m == needle@.len(),
            hn == hay@.len(),
            k + m <= hn,
            forall|t: int| 0 <= t < j ==> hay@[k + t] == needle@[t],
    {
        if hay[k + j] != needle[j] {
            proof {
                assert(hay@.subrange(k as int, k as int + m as int)[j as int] == hay@[k + j]);
            }
            return false;
        }
    }
    proof {
        assert(hay@.subrange(k as int, k as int + m as int) =~= needle@);
    }
    true
}

/// Substring search: whether `needle` occurs inside `hay`.
pub fn contains_chars(hay: &Vec<char>, needle: &Vec<char>) -> (r: bool)
    ensures
        r == spec_contains_seq(hay@, needle@),
{
    let n = hay.len();
    let m = needle.len();
    if m > n {
        proof {
            assert(!spec_contains_seq(hay@, needle@));
        }
        return false;
    }
    if m == 0 {
        proof {
            assert(hay@.subrange(0, 0 + needle@.len() as int) =~= needle@);
            assert(spec_contains_seq(hay@, needle@));
        }
        return true;
    }
    let last = n - m;
    let mut k: usize = 0;
    while k <= last
        invariant
            m <= n,
            n == hay@.len(),
            m == needle@.len(),
            last == n - m,
            1 <= m,
            k <= last + 1,
            forall|t: int| 0 <= t < k ==> #[trigger] hay@.subrange(t, t + m as int) != needle@,
        decreases last + 1 - k,
    {
        if matches_at(hay, needle, k) {
            return true;
        }
        k = k + 1;
    }
    proof {
        assert(!spec_contains_seq(hay@, needle@));
    }
    false
}

/// Whether `p` is a prefix of `s`.
pub open spec fn spec_prefix_of(s: Seq<char>, p: Seq<char>) -> bool {
    p.len() <= s.len() && s.subrange(0, p.len() as int) == p
}

/// Prefix test on character vectors.
pub fn starts_with_chars(s: &Vec<char>, p: &Vec<char>) -> (r: bool)
    ensures
        r == spec_prefix_of(s@, p@),
{
    if p.len() > s.len() {
        return false;
    }
    matches_at(s, p, 0)
}

/// Character-for-character equality of two vectors.
pub fn chars_eq(a: &Vec<char>, b: &Vec<char>) -> (r: bool)
    ensures
        r == (a@ == b@),
{
    if a.len() != b.len() {
        proof {
            assert(a@.len() != b@.len());
        }
        return false;
    }
    let n = a.len();
    for i in 0..n
        invariant
            n == a@.len() == b@.len(),
            forall|t: int| 0 <= t < i ==> a@[t] == b@[t],
    {
        if a[i] != b[i] {
            return false;
        }
    }
    proof {
        assert(a@ =~= b@);
    }
    true
}

/// The first `max` characters of the string, or all of it when shorter.
pub open spec fn spec_truncate_chars(s: Seq<char>, max: int) -> Seq<char> {
    if s.len() <= max {
        s
    } else {
        s.take(max)
    }
}

/// Keeps the first `max_chars` characters.
pub fn truncate_chars(s: &str, max_chars: usize) -> (r: String)
    ensures
        r@ == spec_truncate_chars(s@, max_chars as int),
{
    let cs = chars_of(s);
    let mut out: Vec<char> = Vec::new();
    let n = cs.len();
    let keep = if n <= max_chars {
        n
    } else {
        max_chars
    };
    for i in 0..keep
        invariant
            keep <= n == cs@.len(),
            cs@ == s@,
            out@ == cs@.take(i as int),
    {
        proof {
            assert(cs@.take(i as int + 1) =~= cs@.take(i as int).push(cs@[i as int]));
        }
        out.push(cs[i]);
    }
    proof {
        if n <= max_chars {
            assert(cs@.take(keep as int) =~= s@);
        }
    }
    string_from_chars(&out)
}

/// The total UTF-8 length of a character sequence.
pub open spec fn spec_utf8_len_seq(s: Seq<char>) -> int
    decreases s.len(),
{
    if s.len() == 0 {
        0
    } else {
        spec_utf8_len_seq(s.drop_last()) + utf8_len_of(s.last())
    }
}

/// The longest prefix length whose UTF-8 form fits in `max` bytes, walking
/// characters from the front and stopping at the first that does not fit.
pub open spec fn spec_byte_fit(s: Seq<char>, max: int, i: int) -> int
    decreases s.len() - i,
{
    if i < 0 || i >= s.len() {
        s.len() as int
    } else if spec_utf8_len_seq(s.take(i + 1)) > max {
        i
    } else {
        spec_byte_fit(s, max, i + 1)
    }
}

/// Keeps the longest character prefix that fits in `max_bytes` UTF-8 bytes.
pub fn truncate_to_bytes(s: &str, max_bytes: usize) -> (r: String)
    ensures
        r@ == s@.take(spec_byte_fit(s@, max_bytes as int, 0)),
{
    let cs = chars_of(s);
    let mut out: Vec<char> = Vec::new();
    let mut used: usize = 0;
    let n = cs.len();
    let mut i: usize = 0;
    while i < n
        invariant
            i <= n,
            n == cs@.len(),
            cs@ == s@,
            out@ == cs@.take(i as int),
            used == spec_utf8_len_seq(cs@.take(i as int)),
            used <= max_bytes,
            forall|j: int| 0 <= j < i ==> #[trigger] spec_byte_fit(s@, max_bytes as int, j)
                == spec_byte_fit(s@, max_bytes as int, j + 1),
        decreases n - i,
    {
        let b = char_utf8_len(cs[i]);
        proof {
            assert(cs@.take(i as int + 1).drop_last() =~= cs@.take(i as int));
            assert(cs@.take(i as int + 1).last() == cs@[i as int]);
        }
        if b > max_bytes - used {
            proof {
                assert(spec_byte_fit(s@, max_bytes as int, i as int) == i as int);
                lemma_byte_fit_skip(s@, max_bytes as int, 0, i as int);
            }
            return string_from_chars(&out);
        }
        out.push(cs[i]);
        used = used + b;
        i = i + 1;
    }
    proof {
        lemma_byte_fit_skip(s@, max_bytes as int, 0, n as int);
        assert(spec_byte_fit(s@, max_bytes as int, n as int) == n as int);
        assert(cs@.take(n as int) =~= s@);
    }
    string_from_chars(&out)
}

proof fn lemma_byte_fit_skip(s: Seq<char>, max: int, lo: int, k: int)
    requires
        0 <= lo <= k <= s.len(),
        forall|j: int| lo <= j < k ==> #[trigger] spec_byte_fit(s, max, j) == spec_byte_fit(
            s, max, j + 1),
    ensures
        spec_byte_fit(s, max, lo) == spec_byte_fit(s, max, k),
    decreases k - lo,
{
    if lo < k {
        lemma_byte_fit_skip(s, max, lo + 1, k);
    }
}

/// The sequence with its leading characters satisfying `p` removed.
pub open spec fn spec_drop_lead(s: Seq<char>, p: spec_fn(char) -> bool) -> Seq<char>
    decreases s.len(),
{
    if s.len() > 0 && p(s.first()) {
        spec_drop_lead(s.drop_first(), p)
    } else {
        s
    }
}

/// The sequence with its trailing characters satisfying `p` removed.
pub open spec fn spec_drop_trail(s: Seq<char>, p: spec_fn(char) -> bool) -> Seq<char>
    decreases s.len(),
{
    if s.len() > 0 && p(s.last()) {
        spec_drop_trail(s.drop_last(), p)
    } else {
        s
    }
}

/// Dropping leading matches is taking the suffix from the first non-match.
pub proof fn lemma_drop_lead(s: Seq<char>, p: spec_fn(char) -> bool, lo: int)
    requires
        0 <= lo <= s.len(),
        forall|k: int| 0 <= k < lo ==> p(#[trigger] s[k]),
        lo < s.len() ==> !p(s[lo]),
    ensures
        spec_drop_lead(s, p) == s.skip(lo),
    decreases lo,
{
    if lo == 0 {
        assert(s.skip(0) =~= s);
    } else {
        let s2 = s.drop_first();
        lemma_drop_lead(s2, p, lo - 1);
        assert(s2.skip(lo - 1) =~= s.skip(lo));
    }
}

/// Dropping trailing matches is taking the prefix up to the last non-match.
pub proof fn lemma_drop_trail(s: Seq<char>, p: spec_fn(char) -> bool, hi: int)
    requires
        0 <= hi <= s.len(),
        forall|k: int| hi <= k < s.len() ==> p(#[trigger] s[k]),
        hi > 0 ==> !p(s[hi - 1]),
    ensures
        spec_drop_trail(s, p) == s.take(hi),
    decreases s.len() - hi,
{
    if hi == s.len() {
        assert(s.take(hi) =~= s);
    } else {
        let s2 = s.drop_last();
        lemma_drop_trail(s2, p, hi);
        assert(s2.take(hi) =~= s.take(hi));
    }
}

/// The decimal digits of `n`, most significant first.
pub open spec fn spec_digits(n: int) -> Seq<char>
    decreases n,
{
    if n <= 0 {
        Seq::empty()
    } else {
        spec_digits(n / 10).push(spec_digit_char(n % 10))
    }
}

/// The character for one decimal digit.
pub open spec fn spec_digit_char(d: int) -> char {
    if d == 0 {
        '0'
    } else if d == 1 {
        '1'
    } else if d == 2 {
        '2'
    } else if d == 3 {
        '3'
    } else if d == 4 {
        '4'
    } else if d == 5 {
        '5'
    } else if d == 6 {
        '6'
    } else if d == 7 {
        '7'
    } else if d == 8 {
        '8'
    } else {
        '9'
    }
}

fn digit_char(d: u32) -> (r: char)
    requires
        d < 10,
    ensures
        r == spec_digit_char(d as int),
{
    if d == 0 {
        '0'
    } else if d == 1 {
        '1'
    } else if d == 2 {
        '2'
    } else if d == 3 {
        '3'
    } else if d == 4 {
        '4'
    } else if d == 5 {
        '5'
    } else if d == 6 {
        '6'
    } else if d == 7 {
        '7'
    } else if d == 8 {
        '8'
    } else {
        '9'
    }
}

/// The decimal form of a positive number, as characters.
pub fn digits_of(n: u32) -> (r: Vec<char>)
    requires
        1 <= n,
    ensures
        r@ == spec_digits(n as int),
    decreases n,
{
    let d = digit_char(n % 10);
    if n / 10 == 0 {
        let mut out: Vec<char> = Vec::new();
        out.push(d);
        proof {
            assert(spec_digits((n as int) / 10) == Seq::<char>::empty());
            assert(out@ =~= spec_digits(n as int));
        }
        out
    } else {
        let mut out = digits_of(n / 10);
        out.push(d);
        out
    }
}

/// UTF-8 length adds over concatenation.
pub proof fn lemma_utf8_concat(a: Seq<char>, b: Seq<char>)
    ensures
        spec_utf8_len_seq(a + b) == spec_utf8_len_seq(a) + spec_utf8_len_seq(b),
    decreases b.len(),
{
    if b.len() == 0 {
        assert(a + b =~= a);
    } else {
        assert((a + b).drop_last() =~= a + b.drop_last());
        assert((a + b).last() == b.last());
        lemma_utf8_concat(a, b.drop_last());
    }
}

/// A sequence of characters below 0x80 takes one byte each.
pub proof fn lemma_ascii_utf8(s: Seq<char>)
    requires
        forall|k: int| 0 <= k < s.len() ==> (#[trigger] s[k] as u32) < 128,
    ensures
        spec_utf8_len_seq(s) == s.len(),
    decreases s.len(),
{
    if s.len() > 0 {
        lemma_ascii_utf8(s.drop_last());
    }
}

/// The prefix that `spec_byte_fit` picks indeed fits within `max` bytes.
pub proof fn lemma_byte_fit_within(s: Seq<char>, max: int, i: int)
    requires
        0 <= i <= s.len(),
        spec_utf8_len_seq(s.take(i)) <= max,
    ensures
        spec_utf8_len_seq(s.take(spec_byte_fit(s, max, i))) <= max,
    decreases s.len() - i,
{
    if i < s.len() && !(spec_utf8_len_seq(s.take(i + 1)) > max) {
        lemma_byte_fit_within(s, max, i + 1);
    }
}

/// Decimal digit characters are plain ASCII.
pub proof fn lemma_digits_ascii(n: int)
    ensures
        forall|k: int| 0 <= k < spec_digits(n).len() ==> (#[trigger] spec_digits(n)[k] as u32)
            < 128,
    decreases n,
{
    if n > 0 {
        lemma_digits_ascii(n / 10);
        let s = spec_digits(n);
        assert forall|k: int| 0 <= k < s.len() implies (#[trigger] s[k] as u32) < 128 by {
            if k < s.len() - 1 {
                assert(s[k] == spec_digits(n / 10)[k]);
            } else {
                assert(s[k] == spec_digit_char(n % 10));
            }
        }
    }
}


} // verus!
