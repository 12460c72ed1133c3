//! Character-level text utilities shared by the decoder, the importers and
//! the filter predicates: equality, substring search, trimming and digit
//! parsing, each proved against a direct mathematical statement.

use vstd::prelude::*;
use vstd::string::*;

verus! {

/// Whitespace as the scanners treat it: space, tab, carriage return, newline.
pub open spec fn is_ws(c: char) -> bool {
    c == ' ' || c == '\t' || c == '\r' || c == '\n'
}

pub fn is_ws_char(c: char) -> (r: bool)
    ensures
        r == is_ws(c),
{
    c == ' ' || c == '\t' || c == '\r' || c == '\n'
}

/// Character-for-character equality of two string slices.
pub fn str_eq(a: &str, b: &str) -> (r: bool)
    ensures
        r == (a@ == b@),
{
    let sa = a.to_owned();
    let sb = b.to_owned();
    sa == sb
}

/// Index of the first non-whitespace character at or after `i`, or `s.len()`.
pub open spec fn skip_ws(s: Seq<char>, i: int) -> int
    decreases s.len() - i when 0 <= i <= s.len()
{
    if i >= s.len() {
        s.len() as int
    } else if is_ws(s[i]) {
        skip_ws(s, i + 1)
    } else {
        i
    }
}

pub proof fn lemma_skip_ws_bounds(s: Seq<char>, i: int)
    requires
        0 <= i <= s.len(),
    ensures
        i <= skip_ws(s, i) <= s.len(),
    decreases s.len() - i,
{
    if i < s.len() && is_ws(s[i]) {
        lemma_skip_ws_bounds(s, i + 1);
    }
}

pub fn skip_ws_exec(s: &str, i: usize) -> (r: usize)
    requires
        i <= s@.len(),
    ensures
        r == skip_ws(s@, i as int),
        i <= r <= s@.len(),
    decreases s@.len() - i,
{
    proof { lemma_skip_ws_bounds(s@, i as int); }
    if i >= s.unicode_len() {
        s.unicode_len()
    } else if is_ws_char(s.get_char(i)) {
        skip_ws_exec(s, i + 1)
    } else {
        i
    }
}

/// Index one past the last non-whitespace character before `j`, or `0`.
pub open spec fn rskip_ws(s: Seq<char>, j: int) -> int
    decreases j when 0 <= j <= s.len()
{
    if j <= 0 {
        0
    } else if is_ws(s[j - 1]) {
        rskip_ws(s, j - 1)
    } else {
        j
    }
}

pub proof fn lemma_rskip_ws_bounds(s: Seq<char>, j: int)
    requires
        0 <= j <= s.len(),
    ensures
        0 <= rskip_ws(s, j) <= j,
    decreases j,
{
    if j > 0 && is_ws(s[j - 1]) {
        lemma_rskip_ws_bounds(s, j - 1);
    }
}

pub fn rskip_ws_exec(s: &str, j: usize) -> (r: usize)
    requires
        j <= s@.len(),
    ensures
        r == rskip_ws(s@, j as int),
        r <= j,
    decreases j,
{
    proof { lemma_rskip_ws_bounds(s@, j as int); }
    if j == 0 {
        0
    } else if is_ws_char(s.get_char(j - 1)) {
        rskip_ws_exec(s, j - 1)
    } else {
        j
    }
}

/// The string with leading and trailing whitespace removed.
pub open spec fn trim_spec(s: Seq<char>) -> Seq<char> {
    let a = skip_ws(s, 0);
    let b = rskip_ws(s, s.len() as int);
    if a < b {
        s.subrange(a, b)
    } else {
        Seq::empty()
    }
}

/// Trims `s` to a fresh owned string.
pub fn trim_str(s: &str) -> (r: String)
    ensures
        r@ == trim_spec(s@),
{
    let n = s.unicode_len();
    let a = skip_ws_exec(s, 0);
    let b = rskip_ws_exec(s, n);
    if a < b {
        s.substring_char(a, b).to_owned()
    } else {
        proof { assert(trim_spec(s@) =~= Seq::<char>::empty()); }
        String::new()
    }
}

/// The needle occurs as a contiguous run somewhere in the haystack.
pub open spec fn has_substr(h: Seq<char>, n: Seq<char>) -> bool {
    exists|i: int| 0 <= i <= h.len() - n.len() && #[trigger] h.subrange(i, i + n.len()) == n
}

/// Whether the needle occurs starting exactly at index `i` of the haystack.
fn match_at(h: &str, i: usize, n: &str) -> (r: bool)
    requires
        i + n@.len() <= h@.len(),
    ensures
        r == (h@.subrange(i as int, i + n@.len()) == n@),
{
    let hl = h.unicode_len();
    let nl = n.unicode_len();
    let mut k: usize = 0;
    while k < nl
        invariant
            0 <= k <= nl,
            nl == n@.len(),
            hl == h@.len(),
            i + nl <= h@.len(),
            forall|p: int| 0 <= p < k ==> h@[i + p] == n@[p],
        decreases nl - k,
    {
        if h.get_char(i + k) != n.get_char(k) {
            assert(h@.subrange(i as int, i + n@.len())[k as int] != n@[k as int]);
            return false;
        }
        k += 1;
    }
    proof {
        assert(h@.subrange(i as int, i + n@.len()) =~= n@);
    }
    true
}

/// Substring search, the membership half of every text filter predicate.
pub fn contains_substr(h: &str, n: &str) -> (r: bool)
    ensures
        r == has_substr(h@, n@),
{
    let hl = h.unicode_len();
    let nl = n.unicode_len();
    if nl > hl {
        return false;
    }
    let mut i: usize = 0;
    while i < hl - nl
        invariant
            nl <= hl,
            hl == h@.len(),
            nl == n@.len(),
            0 <= i <= hl - nl,
            forall|p: int| 0 <= p < i ==> #[trigger] h@.subrange(p, p + n@.len()) != n@,
        decreases hl - nl - i,
    {
        if match_at(h, i, n) {
            return true;
        }
        i += 1;
    }
    if match_at(h, i, n) {
        return true;
    }
    false
}

/// The string ends with the given suffix.
pub open spec fn ends_with_spec(s: Seq<char>, suffix: Seq<char>) -> bool {
    s.len() >= suffix.len() && s.subrange(s.len() - suffix.len(), s.len() as int) == suffix
}

/// Suffix test, used to dispatch imports by file extension.
pub fn str_ends_with(s: &str, suffix: &str) -> (b: bool)
    ensures
        b == ends_with_spec(s@, suffix@),
{
    let n = s.unicode_len();
    let m = suffix.unicode_len();
    if m > n {
        false
    } else {
        str_eq(s.substring_char(n - m, n), suffix)
    }
}

/// The numeric value of a digit string, most significant digit first.
pub open spec fn digits_val(s: Seq<char>) -> int
    decreases s.len(),
{
    if s.len() == 0 {
        0
    } else {
        digits_val(s.drop_last()) * 10 + (s.last() as int - '0' as int)
    }
}

pub open spec fn is_digit(c: char) -> bool {
    '0' as int <= c as int <= '9' as int
}

pub open spec fn all_digits(s: Seq<char>) -> bool {
    forall|i: int| 0 <= i < s.len() ==> is_digit(#[trigger] s[i])
}

/// How numeric element text becomes an event identifier: a non-empty all-digit
/// string whose value fits in sixteen bits, and zero for everything else.
pub open spec fn parse_u16_spec(s: Seq<char>) -> u16 {
    if s.len() > 0 && all_digits(s) && 0 <= digits_val(s) <= 65535 {
        digits_val(s) as u16
    } else {
        0
    }
}

/// Value of a digit prefix, saturated just above the sixteen-bit range so that
/// overflowing identifiers are detected without unbounded arithmetic.
spec fn capped_val(s: Seq<char>) -> int {
    if digits_val(s) > 70000 {
        70000
    } else {
        digits_val(s)
    }
}

proof fn lemma_digits_val_nonneg(s: Seq<char>)
    requires
        all_digits(s),
    ensures
        digits_val(s) >= 0,
    decreases s.len(),
{
    if s.len() > 0 {
        assert(all_digits(s.drop_last())) by {
            assert(forall|i: int| 0 <= i < s.len() - 1 ==> s.drop_last()[i] == s[i]);
        }
        lemma_digits_val_nonneg(s.drop_last());
    }
}

pub fn parse_u16(s: &str) -> (r: u16)
    ensures
        r == parse_u16_spec(s@),
{
    let n = s.unicode_len();
    if n == 0 {
        return 0;
    }
    let mut i: usize = 0;
    let mut acc: u32 = 0;
    while i < n
        invariant
            0 <= i <= n,
            n == s@.len(),
            all_digits(s@.subrange(0, i as int)),
            acc == capped_val(s@.subrange(0, i as int)),
            0 <= acc <= 70000,
        decreases n - i,
    {
        let c = s.get_char(i);
        if (c as u32) < ('0' as u32) || (c as u32) > ('9' as u32) {
            assert(!all_digits(s@));
            return 0;
        }
        proof {
            let pre = s@.subrange(0, i as int);
            let cur = s@.subrange(0, i + 1);
            assert(cur.drop_last() =~= pre);
            assert(cur.last() == c);
            assert(all_digits(cur));
            lemma_digits_val_nonneg(cur);
            lemma_digits_val_nonneg(pre);
        }
        let d: u32 = (c as u32) - ('0' as u32);
        acc = acc * 10 + d;
        if acc > 70000 {
            acc = 70000;
        }
        i += 1;
    }
    proof {
        assert(s@.subrange(0, n as int) =~= s@);
    }
    if acc > 65535 {
        0
    } else {
        acc as u16
    }
}

} // verus!
