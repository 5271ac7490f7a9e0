//! Character-level utilities shared by name normalization, candidate
//! generation and the identity store: whitespace classification, trimming,
//! lexical order, punctuation-insensitive lookup keys and substring search.

use vstd::prelude::*;
use vstd::string::StrSliceExecFns;

use crate::outside::{lowered, push_char, to_lower};

verus! {

/// Whether a character counts as whitespace when trimming and collapsing
/// team names. This is the Unicode `White_Space` set.
pub open spec fn spec_is_ws(c: char) -> bool {
    c == ' ' || c == '\t' || c == '\n' || c == '\r' || c == '\u{000b}' || c == '\u{000c}'
        || c == '\u{0085}' || c == '\u{00a0}' || c == '\u{1680}' || c == '\u{2000}'
        || c == '\u{2001}' || c == '\u{2002}' || c == '\u{2003}' || c == '\u{2004}'
        || c == '\u{2005}' || c == '\u{2006}' || c == '\u{2007}' || c == '\u{2008}'
        || c == '\u{2009}' || c == '\u{200a}' || c == '\u{2028}' || c == '\u{2029}'
        || c == '\u{202f}' || c == '\u{205f}' || c == '\u{3000}'
}

/// Decides whether a character is whitespace for name handling.
pub fn is_ws(c: char) -> (r: bool)
    ensures
        r == spec_is_ws(c),
{
    c == ' ' || c == '\t' || c == '\n' || c == '\r' || c == '\u{000b}' || c == '\u{000c}'
        || c == '\u{0085}' || c == '\u{00a0}' || c == '\u{1680}' || c == '\u{2000}'
        || c == '\u{2001}' || c == '\u{2002}' || c == '\u{2003}' || c == '\u{2004}'
        || c == '\u{2005}' || c == '\u{2006}' || c == '\u{2007}' || c == '\u{2008}'
        || c == '\u{2009}' || c == '\u{200a}' || c == '\u{2028}' || c == '\u{2029}'
        || c == '\u{202f}' || c == '\u{205f}' || c == '\u{3000}'
}

/// The characters of a string slice, one `char` per element.
pub fn str_to_chars(s: &str) -> (v: Vec<char>)
    ensures
        v@ == s@,
{
    let n = s.unicode_len();
    let mut v: Vec<char> = Vec::new();
    let mut i: usize = 0;
    while i < n
        invariant
            n == s@.len(),
            i <= n,
            v@ == s@.subrange(0, i as int),
        decreases n - i,
    {
        v.push(s.get_char(i));
        i += 1;
        proof {
            assert(v@ =~= s@.subrange(0, i as int));
        }
    }
    proof {
        assert(v@ =~= s@);
    }
    v
}

/// A `String` holding exactly the given characters.
pub fn chars_to_string(v: &Vec<char>) -> (s: String)
    ensures
        s@ == v@,
{
    let mut s = String::new();
    let mut i: usize = 0;
    while i < v.len()
        invariant
            i <= v@.len(),
            s@ == v@.subrange(0, i as int),
        decreases v@.len() - i,
    {
        push_char(&mut s, v[i]);
        i += 1;
        proof {
            assert(s@ =~= v@.subrange(0, i as int));
        }
    }
    proof {
        assert(s@ =~= v@);
    }
    s
}

/// Character-for-character equality of two character vectors.
pub fn chars_eq(a: &Vec<char>, b: &Vec<char>) -> (r: bool)
    ensures
        r == (a@ == b@),
{
    if a.len() != b.len() {
        proof {
            assert(a@ != b@);
        }
        return false;
    }
    let mut i: usize = 0;
    while i < a.len()
        invariant
            a@.len() == b@.len(),
            i <= a@.len(),
            forall|j: int| 0 <= j < i ==> a@[j] == b@[j],
        decreases a@.len() - i,
    {
        if a[i] != b[i] {
            return false;
        }
        i += 1;
    }
    proof {
        assert(a@ =~= b@);
    }
    true
}

/// Character-for-character equality of two string slices.
pub fn str_eq(a: &str, b: &str) -> (r: bool)
    ensures
        r == (a@ == b@),
{
    let na = a.unicode_len();
    let nb = b.unicode_len();
    if na != nb {
        proof {
            assert(a@ != b@);
        }
        return false;
    }
    let mut i: usize = 0;
    while i < na
        invariant
            na == a@.len(),
            a@.len() == b@.len(),
            i <= a@.len(),
            forall|j: int| 0 <= j < i ==> a@[j] == b@[j],
        decreases na - i,
    {
        if a.get_char(i) != b.get_char(i) {
            return false;
        }
        i += 1;
    }
    proof {
        assert(a@ =~= b@);
    }
    true
}

/// The suffix of `s` from its first non-whitespace character on.
pub open spec fn trim_start_spec(s: Seq<char>) -> Seq<char>
    decreases s.len(),
{
    if s.len() == 0 {
        s
    } else if spec_is_ws(s[0]) {
        trim_start_spec(s.drop_first())
    } else {
        s
    }
}

/// The prefix of `s` up to its last non-whitespace character.
pub open spec fn trim_end_spec(s: Seq<char>) -> Seq<char>
    decreases s.len(),
{
    if s.len() == 0 {
        s
    } else if spec_is_ws(s[s.len() - 1]) {
        trim_end_spec(s.drop_last())
    } else {
        s
    }
}

/// `s` with leading and trailing whitespace removed.
pub open spec fn trim_spec(s: Seq<char>) -> Seq<char> {
    trim_end_spec(trim_start_spec(s))
}

proof fn lemma_trim_start_skip(s: Seq<char>, lo: int)
    requires
        0 <= lo <= s.len(),
        forall|j: int| 0 <= j < lo ==> spec_is_ws(s[j]),
        lo == s.len() || !spec_is_ws(s[lo]),
    ensures
        trim_start_spec(s) == s.subrange(lo, s.len() as int),
    decreases lo,
{
    if lo == 0 {
        if s.len() == 0 {
            assert(trim_start_spec(s) =~= s.subrange(0, s.len() as int));
        } else {
            assert(trim_start_spec(s) == s);
            assert(s =~= s.subrange(0, s.len() as int));
        }
    } else {
        let rest = s.drop_first();
        assert(spec_is_ws(s[0]));
        assert(forall|j: int| 0 <= j < lo - 1 ==> rest[j] == s[j + 1] && spec_is_ws(rest[j]));
        lemma_trim_start_skip(rest, lo - 1);
        assert(rest.subrange(lo - 1, rest.len() as int) =~= s.subrange(lo, s.len() as int));
    }
}

proof fn lemma_trim_end_take(s: Seq<char>, hi: int)
    requires
        0 <= hi <= s.len(),
        forall|j: int| hi <= j < s.len() ==> spec_is_ws(s[j]),
        hi == 0 || !spec_is_ws(s[hi - 1]),
    ensures
        trim_end_spec(s) == s.subrange(0, hi),
    decreases s.len() - hi,
{
    if hi == s.len() {
        if s.len() == 0 {
            assert(trim_end_spec(s) =~= s.subrange(0, hi));
        } else {
            assert(trim_end_spec(s) == s);
            assert(s =~= s.subrange(0, hi));
        }
    } else {
        let rest = s.drop_last();
        assert(spec_is_ws(s[s.len() - 1]));
        assert(forall|j: int| hi <= j < rest.len() ==> rest[j] == s[j] && spec_is_ws(rest[j]));
        lemma_trim_end_take(rest, hi);
        assert(rest.subrange(0, hi) =~= s.subrange(0, hi));
    }
}

/// The characters of `v` with leading and trailing whitespace removed.
pub fn trim_chars(v: &Vec<char>) -> (r: Vec<char>)
    ensures
        r@ == trim_spec(v@),
{
    let n = v.len();
    let mut lo: usize = 0;
    while lo < n && is_ws(v[lo])
        invariant
            n == v@.len(),
            lo <= n,
            forall|j: int| 0 <= j < lo ==> spec_is_ws(v@[j]),
        decreases n - lo,
    {
        lo += 1;
    }
    proof {
        lemma_trim_start_skip(v@, lo as int);
    }
    let ghost t = v@.subrange(lo as int, n as int);
    let mut hi: usize = n;
    while hi > lo && is_ws(v[hi - 1])
        invariant
            n == v@.len(),
            lo <= hi <= n,
            forall|j: int| hi <= j < n ==> spec_is_ws(v@[j]),
        decreases hi,
    {
        hi -= 1;
    }
    proof {
        assert(forall|j: int| hi - lo <= j < t.len() ==> t[j] == v@[j + lo] && spec_is_ws(t[j]));
        if hi > lo {
            assert(t[hi - lo - 1] == v@[hi - 1]);
        }
        lemma_trim_end_take(t, hi - lo);
    }
    let mut r: Vec<char> = Vec::new();
    let mut i: usize = lo;
    while i < hi
        invariant
            lo <= i <= hi <= n,
            n == v@.len(),
            r@ == v@.subrange(lo as int, i as int),
        decreases hi - i,
    {
        r.push(v[i]);
        i += 1;
        proof {
            assert(r@ =~= v@.subrange(lo as int, i as int));
        }
    }
    proof {
        assert(r@ =~= t.subrange(0, hi - lo));
    }
    r
}

/// Strict lexical (code-point) order on character sequences, compared
/// from position `i` on.
pub open spec fn lex_lt_from(a: Seq<char>, b: Seq<char>, i: int) -> bool
    decreases b.len() - i,
{
    if i < 0 || i >= b.len() {
        false
    } else if i >= a.len() {
        true
    } else if a[i] != b[i] {
        a[i] < b[i]
    } else {
        lex_lt_from(a, b, i + 1)
    }
}

/// Strict lexical (code-point) order on character sequences.
pub open spec fn lex_lt(a: Seq<char>, b: Seq<char>) -> bool {
    lex_lt_from(a, b, 0)
}

/// Lexical order is connected: two sequences neither of which precedes
/// the other are equal.
pub proof fn lemma_lex_connected_from(a: Seq<char>, b: Seq<char>, i: int)
    requires
        0 <= i <= a.len(),
        0 <= i <= b.len(),
        !lex_lt_from(a, b, i),
        !lex_lt_from(b, a, i),
    ensures
        a.len() == b.len(),
        forall|j: int| i <= j < a.len() ==> a[j] == b[j],
    decreases a.len() - i,
{
    if i >= b.len() {
        assert(!lex_lt_from(b, a, i) ==> i >= a.len());
    } else if i >= a.len() {
        assert(lex_lt_from(a, b, i));
    } else if a[i] != b[i] {
        assert(lex_lt_from(a, b, i) || lex_lt_from(b, a, i));
    } else {
        lemma_lex_connected_from(a, b, i + 1);
    }
}

/// Two sequences neither of which lexically precedes the other are equal.
pub proof fn lemma_lex_connected(a: Seq<char>, b: Seq<char>)
    requires
        !lex_lt(a, b),
        !lex_lt(b, a),
    ensures
        a == b,
{
    lemma_lex_connected_from(a, b, 0);
    assert(a =~= b);
}

/// Decides strict lexical (code-point) order on character vectors.
pub fn chars_lex_lt(a: &Vec<char>, b: &Vec<char>) -> (r: bool)
    ensures
        r == lex_lt(a@, b@),
{
    let mut i: usize = 0;
    loop
        invariant
            i <= a@.len(),
            i <= b@.len(),
            lex_lt(a@, b@) == lex_lt_from(a@, b@, i as int),
        decreases b@.len() - i,
    {
        if i >= b.len() {
            return false;
        }
        if i >= a.len() {
            return true;
        }
        if a[i] != b[i] {
            return a[i] < b[i];
        }
        i += 1;
    }
}

/// Whether a character survives into a punctuation-insensitive lookup
/// key: a lowercase ASCII letter or an ASCII digit.
pub open spec fn spec_is_key_char(c: char) -> bool {
    ('a' <= c && c <= 'z') || ('0' <= c && c <= '9')
}

/// The subsequence of key characters of `s`, from position `i` on.
pub open spec fn keep_key_chars_from(s: Seq<char>, i: int) -> Seq<char>
    decreases s.len() - i,
{
    if i < 0 || i >= s.len() {
        Seq::empty()
    } else if spec_is_key_char(s[i]) {
        seq![s[i]] + keep_key_chars_from(s, i + 1)
    } else {
        keep_key_chars_from(s, i + 1)
    }
}

/// The punctuation- and case-insensitive lookup key of a name: its
/// Unicode-lowercased form restricted to ASCII letters and digits.
pub open spec fn fuzzy_key_spec(s: Seq<char>) -> Seq<char> {
    keep_key_chars_from(lowered(s), 0)
}

/// Computes the punctuation- and case-insensitive lookup key of a name.
pub fn fuzzy_key(s: &str) -> (r: String)
    ensures
        r@ == fuzzy_key_spec(s@),
{
    let low = to_lower(s);
    let chars = str_to_chars(low.as_str());
    let n = chars.len();
    let mut acc: Vec<char> = Vec::new();
    let mut k: usize = 0;
    while k < n
        invariant
            n == chars@.len(),
            k <= n,
            acc@ + keep_key_chars_from(chars@, k as int) == keep_key_chars_from(chars@, 0),
        decreases n - k,
    {
        let c = chars[k];
        if ('a' <= c && c <= 'z') || ('0' <= c && c <= '9') {
            acc.push(c);
        }
        k += 1;
        proof {
            assert(acc@ + keep_key_chars_from(chars@, k as int) =~= keep_key_chars_from(
                chars@,
                0,
            ));
        }
    }
    proof {
        assert(acc@ =~= keep_key_chars_from(chars@, 0));
    }
    chars_to_string(&acc)
}

/// Whether `needle` occurs as a contiguous subsequence of `hay`.
pub open spec fn spec_contains(hay: Seq<char>, needle: Seq<char>) -> bool {
    exists|i: int|
        0 <= i && i + needle.len() <= hay.len() && #[trigger] hay.subrange(i, i + needle.len())
            == needle
}

/// Whether `hay` starts with `needle`.
pub open spec fn spec_starts_with(hay: Seq<char>, needle: Seq<char>) -> bool {
    needle.len() <= hay.len() && hay.subrange(0, needle.len() as int) == needle
}

pub(crate) fn chars_match_at(hay: &Vec<char>, needle: &Vec<char>, at: usize) -> (r: bool)
    requires
        at + needle@.len() <= hay@.len(),
    ensures
        r == (hay@.subrange(at as int, at + needle@.len()) == needle@),
{
    let m = needle.len();
    let hn = hay.len();
    let mut j: usize = 0;
    while j < m
        invariant
            m == needle@.len(),
            hn == hay@.len(),
            at + m <= hn,
            j <= m,
            forall|t: int| 0 <= t < j ==> hay@[at + t] == needle@[t],
        decreases m - j,
    {
        if hay[at + j] != needle[j] {
            proof {
                assert(hay@.subrange(at as int, at + needle@.len())[j as int] == hay@[at + j]);
            }
            return false;
        }
        j += 1;
    }
    proof {
        assert(hay@.subrange(at as int, at + needle@.len()) =~= needle@);
    }
    true
}

/// Decides whether `needle` occurs as a contiguous run inside `hay`.
pub fn chars_contain(hay: &Vec<char>, needle: &Vec<char>) -> (r: bool)
    ensures
        r == spec_contains(hay@, needle@),
{
    let n = hay.len();
    let m = needle.len();
    if m > n {
        proof {
            assert(!spec_contains(hay@, needle@));
        }
        return false;
    }
    if m == 0 {
        proof {
            assert(hay@.subrange(0, 0 + needle@.len() as int) =~= needle@);
        }
        return true;
    }
    let mut i: usize = 0;
    while i <= n - m
        invariant
            n == hay@.len(),
            m == needle@.len(),
            1 <= m <= n,
            i <= n - m + 1,
            forall|t: int|
                0 <= t < i ==> #[trigger] hay@.subrange(t, t + needle@.len()) != needle@,
        decreases n - m + 1 - i,
    {
        if chars_match_at(hay, needle, i) {
            return true;
        }
        i += 1;
    }
    proof {
        assert(!spec_contains(hay@, needle@));
    }
    false
}

/// Decides whether `hay` starts with `needle`.
pub fn chars_start_with(hay: &Vec<char>, needle: &Vec<char>) -> (r: bool)
    ensures
        r == spec_starts_with(hay@, needle@),
{
    if needle.len() > hay.len() {
        return false;
    }
    chars_match_at(hay, needle, 0)
}

/// Whether every character of `s` is an ASCII decimal digit.
pub open spec fn spec_all_digits(s: Seq<char>) -> bool {
    forall|i: int| 0 <= i < s.len() ==> '0' <= s[i] && s[i] <= '9'
}

/// The numeric value of a digit string, as an unbounded natural number.
pub open spec fn spec_digits_value(s: Seq<char>) -> nat
    decreases s.len(),
{
    if s.len() == 0 {
        0
    } else {
        (spec_digits_value(s.drop_last()) * 10 + (s[s.len() - 1] as int - '0' as int)) as nat
    }
}

/// Parses a non-empty run of ASCII digits as a `u64`; anything else, and
/// any value that does not fit, yields `None`.
pub fn parse_u64(s: &str) -> (r: Option<u64>)
    ensures
        match r {
            Some(v) => s@.len() > 0 && spec_all_digits(s@) && v == spec_digits_value(s@),
            None => s@.len() == 0 || !spec_all_digits(s@) || spec_digits_value(s@) > u64::MAX,
        },
{
    let chars = str_to_chars(s);
    let n = chars.len();
    if n == 0 {
        return None;
    }
    let mut val: u64 = 0;
    let mut i: usize = 0;
    while i < n
        invariant
            n == chars@.len(),
            chars@ == s@,
            i <= n,
            spec_all_digits(s@.subrange(0, i as int)),
            val == spec_digits_value(s@.subrange(0, i as int)),
        decreases n - i,
    {
        let c = chars[i];
        if !('0' <= c && c <= '9') {
            proof {
                assert(!spec_all_digits(s@));
            }
            return None;
        }
        let d: u64 = (c as u32 as u64) - ('0' as u32 as u64);
        proof {
            assert(d <= 9) by {
                assert('0' <= c && c <= '9');
            }
        }
        if val > (u64::MAX - d) / 10 {
            proof {
                let p = s@.subrange(0, i as int);
                let q = s@.subrange(0, i as int + 1);
                assert(q.drop_last() =~= p);
                assert(spec_digits_value(q) == spec_digits_value(p) * 10 + d);
                lemma_digits_value_monotone(s@, i as int + 1);
                assert(spec_digits_value(s@) > u64::MAX || !spec_all_digits(s@));
            }
            return None;
        }
        proof {
            let p = s@.subrange(0, i as int);
            let q = s@.subrange(0, i as int + 1);
            assert(q.drop_last() =~= p);
            assert(q[q.len() - 1] == c);
        }
        val = val * 10 + d;
        i += 1;
    }
    proof {
        assert(s@.subrange(0, n as int) =~= s@);
    }
    Some(val)
}

/// If a digit-string prefix already exceeds `u64::MAX`, the whole string
/// does too (or it has a non-digit character).
proof fn lemma_digits_value_monotone(s: Seq<char>, i: int)
    requires
        0 <= i <= s.len(),
        spec_digits_value(s.subrange(0, i)) > u64::MAX,
    ensures
        !spec_all_digits(s) || spec_digits_value(s) > u64::MAX,
    decreases s.len() - i,
{
    if i == s.len() {
        assert(s.subrange(0, i) =~= s);
    } else {
        if spec_all_digits(s) {
            let p = s.subrange(0, i);
            let q = s.subrange(0, i + 1);
            assert(q.drop_last() =~= p);
            assert(spec_digits_value(q) == spec_digits_value(p) * 10 + (q[q.len() - 1] as nat
                - '0' as nat));
            assert(spec_digits_value(q) >= spec_digits_value(p)) by (nonlinear_arith)
                requires
                    spec_digits_value(q) == spec_digits_value(p) * 10 + (q[i] as nat - '0' as nat),
                    spec_digits_value(p) >= 0,
                    q[i] as nat >= '0' as nat,
            ;
            lemma_digits_value_monotone(s, i + 1);
        }
    }
}

/// Parses a `u64`, falling back to `default` when the text is not a
/// digit string that fits.
pub fn parse_u64_or(s: &str, default: u64) -> (r: u64)
    ensures
        match parse_u64_result(s@) {
            Some(v) => r == v,
            None => r == default,
        },
{
    match parse_u64(s) {
        Some(v) => v,
        None => default,
    }
}

/// The value `parse_u64` is specified to return.
pub open spec fn parse_u64_result(s: Seq<char>) -> Option<u64> {
    if s.len() > 0 && spec_all_digits(s) && spec_digits_value(s) <= u64::MAX {
        Some(spec_digits_value(s) as u64)
    } else {
        None
    }
}


/// Trimming trailing whitespace never lengthens a sequence.
pub proof fn lemma_trim_end_shorter(s: Seq<char>)
    ensures
        trim_end_spec(s).len() <= s.len(),
    decreases s.len(),
{
    if s.len() == 0 {
    } else if spec_is_ws(s[s.len() - 1]) {
        lemma_trim_end_shorter(s.drop_last());
    }
}

/// The characters of `v` with trailing whitespace removed.
pub fn trim_end_chars(v: &Vec<char>) -> (r: Vec<char>)
    ensures
        r@ == trim_end_spec(v@),
{
    let n = v.len();
    let mut hi: usize = n;
    while hi > 0 && is_ws(v[hi - 1])
        invariant
            n == v@.len(),
            hi <= n,
            forall|j: int| hi <= j < n ==> spec_is_ws(v@[j]),
        decreases hi,
    {
        hi -= 1;
    }
    proof {
        lemma_trim_end_take(v@, hi as int);
    }
    let mut r: Vec<char> = Vec::new();
    let mut i: usize = 0;
    while i < hi
        invariant
            i <= hi <= n,
            n == v@.len(),
            r@ == v@.subrange(0, i as int),
        decreases hi - i,
    {
        r.push(v[i]);
        i += 1;
        proof {
            assert(r@ =~= v@.subrange(0, i as int));
        }
    }
    r
}

/// Appends the characters of `src` to `dst`.
pub fn push_all(dst: &mut Vec<char>, src: &Vec<char>)
    ensures
        final(dst)@ == old(dst)@ + src@,
{
    let mut i: usize = 0;
    while i < src.len()
        invariant
            i <= src@.len(),
            dst@ == old(dst)@ + src@.subrange(0, i as int),
        decreases src@.len() - i,
    {
        dst.push(src[i]);
        i += 1;
        proof {
            assert(dst@ =~= old(dst)@ + src@.subrange(0, i as int));
        }
    }
    proof {
        assert(dst@ =~= old(dst)@ + src@);
    }
}


/// An owned copy of a string slice.
pub fn str_owned(s: &str) -> (r: String)
    ensures
        r@ == s@,
{
    let chars = str_to_chars(s);
    chars_to_string(&chars)
}

} // verus!
