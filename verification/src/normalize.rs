//! Team-name normalization: drop parenthesized text, unify quote and
//! dash variants, drop periods, collapse whitespace and trim. The
//! transform is proved idempotent.

use vstd::prelude::*;

use crate::text::{chars_to_string, is_ws, spec_is_ws, str_to_chars};

verus! {

/// Characters of `s` from position `i` on, with parenthesized text (and
/// the parentheses themselves) removed; `depth` counts currently open
/// parentheses.
pub open spec fn strip_parens_from(s: Seq<char>, i: int, depth: nat) -> Seq<char>
    decreases s.len() - i,
{
    if i < 0 || i >= s.len() {
        Seq::empty()
    } else if s[i] == '(' {
        strip_parens_from(s, i + 1, depth + 1)
    } else if s[i] == ')' {
        strip_parens_from(s, i + 1, if depth > 0 { (depth - 1) as nat } else { 0 })
    } else if depth > 0 {
        strip_parens_from(s, i + 1, depth)
    } else {
        seq![s[i]] + strip_parens_from(s, i + 1, depth)
    }
}

/// `s` with parenthesized text removed.
pub open spec fn strip_parens_spec(s: Seq<char>) -> Seq<char> {
    strip_parens_from(s, 0, 0)
}

/// Maps curly quotes to an apostrophe and dash variants to a space;
/// leaves every other character alone.
pub open spec fn map_quote_dash(c: char) -> char {
    if c == '\u{2019}' || c == '\u{2018}' {
        '\''
    } else if c == '\u{2013}' || c == '\u{2014}' || c == '-' {
        ' '
    } else {
        c
    }
}

/// Whether a character is rewritten or dropped by the quote/dash/period
/// pass.
pub open spec fn spec_is_special(c: char) -> bool {
    c == '.' || c == '\u{2019}' || c == '\u{2018}' || c == '\u{2013}' || c == '\u{2014}'
        || c == '-'
}

/// Characters of `s` from position `i` on, with periods dropped and
/// quote/dash variants unified.
pub open spec fn replace_specials_from(s: Seq<char>, i: int) -> Seq<char>
    decreases s.len() - i,
{
    if i < 0 || i >= s.len() {
        Seq::empty()
    } else if s[i] == '.' {
        replace_specials_from(s, i + 1)
    } else {
        seq![map_quote_dash(s[i])] + replace_specials_from(s, i + 1)
    }
}

/// Characters of `s` from position `i` on, with every run of whitespace
/// collapsed to a single space and leading/trailing whitespace dropped.
/// `started` records whether a word character was already emitted;
/// `pending` records whether a separating space is owed before the next
/// word character.
pub open spec fn collapse_ws_from(s: Seq<char>, i: int, pending: bool, started: bool) -> Seq<char>
    decreases s.len() - i,
{
    if i < 0 || i >= s.len() {
        Seq::empty()
    } else if spec_is_ws(s[i]) {
        collapse_ws_from(s, i + 1, started, started)
    } else if pending {
        seq![' ', s[i]] + collapse_ws_from(s, i + 1, false, true)
    } else {
        seq![s[i]] + collapse_ws_from(s, i + 1, false, true)
    }
}

/// The normalized form of a raw team name: parenthesized text removed,
/// quotes and dashes unified, periods dropped, whitespace collapsed and
/// trimmed.
pub open spec fn normalize_spec(s: Seq<char>) -> Seq<char> {
    collapse_ws_from(replace_specials_from(strip_parens_spec(s), 0), 0, false, false)
}

/// Computes the parenthesis-stripping pass.
fn strip_parens_chars(v: &Vec<char>) -> (r: Vec<char>)
    ensures
        r@ == strip_parens_spec(v@),
{
    let n = v.len();
    let mut out: Vec<char> = Vec::new();
    let mut depth: usize = 0;
    let mut i: usize = 0;
    while i < n
        invariant
            n == v@.len(),
            i <= n,
            depth <= i,
            out@ + strip_parens_from(v@, i as int, depth as nat) == strip_parens_spec(v@),
        decreases n - i,
    {
        let c = v[i];
        if c == '(' {
            depth += 1;
        } else if c == ')' {
            if depth > 0 {
                depth -= 1;
            }
        } else if depth == 0 {
            out.push(c);
            proof {
                assert(out@ + strip_parens_from(v@, i + 1, depth as nat) =~= out@.drop_last() + (
                seq![v@[i as int]] + strip_parens_from(v@, i + 1, depth as nat)));
            }
        }
        i += 1;
    }
    proof {
        assert(out@ =~= out@ + strip_parens_from(v@, n as int, depth as nat));
    }
    out
}

/// Computes the quote/dash/period pass.
fn replace_specials_chars(v: &Vec<char>) -> (r: Vec<char>)
    ensures
        r@ == replace_specials_from(v@, 0),
{
    let n = v.len();
    let mut out: Vec<char> = Vec::new();
    let mut i: usize = 0;
    while i < n
        invariant
            n == v@.len(),
            i <= n,
            out@ + replace_specials_from(v@, i as int) == replace_specials_from(v@, 0),
        decreases n - i,
    {
        let c = v[i];
        if c != '.' {
            let mapped: char = if c == '\u{2019}' || c == '\u{2018}' {
                '\''
            } else if c == '\u{2013}' || c == '\u{2014}' || c == '-' {
                ' '
            } else {
                c
            };
            out.push(mapped);
            proof {
                assert(out@ + replace_specials_from(v@, i + 1) =~= out@.drop_last() + (seq![
                    map_quote_dash(v@[i as int]),
                ] + replace_specials_from(v@, i + 1)));
            }
        }
        i += 1;
    }
    proof {
        assert(out@ =~= out@ + replace_specials_from(v@, n as int));
    }
    out
}

/// Computes the whitespace-collapsing pass.
fn collapse_ws_chars(v: &Vec<char>) -> (r: Vec<char>)
    ensures
        r@ == collapse_ws_from(v@, 0, false, false),
{
    let n = v.len();
    let mut out: Vec<char> = Vec::new();
    let mut pending: bool = false;
    let mut started: bool = false;
    let mut i: usize = 0;
    while i < n
        invariant
            n == v@.len(),
            i <= n,
            out@ + collapse_ws_from(v@, i as int, pending, started) == collapse_ws_from(
                v@,
                0,
                false,
                false,
            ),
        decreases n - i,
    {
        let c = v[i];
        if is_ws(c) {
            pending = started;
        } else {
            if pending {
                out.push(' ');
                out.push(c);
                proof {
                    assert(out@ + collapse_ws_from(v@, i + 1, false, true) =~= out@.drop_last()
                        .drop_last() + (seq![' ', v@[i as int]] + collapse_ws_from(
                        v@,
                        i + 1,
                        false,
                        true,
                    )));
                }
            } else {
                out.push(c);
                proof {
                    assert(out@ + collapse_ws_from(v@, i + 1, false, true) =~= out@.drop_last() + (
                    seq![v@[i as int]] + collapse_ws_from(v@, i + 1, false, true)));
                }
            }
            pending = false;
            started = true;
        }
        i += 1;
    }
    proof {
        assert(out@ =~= out@ + collapse_ws_from(v@, n as int, pending, started));
    }
    out
}

/// Normalizes the characters of a raw team name.
pub fn normalize_chars(v: &Vec<char>) -> (r: Vec<char>)
    ensures
        r@ == normalize_spec(v@),
{
    let pass1 = strip_parens_chars(v);
    let pass2 = replace_specials_chars(&pass1);
    collapse_ws_chars(&pass2)
}

/// Normalizes a raw team name for lookup: removes parenthesized text,
/// unifies quote and dash variants, drops periods, collapses whitespace
/// and trims.
pub fn normalize_lookup_name(name: &str) -> (r: String)
    ensures
        r@ == normalize_spec(name@),
{
    let chars = str_to_chars(name);
    let out = normalize_chars(&chars);
    chars_to_string(&out)
}

/// The canonical form under which a previously unknown team is created:
/// deliberately the conservative lookup normalization, nothing more.
pub fn normalize_team_name(name: &str) -> (r: String)
    ensures
        r@ == normalize_spec(name@),
{
    normalize_lookup_name(name)
}

// ---------------------------------------------------------------------
// Idempotence.
// ---------------------------------------------------------------------

/// Whether some character of `s` at position `i` or later equals `c`.
pub open spec fn appears_from(s: Seq<char>, i: int, c: char) -> bool {
    exists|k: int| i <= k < s.len() && s[k] == c
}

/// The shape of collapsed output: every whitespace character is a plain
/// space, and every space is immediately followed by a non-space word
/// character.
pub open spec fn collapsed_form(r: Seq<char>) -> bool {
    (forall|j: int| 0 <= j < r.len() && spec_is_ws(#[trigger] r[j]) ==> r[j] == ' ') && (forall|
        j: int,
    |
        0 <= j < r.len() && #[trigger] r[j] == ' ' ==> j + 1 < r.len() && !spec_is_ws(r[j + 1]))
}

proof fn lemma_strip_no_parens(s: Seq<char>, i: int, depth: nat)
    ensures
        forall|j: int|
            0 <= j < strip_parens_from(s, i, depth).len() ==> #[trigger] strip_parens_from(
                s,
                i,
                depth,
            )[j] != '(' && strip_parens_from(s, i, depth)[j] != ')',
    decreases s.len() - i,
{
    if i < 0 || i >= s.len() {
    } else if s[i] == '(' {
        lemma_strip_no_parens(s, i + 1, depth + 1);
        assert(strip_parens_from(s, i, depth) == strip_parens_from(s, i + 1, depth + 1));
    } else if s[i] == ')' {
        lemma_strip_no_parens(s, i + 1, if depth > 0 { (depth - 1) as nat } else { 0 });
        assert(strip_parens_from(s, i, depth) == strip_parens_from(
            s,
            i + 1,
            if depth > 0 { (depth - 1) as nat } else { 0 },
        ));
    } else if depth > 0 {
        lemma_strip_no_parens(s, i + 1, depth);
        assert(strip_parens_from(s, i, depth) == strip_parens_from(s, i + 1, depth));
    } else {
        lemma_strip_no_parens(s, i + 1, depth);
        let r = strip_parens_from(s, i, depth);
        let rest = strip_parens_from(s, i + 1, depth);
        assert(r == seq![s[i]] + rest);
        assert(r[0] == s[i]);
        assert(forall|j: int| 1 <= j < r.len() ==> #[trigger] r[j] == rest[j - 1]);
    }
}

proof fn lemma_strip_noop(s: Seq<char>, i: int)
    requires
        0 <= i <= s.len(),
        forall|j: int| 0 <= j < s.len() ==> #[trigger] s[j] != '(' && s[j] != ')',
    ensures
        strip_parens_from(s, i, 0) == s.subrange(i, s.len() as int),
    decreases s.len() - i,
{
    if i == s.len() {
        assert(strip_parens_from(s, i, 0) =~= s.subrange(i, s.len() as int));
    } else {
        lemma_strip_noop(s, i + 1);
        assert(strip_parens_from(s, i, 0) =~= s.subrange(i, s.len() as int));
    }
}

proof fn lemma_replace_chars(s: Seq<char>, i: int)
    requires
        forall|j: int| 0 <= j < s.len() ==> #[trigger] s[j] != '(' && s[j] != ')',
    ensures
        forall|j: int|
            0 <= j < replace_specials_from(s, i).len() ==> !spec_is_special(
                #[trigger] replace_specials_from(s, i)[j],
            ) && replace_specials_from(s, i)[j] != '(' && replace_specials_from(s, i)[j] != ')',
    decreases s.len() - i,
{
    if i < 0 || i >= s.len() {
    } else {
        lemma_replace_chars(s, i + 1);
        if s[i] == '.' {
            assert(replace_specials_from(s, i) == replace_specials_from(s, i + 1));
        } else {
            let r = replace_specials_from(s, i);
            let rest = replace_specials_from(s, i + 1);
            assert(r == seq![map_quote_dash(s[i])] + rest);
            assert(r[0] == map_quote_dash(s[i]));
            assert(!spec_is_special(map_quote_dash(s[i])) && map_quote_dash(s[i]) != '('
                && map_quote_dash(s[i]) != ')');
            assert(forall|j: int| 1 <= j < r.len() ==> #[trigger] r[j] == rest[j - 1]);
        }
    }
}

proof fn lemma_replace_noop(s: Seq<char>, i: int)
    requires
        0 <= i <= s.len(),
        forall|j: int| 0 <= j < s.len() ==> !spec_is_special(#[trigger] s[j]),
    ensures
        replace_specials_from(s, i) == s.subrange(i, s.len() as int),
    decreases s.len() - i,
{
    if i == s.len() {
        assert(replace_specials_from(s, i) =~= s.subrange(i, s.len() as int));
    } else {
        lemma_replace_noop(s, i + 1);
        assert(map_quote_dash(s[i]) == s[i]);
        assert(replace_specials_from(s, i) =~= s.subrange(i, s.len() as int));
    }
}

proof fn lemma_collapse_form(s: Seq<char>, i: int, pending: bool, started: bool)
    requires
        pending ==> started,
    ensures
        collapsed_form(collapse_ws_from(s, i, pending, started)),
        !started ==> (collapse_ws_from(s, i, pending, started).len() > 0 ==> !spec_is_ws(
            collapse_ws_from(s, i, pending, started)[0],
        ) && collapse_ws_from(s, i, pending, started)[0] != ' '),
        forall|j: int|
            0 <= j < collapse_ws_from(s, i, pending, started).len() ==> #[trigger] collapse_ws_from(
                s,
                i,
                pending,
                started,
            )[j] == ' ' || (appears_from(s, i, collapse_ws_from(s, i, pending, started)[j])
                && !spec_is_ws(collapse_ws_from(s, i, pending, started)[j])),
    decreases s.len() - i,
{
    let r = collapse_ws_from(s, i, pending, started);
    if i < 0 || i >= s.len() {
    } else if spec_is_ws(s[i]) {
        lemma_collapse_form(s, i + 1, started, started);
    } else if pending {
        lemma_collapse_form(s, i + 1, false, true);
        let rest = collapse_ws_from(s, i + 1, false, true);
        assert(r == seq![' ', s[i]] + rest);
        assert(r[0] == ' ' && r[1] == s[i]);
        assert(forall|j: int| 2 <= j < r.len() ==> r[j] == #[trigger] rest[j - 2]);
        assert forall|j: int|
            0 <= j < r.len() && spec_is_ws(#[trigger] r[j]) implies r[j] == ' ' by {
            if j >= 2 {
                assert(r[j] == rest[j - 2]);
            }
        }
        assert forall|j: int|
            0 <= j < r.len() && #[trigger] r[j] == ' ' implies j + 1 < r.len() && !spec_is_ws(
            r[j + 1],
        ) by {
            if j >= 2 {
                assert(r[j] == rest[j - 2]);
                assert(rest[j - 2] == ' ' ==> j - 1 < rest.len() && !spec_is_ws(rest[j - 1]));
            }
        }
        assert forall|j: int|
            0 <= j < r.len() implies #[trigger] r[j] == ' ' || (appears_from(s, i, r[j])
            && !spec_is_ws(r[j])) by {
            if j == 1 {
                assert(s[i] == r[1]);
            } else if j >= 2 {
                assert(r[j] == rest[j - 2]);
                if r[j] != ' ' {
                    assert(appears_from(s, i + 1, r[j]));
                    let k = choose|k: int| i + 1 <= k < s.len() && s[k] == r[j];
                    assert(i <= k < s.len() && s[k] == r[j]);
                }
            }
        }
    } else {
        lemma_collapse_form(s, i + 1, false, true);
        let rest = collapse_ws_from(s, i + 1, false, true);
        assert(r == seq![s[i]] + rest);
        assert(r[0] == s[i]);
        assert(forall|j: int| 1 <= j < r.len() ==> r[j] == #[trigger] rest[j - 1]);
        assert forall|j: int|
            0 <= j < r.len() && spec_is_ws(#[trigger] r[j]) implies r[j] == ' ' by {
            if j >= 1 {
                assert(r[j] == rest[j - 1]);
            }
        }
        assert forall|j: int|
            0 <= j < r.len() && #[trigger] r[j] == ' ' implies j + 1 < r.len() && !spec_is_ws(
            r[j + 1],
        ) by {
            if j >= 1 {
                assert(r[j] == rest[j - 1]);
                assert(rest[j - 1] == ' ' ==> j < rest.len() && !spec_is_ws(rest[j]));
            }
        }
        assert forall|j: int|
            0 <= j < r.len() implies #[trigger] r[j] == ' ' || (appears_from(s, i, r[j])
            && !spec_is_ws(r[j])) by {
            if j == 0 {
                assert(s[i] == r[0]);
            } else if j >= 1 {
                assert(r[j] == rest[j - 1]);
                if r[j] != ' ' {
                    assert(appears_from(s, i + 1, r[j]));
                    let k = choose|k: int| i + 1 <= k < s.len() && s[k] == r[j];
                    assert(i <= k < s.len() && s[k] == r[j]);
                }
            }
        }
    }
}

proof fn lemma_collapse_noop(s: Seq<char>, i: int, started: bool)
    requires
        0 <= i <= s.len(),
        collapsed_form(s),
        i < s.len() && s[i] == ' ' ==> started,
        i < s.len() ==> (spec_is_ws(s[i]) ==> s[i] == ' '),
    ensures
        collapse_ws_from(s, i, false, started) == s.subrange(i, s.len() as int),
    decreases s.len() - i,
{
    if i == s.len() {
        assert(collapse_ws_from(s, i, false, started) =~= s.subrange(i, s.len() as int));
    } else if !spec_is_ws(s[i]) {
        lemma_collapse_noop(s, i + 1, true);
        assert(collapse_ws_from(s, i, false, started) =~= s.subrange(i, s.len() as int));
    } else {
        assert(s[i] == ' ');
        assert(started);
        assert(i + 1 < s.len() && !spec_is_ws(s[i + 1]));
        assert(collapse_ws_from(s, i, false, started) == collapse_ws_from(s, i + 1, true, true));
        lemma_collapse_noop(s, i + 2, true);
        assert(collapse_ws_from(s, i + 1, true, true) == seq![' ', s[i + 1]] + collapse_ws_from(
            s,
            i + 2,
            false,
            true,
        ));
        assert(collapse_ws_from(s, i, false, started) =~= s.subrange(i, s.len() as int));
    }
}

/// Normalization is idempotent: normalizing an already normalized name
/// changes nothing.
pub proof fn lemma_normalize_idempotent(s: Seq<char>)
    ensures
        normalize_spec(normalize_spec(s)) == normalize_spec(s),
{
    let p1 = strip_parens_spec(s);
    let p2 = replace_specials_from(p1, 0);
    let n1 = collapse_ws_from(p2, 0, false, false);
    lemma_strip_no_parens(s, 0, 0);
    lemma_replace_chars(p1, 0);
    lemma_collapse_form(p2, 0, false, false);
    // n1 has no parentheses and no special characters: each of its
    // characters is a space or a non-whitespace character of p2.
    assert forall|j: int| 0 <= j < n1.len() implies #[trigger] n1[j] != '(' && n1[j] != ')'
        && !spec_is_special(n1[j]) by {
        if n1[j] != ' ' {
            let k = choose|k: int| 0 <= k < p2.len() && p2[k] == n1[j];
            assert(p2[k] != '(' && p2[k] != ')' && !spec_is_special(p2[k]));
        } else {
            assert(!spec_is_special(' '));
        }
    }
    lemma_strip_noop(n1, 0);
    assert(strip_parens_spec(n1) =~= n1);
    lemma_replace_noop(n1, 0);
    assert(replace_specials_from(n1, 0) =~= n1);
    if n1.len() > 0 {
        assert(!spec_is_ws(n1[0]));
    }
    lemma_collapse_noop(n1, 0, false);
    assert(collapse_ws_from(n1, 0, false, false) =~= n1);
}

} // verus!
