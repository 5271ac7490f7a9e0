//! Candidate generation for team-name lookup: the raw trimmed name, the
//! normalized name, a directional-abbreviation expansion, iterative
//! mascot-suffix stripping and a "State" to "St." substitution, with a
//! case-insensitive order-preserving dedup.

use vstd::prelude::*;

use crate::normalize::{normalize_chars, normalize_spec};
use crate::outside::{lowered, to_lower};
use crate::text::{
    chars_eq, chars_match_at, chars_to_string, is_ws, lemma_trim_end_shorter, push_all,
    spec_is_ws, str_to_chars, trim_chars, trim_end_chars, trim_end_spec, trim_spec,
};

verus! {

/// The character sequences of a sequence of character vectors.
pub open spec fn views_of(vs: Seq<Vec<char>>) -> Seq<Seq<char>> {
    Seq::new(vs.len(), |i: int| vs[i]@)
}

/// The character sequences of a sequence of strings.
pub open spec fn string_views(vs: Seq<String>) -> Seq<Seq<char>> {
    Seq::new(vs.len(), |i: int| vs[i]@)
}

// ---------------------------------------------------------------------
// Tokens and joining.
// ---------------------------------------------------------------------

/// The whitespace-separated tokens of `s` from position `i` on, with
/// `cur` the partial token read so far.
pub open spec fn tokens_acc(s: Seq<char>, i: int, cur: Seq<char>) -> Seq<Seq<char>>
    decreases s.len() - i,
{
    if i < 0 || i >= s.len() {
        if cur.len() > 0 {
            seq![cur]
        } else {
            Seq::empty()
        }
    } else if spec_is_ws(s[i]) {
        if cur.len() > 0 {
            seq![cur] + tokens_acc(s, i + 1, Seq::empty())
        } else {
            tokens_acc(s, i + 1, Seq::empty())
        }
    } else {
        tokens_acc(s, i + 1, cur + seq![s[i]])
    }
}

/// The whitespace-separated tokens of `s`.
pub open spec fn tokens_spec(s: Seq<char>) -> Seq<Seq<char>> {
    tokens_acc(s, 0, Seq::empty())
}

/// Splits a character vector into its whitespace-separated tokens.
pub fn split_tokens(v: &Vec<char>) -> (r: Vec<Vec<char>>)
    ensures
        views_of(r@) == tokens_spec(v@),
{
    let n = v.len();
    let mut out: Vec<Vec<char>> = Vec::new();
    let mut cur: Vec<char> = Vec::new();
    let mut i: usize = 0;
    while i < n
        invariant
            n == v@.len(),
            i <= n,
            views_of(out@) + tokens_acc(v@, i as int, cur@) == tokens_spec(v@),
        decreases n - i,
    {
        let c = v[i];
        if is_ws(c) {
            if cur.len() > 0 {
                let done = cur;
                cur = Vec::new();
                out.push(done);
                proof {
                    assert(views_of(out@) =~= views_of(out@.drop_last()) + seq![
                        out@[out@.len() - 1]@,
                    ]);
                    assert(views_of(out@) + tokens_acc(v@, i + 1, cur@) =~= views_of(
                        out@.drop_last(),
                    ) + (seq![out@[out@.len() - 1]@] + tokens_acc(v@, i + 1, Seq::empty())));
                }
            }
        } else {
            let ghost old_cur = cur@;
            cur.push(c);
            proof {
                assert(cur@ =~= old_cur + seq![v@[i as int]]);
            }
        }
        i += 1;
    }
    if cur.len() > 0 {
        out.push(cur);
        proof {
            assert(views_of(out@) =~= views_of(out@.drop_last()) + seq![out@[out@.len() - 1]@]);
        }
    }
    proof {
        assert(views_of(out@) =~= tokens_spec(v@));
    }
    out
}

/// The tokens `ts[k..]` joined with single spaces.
pub open spec fn join_from(ts: Seq<Seq<char>>, k: int) -> Seq<char>
    decreases ts.len() - k,
{
    if k < 0 || k >= ts.len() {
        Seq::empty()
    } else if k == ts.len() - 1 {
        ts[k]
    } else {
        ts[k] + seq![' '] + join_from(ts, k + 1)
    }
}

/// Joins tokens with single spaces.
pub fn join_tokens(ts: &Vec<Vec<char>>) -> (r: Vec<char>)
    ensures
        r@ == join_from(views_of(ts@), 0),
{
    let ghost dv = views_of(ts@);
    let n = ts.len();
    let mut out: Vec<char> = Vec::new();
    let mut k: usize = 0;
    while k < n
        invariant
            n == ts@.len(),
            dv == views_of(ts@),
            k <= n,
            out@ + join_from(dv, k as int) == join_from(dv, 0),
        decreases n - k,
    {
        push_all(&mut out, &ts[k]);
        if k + 1 < n {
            out.push(' ');
            proof {
                assert(out@ + join_from(dv, k + 1) =~= out@.subrange(
                    0,
                    out@.len() - ts@[k as int]@.len() - 1,
                ) + ((dv[k as int] + seq![' ']) + join_from(dv, k + 1)));
                assert(dv[k as int] + seq![' '] + join_from(dv, k + 1) =~= (dv[k as int] + seq![
                    ' ',
                ]) + join_from(dv, k + 1));
            }
        } else {
            proof {
                assert(join_from(dv, k as int) == dv[k as int]);
            }
        }
        k += 1;
    }
    proof {
        assert(out@ =~= out@ + join_from(dv, n as int));
    }
    out
}

// ---------------------------------------------------------------------
// Directional-prefix abbreviation expansion.
// ---------------------------------------------------------------------

/// The expansion of a directional or qualifier abbreviation token, if
/// it is one.
pub open spec fn abbrev_expansion(t: Seq<char>) -> Option<Seq<char>> {
    if t == "E"@ || t == "E."@ {
        Option::Some("Eastern"@)
    } else if t == "W"@ || t == "W."@ {
        Option::Some("Western"@)
    } else if t == "N"@ || t == "N."@ {
        Option::Some("Northern"@)
    } else if t == "S"@ || t == "S."@ {
        Option::Some("Southern"@)
    } else if t == "C"@ || t == "C."@ {
        Option::Some("Central"@)
    } else if t == "Mt"@ || t == "Mt."@ {
        Option::Some("Mount"@)
    } else {
        Option::None
    }
}

/// The name with a leading directional abbreviation expanded, if its
/// first token is one and at least one token follows.
pub open spec fn expand_prefix_abbrev_spec(s: Seq<char>) -> Option<Seq<char>> {
    let ts = tokens_spec(s);
    if ts.len() < 2 {
        Option::None
    } else {
        match abbrev_expansion(ts[0]) {
            Option::Some(e) => Option::Some(join_from(seq![e] + ts.skip(1), 0)),
            Option::None => Option::None,
        }
    }
}

fn abbrev_expansion_exec(t: &Vec<char>) -> (r: Option<Vec<char>>)
    ensures
        match r {
            Option::Some(e) => abbrev_expansion(t@) == Option::Some(e@),
            Option::None => abbrev_expansion(t@) is None,
        },
{
    if chars_eq(t, &str_to_chars("E")) || chars_eq(t, &str_to_chars("E.")) {
        Option::Some(str_to_chars("Eastern"))
    } else if chars_eq(t, &str_to_chars("W")) || chars_eq(t, &str_to_chars("W.")) {
        Option::Some(str_to_chars("Western"))
    } else if chars_eq(t, &str_to_chars("N")) || chars_eq(t, &str_to_chars("N.")) {
        Option::Some(str_to_chars("Northern"))
    } else if chars_eq(t, &str_to_chars("S")) || chars_eq(t, &str_to_chars("S.")) {
        Option::Some(str_to_chars("Southern"))
    } else if chars_eq(t, &str_to_chars("C")) || chars_eq(t, &str_to_chars("C.")) {
        Option::Some(str_to_chars("Central"))
    } else if chars_eq(t, &str_to_chars("Mt")) || chars_eq(t, &str_to_chars("Mt.")) {
        Option::Some(str_to_chars("Mount"))
    } else {
        Option::None
    }
}

fn expand_prefix_chars(v: &Vec<char>) -> (r: Option<Vec<char>>)
    ensures
        match r {
            Option::Some(e) => expand_prefix_abbrev_spec(v@) == Option::Some(e@),
            Option::None => expand_prefix_abbrev_spec(v@) is None,
        },
{
    let ts = split_tokens(v);
    if ts.len() < 2 {
        return Option::None;
    }
    match abbrev_expansion_exec(&ts[0]) {
        Option::None => Option::None,
        Option::Some(e) => {
            let mut ts2: Vec<Vec<char>> = Vec::new();
            ts2.push(e);
            let mut k: usize = 1;
            while k < ts.len()
                invariant
                    1 <= k <= ts@.len(),
                    ts2@.len() == k,
                    views_of(ts2@) == seq![views_of(ts2@)[0]] + views_of(ts@).subrange(
                        1,
                        k as int,
                    ),
                    views_of(ts2@)[0] == abbrev_expansion(views_of(ts@)[0])->Some_0,
                    abbrev_expansion(views_of(ts@)[0]) is Some,
                decreases ts@.len() - k,
            {
                let t = copy_chars(&ts[k]);
                let ghost prev = views_of(ts2@);
                ts2.push(t);
                proof {
                    let nv = views_of(ts2@);
                    let target = seq![prev[0]] + views_of(ts@).subrange(1, k + 1);
                    assert(nv.len() == target.len());
                    assert forall|j: int| 0 <= j < nv.len() implies nv[j] == target[j] by {
                        if j == 0 {
                            assert(nv[0] == prev[0]);
                        } else if j < k {
                            assert(nv[j] == prev[j]);
                            assert(prev[j] == views_of(ts@).subrange(1, k as int)[j - 1]);
                        } else {
                            assert(nv[j] == ts@[k as int]@);
                        }
                    }
                    assert(nv =~= target);
                }
                k += 1;
            }
            let joined = join_tokens(&ts2);
            proof {
                assert(views_of(ts2@) =~= seq![abbrev_expansion(views_of(ts@)[0])->Some_0]
                    + views_of(ts@).skip(1));
            }
            Option::Some(joined)
        },
    }
}

/// Copies a character vector.
fn copy_chars(v: &Vec<char>) -> (r: Vec<char>)
    ensures
        r@ == v@,
{
    let mut r: Vec<char> = Vec::new();
    push_all(&mut r, v);
    r
}

/// Expands a leading directional abbreviation (E, W, N, S, C, Mt, with
/// or without a period) when at least one more token follows.
pub fn expand_prefix_abbrev(s: &str) -> (r: Option<String>)
    ensures
        match r {
            Option::Some(e) => expand_prefix_abbrev_spec(s@) == Option::Some(e@),
            Option::None => expand_prefix_abbrev_spec(s@) is None,
        },
{
    let chars = str_to_chars(s);
    match expand_prefix_chars(&chars) {
        Option::Some(e) => Option::Some(chars_to_string(&e)),
        Option::None => Option::None,
    }
}

// ---------------------------------------------------------------------
// "State" -> "St." substitution.
// ---------------------------------------------------------------------

/// `s[i..]` with every non-overlapping occurrence of `pat` replaced by
/// `rep`, scanning left to right.
pub open spec fn replace_all_from(s: Seq<char>, pat: Seq<char>, rep: Seq<char>, i: int) -> Seq<
    char,
>
    decreases s.len() - i,
{
    if i < 0 || i >= s.len() {
        Seq::empty()
    } else if pat.len() >= 1 && i + pat.len() <= s.len() && s.subrange(i, i + pat.len() as int)
        == pat {
        rep + replace_all_from(s, pat, rep, i + pat.len() as int)
    } else {
        seq![s[i]] + replace_all_from(s, pat, rep, i + 1)
    }
}

/// The name with every " State" replaced by " St.", the form used by
/// seeded canonical team lists.
pub open spec fn state_abbrev_spec(s: Seq<char>) -> Seq<char> {
    replace_all_from(s, " State"@, " St."@, 0)
}

fn replace_all_chars(v: &Vec<char>, pat: &Vec<char>, rep: &Vec<char>) -> (r: Vec<char>)
    ensures
        r@ == replace_all_from(v@, pat@, rep@, 0),
{
    let n = v.len();
    let m = pat.len();
    let mut out: Vec<char> = Vec::new();
    let mut i: usize = 0;
    while i < n
        invariant
            n == v@.len(),
            m == pat@.len(),
            i <= n,
            out@ + replace_all_from(v@, pat@, rep@, i as int) == replace_all_from(
                v@,
                pat@,
                rep@,
                0,
            ),
        decreases n - i,
    {
        if m >= 1 && m <= n - i && chars_match_at(v, pat, i) {
            push_all(&mut out, rep);
            proof {
                assert(out@ + replace_all_from(v@, pat@, rep@, i + m) =~= out@.subrange(
                    0,
                    out@.len() - rep@.len(),
                ) + (rep@ + replace_all_from(v@, pat@, rep@, i + m)));
            }
            i += m;
        } else {
            out.push(v[i]);
            proof {
                assert(out@ + replace_all_from(v@, pat@, rep@, i + 1) =~= out@.drop_last() + (seq![
                    v@[i as int],
                ] + replace_all_from(v@, pat@, rep@, i + 1)));
            }
            i += 1;
        }
    }
    proof {
        assert(out@ =~= out@ + replace_all_from(v@, pat@, rep@, n as int));
    }
    out
}

/// Applies the " State" to " St." substitution.
pub fn state_abbrev_name(s: &str) -> (r: String)
    ensures
        r@ == state_abbrev_spec(s@),
{
    let chars = str_to_chars(s);
    let pat = str_to_chars(" State");
    let rep = str_to_chars(" St.");
    let out = replace_all_chars(&chars, &pat, &rep);
    chars_to_string(&out)
}


// ---------------------------------------------------------------------
// Mascot-suffix stripping.
// ---------------------------------------------------------------------

/// The known mascot suffixes that may trail a school name in an odds
/// feed. Stripping only ever removes one of these, so legitimate
/// multi-word names without a recognized suffix are left alone.
#[verifier::opaque]
pub open spec fn mascot_list() -> Seq<Seq<char>> {
    seq![
        "Blue Devils"@,
        "Tar Heels"@,
        "Crimson Tide"@,
        "Demon Deacons"@,
        "Yellow Jackets"@,
        "Horned Frogs"@,
        "Nittany Lions"@,
        "Scarlet Knights"@,
        "Golden Eagles"@,
        "Fighting Irish"@,
        "Red Raiders"@,
        "Sun Devils"@,
        "Wildcats"@,
        "Bulldogs"@,
        "Tigers"@,
        "Eagles"@,
        "Bears"@,
        "Cardinals"@,
        "Jayhawks"@,
        "Wolverines"@,
        "Spartans"@,
        "Hoosiers"@,
        "Badgers"@,
        "Buckeyes"@,
        "Gators"@,
        "Seminoles"@,
        "Volunteers"@,
        "Razorbacks"@,
        "Rebels"@,
        "Aggies"@,
        "Cougars"@,
        "Huskies"@,
        "Panthers"@,
        "Hurricanes"@,
        "Cavaliers"@,
        "Hokies"@,
        "Mountaineers"@,
        "Cyclones"@,
        "Sooners"@,
        "Longhorns"@,
        "Bruins"@,
        "Trojans"@,
        "Terrapins"@,
        "Owls"@,
        "Musketeers"@,
        "Shockers"@,
        "Gaels"@,
        "Hoyas"@,
        "Orange"@,
        "Commodores"@,
    ]
}

/// Builds the mascot-suffix list.
#[verifier::rlimit(50)]
pub fn mascot_suffixes() -> (r: Vec<Vec<char>>)
    ensures
        views_of(r@) == mascot_list(),
{
    let mut v: Vec<Vec<char>> = Vec::new();
    v.push(str_to_chars("Blue Devils"));
    v.push(str_to_chars("Tar Heels"));
    v.push(str_to_chars("Crimson Tide"));
    v.push(str_to_chars("Demon Deacons"));
    v.push(str_to_chars("Yellow Jackets"));
    v.push(str_to_chars("Horned Frogs"));
    v.push(str_to_chars("Nittany Lions"));
    v.push(str_to_chars("Scarlet Knights"));
    v.push(str_to_chars("Golden Eagles"));
    v.push(str_to_chars("Fighting Irish"));
    v.push(str_to_chars("Red Raiders"));
    v.push(str_to_chars("Sun Devils"));
    v.push(str_to_chars("Wildcats"));
    v.push(str_to_chars("Bulldogs"));
    v.push(str_to_chars("Tigers"));
    v.push(str_to_chars("Eagles"));
    v.push(str_to_chars("Bears"));
    v.push(str_to_chars("Cardinals"));
    v.push(str_to_chars("Jayhawks"));
    v.push(str_to_chars("Wolverines"));
    v.push(str_to_chars("Spartans"));
    v.push(str_to_chars("Hoosiers"));
    v.push(str_to_chars("Badgers"));
    v.push(str_to_chars("Buckeyes"));
    v.push(str_to_chars("Gators"));
    v.push(str_to_chars("Seminoles"));
    v.push(str_to_chars("Volunteers"));
    v.push(str_to_chars("Razorbacks"));
    v.push(str_to_chars("Rebels"));
    v.push(str_to_chars("Aggies"));
    v.push(str_to_chars("Cougars"));
    v.push(str_to_chars("Huskies"));
    v.push(str_to_chars("Panthers"));
    v.push(str_to_chars("Hurricanes"));
    v.push(str_to_chars("Cavaliers"));
    v.push(str_to_chars("Hokies"));
    v.push(str_to_chars("Mountaineers"));
    v.push(str_to_chars("Cyclones"));
    v.push(str_to_chars("Sooners"));
    v.push(str_to_chars("Longhorns"));
    v.push(str_to_chars("Bruins"));
    v.push(str_to_chars("Trojans"));
    v.push(str_to_chars("Terrapins"));
    v.push(str_to_chars("Owls"));
    v.push(str_to_chars("Musketeers"));
    v.push(str_to_chars("Shockers"));
    v.push(str_to_chars("Gaels"));
    v.push(str_to_chars("Hoyas"));
    v.push(str_to_chars("Orange"));
    v.push(str_to_chars("Commodores"));
    proof {
        reveal(mascot_list);
        assert(views_of(v@) =~= mascot_list());
    }
    v
}

/// Whether `m` is a whole trailing suffix of `s`, preceded by a space.
pub open spec fn suffix_matches(s: Seq<char>, m: Seq<char>) -> bool {
    m.len() >= 1 && s.len() > m.len() && s.subrange(s.len() - m.len(), s.len() as int) == m && s[
        s.len() - m.len() - 1
    ] == ' '
}

/// The index (within `list[..k]`) of the longest matching suffix, the
/// earliest such index on equal lengths.
pub open spec fn strip_best_rec(s: Seq<char>, list: Seq<Seq<char>>, k: int) -> Option<int>
    decreases k,
{
    if k <= 0 || k > list.len() {
        Option::None
    } else {
        let prev = strip_best_rec(s, list, k - 1);
        if suffix_matches(s, list[k - 1]) {
            match prev {
                Option::None => Option::Some(k - 1),
                Option::Some(p) => if list[k - 1].len() > list[p].len() {
                    Option::Some(k - 1)
                } else {
                    Option::Some(p)
                },
            }
        } else {
            prev
        }
    }
}

proof fn lemma_strip_best_props(s: Seq<char>, list: Seq<Seq<char>>, k: int)
    requires
        0 <= k <= list.len(),
    ensures
        match strip_best_rec(s, list, k) {
            Option::Some(i) => 0 <= i < k && suffix_matches(s, list[i]) && (forall|j: int|
                0 <= j < k && suffix_matches(s, #[trigger] list[j]) ==> list[j].len()
                    <= list[i].len()),
            Option::None => forall|j: int| 0 <= j < k ==> !suffix_matches(s, #[trigger] list[j]),
        },
    decreases k,
{
    if k > 0 {
        lemma_strip_best_props(s, list, k - 1);
    }
}

/// One step of mascot stripping: removes the longest known mascot
/// suffix, with the space before it, and trims trailing whitespace;
/// `None` when no known suffix matches.
pub open spec fn strip_mascot_spec(s: Seq<char>) -> Option<Seq<char>> {
    match strip_best_rec(s, mascot_list(), mascot_list().len() as int) {
        Option::None => Option::None,
        Option::Some(i) => Option::Some(
            trim_end_spec(s.subrange(0, s.len() - mascot_list()[i].len() - 1)),
        ),
    }
}

/// Each successful stripping step yields a strictly shorter name, which
/// bounds the stripping chain by the length of the input.
pub proof fn lemma_strip_shorter(s: Seq<char>)
    ensures
        strip_mascot_spec(s) is Some ==> strip_mascot_spec(s)->Some_0.len() < s.len(),
{
    let list = mascot_list();
    lemma_strip_best_props(s, list, list.len() as int);
    if strip_mascot_spec(s) is Some {
        let i = strip_best_rec(s, list, list.len() as int)->Some_0;
        lemma_trim_end_shorter(s.subrange(0, s.len() - list[i].len() - 1));
    }
}

/// The chain of successively mascot-stripped variants of `s`, in the
/// order they are produced; it stops when no suffix matches or the
/// remainder is empty.
pub open spec fn mascot_chain_spec(s: Seq<char>) -> Seq<Seq<char>>
    decreases s.len(),
    via mascot_chain_decreases
{
    match strip_mascot_spec(s) {
        Option::None => Seq::empty(),
        Option::Some(t) => if t.len() == 0 {
            Seq::empty()
        } else {
            seq![t] + mascot_chain_spec(t)
        },
    }
}

#[via_fn]
proof fn mascot_chain_decreases(s: Seq<char>) {
    lemma_strip_shorter(s);
}

/// The stripping chain is bounded by the input's length: every step
/// strictly shortens the name, so the loop ends within that many steps.
pub proof fn lemma_mascot_chain_bounded(s: Seq<char>)
    ensures
        mascot_chain_spec(s).len() <= s.len(),
    decreases s.len(),
{
    lemma_strip_shorter(s);
    match strip_mascot_spec(s) {
        Option::None => {},
        Option::Some(t) => {
            if t.len() > 0 {
                lemma_mascot_chain_bounded(t);
            }
        },
    }
}

/// The characters `v[..end]`.
fn chars_prefix(v: &Vec<char>, end: usize) -> (r: Vec<char>)
    requires
        end <= v@.len(),
    ensures
        r@ == v@.subrange(0, end as int),
{
    let mut r: Vec<char> = Vec::new();
    let mut i: usize = 0;
    while i < end
        invariant
            end <= v@.len(),
            i <= end,
            r@ == v@.subrange(0, i as int),
        decreases end - i,
    {
        r.push(v[i]);
        i += 1;
        proof {
            assert(r@ =~= v@.subrange(0, i as int));
        }
    }
    r
}

/// Strips the longest matching mascot suffix off `v`, if any matches.
fn strip_mascot_chars(v: &Vec<char>, mascots: &Vec<Vec<char>>) -> (r: Option<Vec<char>>)
    requires
        views_of(mascots@) == mascot_list(),
    ensures
        match r {
            Option::Some(t) => strip_mascot_spec(v@) == Option::Some(t@),
            Option::None => strip_mascot_spec(v@) is None,
        },
{
    let ghost list = mascot_list();
    let n = mascots.len();
    let mut best: Option<usize> = Option::None;
    let mut k: usize = 0;
    while k < n
        invariant
            views_of(mascots@) == list,
            n == mascots@.len(),
            k <= n,
            match best {
                Option::Some(b) => b < k && strip_best_rec(v@, list, k as int) == Option::Some(
                    b as int,
                ),
                Option::None => strip_best_rec(v@, list, k as int) is None,
            },
        decreases n - k,
    {
        let m = &mascots[k];
        proof {
            assert(m@ == list[k as int]);
        }
        let matched = m.len() >= 1 && v.len() > m.len() && chars_match_at(v, m, v.len() - m.len())
            && v[v.len() - m.len() - 1] == ' ';
        proof {
            assert(matched == suffix_matches(v@, list[k as int]));
        }
        if matched {
            match best {
                Option::None => {
                    best = Option::Some(k);
                },
                Option::Some(b) => {
                    if m.len() > mascots[b].len() {
                        best = Option::Some(k);
                    }
                },
            }
        }
        k += 1;
    }
    match best {
        Option::None => Option::None,
        Option::Some(b) => {
            proof {
                lemma_strip_best_props(v@, list, list.len() as int);
                assert(suffix_matches(v@, list[b as int]));
                assert(mascots@[b as int]@ == list[b as int]);
            }
            let mlen = mascots[b].len();
            let prefix = chars_prefix(v, v.len() - mlen - 1);
            let trimmed = trim_end_chars(&prefix);
            Option::Some(trimmed)
        },
    }
}

/// Appends the mascot-stripping chain of `base` to `out`.
fn mascot_chain_chars(base: &Vec<char>, mascots: &Vec<Vec<char>>, out: &mut Vec<Vec<char>>)
    requires
        views_of(mascots@) == mascot_list(),
    ensures
        views_of(final(out)@) == views_of(old(out)@) + mascot_chain_spec(base@),
{
    let mut cur = copy_chars(base);
    let ghost mut built: Seq<Seq<char>> = Seq::empty();
    proof {
        assert(views_of(out@) =~= views_of(old(out)@) + built);
    }
    loop
        invariant
            views_of(mascots@) == mascot_list(),
            views_of(out@) == views_of(old(out)@) + built,
            built + mascot_chain_spec(cur@) == mascot_chain_spec(base@),
        ensures
            views_of(out@) == views_of(old(out)@) + mascot_chain_spec(base@),
        decreases cur@.len(),
    {
        match strip_mascot_chars(&cur, mascots) {
            Option::None => {
                proof {
                    assert(mascot_chain_spec(cur@) =~= Seq::<Seq<char>>::empty());
                    assert(built =~= built + mascot_chain_spec(cur@));
                }
                break;
            },
            Option::Some(t) => {
                if t.len() == 0 {
                    proof {
                        assert(mascot_chain_spec(cur@) =~= Seq::<Seq<char>>::empty());
                        assert(built =~= built + mascot_chain_spec(cur@));
                    }
                    break;
                }
                proof {
                    lemma_strip_shorter(cur@);
                    assert(mascot_chain_spec(cur@) == seq![t@] + mascot_chain_spec(t@));
                }
                let copy = copy_chars(&t);
                let ghost prev_out = views_of(out@);
                out.push(copy);
                proof {
                    assert(views_of(out@) =~= prev_out + seq![t@]);
                    built = built + seq![t@];
                    assert(views_of(out@) =~= views_of(old(out)@) + built);
                    assert(built + mascot_chain_spec(t@) =~= mascot_chain_spec(base@));
                }
                cur = t;
            },
        }
    }
}


// ---------------------------------------------------------------------
// Dedup and candidate assembly.
// ---------------------------------------------------------------------

/// `l[k..]` with every entry dropped whose lowercased form was already
/// seen, keeping first occurrences in order; `seen` is the set of
/// lowercased keys already taken.
pub open spec fn dedup_acc(l: Seq<Seq<char>>, k: int, seen: Set<Seq<char>>) -> Seq<Seq<char>>
    decreases l.len() - k,
{
    if k < 0 || k >= l.len() {
        Seq::empty()
    } else if seen.contains(lowered(l[k])) {
        dedup_acc(l, k + 1, seen)
    } else {
        seq![l[k]] + dedup_acc(l, k + 1, seen.insert(lowered(l[k])))
    }
}

/// The case-insensitive, order-preserving dedup of a candidate list.
pub open spec fn dedup_spec(l: Seq<Seq<char>>) -> Seq<Seq<char>> {
    dedup_acc(l, 0, Set::empty())
}

fn contains_string(v: &Vec<String>, key: &String) -> (r: bool)
    ensures
        r == exists|j: int| 0 <= j < v@.len() && v@[j]@ == key@,
{
    let mut j: usize = 0;
    while j < v.len()
        invariant
            j <= v@.len(),
            forall|t: int| 0 <= t < j ==> v@[t]@ != key@,
        decreases v@.len() - j,
    {
        if v[j].eq(key) {
            return true;
        }
        j += 1;
    }
    false
}

/// Dedups candidates case-insensitively, keeping first occurrences.
fn dedup_candidates(base: &Vec<Vec<char>>) -> (r: Vec<String>)
    ensures
        string_views(r@) == dedup_spec(views_of(base@)),
{
    let ghost l = views_of(base@);
    let mut out: Vec<String> = Vec::new();
    let mut seen: Vec<String> = Vec::new();
    let ghost mut seen_set: Set<Seq<char>> = Set::empty();
    let mut k: usize = 0;
    while k < base.len()
        invariant
            l == views_of(base@),
            k <= base@.len(),
            forall|x: Seq<char>|
                #[trigger] seen_set.contains(x) <==> exists|j: int|
                    0 <= j < seen@.len() && seen@[j]@ == x,
            string_views(out@) + dedup_acc(l, k as int, seen_set) == dedup_spec(l),
        decreases base@.len() - k,
    {
        let cand_str = chars_to_string(&base[k]);
        let key = to_lower(cand_str.as_str());
        proof {
            assert(key@ == lowered(l[k as int]));
        }
        let dup = contains_string(&seen, &key);
        proof {
            assert(dup == seen_set.contains(lowered(l[k as int])));
        }
        if !dup {
            let ghost prev_out = string_views(out@);
            let ghost prev_seen = seen_set;
            let ghost old_seen = seen@;
            out.push(cand_str);
            seen.push(key);
            proof {
                seen_set = seen_set.insert(lowered(l[k as int]));
                assert(seen@ == old_seen.push(key));
                assert forall|x: Seq<char>| #[trigger] seen_set.contains(x) implies exists|j: int|
                    0 <= j < seen@.len() && seen@[j]@ == x by {
                    if prev_seen.contains(x) {
                        let j = choose|j: int| 0 <= j < old_seen.len() && old_seen[j]@ == x;
                        assert(seen@[j] == old_seen[j]);
                        assert(seen@[j]@ == x);
                    } else {
                        assert(seen@[seen@.len() - 1]@ == x);
                    }
                }
                assert forall|x: Seq<char>|
                    (exists|j: int| 0 <= j < seen@.len() && seen@[j]@ == x) implies seen_set
                    .contains(x) by {
                    let j = choose|j: int| 0 <= j < seen@.len() && seen@[j]@ == x;
                    if j < seen@.len() - 1 {
                        assert(old_seen[j] == seen@[j]);
                        assert(old_seen[j]@ == x);
                        assert(prev_seen.contains(x));
                    }
                }
                assert(string_views(out@) =~= prev_out + seq![l[k as int]]);
                assert(string_views(out@) + dedup_acc(l, k + 1, seen_set) =~= prev_out + (seq![
                    l[k as int],
                ] + dedup_acc(l, k + 1, seen_set)));
            }
        }
        k += 1;
    }
    proof {
        assert(string_views(out@) =~= string_views(out@) + dedup_acc(l, base@.len() as int,
        seen_set));
    }
    out
}

/// The ordered variants derived from one base form: the base itself, its
/// abbreviation expansion if any, then the mascot-stripping chain.
pub open spec fn variants_spec(s: Seq<char>) -> Seq<Seq<char>> {
    (seq![s] + match expand_prefix_abbrev_spec(s) {
        Option::Some(e) => seq![e],
        Option::None => Seq::empty(),
    }) + mascot_chain_spec(s)
}

fn add_variants(out: &mut Vec<Vec<char>>, base: &Vec<char>, mascots: &Vec<Vec<char>>)
    requires
        views_of(mascots@) == mascot_list(),
    ensures
        views_of(final(out)@) == views_of(old(out)@) + variants_spec(base@),
{
    let ghost start = views_of(out@);
    let b = copy_chars(base);
    out.push(b);
    proof {
        assert(views_of(out@) =~= start + seq![base@]);
    }
    match expand_prefix_chars(base) {
        Option::Some(e) => {
            let ghost prev = views_of(out@);
            out.push(e);
            proof {
                assert(views_of(out@) =~= prev + seq![expand_prefix_abbrev_spec(base@)->Some_0]);
            }
        },
        Option::None => {},
    }
    let ghost mid = views_of(out@);
    mascot_chain_chars(base, mascots, out);
    proof {
        assert(views_of(out@) =~= start + variants_spec(base@));
    }
}

/// The full ordered candidate list for a raw name: the raw trimmed
/// string, then variants of the normalized name, then variants of its
/// "State" to "St." form when that differs, deduplicated
/// case-insensitively with first occurrences kept.
pub open spec fn candidates_spec(raw: Seq<char>) -> Seq<Seq<char>> {
    let tr = trim_spec(raw);
    let cleaned = normalize_spec(raw);
    let st = state_abbrev_spec(cleaned);
    let base = (if tr.len() > 0 {
        seq![tr]
    } else {
        Seq::<Seq<char>>::empty()
    }) + (if cleaned.len() > 0 {
        variants_spec(cleaned)
    } else {
        Seq::<Seq<char>>::empty()
    }) + (if st.len() > 0 && st != cleaned {
        variants_spec(st)
    } else {
        Seq::<Seq<char>>::empty()
    });
    dedup_spec(base)
}

/// Generates the ordered, case-insensitively deduplicated lookup
/// candidates for a raw team name.
pub fn team_name_candidates(name: &str) -> (r: Vec<String>)
    ensures
        string_views(r@) == candidates_spec(name@),
{
    let chars = str_to_chars(name);
    let mascots = mascot_suffixes();
    let mut base: Vec<Vec<char>> = Vec::new();
    let ghost tr_part: Seq<Seq<char>> = if trim_spec(name@).len() > 0 {
        seq![trim_spec(name@)]
    } else {
        Seq::empty()
    };
    let tr = trim_chars(&chars);
    if tr.len() > 0 {
        base.push(tr);
    }
    proof {
        assert(views_of(base@) =~= tr_part);
    }
    let cleaned = normalize_chars(&chars);
    if cleaned.len() > 0 {
        add_variants(&mut base, &cleaned, &mascots);
    }
    let ghost cl_part: Seq<Seq<char>> = if normalize_spec(name@).len() > 0 {
        variants_spec(normalize_spec(name@))
    } else {
        Seq::empty()
    };
    proof {
        assert(views_of(base@) =~= tr_part + cl_part);
    }
    let pat = str_to_chars(" State");
    let rep = str_to_chars(" St.");
    let st = replace_all_chars(&cleaned, &pat, &rep);
    if st.len() > 0 && !chars_eq(&st, &cleaned) {
        add_variants(&mut base, &st, &mascots);
    }
    let ghost st_part: Seq<Seq<char>> = if state_abbrev_spec(normalize_spec(name@)).len() > 0
        && state_abbrev_spec(normalize_spec(name@)) != normalize_spec(name@) {
        variants_spec(state_abbrev_spec(normalize_spec(name@)))
    } else {
        Seq::empty()
    };
    proof {
        assert(views_of(base@) =~= (tr_part + cl_part) + st_part);
    }
    dedup_candidates(&base)
}


// ---------------------------------------------------------------------
// The token-count bound on mascot stripping.
// ---------------------------------------------------------------------

/// An accumulated partial token always yields at least one token.
proof fn lemma_tokens_acc_nonempty(s: Seq<char>, i: int, cur: Seq<char>)
    requires
        cur.len() > 0,
    ensures
        tokens_acc(s, i, cur).len() >= 1,
    decreases s.len() - i,
{
    if i < 0 || i >= s.len() {
    } else if spec_is_ws(s[i]) {
    } else {
        lemma_tokens_acc_nonempty(s, i + 1, cur + seq![s[i]]);
    }
}

/// A sequence whose first character is no whitespace has a token.
proof fn lemma_tokens_nonempty(s: Seq<char>)
    requires
        s.len() > 0,
        !spec_is_ws(s[0]),
    ensures
        tokens_spec(s).len() >= 1,
{
    lemma_tokens_acc_nonempty(s, 1, Seq::empty().push(s[0]));
    assert(Seq::<char>::empty() + seq![s[0]] =~= Seq::empty().push(s[0]));
}

/// Tokenizing reads only the suffix from the current position on.
proof fn lemma_tokens_shift(s: Seq<char>, off: int, k: int, cur: Seq<char>)
    requires
        0 <= off <= s.len(),
        0 <= k,
    ensures
        tokens_acc(s, off + k, cur) == tokens_acc(s.subrange(off, s.len() as int), k, cur),
    decreases s.len() - off - k,
{
    let suf = s.subrange(off, s.len() as int);
    if off + k >= s.len() {
        assert(k >= suf.len());
    } else {
        assert(suf[k] == s[off + k]);
        if spec_is_ws(s[off + k]) {
            lemma_tokens_shift(s, off, k + 1, Seq::empty());
        } else {
            lemma_tokens_shift(s, off, k + 1, cur + seq![s[off + k]]);
        }
    }
}

/// Splitting at a whitespace character splits the token list.
proof fn lemma_tokens_split(s: Seq<char>, p: int, i: int, cur: Seq<char>)
    requires
        0 <= i <= p < s.len(),
        spec_is_ws(s[p]),
    ensures
        tokens_acc(s, i, cur) == tokens_acc(s.subrange(0, p), i, cur) + tokens_acc(
            s,
            p + 1,
            Seq::empty(),
        ),
    decreases p - i,
{
    let pre = s.subrange(0, p);
    let tail = tokens_acc(s, p + 1, Seq::empty());
    if i == p {
        if cur.len() > 0 {
            assert(tokens_acc(s, i, cur) == seq![cur] + tail);
            assert(tokens_acc(pre, i, cur) == seq![cur]);
        } else {
            assert(tokens_acc(s, i, cur) == tail);
            assert(tokens_acc(pre, i, cur) == Seq::<Seq<char>>::empty());
            assert(tokens_acc(pre, i, cur) + tail =~= tail);
        }
    } else {
        assert(pre[i] == s[i]);
        if spec_is_ws(s[i]) {
            if cur.len() > 0 {
                lemma_tokens_split(s, p, i + 1, Seq::empty());
                assert(tokens_acc(s, i, cur) =~= (seq![cur] + tokens_acc(pre, i + 1, Seq::empty()))
                    + tail);
            } else {
                lemma_tokens_split(s, p, i + 1, Seq::empty());
            }
        } else {
            lemma_tokens_split(s, p, i + 1, cur + seq![s[i]]);
        }
    }
}

/// Trailing whitespace never carries tokens.
proof fn lemma_tokens_trim_end(x: Seq<char>)
    ensures
        tokens_spec(trim_end_spec(x)) == tokens_spec(x),
    decreases x.len(),
{
    if x.len() == 0 {
    } else if spec_is_ws(x[x.len() - 1]) {
        lemma_tokens_split(x, x.len() - 1, 0, Seq::empty());
        assert(x.subrange(0, x.len() - 1) =~= x.drop_last());
        assert(tokens_acc(x, x.len() as int, Seq::empty()) =~= Seq::<Seq<char>>::empty());
        assert(tokens_spec(x) =~= tokens_spec(x.drop_last()));
        lemma_tokens_trim_end(x.drop_last());
    } else {
    }
}

/// Every listed mascot suffix starts with a word character.
proof fn lemma_mascot_entries_tokenful()
    ensures
        forall|i: int|
            0 <= i < mascot_list().len() ==> (#[trigger] mascot_list()[i]).len() > 0
                && !spec_is_ws(mascot_list()[i][0]),
{
    reveal(mascot_list);
    reveal_strlit("Blue Devils");
    reveal_strlit("Tar Heels");
    reveal_strlit("Crimson Tide");
    reveal_strlit("Demon Deacons");
    reveal_strlit("Yellow Jackets");
    reveal_strlit("Horned Frogs");
    reveal_strlit("Nittany Lions");
    reveal_strlit("Scarlet Knights");
    reveal_strlit("Golden Eagles");
    reveal_strlit("Fighting Irish");
    reveal_strlit("Red Raiders");
    reveal_strlit("Sun Devils");
    reveal_strlit("Wildcats");
    reveal_strlit("Bulldogs");
    reveal_strlit("Tigers");
    reveal_strlit("Eagles");
    reveal_strlit("Bears");
    reveal_strlit("Cardinals");
    reveal_strlit("Jayhawks");
    reveal_strlit("Wolverines");
    reveal_strlit("Spartans");
    reveal_strlit("Hoosiers");
    reveal_strlit("Badgers");
    reveal_strlit("Buckeyes");
    reveal_strlit("Gators");
    reveal_strlit("Seminoles");
    reveal_strlit("Volunteers");
    reveal_strlit("Razorbacks");
    reveal_strlit("Rebels");
    reveal_strlit("Aggies");
    reveal_strlit("Cougars");
    reveal_strlit("Huskies");
    reveal_strlit("Panthers");
    reveal_strlit("Hurricanes");
    reveal_strlit("Cavaliers");
    reveal_strlit("Hokies");
    reveal_strlit("Mountaineers");
    reveal_strlit("Cyclones");
    reveal_strlit("Sooners");
    reveal_strlit("Longhorns");
    reveal_strlit("Bruins");
    reveal_strlit("Trojans");
    reveal_strlit("Terrapins");
    reveal_strlit("Owls");
    reveal_strlit("Musketeers");
    reveal_strlit("Shockers");
    reveal_strlit("Gaels");
    reveal_strlit("Hoyas");
    reveal_strlit("Orange");
    reveal_strlit("Commodores");
}

/// Each successful stripping step removes at least one whole token: the
/// suffix taken off is a token of its own, and the space before it
/// carries none.
pub proof fn lemma_strip_reduces_tokens(s: Seq<char>)
    ensures
        strip_mascot_spec(s) is Some ==> tokens_spec(strip_mascot_spec(s)->Some_0).len()
            < tokens_spec(s).len(),
{
    if strip_mascot_spec(s) is Some {
        let list = mascot_list();
        lemma_strip_best_props(s, list, list.len() as int);
        let i = strip_best_rec(s, list, list.len() as int)->Some_0;
        let m = list[i];
        let p = s.len() - m.len() - 1;
        assert(suffix_matches(s, m));
        assert(s[p] == ' ');
        lemma_tokens_split(s, p as int, 0, Seq::empty());
        lemma_tokens_shift(s, p as int + 1, 0, Seq::empty());
        assert(s.subrange(p as int + 1, s.len() as int) =~= m);
        lemma_mascot_entries_tokenful();
        assert(!spec_is_ws(m[0]));
        lemma_tokens_nonempty(m);
        lemma_tokens_trim_end(s.subrange(0, p as int));
        assert(tokens_spec(s).len() == tokens_spec(s.subrange(0, p as int)).len()
            + tokens_spec(m).len());
    }
}

/// The stripping chain runs at most one step per token of the input:
/// every step strictly shortens the name and strictly lowers its token
/// count, so the loop ends within the token count.
pub proof fn lemma_mascot_chain_token_bound(s: Seq<char>)
    ensures
        mascot_chain_spec(s).len() <= tokens_spec(s).len(),
    decreases s.len(),
{
    lemma_strip_shorter(s);
    lemma_strip_reduces_tokens(s);
    match strip_mascot_spec(s) {
        Option::None => {},
        Option::Some(t) => {
            if t.len() > 0 {
                lemma_mascot_chain_token_bound(t);
            }
        },
    }
}

} // verus!
