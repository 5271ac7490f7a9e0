//! The few places where the library leans on code it does not verify:
//! Unicode case folding, appending a character to a `String`, random
//! identifiers and the wall clock.

use vstd::prelude::*;

verus! {

/// The Unicode-lowercased form of a character sequence, as
/// `str::to_lowercase` computes it. The mapping is a pure function of the
/// characters alone, so it is safe to give it a name; nothing else is
/// assumed about it.
pub uninterp spec fn lowered(s: Seq<char>) -> Seq<char>;

/// Relies on `str::to_lowercase`: the result depends on the input
/// characters alone (Unicode lowercase mapping, no locale).
#[verifier::external_body]
pub(crate) fn to_lower(s: &str) -> (r: String)
    ensures
        r@ == lowered(s@),
{
    s.to_lowercase()
}

/// Relies on `String::push`: appends the given character to the end of
/// the string.
#[verifier::external_body]
pub(crate) fn push_char(s: &mut String, c: char)
    ensures
        final(s)@ == old(s)@ + seq![c],
{
    s.push(c);
}

/// Relies on `uuid::Uuid::new_v4`: a random identifier. Nothing is
/// promised of the value; callers must cope with every outcome,
/// collisions included.
#[verifier::external_body]
pub(crate) fn random_id() -> u128 {
    uuid::Uuid::new_v4().as_u128()
}

/// Relies on `chrono::Utc::now`: the current wall-clock time as Unix
/// seconds. Nothing is promised of the value.
#[verifier::external_body]
pub(crate) fn now_unix() -> i64 {
    chrono::Utc::now().timestamp()
}

/// The current wall-clock time clamped to the Unix epoch, for callers
/// that key freshness windows and snapshots by unsigned seconds.
pub fn current_unix_time() -> u64 {
    let t = now_unix();
    if t >= 0 {
        t as u64
    } else {
        0
    }
}

} // verus!
