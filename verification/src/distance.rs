//! Character-level Levenshtein edit distance, used to rank candidates
//! against the plain transliteration of the core span.

use vstd::prelude::*;

verus! {

/// The least of three costs.
pub open spec fn min3(a: nat, b: nat, c: nat) -> nat {
    if a <= b && a <= c {
        a
    } else if b <= c {
        b
    } else {
        c
    }
}

/// Classic Levenshtein edit distance over sequences of code points:
/// the least number of single-character insertions, deletions and
/// substitutions, each of unit cost, turning `a` into `b`.
pub open spec fn levenshtein(a: Seq<char>, b: Seq<char>) -> nat
    decreases a.len(), b.len(),
{
    if a.len() == 0 {
        b.len()
    } else if b.len() == 0 {
        a.len()
    } else {
        let subst: nat = if a[0] == b[0] {
            0
        } else {
            1
        };
        min3(
            levenshtein(a.drop_first(), b) + 1,
            levenshtein(a, b.drop_first()) + 1,
            levenshtein(a.drop_first(), b.drop_first()) + subst,
        )
    }
}

/// Relies on edit_distance::edit_distance: the Levenshtein edit distance
/// between two strings over their code points, by the classic recurrence
/// (insert, delete, substitute, unit cost each).
#[verifier::external_body]
pub(crate) fn char_distance(a: &str, b: &str) -> (r: usize)
    ensures
        r == levenshtein(a@, b@),
{
    ::edit_distance::edit_distance(a, b)
}

} // verus!
