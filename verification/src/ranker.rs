//! Ranking: stable ordering of a candidate list by ascending edit distance
//! to the plain transliteration of the core span.

use crate::distance::{char_distance, levenshtein};
use vstd::multiset::Multiset;
use vstd::prelude::*;
use vstd::seq_lib::group_seq_properties;

verus! {

/// Inserting `x` into `s` directly after the last element whose distance to
/// `plain` is no greater than the distance of `x`: the insertion step of a
/// stable insertion sort.
pub open spec fn insert_ranked(s: Seq<Seq<char>>, x: Seq<char>, plain: Seq<char>) -> Seq<
    Seq<char>,
>
    decreases s.len(),
{
    if s.len() == 0 {
        seq![x]
    } else if levenshtein(plain, s.last()) <= levenshtein(plain, x) {
        s.push(x)
    } else {
        insert_ranked(s.drop_last(), x, plain).push(s.last())
    }
}

/// The ranked ordering of `s`: a stable insertion sort by ascending
/// edit distance to `plain`.
pub open spec fn rank_spec(s: Seq<Seq<char>>, plain: Seq<char>) -> Seq<Seq<char>>
    decreases s.len(),
{
    if s.len() == 0 {
        Seq::empty()
    } else {
        insert_ranked(rank_spec(s.drop_last(), plain), s.last(), plain)
    }
}

/// `s` is sorted by non-decreasing edit distance to `plain`.
pub open spec fn ranked_by(s: Seq<Seq<char>>, plain: Seq<char>) -> bool {
    forall|i: int, j: int|
        0 <= i <= j < s.len() ==> levenshtein(plain, s[i]) <= levenshtein(plain, s[j])
}

proof fn lemma_insert_ranked_props(s: Seq<Seq<char>>, x: Seq<char>, plain: Seq<char>)
    requires
        ranked_by(s, plain),
    ensures
        ranked_by(insert_ranked(s, x, plain), plain),
        insert_ranked(s, x, plain).to_multiset() == s.to_multiset().insert(x),
        insert_ranked(s, x, plain).len() == s.len() + 1,
    decreases s.len(),
{
    broadcast use group_seq_properties;

    if s.len() == 0 {
        assert(seq![x] =~= Seq::<Seq<char>>::empty().push(x));
        assert(Seq::<Seq<char>>::empty().to_multiset() =~= Multiset::<Seq<char>>::empty());
        assert(insert_ranked(s, x, plain).to_multiset() =~= s.to_multiset().insert(x));
    } else if levenshtein(plain, s.last()) <= levenshtein(plain, x) {
        assert forall|i: int, j: int| 0 <= i <= j < s.push(x).len() implies levenshtein(
            plain,
            s.push(x)[i],
        ) <= levenshtein(plain, s.push(x)[j]) by {
            if j < s.len() {
            } else {
                assert(s.push(x)[j] == x);
                if i < s.len() {
                    assert(levenshtein(plain, s[i]) <= levenshtein(plain, s.last()));
                }
            }
        }
        assert(s.push(x).to_multiset() =~= s.to_multiset().insert(x));
    } else {
        let t = s.drop_last();
        assert(ranked_by(t, plain));
        lemma_insert_ranked_props(t, x, plain);
        let r = insert_ranked(t, x, plain);
        // every element of r is x or an element of t, so its distance is
        // at most the distance of s.last()
        assert forall|i: int, j: int| 0 <= i <= j < r.push(s.last()).len() implies levenshtein(
            plain,
            r.push(s.last())[i],
        ) <= levenshtein(plain, r.push(s.last())[j]) by {
            if j < r.len() {
            } else {
                assert(r.push(s.last())[j] == s.last());
                if i < r.len() {
                    let y = r[i];
                    assert(r.to_multiset().contains(y));
                    assert(t.to_multiset().insert(x).contains(y));
                    if y == x && t.to_multiset().count(x) == 0 {
                        assert(levenshtein(plain, y) <= levenshtein(plain, s.last()));
                    } else {
                        assert(t.to_multiset().contains(y));
                        assert(t.contains(y));
                        let k = choose|k: int| 0 <= k < t.len() && t[k] == y;
                        assert(t[k] == s[k]);
                        assert(levenshtein(plain, s[k]) <= levenshtein(plain, s.last()));
                    }
                }
            }
        }
        assert(r.push(s.last()).to_multiset() =~= s.to_multiset().insert(x)) by {
            assert(r.push(s.last()).to_multiset() == r.to_multiset().insert(s.last()));
            assert(r.to_multiset() == t.to_multiset().insert(x));
            assert(t.push(s.last()) =~= s);
            assert(s.to_multiset() == t.to_multiset().insert(s.last()));
        }
    }
}

/// Ranking correctness, first half: the ranked list is sorted by
/// non-decreasing edit distance to the reference string.
pub proof fn lemma_rank_sorted(s: Seq<Seq<char>>, plain: Seq<char>)
    ensures
        ranked_by(rank_spec(s, plain), plain),
    decreases s.len(),
{
    if s.len() > 0 {
        lemma_rank_sorted(s.drop_last(), plain);
        lemma_insert_ranked_props(rank_spec(s.drop_last(), plain), s.last(), plain);
    }
}

/// Ranking correctness, second half: the ranked list is a permutation of
/// the input, so ranking neither invents, drops nor rewrites a candidate.
pub proof fn lemma_rank_permutation(s: Seq<Seq<char>>, plain: Seq<char>)
    ensures
        rank_spec(s, plain).to_multiset() == s.to_multiset(),
        rank_spec(s, plain).len() == s.len(),
    decreases s.len(),
{
    broadcast use group_seq_properties;

    if s.len() == 0 {
    } else {
        let t = s.drop_last();
        lemma_rank_permutation(t, plain);
        lemma_rank_sorted(t, plain);
        lemma_insert_ranked_props(rank_spec(t, plain), s.last(), plain);
        assert(t.push(s.last()) =~= s);
        assert(s.to_multiset() == t.to_multiset().insert(s.last()));
    }
}

proof fn lemma_insert_ranked_at(s: Seq<Seq<char>>, x: Seq<char>, plain: Seq<char>, p: int)
    requires
        0 <= p <= s.len(),
        forall|i: int| p <= i < s.len() ==> levenshtein(plain, s[i]) > levenshtein(plain, x),
        p > 0 ==> levenshtein(plain, s[p - 1]) <= levenshtein(plain, x),
    ensures
        s.insert(p, x) == insert_ranked(s, x, plain),
    decreases s.len(),
{
    if s.len() == 0 {
        assert(s.insert(0, x) =~= seq![x]);
    } else if levenshtein(plain, s.last()) <= levenshtein(plain, x) {
        assert(p == s.len());
        assert(s.insert(p, x) =~= s.push(x));
    } else {
        let t = s.drop_last();
        lemma_insert_ranked_at(t, x, plain, p);
        assert(s.insert(p, x) =~= t.insert(p, x).push(s.last()));
    }
}

/// Sorts the candidates by ascending edit distance to `plain`, stably.
pub fn rank(list: Vec<String>, plain: &str) -> (r: Vec<String>)
    ensures
        r.deep_view() == rank_spec(list.deep_view(), plain@),
{
    let ghost input = list.deep_view();
    let mut out: Vec<String> = Vec::new();
    let n = list.len();
    let mut idx: usize = 0;
    while idx < n
        invariant
            n == list.len(),
            0 <= idx <= n,
            out.deep_view() == rank_spec(list.deep_view().take(idx as int), plain@),
        decreases n - idx,
    {
        let x = list[idx].clone();
        let dx = char_distance(plain, x.as_str());
        let mut p = out.len();
        while p > 0 && char_distance(plain, out[p - 1].as_str()) > dx
            invariant
                0 <= p <= out.len(),
                dx == levenshtein(plain@, x@),
                forall|i: int|
                    p <= i < out.deep_view().len() ==> levenshtein(plain@, out.deep_view()[i])
                        > levenshtein(plain@, x@),
            decreases p,
        {
            proof {
                assert(out.deep_view()[p - 1] == out@[p - 1]@);
            }
            p = p - 1;
        }
        proof {
            if p > 0 {
                assert(out.deep_view()[p - 1] == out@[p - 1]@);
            }
            lemma_insert_ranked_at(out.deep_view(), x@, plain@, p as int);
        }
        let ghost out_before = out.deep_view();
        out.insert(p, x);
        proof {
            assert(out.deep_view() =~= out_before.insert(p as int, x@));
            let full = list.deep_view().take(idx as int + 1);
            assert(full.drop_last() =~= list.deep_view().take(idx as int));
            assert(full.last() == list.deep_view()[idx as int]);
            assert(list.deep_view()[idx as int] == x@);
            assert(rank_spec(full, plain@) == insert_ranked(
                rank_spec(full.drop_last(), plain@),
                full.last(),
                plain@,
            ));
        }
        idx = idx + 1;
    }
    proof {
        assert(list.deep_view().take(n as int) =~= list.deep_view());
    }
    out
}

} // verus!
