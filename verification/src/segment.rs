//! The token segmenter: splits a raw input token into leading meta-character
//! decoration, an alphanumeric core span, and trailing decoration, on
//! code-point boundaries, such that the three parts concatenate back to the
//! input exactly.

use vstd::prelude::*;

verus! {

/// A meta (decoration) character: punctuation that takes no part in the
/// phonetic content of a token.
pub open spec fn is_meta(c: char) -> bool {
    c == '-' || c == ']' || c == '~' || c == '!' || c == '@' || c == '#' || c == '%'
        || c == '&' || c == '*' || c == '(' || c == ')' || c == '_' || c == '=' || c == '+'
        || c == '[' || c == '{' || c == '}' || c == '\'' || c == '"' || c == ';' || c == '<'
        || c == '>' || c == '/' || c == '?' || c == '|' || c == '.' || c == ','
}

/// Decides whether `c` is a meta (decoration) character.
pub fn is_meta_char(c: char) -> (r: bool)
    ensures
        r == is_meta(c),
{
    c == '-' || c == ']' || c == '~' || c == '!' || c == '@' || c == '#' || c == '%'
        || c == '&' || c == '*' || c == '(' || c == ')' || c == '_' || c == '=' || c == '+'
        || c == '[' || c == '{' || c == '}' || c == '\'' || c == '"' || c == ';' || c == '<'
        || c == '>' || c == '/' || c == '?' || c == '|' || c == '.' || c == ','
}

/// Index of the first non-meta character of `s`, or `s.len()` if every
/// character is meta.
pub open spec fn first_nonmeta(s: Seq<char>) -> int
    decreases s.len(),
{
    if s.len() == 0 {
        0
    } else if !is_meta(s[0]) {
        0
    } else {
        1 + first_nonmeta(s.drop_first())
    }
}

/// Index of the last non-meta character of `s`, or `-1` if every character
/// is meta.
pub open spec fn last_nonmeta(s: Seq<char>) -> int
    decreases s.len(),
{
    if s.len() == 0 {
        -1
    } else if !is_meta(s.last()) {
        s.len() - 1
    } else {
        last_nonmeta(s.drop_last())
    }
}

pub proof fn lemma_first_nonmeta(s: Seq<char>)
    ensures
        0 <= first_nonmeta(s) <= s.len(),
        forall|j: int| 0 <= j < first_nonmeta(s) ==> is_meta(s[j]),
        first_nonmeta(s) < s.len() ==> !is_meta(s[first_nonmeta(s)]),
    decreases s.len(),
{
    if s.len() > 0 && is_meta(s[0]) {
        lemma_first_nonmeta(s.drop_first());
        assert forall|j: int| 0 <= j < first_nonmeta(s) implies is_meta(s[j]) by {
            if j > 0 {
                assert(is_meta(s.drop_first()[j - 1]));
                assert(s.drop_first()[j - 1] == s[j]);
            }
        }
    }
}

pub proof fn lemma_last_nonmeta(s: Seq<char>)
    ensures
        -1 <= last_nonmeta(s) < s.len(),
        forall|j: int| last_nonmeta(s) < j < s.len() ==> is_meta(s[j]),
        last_nonmeta(s) >= 0 ==> !is_meta(s[last_nonmeta(s)]),
    decreases s.len(),
{
    if s.len() > 0 && is_meta(s.last()) {
        lemma_last_nonmeta(s.drop_last());
        assert forall|j: int| last_nonmeta(s) < j < s.len() implies is_meta(s[j]) by {
            if j < s.len() - 1 {
                assert(is_meta(s.drop_last()[j]));
                assert(s.drop_last()[j] == s[j]);
            }
        }
        if last_nonmeta(s) >= 0 {
            assert(s.drop_last()[last_nonmeta(s)] == s[last_nonmeta(s)]);
        }
    }
}

/// The segmentation of `s` into (prefix decoration, core, suffix decoration).
/// When `s` holds no non-meta character at all, the whole input is the prefix.
pub open spec fn segment_spec(s: Seq<char>) -> (Seq<char>, Seq<char>, Seq<char>) {
    let f = first_nonmeta(s);
    if f == s.len() {
        (s, Seq::<char>::empty(), Seq::<char>::empty())
    } else {
        let l = last_nonmeta(s);
        (s.subrange(0, f), s.subrange(f, l + 1), s.subrange(l + 1, s.len() as int))
    }
}

/// When some character of `s` is non-meta, the first such index is no later
/// than the last such index.
pub proof fn lemma_first_le_last(s: Seq<char>)
    requires
        first_nonmeta(s) < s.len(),
    ensures
        0 <= first_nonmeta(s) <= last_nonmeta(s) < s.len(),
{
    lemma_first_nonmeta(s);
    lemma_last_nonmeta(s);
    if last_nonmeta(s) < first_nonmeta(s) {
        assert(is_meta(s[first_nonmeta(s)]));
    }
}

/// Segmentation round-trip: the three parts concatenate back to the input,
/// for every string.
pub proof fn lemma_segment_round_trip(s: Seq<char>)
    ensures
        segment_spec(s).0 + segment_spec(s).1 + segment_spec(s).2 == s,
{
    lemma_first_nonmeta(s);
    if first_nonmeta(s) == s.len() {
        assert(segment_spec(s).0 + segment_spec(s).1 + segment_spec(s).2 =~= s);
    } else {
        lemma_first_le_last(s);
        assert(segment_spec(s).0 + segment_spec(s).1 + segment_spec(s).2 =~= s);
    }
}

/// Segmenting an already decoration-free, non-empty string yields the string
/// itself as the core, with empty decorations.
pub proof fn lemma_segment_core_identity(s: Seq<char>)
    requires
        s.len() > 0,
        forall|i: int| 0 <= i < s.len() ==> !is_meta(s[i]),
    ensures
        segment_spec(s).0 == Seq::<char>::empty(),
        segment_spec(s).1 == s,
        segment_spec(s).2 == Seq::<char>::empty(),
{
    lemma_first_nonmeta(s);
    lemma_last_nonmeta(s);
    if first_nonmeta(s) > 0 {
        assert(is_meta(s[0]));
    }
    if last_nonmeta(s) < s.len() - 1 {
        assert(is_meta(s[s.len() - 1]));
    }
    assert(segment_spec(s).0 =~= Seq::<char>::empty());
    assert(segment_spec(s).1 =~= s);
    assert(segment_spec(s).2 =~= Seq::<char>::empty());
}

/// Segmenting a string composed entirely of meta characters yields the whole
/// string as the prefix, with empty core and suffix.
pub proof fn lemma_segment_meta_only(s: Seq<char>)
    requires
        forall|i: int| 0 <= i < s.len() ==> is_meta(s[i]),
    ensures
        segment_spec(s).0 == s,
        segment_spec(s).1 == Seq::<char>::empty(),
        segment_spec(s).2 == Seq::<char>::empty(),
{
    lemma_first_nonmeta(s);
    if first_nonmeta(s) < s.len() {
        assert(is_meta(s[first_nonmeta(s)]));
    }
}

/// Split the token into three parts: preceding meta characters, the core
/// span, and trailing meta characters.
pub fn split_string(input: &str) -> (r: (String, String, String))
    ensures
        r.0@ == segment_spec(input@).0,
        r.1@ == segment_spec(input@).1,
        r.2@ == segment_spec(input@).2,
{
    let ghost s = input@;
    proof {
        lemma_first_nonmeta(s);
        lemma_last_nonmeta(s);
    }
    let n = input.unicode_len();
    let mut first: usize = 0;
    while first < n && is_meta_char(input.get_char(first))
        invariant
            n == s.len(),
            s == input@,
            0 <= first <= n,
            forall|j: int| 0 <= j < first ==> is_meta(s[j]),
        decreases n - first,
    {
        first = first + 1;
    }
    if first == n {
        proof {
            if first_nonmeta(s) < s.len() {
                assert(is_meta(s[first_nonmeta(s)]));
            }
            assert(s.subrange(0, n as int) =~= s);
        }
        return (String::from_str(input), String::new(), String::new());
    }
    proof {
        if first_nonmeta(s) < first {
            assert(is_meta(s[first_nonmeta(s)]));
        }
        if (first as int) < first_nonmeta(s) {
            assert(is_meta(s[first as int]));
        }
        assert(first == first_nonmeta(s));
        lemma_first_le_last(s);
    }
    let mut last: usize = n - 1;
    while last > first && is_meta_char(input.get_char(last))
        invariant
            n == s.len(),
            s == input@,
            first <= last < n,
            first == first_nonmeta(s),
            !is_meta(s[first as int]),
            forall|j: int| last < j < n ==> is_meta(s[j]),
        decreases last,
    {
        last = last - 1;
    }
    proof {
        assert(!is_meta(s[last as int]));
        if last_nonmeta(s) < last {
            assert(is_meta(s[last as int]));
        }
        if (last as int) < last_nonmeta(s) {
            assert(is_meta(s[last_nonmeta(s)]));
        }
        assert(last == last_nonmeta(s));
    }
    let prefix = String::from_str(input.substring_char(0, first));
    let core = String::from_str(input.substring_char(first, last + 1));
    let suffix = String::from_str(input.substring_char(last + 1, n));
    (prefix, core, suffix)
}

} // verus!
