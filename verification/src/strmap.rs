//! Association-list maps keyed by strings, viewed as mathematical `Map`s.
//! A fresh binding is pushed at the front, so the newest binding for a key
//! wins; lookups scan from the front and return the first match.

use vstd::prelude::*;

verus! {

/// Decides string equality on the character level.
pub fn str_eq(a: &str, b: &str) -> (r: bool)
    ensures
        r == (a@ == b@),
{
    let na = a.unicode_len();
    let nb = b.unicode_len();
    if na != nb {
        return false;
    }
    let mut i: usize = 0;
    while i < na
        invariant
            na == a@.len(),
            na == b@.len(),
            0 <= i <= na,
            forall|j: int| 0 <= j < i ==> a@[j] == b@[j],
        decreases na - i,
    {
        if a.get_char(i) != b.get_char(i) {
            return false;
        }
        i = i + 1;
    }
    proof {
        assert(a@ =~= b@);
    }
    true
}

/// A map from romanized strings to candidate lists.
pub struct WordMap {
    pairs: Vec<(String, Vec<String>)>,
}

/// A map from strings to single strings (correction and suffix tables).
pub struct TextMap {
    pairs: Vec<(String, String)>,
}

spec fn word_pairs_view(ps: Seq<(String, Vec<String>)>) -> Map<
    Seq<char>,
    Seq<Seq<char>>,
>
    decreases ps.len(),
{
    if ps.len() == 0 {
        Map::empty()
    } else {
        word_pairs_view(ps.drop_first()).insert(ps[0].0@, ps[0].1.deep_view())
    }
}

spec fn text_pairs_view(ps: Seq<(String, String)>) -> Map<Seq<char>, Seq<char>>
    decreases ps.len(),
{
    if ps.len() == 0 {
        Map::empty()
    } else {
        text_pairs_view(ps.drop_first()).insert(ps[0].0@, ps[0].1@)
    }
}

impl View for WordMap {
    type V = Map<Seq<char>, Seq<Seq<char>>>;

    closed spec fn view(&self) -> Map<Seq<char>, Seq<Seq<char>>> {
        word_pairs_view(self.pairs@)
    }
}

impl View for TextMap {
    type V = Map<Seq<char>, Seq<char>>;

    closed spec fn view(&self) -> Map<Seq<char>, Seq<char>> {
        text_pairs_view(self.pairs@)
    }
}

proof fn lemma_word_pairs_not_found(ps: Seq<(String, Vec<String>)>, k: Seq<char>)
    requires
        forall|j: int| 0 <= j < ps.len() ==> ps[j].0@ != k,
    ensures
        !word_pairs_view(ps).contains_key(k),
    decreases ps.len(),
{
    if ps.len() > 0 {
        assert(forall|j: int| 0 <= j < ps.drop_first().len() ==> ps.drop_first()[j] == ps[j + 1]);
        lemma_word_pairs_not_found(ps.drop_first(), k);
    }
}

proof fn lemma_word_pairs_found(ps: Seq<(String, Vec<String>)>, k: Seq<char>, i: int)
    requires
        0 <= i < ps.len(),
        ps[i].0@ == k,
        forall|j: int| 0 <= j < i ==> ps[j].0@ != k,
    ensures
        word_pairs_view(ps).contains_key(k),
        word_pairs_view(ps)[k] == ps[i].1.deep_view(),
    decreases ps.len(),
{
    if i > 0 {
        assert(forall|j: int| 0 <= j < ps.drop_first().len() ==> ps.drop_first()[j] == ps[j + 1]);
        lemma_word_pairs_found(ps.drop_first(), k, i - 1);
    }
}

proof fn lemma_text_pairs_not_found(ps: Seq<(String, String)>, k: Seq<char>)
    requires
        forall|j: int| 0 <= j < ps.len() ==> ps[j].0@ != k,
    ensures
        !text_pairs_view(ps).contains_key(k),
    decreases ps.len(),
{
    if ps.len() > 0 {
        assert(forall|j: int| 0 <= j < ps.drop_first().len() ==> ps.drop_first()[j] == ps[j + 1]);
        lemma_text_pairs_not_found(ps.drop_first(), k);
    }
}

proof fn lemma_text_pairs_found(ps: Seq<(String, String)>, k: Seq<char>, i: int)
    requires
        0 <= i < ps.len(),
        ps[i].0@ == k,
        forall|j: int| 0 <= j < i ==> ps[j].0@ != k,
    ensures
        text_pairs_view(ps).contains_key(k),
        text_pairs_view(ps)[k] == ps[i].1@,
    decreases ps.len(),
{
    if i > 0 {
        assert(forall|j: int| 0 <= j < ps.drop_first().len() ==> ps.drop_first()[j] == ps[j + 1]);
        lemma_text_pairs_found(ps.drop_first(), k, i - 1);
    }
}

impl WordMap {
    pub fn new() -> (r: WordMap)
        ensures
            r@ == Map::<Seq<char>, Seq<Seq<char>>>::empty(),
    {
        WordMap { pairs: Vec::new() }
    }

    pub fn get<'a>(&'a self, k: &str) -> (r: Option<&'a Vec<String>>)
        ensures
            match r {
                Some(v) => self@.contains_key(k@) && v.deep_view() == self@[k@],
                None => !self@.contains_key(k@),
            },
    {
        let n = self.pairs.len();
        let mut i: usize = 0;
        while i < n
            invariant
                n == self.pairs@.len(),
                0 <= i <= n,
                forall|j: int| 0 <= j < i ==> self.pairs@[j].0@ != k@,
            decreases n - i,
        {
            if str_eq(self.pairs[i].0.as_str(), k) {
                proof {
                    lemma_word_pairs_found(self.pairs@, k@, i as int);
                }
                return Some(&self.pairs[i].1);
            }
            i = i + 1;
        }
        proof {
            lemma_word_pairs_not_found(self.pairs@, k@);
        }
        None
    }

    pub fn contains_key(&self, k: &str) -> (r: bool)
        ensures
            r == self@.contains_key(k@),
    {
        self.get(k).is_some()
    }

    pub fn insert(&mut self, k: String, v: Vec<String>)
        ensures
            final(self)@ == old(self)@.insert(k@, v.deep_view()),
    {
        let ghost k0 = k@;
        let ghost v0 = v.deep_view();
        self.pairs.insert(0, (k, v));
        proof {
            assert(self.pairs@.drop_first() =~= old(self).pairs@);
            assert(self@ =~= old(self)@.insert(k0, v0));
        }
    }
}

impl TextMap {
    pub fn new() -> (r: TextMap)
        ensures
            r@ == Map::<Seq<char>, Seq<char>>::empty(),
    {
        TextMap { pairs: Vec::new() }
    }

    pub fn get<'a>(&'a self, k: &str) -> (r: Option<&'a String>)
        ensures
            match r {
                Some(v) => self@.contains_key(k@) && v@ == self@[k@],
                None => !self@.contains_key(k@),
            },
    {
        let n = self.pairs.len();
        let mut i: usize = 0;
        while i < n
            invariant
                n == self.pairs@.len(),
                0 <= i <= n,
                forall|j: int| 0 <= j < i ==> self.pairs@[j].0@ != k@,
            decreases n - i,
        {
            if str_eq(self.pairs[i].0.as_str(), k) {
                proof {
                    lemma_text_pairs_found(self.pairs@, k@, i as int);
                }
                return Some(&self.pairs[i].1);
            }
            i = i + 1;
        }
        proof {
            lemma_text_pairs_not_found(self.pairs@, k@);
        }
        None
    }

    pub fn insert(&mut self, k: String, v: String)
        ensures
            final(self)@ == old(self)@.insert(k@, v@),
    {
        let ghost k0 = k@;
        let ghost v0 = v@;
        self.pairs.insert(0, (k, v));
        proof {
            assert(self.pairs@.drop_first() =~= old(self).pairs@);
            assert(self@ =~= old(self)@.insert(k0, v0));
        }
    }
}

} // verus!
