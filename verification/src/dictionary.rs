//! The dictionary collaborator: direct word lookup by romanized stem, an
//! exact-match correction (autocorrect/symbol) table, and an exact-match
//! suffix table. Absence of a match is a normal outcome, never an error.

use crate::strmap::{TextMap, WordMap};
use vstd::prelude::*;

verus! {

/// The mathematical model of a dictionary: three maps over plain character
/// sequences.
pub struct DictModel {
    pub table: Map<Seq<char>, Seq<Seq<char>>>,
    pub corrections: Map<Seq<char>, Seq<char>>,
    pub suffixes: Map<Seq<char>, Seq<char>>,
}

/// Correction values are romanized text: ASCII and of bounded length, so
/// that they can always be handed to the transliterator.
pub open spec fn model_wf(d: DictModel) -> bool {
    forall|k: Seq<char>| #[trigger]
        d.corrections.contains_key(k) ==> vstd::utf8::is_ascii_chars(d.corrections[k])
            && d.corrections[k].len() < 0x4000_0000
}

/// An exact-match dictionary with direct candidates, corrections and
/// suffix renderings.
pub struct Dictionary {
    pub table: WordMap,
    pub corrections: TextMap,
    pub suffixes: TextMap,
}

impl View for Dictionary {
    type V = DictModel;

    open spec fn view(&self) -> DictModel {
        DictModel { table: self.table@, corrections: self.corrections@, suffixes: self.suffixes@ }
    }
}

/// Clones a candidate list.
pub fn clone_words(v: &Vec<String>) -> (r: Vec<String>)
    ensures
        r@ == v@,
{
    let mut r: Vec<String> = Vec::new();
    let n = v.len();
    let mut i: usize = 0;
    while i < n
        invariant
            n == v@.len(),
            0 <= i <= n,
            r@ == v@.take(i as int),
        decreases n - i,
    {
        let w = v[i].clone();
        r.push(w);
        proof {
            assert(v@.take(i as int).push(v@[i as int]) =~= v@.take(i as int + 1));
        }
        i = i + 1;
    }
    proof {
        assert(v@.take(n as int) =~= v@);
    }
    r
}

impl Dictionary {
    /// An empty dictionary.
    pub fn new() -> (r: Dictionary)
        ensures
            r@.table == Map::<Seq<char>, Seq<Seq<char>>>::empty(),
            r@.corrections == Map::<Seq<char>, Seq<char>>::empty(),
            r@.suffixes == Map::<Seq<char>, Seq<char>>::empty(),
    {
        Dictionary { table: WordMap::new(), corrections: TextMap::new(), suffixes: TextMap::new() }
    }

    /// Registers the direct candidates of a romanized stem.
    pub fn add_entry(&mut self, stem: String, candidates: Vec<String>)
        ensures
            final(self)@.table == old(self)@.table.insert(stem@, candidates.deep_view()),
            final(self)@.corrections == old(self)@.corrections,
            final(self)@.suffixes == old(self)@.suffixes,
    {
        self.table.insert(stem, candidates);
    }

    /// Registers a correction for an exact token.
    pub fn add_correction(&mut self, token: String, corrected: String)
        requires
            vstd::utf8::is_ascii_chars(corrected@),
            corrected@.len() < 0x4000_0000,
        ensures
            final(self)@.corrections == old(self)@.corrections.insert(token@, corrected@),
            final(self)@.table == old(self)@.table,
            final(self)@.suffixes == old(self)@.suffixes,
            model_wf(old(self)@) ==> model_wf(final(self)@),
    {
        self.corrections.insert(token, corrected);
    }

    /// Registers the native-script rendering of a suffix.
    pub fn add_suffix(&mut self, suffix: String, rendering: String)
        ensures
            final(self)@.suffixes == old(self)@.suffixes.insert(suffix@, rendering@),
            final(self)@.table == old(self)@.table,
            final(self)@.corrections == old(self)@.corrections,
    {
        self.suffixes.insert(suffix, rendering);
    }

    /// Direct candidates for an exact romanized stem; an empty list signals
    /// "no direct match", not an error.
    pub fn search_dictionary(&self, term: &str) -> (r: Vec<String>)
        ensures
            r.deep_view() == if self@.table.contains_key(term@) {
                self@.table[term@]
            } else {
                Seq::<Seq<char>>::empty()
            },
    {
        match self.table.get(term) {
            Some(v) => {
                let r = clone_words(v);
                proof {
                    assert(r.deep_view() =~= v.deep_view());
                }
                r
            },
            None => {
                let r: Vec<String> = Vec::new();
                proof {
                    assert(r.deep_view() =~= Seq::<Seq<char>>::empty());
                }
                r
            },
        }
    }

    /// The registered correction of an exact token, if any.
    pub fn get_corrected(&self, term: &str) -> (r: Option<String>)
        ensures
            match r {
                Some(v) => self@.corrections.contains_key(term@) && v@ == self@.corrections[term@],
                None => !self@.corrections.contains_key(term@),
            },
    {
        match self.corrections.get(term) {
            Some(v) => Some(v.clone()),
            None => None,
        }
    }

    /// The native-script rendering of a recognized suffix, if any.
    pub fn find_suffix(&self, candidate: &str) -> (r: Option<String>)
        ensures
            match r {
                Some(v) => self@.suffixes.contains_key(candidate@) && v@ == self@.suffixes[
                    candidate@
                ],
                None => !self@.suffixes.contains_key(candidate@),
            },
    {
        match self.suffixes.get(candidate) {
            Some(v) => Some(v.clone()),
            None => None,
        }
    }
}

} // verus!
