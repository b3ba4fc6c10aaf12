//! The suggestion orchestrator and the suffix composer: the top-level entry
//! point owns a session-scoped cache of stem-to-candidates lookups, queries
//! the dictionary and the transliterator, composes suffixed candidates with
//! script-aware joining rules, ranks them by edit distance to the plain
//! transliteration, reattaches decoration, and applies whole-token
//! correction overrides.

use crate::dictionary::{clone_words, model_wf, DictModel, Dictionary};
use crate::ranker::{rank, rank_spec};
use crate::script::{
    is_kar, is_kar_char, is_vowel, is_vowel_char, ANUSHAR, ANUSHAR_SUBST, GLIDE, KHANDATTA,
    KHANDATTA_SUBST,
};
use crate::segment::{segment_spec, split_string};
use crate::translit::{avro_of, convert, new_avro};
use rupantor::avro::AvroPhonetic;
use vstd::prelude::*;

verus! {

/// `s` with every trailing occurrence of `c` removed.
pub open spec fn trim_trailing(s: Seq<char>, c: char) -> Seq<char>
    decreases s.len(),
{
    if s.len() > 0 && s.last() == c {
        trim_trailing(s.drop_last(), c)
    } else {
        s
    }
}

/// The script-aware joining rule for a stem candidate and a suffix
/// rendering: an independent vowel meeting a kar takes the glide between
/// them; a trailing Khandatta or Anushar is replaced by its substitution
/// character; otherwise the two are concatenated plainly (in particular
/// when either side is empty).
pub open spec fn joined(item: Seq<char>, sfx: Seq<char>) -> Seq<char> {
    if item.len() == 0 || sfx.len() == 0 {
        item + sfx
    } else if is_vowel(item.last()) && is_kar(sfx[0]) {
        item + seq![GLIDE] + sfx
    } else if item.last() == KHANDATTA {
        trim_trailing(item, KHANDATTA) + seq![KHANDATTA_SUBST] + sfx
    } else if item.last() == ANUSHAR {
        trim_trailing(item, ANUSHAR) + seq![ANUSHAR_SUBST] + sfx
    } else {
        item + sfx
    }
}

/// Every candidate of `items` joined with the suffix rendering `sfx`, in
/// order.
pub open spec fn join_all(items: Seq<Seq<char>>, sfx: Seq<char>) -> Seq<Seq<char>> {
    items.map_values(|item: Seq<char>| joined(item, sfx))
}

/// The candidates contributed by the split of `core` at position `i`: when
/// `core[i..]` is a recognized suffix and the stem `core[..i]` has cached
/// candidates, every cached candidate joined with the suffix rendering, in
/// cache order; nothing otherwise.
pub open spec fn split_contrib(
    core: Seq<char>,
    cache: Map<Seq<char>, Seq<Seq<char>>>,
    suffixes: Map<Seq<char>, Seq<char>>,
    i: int,
) -> Seq<Seq<char>> {
    let sfx_key = core.subrange(i, core.len() as int);
    let stem = core.subrange(0, i);
    if suffixes.contains_key(sfx_key) && cache.contains_key(stem) {
        join_all(cache[stem], suffixes[sfx_key])
    } else {
        Seq::empty()
    }
}

/// The contributions of all split positions below `i`, in ascending order
/// of the split position, starting at 1.
pub open spec fn compose_upto(
    core: Seq<char>,
    cache: Map<Seq<char>, Seq<Seq<char>>>,
    suffixes: Map<Seq<char>, Seq<char>>,
    i: int,
) -> Seq<Seq<char>>
    decreases i,
{
    if i <= 1 {
        Seq::empty()
    } else {
        compose_upto(core, cache, suffixes, i - 1) + split_contrib(core, cache, suffixes, i - 1)
    }
}

/// The full output of the suffix composer: for a core longer than two
/// characters, the contributions of every split position; when that yields
/// nothing (or the guard fails), the cache entry for the whole core
/// verbatim, or nothing.
pub open spec fn compose_spec(
    core: Seq<char>,
    cache: Map<Seq<char>, Seq<Seq<char>>>,
    suffixes: Map<Seq<char>, Seq<char>>,
) -> Seq<Seq<char>> {
    let joined_list = if core.len() > 2 {
        compose_upto(core, cache, suffixes, core.len() as int)
    } else {
        Seq::empty()
    };
    if joined_list.len() > 0 {
        joined_list
    } else if cache.contains_key(core) {
        cache[core]
    } else {
        Seq::empty()
    }
}

proof fn lemma_trim_trailing_at(s: Seq<char>, c: char, k: int)
    requires
        0 <= k <= s.len(),
        forall|j: int| k <= j < s.len() ==> s[j] == c,
        k > 0 ==> s[k - 1] != c,
    ensures
        trim_trailing(s, c) == s.subrange(0, k),
    decreases s.len(),
{
    if s.len() > 0 && s.last() == c {
        assert(k < s.len());
        let t = s.drop_last();
        assert(forall|j: int| k <= j < t.len() ==> t[j] == s[j]);
        if k > 0 {
            assert(t[k - 1] == s[k - 1]);
        }
        lemma_trim_trailing_at(t, c, k);
        assert(t.subrange(0, k) =~= s.subrange(0, k));
    } else {
        if s.len() > 0 {
            if k < s.len() {
                assert(s[s.len() - 1] == c);
            }
        }
        assert(s.subrange(0, s.len() as int) =~= s);
    }
}

/// Removes every trailing occurrence of `c` from `item` and appends the
/// substitution character and the suffix rendering.
fn substitute_and_append(item: &String, c: char, subst: &str, sfx: &String) -> (r: String)
    requires
        subst@.len() == 1,
    ensures
        r@ == trim_trailing(item@, c) + seq![subst@[0]] + sfx@,
{
    let n = item.unicode_len();
    let mut k = n;
    while k > 0 && item.get_char(k - 1) == c
        invariant
            n == item@.len(),
            0 <= k <= n,
            forall|j: int| k <= j < n ==> item@[j] == c,
        decreases k,
    {
        k = k - 1;
    }
    proof {
        lemma_trim_trailing_at(item@, c, k as int);
    }
    let mut w = String::from_str(item.substring_char(0, k));
    w.append(subst);
    w.append(sfx.as_str());
    w
}

/// Joins one cached stem candidate with a suffix rendering by the
/// script-aware joining rule.
pub fn join_suffix(item: &String, sfx: &String) -> (r: String)
    ensures
        r@ == joined(item@, sfx@),
{
    let ilen = item.unicode_len();
    let slen = sfx.unicode_len();
    if ilen == 0 || slen == 0 {
        return String::from_str(item.as_str()).concat(sfx.as_str());
    }
    let rmc = item.get_char(ilen - 1);
    let lmc = sfx.get_char(0);
    proof {
        assert(item@.last() == rmc);
    }
    if is_vowel_char(rmc) && is_kar_char(lmc) {
        let mut w = String::from_str(item.as_str());
        w.append("\u{09DF}");
        w.append(sfx.as_str());
        proof {
            reveal_strlit("\u{09DF}");
            assert("\u{09DF}"@ =~= seq![GLIDE]);
        }
        w
    } else if rmc == KHANDATTA {
        proof {
            reveal_strlit("\u{09A4}");
        }
        substitute_and_append(item, KHANDATTA, "\u{09A4}", sfx)
    } else if rmc == ANUSHAR {
        proof {
            reveal_strlit("\u{0999}");
        }
        substitute_and_append(item, ANUSHAR, "\u{0999}", sfx)
    } else {
        String::from_str(item.as_str()).concat(sfx.as_str())
    }
}

/// Composer guard: for a core of at most two characters no split is ever
/// attempted, and the composer yields exactly the cache's entry for the
/// whole core string, or nothing when the cache holds none.
pub proof fn lemma_compose_guard(
    core: Seq<char>,
    cache: Map<Seq<char>, Seq<Seq<char>>>,
    suffixes: Map<Seq<char>, Seq<char>>,
)
    requires
        core.len() <= 2,
    ensures
        compose_spec(core, cache, suffixes) == if cache.contains_key(core) {
            cache[core]
        } else {
            Seq::<Seq<char>>::empty()
        },
{
}

/// Plain-transliteration fallback: the plain transliteration always
/// appears in the undecorated suggestion list; when the candidates already
/// contain it the list is left unchanged, and when they do not it is
/// appended exactly once, at the end.
pub proof fn lemma_plain_fallback(list: Seq<Seq<char>>, plain: Seq<char>)
    ensures
        with_plain(list, plain).contains(plain),
        list.contains(plain) ==> with_plain(list, plain) == list,
        !list.contains(plain) ==> with_plain(list, plain) == list.push(plain),
        !list.contains(plain) ==> with_plain(list, plain).last() == plain && (forall|i: int|
            0 <= i < with_plain(list, plain).len() - 1 ==> with_plain(list, plain)[i] != plain),
{
    if !list.contains(plain) {
        assert(list.push(plain)[list.len() as int] == plain);
        assert forall|i: int| 0 <= i < with_plain(list, plain).len() - 1 implies with_plain(
            list,
            plain,
        )[i] != plain by {
            assert(with_plain(list, plain)[i] == list[i]);
            if list[i] == plain {
                assert(list.contains(plain));
            }
        }
    }
}

/// The plain transliteration of the core always appears in the
/// undecorated suggestion list of a call.
pub proof fn lemma_suggest_base_has_plain(
    d: DictModel,
    cache0: Map<Seq<char>, Seq<Seq<char>>>,
    term: Seq<char>,
)
    ensures
        suggest_base(d, cache0, term).contains(avro_of(segment_spec(term).1)),
{
    let core = segment_spec(term).1;
    let plain = avro_of(core);
    let cache1 = cache_after(d, cache0, core);
    let ranked = rank_spec(compose_spec(core, cache1, d.suffixes), plain);
    lemma_plain_fallback(corrected_prepend(d, cache0, core) + ranked, plain);
}

/// Decoration preservation: after the whole-token correction override at
/// the front (present only when a correction for the full token is
/// registered), every element of the final suggestion list is the
/// corresponding undecorated candidate wrapped back into the token's own
/// decoration.
pub proof fn lemma_decoration_preserved(
    d: DictModel,
    cache0: Map<Seq<char>, Seq<Seq<char>>>,
    term: Seq<char>,
)
    ensures
        suggest_list(d, cache0, term).len() == suggest_base(d, cache0, term).len() + (
        if d.corrections.contains_key(term) {
            1int
        } else {
            0int
        }),
        forall|i: int|
            (if d.corrections.contains_key(term) {
                1int
            } else {
                0int
            }) <= i < suggest_list(d, cache0, term).len() ==> #[trigger] suggest_list(
                d,
                cache0,
                term,
            )[i] == segment_spec(term).0 + suggest_base(d, cache0, term)[i - (
            if d.corrections.contains_key(term) {
                1int
            } else {
                0int
            })] + segment_spec(term).2,
{
    let seg = segment_spec(term);
    let base = suggest_base(d, cache0, term);
    let off: int = if d.corrections.contains_key(term) {
        1
    } else {
        0
    };
    assert forall|i: int| off <= i < suggest_list(d, cache0, term).len() implies suggest_list(
        d,
        cache0,
        term,
    )[i] == seg.0 + base[i - off] + seg.2 by {
        assert(suggest_list(d, cache0, term)[i] == decorate(base, seg.0, seg.2)[i - off]);
        assert(decorate(base, seg.0, seg.2)[i - off] == seg.0 + base[i - off] + seg.2);
    }
}

/// The dictionary's direct candidates for `core`, or nothing.
pub open spec fn dict_entry(d: DictModel, core: Seq<char>) -> Seq<Seq<char>> {
    if d.table.contains_key(core) {
        d.table[core]
    } else {
        Seq::empty()
    }
}

/// The candidate list stored in the cache on a miss for `core`: the direct
/// dictionary candidates, extended with the transliterated correction of
/// `core` when one is registered.
pub open spec fn new_cache_entry(d: DictModel, core: Seq<char>) -> Seq<Seq<char>> {
    if d.corrections.contains_key(core) {
        dict_entry(d, core).push(avro_of(d.corrections[core]))
    } else {
        dict_entry(d, core)
    }
}

/// The cache after one suggestion call for `core`: unchanged on a hit,
/// grown by exactly the new entry on a miss.
pub open spec fn cache_after(
    d: DictModel,
    cache0: Map<Seq<char>, Seq<Seq<char>>>,
    core: Seq<char>,
) -> Map<Seq<char>, Seq<Seq<char>>> {
    if cache0.contains_key(core) {
        cache0
    } else {
        cache0.insert(core, new_cache_entry(d, core))
    }
}

/// The correction-derived candidates put first in the result: the
/// transliterated correction of `core`, and only on the call that populates
/// the cache entry for `core`.
pub open spec fn corrected_prepend(
    d: DictModel,
    cache0: Map<Seq<char>, Seq<Seq<char>>>,
    core: Seq<char>,
) -> Seq<Seq<char>> {
    if !cache0.contains_key(core) && d.corrections.contains_key(core) {
        seq![avro_of(d.corrections[core])]
    } else {
        Seq::empty()
    }
}

/// `list` with `plain` appended, unless an identical string is already
/// present.
pub open spec fn with_plain(list: Seq<Seq<char>>, plain: Seq<char>) -> Seq<Seq<char>> {
    if list.contains(plain) {
        list
    } else {
        list.push(plain)
    }
}

/// Every candidate wrapped back into the input token's own decoration.
pub open spec fn decorate(list: Seq<Seq<char>>, pre: Seq<char>, post: Seq<char>) -> Seq<
    Seq<char>,
> {
    list.map_values(|x: Seq<char>| pre + x + post)
}

/// The full ordered suggestion list for `term`, over the dictionary model
/// `d` and the session cache `cache0`: correction-derived candidates first,
/// then the suffix-composed candidates ranked by edit distance to the plain
/// transliteration of the core, then the plain transliteration itself if
/// not already present; every one re-decorated; and the whole-token
/// correction of the undecorated `term`, when registered, inserted at the
/// front.
/// The undecorated suggestion list for `term`: correction-derived
/// candidates first, then the suffix-composed candidates ranked by edit
/// distance to the plain transliteration of the core, then the plain
/// transliteration itself if not already present.
pub open spec fn suggest_base(
    d: DictModel,
    cache0: Map<Seq<char>, Seq<Seq<char>>>,
    term: Seq<char>,
) -> Seq<Seq<char>> {
    let seg = segment_spec(term);
    let core = seg.1;
    let plain = avro_of(core);
    let cache1 = cache_after(d, cache0, core);
    let ranked = rank_spec(compose_spec(core, cache1, d.suffixes), plain);
    with_plain(corrected_prepend(d, cache0, core) + ranked, plain)
}

pub open spec fn suggest_list(
    d: DictModel,
    cache0: Map<Seq<char>, Seq<Seq<char>>>,
    term: Seq<char>,
) -> Seq<Seq<char>> {
    let seg = segment_spec(term);
    let decorated = decorate(suggest_base(d, cache0, term), seg.0, seg.2);
    if d.corrections.contains_key(term) {
        decorated.insert(0, d.corrections[term])
    } else {
        decorated
    }
}

/// Decides whether some element of `v` equals `s`, character for
/// character.
fn contains_str(v: &Vec<String>, s: &String) -> (r: bool)
    ensures
        r == v.deep_view().contains(s@),
{
    let n = v.len();
    let mut i: usize = 0;
    while i < n
        invariant
            n == v@.len(),
            0 <= i <= n,
            forall|j: int| 0 <= j < i ==> v.deep_view()[j] != s@,
        decreases n - i,
    {
        if crate::strmap::str_eq(v[i].as_str(), s.as_str()) {
            proof {
                assert(v.deep_view()[i as int] == s@);
            }
            return true;
        }
        proof {
            assert(v.deep_view()[i as int] == v@[i as int]@);
        }
        i = i + 1;
    }
    proof {
        if v.deep_view().contains(s@) {
            let j = choose|j: int| 0 <= j < v.deep_view().len() && v.deep_view()[j] == s@;
            assert(v.deep_view()[j] != s@);
        }
    }
    false
}

/// The suggestion orchestrator: owns the session cache, the dictionary and
/// the transliterator.
pub struct PhoneticSuggestion {
    pub cache: crate::strmap::WordMap,
    pub database: Dictionary,
    pub phonetic: AvroPhonetic,
}

impl PhoneticSuggestion {
    /// The orchestrator is well formed when its dictionary's correction
    /// values are romanized (ASCII, bounded) text.
    pub open spec fn wf(self) -> bool {
        model_wf(self.database@)
    }

    /// A fresh orchestrator over the given dictionary, with an empty cache.
    pub fn new(database: Dictionary) -> (r: PhoneticSuggestion)
        ensures
            r.cache@ == Map::<Seq<char>, Seq<Seq<char>>>::empty(),
            r.database == database,
    {
        PhoneticSuggestion {
            cache: crate::strmap::WordMap::new(),
            database,
            phonetic: new_avro(),
        }
    }

    /// Seeds the session cache with the candidate list of a stem.
    pub fn insert_cache(&mut self, stem: String, candidates: Vec<String>)
        ensures
            final(self).cache@ == old(self).cache@.insert(stem@, candidates.deep_view()),
            final(self).database == old(self).database,
    {
        self.cache.insert(stem, candidates);
    }

    /// Add suffixed forms to the cached suggestions of the core span and
    /// return them; reads (never writes) the session cache. When no split
    /// of the core yields a candidate, the cache entry for the whole core
    /// is returned verbatim (empty if absent).
    pub fn add_suffix_to_suggestions(&self, splitted: &(String, String, String)) -> (r: Vec<
        String,
    >)
        ensures
            r.deep_view() == compose_spec(splitted.1@, self.cache@, self.database@.suffixes),
    {
        let middle = &splitted.1;
        let ghost core = middle@;
        let ghost cachev = self.cache@;
        let ghost sufxv = self.database@.suffixes;
        let mlen = middle.unicode_len();
        let mut list: Vec<String> = Vec::new();
        if mlen > 2 {
            let mut i: usize = 1;
            while i < mlen
                invariant
                    mlen == core.len(),
                    mlen > 2,
                    1 <= i <= mlen,
                    core == middle@,
                    cachev == self.cache@,
                    sufxv == self.database@.suffixes,
                    list.deep_view() == compose_upto(core, cachev, sufxv, i as int),
                decreases mlen - i,
            {
                let suffix_key = middle.substring_char(i, mlen);
                proof {
                    assert(suffix_key@ == core.subrange(i as int, core.len() as int));
                }
                let ghost list_before = list.deep_view();
                if let Some(sfx) = self.database.find_suffix(suffix_key) {
                    let stem = middle.substring_char(0, i);
                    if let Some(items) = self.cache.get(stem) {
                        let icount = items.len();
                        let mut j: usize = 0;
                        while j < icount
                            invariant
                                icount == items@.len(),
                                0 <= j <= icount,
                                sfx@ == sufxv[core.subrange(i as int, core.len() as int)],
                                list.deep_view() == list_before + join_all(
                                    items.deep_view().take(j as int),
                                    sfx@,
                                ),
                            decreases icount - j,
                        {
                            let w = join_suffix(&items[j], &sfx);
                            let ghost prev = list.deep_view();
                            let ghost wv = w@;
                            list.push(w);
                            proof {
                                assert(list.deep_view() =~= prev.push(wv));
                                assert(items.deep_view()[j as int] == items@[j as int]@);
                                assert(wv == joined(items.deep_view()[j as int], sfx@));
                                assert(join_all(items.deep_view().take(j as int + 1), sfx@)
                                    =~= join_all(items.deep_view().take(j as int), sfx@).push(
                                    joined(items.deep_view()[j as int], sfx@),
                                ));
                                assert(list.deep_view() =~= list_before + join_all(
                                    items.deep_view().take(j as int + 1),
                                    sfx@,
                                ));
                            }
                            j = j + 1;
                        }
                        proof {
                            assert(items.deep_view().take(icount as int) =~= items.deep_view());
                            assert(split_contrib(core, cachev, sufxv, i as int)
                                == join_all(items.deep_view(), sfx@));
                        }
                    } else {
                        proof {
                            assert(split_contrib(core, cachev, sufxv, i as int)
                                =~= Seq::<Seq<char>>::empty());
                            assert(list.deep_view() =~= list_before + split_contrib(
                                core,
                                cachev,
                                sufxv,
                                i as int,
                            ));
                        }
                    }
                } else {
                    proof {
                        assert(split_contrib(core, cachev, sufxv, i as int)
                            =~= Seq::<Seq<char>>::empty());
                        assert(list.deep_view() =~= list_before + split_contrib(
                            core,
                            cachev,
                            sufxv,
                            i as int,
                        ));
                    }
                }
                proof {
                    assert(list.deep_view() =~= compose_upto(core, cachev, sufxv, i as int)
                        + split_contrib(core, cachev, sufxv, i as int));
                }
                i = i + 1;
            }
        }
        if list.len() > 0 {
            list
        } else {
            match self.cache.get(middle.as_str()) {
                Some(v) => {
                    let r = clone_words(v);
                    proof {
                        assert(r.deep_view() =~= v.deep_view());
                    }
                    r
                },
                None => {
                    let r: Vec<String> = Vec::new();
                    proof {
                        assert(r.deep_view() =~= Seq::<Seq<char>>::empty());
                    }
                    r
                },
            }
        }
    }

    /// Make suggestions from the given `term`: segment it, transliterate
    /// the core, consult the dictionary and the correction table on a cache
    /// miss, compose suffixed forms from the cache, rank them by edit
    /// distance to the plain transliteration, append the plain
    /// transliteration if it is not already present, reattach the
    /// decoration, and put the whole-token correction of `term` first when
    /// one is registered. The session cache may grow by one entry; nothing
    /// else changes.
    pub fn suggest(&mut self, term: &str) -> (r: Vec<String>)
        requires
            vstd::utf8::is_ascii_chars(term@),
            term@.len() < 0x4000_0000,
            old(self).wf(),
        ensures
            r.deep_view() == suggest_list(old(self).database@, old(self).cache@, term@),
            final(self).cache@ == cache_after(
                old(self).database@,
                old(self).cache@,
                segment_spec(term@).1,
            ),
            final(self).database == old(self).database,
            final(self).phonetic == old(self).phonetic,
    {
        let ghost d = self.database@;
        let ghost cache0 = self.cache@;
        let ghost seg = segment_spec(term@);
        let ghost core = seg.1;
        let splitted = split_string(term);
        proof {
            crate::segment::lemma_first_nonmeta(term@);
            if crate::segment::first_nonmeta(term@) < term@.len() {
                crate::segment::lemma_first_le_last(term@);
            }
            assert forall|i2: int| 0 <= i2 < core.len() implies '\0' <= #[trigger] core[i2]
                <= '\u{7f}' by {
                assert(core[i2] == term@[crate::segment::first_nonmeta(term@) + i2]);
            }
            assert(vstd::utf8::is_ascii_chars(core));
            assert(core.len() <= term@.len());
        }
        let plain = convert(&self.phonetic, splitted.1.as_str());
        let ghost plainv = plain@;
        let mut suggestions: Vec<String> = Vec::new();
        proof {
            assert(suggestions.deep_view() =~= Seq::<Seq<char>>::empty());
        }
        if !self.cache.contains_key(splitted.1.as_str()) {
            let mut dictionary = self.database.search_dictionary(splitted.1.as_str());
            proof {
                assert(dictionary.deep_view() == dict_entry(d, core));
            }
            if let Some(corrected) = self.database.get_corrected(splitted.1.as_str()) {
                proof {
                    assert(corrected@ == d.corrections[core]);
                }
                let word = convert(&self.phonetic, corrected.as_str());
                let ghost wordv = word@;
                let word_copy = word.clone();
                let ghost sug0 = suggestions.deep_view();
                let ghost dict0 = dictionary.deep_view();
                suggestions.push(word_copy);
                dictionary.push(word);
                proof {
                    assert(suggestions.deep_view() =~= sug0.push(wordv));
                    assert(dictionary.deep_view() =~= dict0.push(wordv));
                    assert(suggestions.deep_view() =~= corrected_prepend(d, cache0, core));
                    assert(dictionary.deep_view() =~= new_cache_entry(d, core));
                }
            } else {
                proof {
                    assert(suggestions.deep_view() =~= corrected_prepend(d, cache0, core));
                    assert(dictionary.deep_view() =~= new_cache_entry(d, core));
                }
            }
            let key = splitted.1.clone();
            self.cache.insert(key, dictionary);
            proof {
                assert(self.cache@ == cache_after(d, cache0, core));
            }
        } else {
            proof {
                assert(self.cache@ == cache_after(d, cache0, core));
                assert(suggestions.deep_view() =~= corrected_prepend(d, cache0, core));
            }
        }
        let ghost cache1 = self.cache@;
        let suggestions_with_suffix = self.add_suffix_to_suggestions(&splitted);
        let mut ranked = rank(suggestions_with_suffix, plain.as_str());
        proof {
            assert(ranked.deep_view() == rank_spec(compose_spec(core, cache1, d.suffixes), plainv));
        }
        let ghost acc = suggestions.deep_view();
        suggestions.append(&mut ranked);
        proof {
            assert(suggestions.deep_view() =~= acc + rank_spec(
                compose_spec(core, cache1, d.suffixes),
                plainv,
            ));
        }
        let ghost base0 = suggestions.deep_view();
        if !contains_str(&suggestions, &plain) {
            suggestions.push(plain);
            proof {
                assert(suggestions.deep_view() =~= base0.push(plainv));
            }
        }
        proof {
            assert(suggestions.deep_view() == with_plain(base0, plainv));
        }
        let ghost base = suggestions.deep_view();
        let total = suggestions.len();
        let mut decorated: Vec<String> = Vec::new();
        let mut k: usize = 0;
        proof {
            assert(decorated.deep_view() =~= decorate(base.take(0), seg.0, seg.2));
        }
        while k < total
            invariant
                total == suggestions@.len(),
                0 <= k <= total,
                base == suggestions.deep_view(),
                splitted.0@ == seg.0,
                splitted.2@ == seg.2,
                decorated.deep_view() == decorate(base.take(k as int), seg.0, seg.2),
            decreases total - k,
        {
            let w = String::from_str(splitted.0.as_str()).concat(suggestions[k].as_str()).concat(
                splitted.2.as_str(),
            );
            let ghost dec0 = decorated.deep_view();
            let ghost wv = w@;
            decorated.push(w);
            proof {
                assert(decorated.deep_view() =~= dec0.push(wv));
                assert(wv =~= seg.0 + base[k as int] + seg.2);
                assert(base.take(k as int).push(base[k as int]) =~= base.take(k as int + 1));
                assert(decorate(base.take(k as int + 1), seg.0, seg.2) =~= decorate(
                    base.take(k as int),
                    seg.0,
                    seg.2,
                ).push(seg.0 + base[k as int] + seg.2));
            }
            k = k + 1;
        }
        proof {
            assert(base.take(total as int) =~= base);
        }
        if let Some(emoticon) = self.database.get_corrected(term) {
            let ghost dec1 = decorated.deep_view();
            let ghost ev = emoticon@;
            decorated.insert(0, emoticon);
            proof {
                assert(decorated.deep_view() =~= dec1.insert(0, ev));
            }
        }
        proof {
            assert(decorated.deep_view() == suggest_list(d, cache0, term@));
        }
        decorated
    }
}

impl Default for PhoneticSuggestion {
    /// A fresh orchestrator over an empty dictionary.
    fn default() -> (r: PhoneticSuggestion)
        ensures
            r.cache@ == Map::<Seq<char>, Seq<Seq<char>>>::empty(),
            r.database@.table == Map::<Seq<char>, Seq<Seq<char>>>::empty(),
            r.database@.corrections == Map::<Seq<char>, Seq<char>>::empty(),
            r.database@.suffixes == Map::<Seq<char>, Seq<char>>::empty(),
    {
        PhoneticSuggestion::new(Dictionary::new())
    }
}

} // verus!
