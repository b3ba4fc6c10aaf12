//! A transliteration-suggestion engine: given a romanized token it produces
//! a ranked list of native-script renderings, combining a rule-based phonetic
//! transliterator, dictionary lookups, morphological suffix composition with
//! script-aware joining rules, and edit-distance ranking, while preserving
//! leading and trailing decoration exactly.

pub mod dictionary;
pub mod distance;
pub mod ranker;
pub mod script;
pub mod segment;
pub mod strmap;
pub mod suggestion;
pub mod translit;
