//! Script-specific character classes and joining constants for the Bengali
//! script: independent vowels, dependent vowel signs (kars), and the two
//! sentinel characters (Khandatta and Anushar) together with the characters
//! substituted for them at a morpheme boundary.

use vstd::prelude::*;

verus! {

/// The semivowel glide inserted between an independent vowel and a kar.
pub const GLIDE: char = '\u{09DF}';

/// The Khandatta ligature; replaced by the plain consonant when joined.
pub const KHANDATTA: char = '\u{09CE}';

/// The plain consonant substituted for a trailing Khandatta.
pub const KHANDATTA_SUBST: char = '\u{09A4}';

/// The Anushar nasalization mark; replaced by the nasal consonant when joined.
pub const ANUSHAR: char = '\u{0982}';

/// The nasal consonant substituted for a trailing Anushar.
pub const ANUSHAR_SUBST: char = '\u{0999}';

/// An independent vowel character of the script.
pub open spec fn is_vowel(c: char) -> bool {
    c == '\u{0985}' || c == '\u{0986}' || c == '\u{0987}' || c == '\u{0988}'
        || c == '\u{0989}' || c == '\u{098A}' || c == '\u{098B}' || c == '\u{098C}'
        || c == '\u{098F}' || c == '\u{0990}' || c == '\u{0993}' || c == '\u{0994}'
}

/// A dependent vowel sign (kar) character of the script.
pub open spec fn is_kar(c: char) -> bool {
    c == '\u{09BE}' || c == '\u{09BF}' || c == '\u{09C0}' || c == '\u{09C1}'
        || c == '\u{09C2}' || c == '\u{09C3}' || c == '\u{09C7}' || c == '\u{09C8}'
        || c == '\u{09CB}' || c == '\u{09CC}'
}

/// Decides whether `c` is an independent vowel.
pub fn is_vowel_char(c: char) -> (r: bool)
    ensures
        r == is_vowel(c),
{
    c == '\u{0985}' || c == '\u{0986}' || c == '\u{0987}' || c == '\u{0988}'
        || c == '\u{0989}' || c == '\u{098A}' || c == '\u{098B}' || c == '\u{098C}'
        || c == '\u{098F}' || c == '\u{0990}' || c == '\u{0993}' || c == '\u{0994}'
}

/// Decides whether `c` is a dependent vowel sign (kar).
pub fn is_kar_char(c: char) -> (r: bool)
    ensures
        r == is_kar(c),
{
    c == '\u{09BE}' || c == '\u{09BF}' || c == '\u{09C0}' || c == '\u{09C1}'
        || c == '\u{09C2}' || c == '\u{09C3}' || c == '\u{09C7}' || c == '\u{09C8}'
        || c == '\u{09CB}' || c == '\u{09CC}'
}

} // verus!
