//! The phonetic transliterator, consumed as an external collaborator: a pure
//! function from a romanized string to its native-script rendering.

use rupantor::avro::AvroPhonetic;
use vstd::prelude::*;

verus! {

/// Declares rupantor's AvroPhonetic so that the orchestrator can hold the
/// transliterator in a field; the value is opaque and only passed through.
#[verifier::external_type_specification]
#[verifier::external_body]
pub struct ExAvroPhonetic(AvroPhonetic);

/// The native-script rendering that the Avro transliterator gives to a
/// romanized string. The transliterator is built from a fixed grammar that
/// is embedded in its crate, so its output depends on the input string
/// alone, identically in every process.
pub uninterp spec fn avro_of(s: Seq<char>) -> Seq<char>;

/// Relies on rupantor's AvroPhonetic::new: builds the transliterator from
/// the grammar embedded in that crate; total and deterministic.
#[verifier::external_body]
pub fn new_avro() -> AvroPhonetic {
    AvroPhonetic::new()
}

/// Relies on rupantor's AvroPhonetic::convert: transliterates a romanized
/// string by the embedded grammar, a deterministic function of the input
/// characters alone; on an empty input its scanning loop never runs, so the
/// output is empty. Its internals slice the input by byte offsets and index
/// it with 32-bit offsets, so only ASCII input of bounded length is passed
/// to it.
#[verifier::external_body]
pub fn convert(avro: &AvroPhonetic, input: &str) -> (r: String)
    requires
        vstd::utf8::is_ascii_chars(input@),
        input@.len() < 0x4000_0000,
    ensures
        r@ == avro_of(input@),
        input@.len() == 0 ==> r@.len() == 0,
{
    avro.convert(input)
}

} // verus!
