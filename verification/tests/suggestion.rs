use phonetic_suggest::dictionary::Dictionary;
use phonetic_suggest::ranker::rank;
use phonetic_suggest::segment::split_string;
use phonetic_suggest::suggestion::PhoneticSuggestion;

fn suffix_dictionary() -> Dictionary {
    let mut db = Dictionary::new();
    db.add_suffix("e".to_string(), "\u{09C7}".to_string());
    db.add_suffix("gulo".to_string(), "\u{0997}\u{09C1}\u{09B2}\u{09CB}".to_string());
    db.add_suffix("mala".to_string(), "\u{09AE}\u{09BE}\u{09B2}\u{09BE}".to_string());
    db
}

#[test]
fn test_emoticon() {
    let mut db = Dictionary::new();
    db.add_correction(":)".to_string(), ":)".to_string());
    let mut suggestion = PhoneticSuggestion::new(db);

    assert_eq!(suggestion.suggest(":)"), vec![":)", "\u{0983})"]);
}

#[test]
fn test_suggestion() {
    let mut db = suffix_dictionary();
    db.add_entry(
        "a".to_string(),
        vec![
            "\u{0986}".to_string(),
            "\u{0986}\u{0983}".to_string(),
            "\u{09BE}".to_string(),
            "\u{098F}".to_string(),
            "\u{0985}\u{09CD}\u{09AF}\u{09BE}".to_string(),
            "\u{0985}\u{09CD}\u{09AF}\u{09BE}\u{0981}".to_string(),
        ],
    );
    db.add_entry(
        "as".to_string(),
        vec![
            "\u{0986}\u{09B8}".to_string(),
            "\u{0986}\u{09B6}".to_string(),
            "\u{098F}\u{09B8}".to_string(),
            "\u{0986}\u{0981}\u{09B6}".to_string(),
        ],
    );
    let mut suggestion = PhoneticSuggestion::new(db);

    assert_eq!(
        suggestion.suggest("a"),
        vec![
            "\u{0986}",
            "\u{0986}\u{0983}",
            "\u{09BE}",
            "\u{098F}",
            "\u{0985}\u{09CD}\u{09AF}\u{09BE}",
            "\u{0985}\u{09CD}\u{09AF}\u{09BE}\u{0981}"
        ]
    );
    assert_eq!(
        suggestion.suggest("as"),
        vec![
            "\u{0986}\u{09B8}",
            "\u{0986}\u{09B6}",
            "\u{098F}\u{09B8}",
            "\u{0986}\u{0981}\u{09B6}"
        ]
    );
    assert_eq!(
        suggestion.suggest("asgulo"),
        vec![
            "\u{0986}\u{09B8}\u{0997}\u{09C1}\u{09B2}\u{09CB}",
            "\u{0986}\u{09B6}\u{0997}\u{09C1}\u{09B2}\u{09CB}",
            "\u{098F}\u{09B8}\u{0997}\u{09C1}\u{09B2}\u{09CB}",
            "\u{0986}\u{0981}\u{09B6}\u{0997}\u{09C1}\u{09B2}\u{09CB}",
            "\u{0986}\u{09B8}\u{0997}\u{09C1}\u{09B2}"
        ]
    );
    assert_eq!(
        suggestion.suggest("(as)"),
        vec![
            "(\u{0986}\u{09B8})",
            "(\u{0986}\u{09B6})",
            "(\u{098F}\u{09B8})",
            "(\u{0986}\u{0981}\u{09B6})"
        ]
    );
}

#[test]
fn test_suffix() {
    let mut suggestion = PhoneticSuggestion::new(suffix_dictionary());
    suggestion.insert_cache(
        "computer".to_string(),
        vec!["\u{0995}\u{09AE}\u{09CD}\u{09AA}\u{09BF}\u{0989}\u{099F}\u{09BE}\u{09B0}"
            .to_string()],
    );
    suggestion.insert_cache("ebong".to_string(), vec!["\u{098F}\u{09AC}\u{0982}".to_string()]);

    assert_eq!(
        suggestion.add_suffix_to_suggestions(&(
            "".to_string(),
            "computer".to_string(),
            "".to_string()
        )),
        vec!["\u{0995}\u{09AE}\u{09CD}\u{09AA}\u{09BF}\u{0989}\u{099F}\u{09BE}\u{09B0}"]
    );
    assert_eq!(
        suggestion.add_suffix_to_suggestions(&(
            "".to_string(),
            "computere".to_string(),
            "".to_string()
        )),
        vec!["\u{0995}\u{09AE}\u{09CD}\u{09AA}\u{09BF}\u{0989}\u{099F}\u{09BE}\u{09B0}\u{09C7}"]
    );
    assert_eq!(
        suggestion.add_suffix_to_suggestions(&(
            "".to_string(),
            "computergulo".to_string(),
            "".to_string()
        )),
        vec![
            "\u{0995}\u{09AE}\u{09CD}\u{09AA}\u{09BF}\u{0989}\u{099F}\u{09BE}\u{09B0}\u{0997}\u{09C1}\u{09B2}\u{09CB}"
        ]
    );
    assert_eq!(
        suggestion.add_suffix_to_suggestions(&(
            "".to_string(),
            "ebongmala".to_string(),
            "".to_string()
        )),
        vec!["\u{098F}\u{09AC}\u{0999}\u{09AE}\u{09BE}\u{09B2}\u{09BE}"]
    );
}

#[test]
fn test_split_string() {
    assert_eq!(
        split_string("[][][][]"),
        ("[][][][]".to_owned(), "".to_owned(), "".to_owned())
    );
    assert_eq!(
        split_string("t*"),
        ("".to_owned(), "t".to_owned(), "*".to_owned())
    );
    assert_eq!(
        split_string("1"),
        ("".to_owned(), "1".to_owned(), "".to_owned())
    );
    assert_eq!(
        split_string("#\"percent%sign\"#"),
        (
            "#\"".to_owned(),
            "percent%sign".to_owned(),
            "\"#".to_owned()
        )
    );
    assert_eq!(
        split_string("text"),
        ("".to_owned(), "text".to_owned(), "".to_owned())
    );
    assert_eq!(
        split_string(":)"),
        ("".to_owned(), ":".to_owned(), ")".to_owned())
    );
}

#[test]
fn test_split_round_trip() {
    for input in ["--abc~~", "", "a", "[]", "(as)", "%x%y%", "hello"] {
        let (prefix, core, suffix) = split_string(input);
        assert_eq!(format!("{}{}{}", prefix, core, suffix), input);
    }
}

#[test]
fn test_split_empty() {
    assert_eq!(
        split_string(""),
        ("".to_owned(), "".to_owned(), "".to_owned())
    );
}

#[test]
fn test_suffix_guard_short_core() {
    // A would-be suffix match must not be attempted on a core of length 2:
    // the composer returns the cache entry for the whole core verbatim.
    let mut db = Dictionary::new();
    db.add_suffix("b".to_string(), "\u{09AC}".to_string());
    let mut suggestion = PhoneticSuggestion::new(db);
    suggestion.insert_cache("ab".to_string(), vec!["\u{0986}\u{09AC}".to_string()]);
    suggestion.insert_cache("a".to_string(), vec!["\u{0986}".to_string()]);

    assert_eq!(
        suggestion.add_suffix_to_suggestions(&(
            "".to_string(),
            "ab".to_string(),
            "".to_string()
        )),
        vec!["\u{0986}\u{09AC}"]
    );
    // With a third character the same tables do produce a join.
    suggestion.insert_cache("ak".to_string(), vec!["\u{0986}\u{0995}".to_string()]);
    assert_eq!(
        suggestion.add_suffix_to_suggestions(&(
            "".to_string(),
            "akb".to_string(),
            "".to_string()
        )),
        vec!["\u{0986}\u{0995}\u{09AC}"]
    );
}

#[test]
fn test_join_glide() {
    // A stem candidate ending in an independent vowel joined with a suffix
    // rendering that starts with a kar takes the glide between them.
    let mut db = Dictionary::new();
    db.add_suffix("e".to_string(), "\u{09C7}".to_string());
    let mut suggestion = PhoneticSuggestion::new(db);
    suggestion.insert_cache("ke".to_string(), vec!["\u{098F}".to_string()]);

    assert_eq!(
        suggestion.add_suffix_to_suggestions(&(
            "".to_string(),
            "kee".to_string(),
            "".to_string()
        )),
        vec!["\u{098F}\u{09DF}\u{09C7}"]
    );
}

#[test]
fn test_join_khandatta() {
    // A trailing Khandatta is replaced by the plain consonant before the
    // suffix rendering is appended.
    let mut db = Dictionary::new();
    db.add_suffix("e".to_string(), "\u{09C7}".to_string());
    let mut suggestion = PhoneticSuggestion::new(db);
    suggestion.insert_cache("ut".to_string(), vec!["\u{0989}\u{09CE}".to_string()]);

    assert_eq!(
        suggestion.add_suffix_to_suggestions(&(
            "".to_string(),
            "ute".to_string(),
            "".to_string()
        )),
        vec!["\u{0989}\u{09A4}\u{09C7}"]
    );
}

#[test]
fn test_rank_by_distance() {
    let ranked = rank(
        vec!["abcd".to_string(), "ab".to_string(), "abc".to_string()],
        "ab",
    );
    assert_eq!(ranked, vec!["ab", "abc", "abcd"]);

    let classic = rank(vec!["sitting".to_string(), "kitten".to_string()], "kitten");
    assert_eq!(classic, vec!["kitten", "sitting"]);

    // Ties keep their input order.
    let ties = rank(
        vec!["xa".to_string(), "xb".to_string(), "x".to_string()],
        "x",
    );
    assert_eq!(ties, vec!["x", "xa", "xb"]);
}

#[test]
fn test_plain_transliteration_fallback() {
    // With an empty dictionary the whole output is the plain
    // transliteration alone.
    let mut suggestion = PhoneticSuggestion::default();
    assert_eq!(
        suggestion.suggest("ami"),
        vec!["\u{0986}\u{09AE}\u{09BF}"]
    );

    // When the dictionary already produced the identical string, the plain
    // transliteration is not appended a second time.
    let avro = rupantor::avro::AvroPhonetic::new();
    let plain = avro.convert("ki");
    let mut db = Dictionary::new();
    db.add_entry("ki".to_string(), vec![plain.clone()]);
    let mut suggestion = PhoneticSuggestion::new(db);
    let result = suggestion.suggest("ki");
    assert_eq!(result, vec![plain.clone()]);
    assert_eq!(result.iter().filter(|s| **s == plain).count(), 1);
}

#[test]
fn test_empty_input() {
    let mut suggestion = PhoneticSuggestion::default();
    assert_eq!(suggestion.suggest(""), vec![""]);
}

#[test]
fn test_decoration_preserved() {
    let mut db = Dictionary::new();
    db.add_entry(
        "as".to_string(),
        vec!["\u{0986}\u{09B8}".to_string(), "\u{0986}\u{09B6}".to_string()],
    );
    let mut suggestion = PhoneticSuggestion::new(db);
    for candidate in suggestion.suggest("~as!!") {
        assert!(candidate.starts_with('~'));
        assert!(candidate.ends_with("!!"));
    }
}

#[test]
fn test_correction_transliterated_and_cached() {
    // A registered correction is transliterated, put first, and also joins
    // the cache entry so that later suffix composition can reuse it.
    let mut db = Dictionary::new();
    db.add_correction("amr".to_string(), "amar".to_string());
    db.add_suffix("o".to_string(), "\u{0993}".to_string());
    let mut suggestion = PhoneticSuggestion::new(db);
    let avro = rupantor::avro::AvroPhonetic::new();
    let amar = avro.convert("amar");
    let result = suggestion.suggest("amr");
    // The whole-token override puts the raw correction first, the
    // transliterated correction follows it.
    assert_eq!(result[0], "amar");
    assert_eq!(result[1], amar);
}
