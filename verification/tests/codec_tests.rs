use everling_esi::assembler::LinguisticAssembler;
use everling_esi::codec::{decode_vocabularies, encode_vocabularies, load_or_default};
use everling_esi::runner::EsiError;
use everling_esi::vocab::{LanguageVocabularies, VocabularyData};

fn words(v: &[&str]) -> Vec<String> {
    v.iter().map(|s| s.to_string()).collect()
}

fn store_with_english_nouns(nouns: &[&str]) -> LanguageVocabularies {
    let mut all = LinguisticAssembler::get_default_all_vocabs();
    all.english.nouns = words(nouns);
    all
}

fn assert_same_store(a: &LanguageVocabularies, b: &LanguageVocabularies) {
    for (x, y) in [
        (&a.english, &b.english),
        (&a.japanese, &b.japanese),
        (&a.chinese, &b.chinese),
    ] {
        assert_eq!(x.nouns, y.nouns);
        assert_eq!(x.particles, y.particles);
        assert_eq!(x.verbs, y.verbs);
        assert_eq!(x.adverbs, y.adverbs);
    }
}

#[test]
fn encode_decode_round_trip_on_defaults() {
    let all = LinguisticAssembler::get_default_all_vocabs();
    let text = encode_vocabularies(&all);
    let back = decode_vocabularies(&text).unwrap();
    assert_same_store(&all, &back);
}

#[test]
fn round_trip_preserves_escaped_characters() {
    let all = store_with_english_nouns(&["a\"b", "back\\slash", "sp ace", ""]);
    let text = encode_vocabularies(&all);
    let back = decode_vocabularies(&text).unwrap();
    assert_same_store(&all, &back);
}

#[test]
fn round_trip_preserves_multibyte_words() {
    let mut all = LinguisticAssembler::get_default_all_vocabs();
    all.japanese.nouns.push("研究所".to_string());
    let text = encode_vocabularies(&all);
    let back = decode_vocabularies(&text).unwrap();
    assert_same_store(&all, &back);
}

#[test]
fn encoder_emits_canonical_compact_form() {
    let mut all = store_with_english_nouns(&["a", "b"]);
    all.english.particles = words(&["p"]);
    all.english.verbs = words(&[]);
    all.english.adverbs = words(&["q"]);
    all.japanese = VocabularyData::empty();
    all.chinese = VocabularyData::empty();
    let text = encode_vocabularies(&all);
    let mut expected = String::new();
    expected.push_str("{\"english\":{\"nouns\":[\"a\",\"b\"],\"particles\":[\"p\"],\"verbs\":[],");
    expected.push_str("\"adverbs\":[\"q\"]},");
    expected.push_str("\"japanese\":{\"nouns\":[],\"particles\":[],\"verbs\":[],\"adverbs\":[]},");
    expected.push_str("\"chinese\":{\"nouns\":[],\"particles\":[],\"verbs\":[],\"adverbs\":[]}}");
    assert_eq!(text, expected);
}

#[test]
fn decoder_accepts_whitespace_between_tokens() {
    let mut text = String::new();
    text.push_str("{\n  \"english\" : {\n    \"nouns\" : [ \"a\" , \"b\" ],\n");
    text.push_str("    \"particles\" : [],\n    \"verbs\" : [],\n    \"adverbs\" : []\n  },\n");
    text.push_str("  \"japanese\" : {\"nouns\":[],\"particles\":[],\"verbs\":[],\"adverbs\":[]},\n");
    text.push_str("  \"chinese\" : {\"nouns\":[],\"particles\":[],\"verbs\":[],\"adverbs\":[]}\n}\n");
    let back = decode_vocabularies(&text).unwrap();
    assert_eq!(back.english.nouns, words(&["a", "b"]));
    assert!(back.japanese.nouns.is_empty());
}

#[test]
fn decoder_rejects_malformed_documents() {
    for text in [
        "",
        "{",
        "not json",
        "{\"english\":}",
        "{\"japanese\":{\"nouns\":[],\"particles\":[],\"verbs\":[],\"adverbs\":[]}}",
        "{\"english\":{\"nouns\":[\"unterminated]}}",
    ] {
        match decode_vocabularies(text) {
            Err(e) => assert_eq!(e, EsiError::SerializationError),
            Ok(_) => panic!("malformed document was accepted"),
        }
    }
}

#[test]
fn decoder_rejects_trailing_garbage() {
    let all = LinguisticAssembler::get_default_all_vocabs();
    let mut text = encode_vocabularies(&all);
    text.push('x');
    assert!(decode_vocabularies(&text).is_err());
}

#[test]
fn load_without_file_returns_defaults() {
    let loaded = load_or_default(None).unwrap();
    let defaults = LinguisticAssembler::get_default_all_vocabs();
    assert_same_store(&loaded, &defaults);
}

#[test]
fn load_with_file_content_decodes_it() {
    let all = store_with_english_nouns(&["persisted"]);
    let text = encode_vocabularies(&all);
    let loaded = load_or_default(Some(&text)).unwrap();
    assert_same_store(&loaded, &all);
}

#[test]
fn persist_then_load_keeps_set_content() {
    // the on-disk round trip of the store: encode (persist), decode (load),
    // encode again; both files hold the same store.
    let all = store_with_english_nouns(&["a", "b", "c"]);
    let first = encode_vocabularies(&all);
    let loaded = decode_vocabularies(&first).unwrap();
    let second = encode_vocabularies(&loaded);
    assert_eq!(first, second);
    assert_same_store(&all, &loaded);
}
