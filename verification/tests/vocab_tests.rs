use everling_esi::vocab::{Language, LanguageVocabularies, VocabularyData};
use everling_esi::assembler::LinguisticAssembler;
use everling_esi::vocab::sync_vocabulary;

fn words(v: &[&str]) -> Vec<String> {
    v.iter().map(|s| s.to_string()).collect()
}

fn as_set(v: &Vec<String>) -> Vec<String> {
    let mut s = v.clone();
    s.sort();
    s
}

fn vocab(nouns: &[&str], particles: &[&str], verbs: &[&str], adverbs: &[&str]) -> VocabularyData {
    VocabularyData {
        nouns: words(nouns),
        particles: words(particles),
        verbs: words(verbs),
        adverbs: words(adverbs),
    }
}

#[test]
fn empty_has_no_entries() {
    let v = VocabularyData::empty();
    assert!(v.nouns.is_empty());
    assert!(v.particles.is_empty());
    assert!(v.verbs.is_empty());
    assert!(v.adverbs.is_empty());
    assert!(!v.has_entries());
}

#[test]
fn merge_deduplicates() {
    let mut a = vocab(&["cat", "dog"], &["wa"], &["run"], &["fast"]);
    let b = vocab(&["dog", "bird"], &["wa", "no"], &["run"], &[]);
    a.merge(b);
    assert_eq!(as_set(&a.nouns), words(&["bird", "cat", "dog"]));
    assert_eq!(as_set(&a.particles), words(&["no", "wa"]));
    assert_eq!(as_set(&a.verbs), words(&["run"]));
    assert_eq!(as_set(&a.adverbs), words(&["fast"]));
}

#[test]
fn merge_removes_duplicates_already_present() {
    let mut a = vocab(&["x", "x", "y"], &[], &[], &[]);
    a.merge(VocabularyData::empty());
    assert_eq!(as_set(&a.nouns), words(&["x", "y"]));
}

#[test]
fn merge_idempotent_as_sets() {
    let mut once = vocab(&["a", "b"], &["p"], &["v"], &["d"]);
    let b = vocab(&["b", "c"], &["q"], &[], &["d", "e"]);
    once.merge(b.clone());
    let mut twice = once.clone();
    twice.merge(b);
    assert_eq!(as_set(&once.nouns), as_set(&twice.nouns));
    assert_eq!(as_set(&once.particles), as_set(&twice.particles));
    assert_eq!(as_set(&once.verbs), as_set(&twice.verbs));
    assert_eq!(as_set(&once.adverbs), as_set(&twice.adverbs));
}

#[test]
fn merge_commutative_as_sets() {
    let a = vocab(&["a", "b"], &["p"], &["v", "w"], &[]);
    let b = vocab(&["b", "c"], &["p", "q"], &[], &["z"]);
    let mut ab = a.clone();
    ab.merge(b.clone());
    let mut ba = b;
    ba.merge(a);
    assert_eq!(as_set(&ab.nouns), as_set(&ba.nouns));
    assert_eq!(as_set(&ab.particles), as_set(&ba.particles));
    assert_eq!(as_set(&ab.verbs), as_set(&ba.verbs));
    assert_eq!(as_set(&ab.adverbs), as_set(&ba.adverbs));
}

#[test]
fn default_vocabularies_nonempty_everywhere() {
    let all = LinguisticAssembler::get_default_all_vocabs();
    for v in [&all.english, &all.japanese, &all.chinese] {
        assert!(!v.nouns.is_empty());
        assert!(!v.particles.is_empty());
        assert!(!v.verbs.is_empty());
        assert!(!v.adverbs.is_empty());
    }
    assert_eq!(all.english.nouns, words(&["Silence"]));
    assert_eq!(all.japanese.particles, words(&["は", "の", "に"]));
}

#[test]
fn sync_with_extraction_merges_and_persists() {
    let mut all = LinguisticAssembler::get_default_all_vocabs();
    let extracted = vocab(&["研究"], &[], &["走る"], &[]);
    let persist = sync_vocabulary(&mut all, Language::Japanese, Some(extracted));
    assert!(persist);
    assert!(all.japanese.nouns.contains(&"研究".to_string()));
    assert!(all.japanese.verbs.contains(&"走る".to_string()));
    assert_eq!(all.english.nouns, words(&["Silence"]));
    assert_eq!(all.chinese.nouns, words(&["宁静"]));
}

#[test]
fn sync_with_empty_extraction_skips_persist() {
    let mut all = LinguisticAssembler::get_default_all_vocabs();
    let before = everling_esi::codec::encode_vocabularies(&all);
    let persist = sync_vocabulary(&mut all, Language::Japanese, Some(VocabularyData::empty()));
    assert!(!persist);
    let after = everling_esi::codec::encode_vocabularies(&all);
    assert_eq!(before, after);
}

#[test]
fn sync_without_extraction_skips_persist() {
    let mut all = LinguisticAssembler::get_default_all_vocabs();
    let persist = sync_vocabulary(&mut all, Language::English, None);
    assert!(!persist);
}

#[test]
fn sync_duplicate_only_extraction_persists_but_keeps_sets() {
    let mut all = LinguisticAssembler::get_default_all_vocabs();
    let extracted = vocab(&["Silence"], &[], &[], &[]);
    let persist = sync_vocabulary(&mut all, Language::English, Some(extracted));
    assert!(persist);
    assert_eq!(as_set(&all.english.nouns), words(&["Silence"]));
}
