use everling_esi::morpheme::MorphemeProcessor;

fn lines(v: &[&str]) -> Vec<String> {
    v.iter().map(|s| s.to_string()).collect()
}

#[test]
fn header_only_yields_empty_vocabulary() {
    let out = MorphemeProcessor::process_lines(&lines(&["surface,pos,and,other,columns"]));
    assert!(out.nouns.is_empty());
    assert!(out.particles.is_empty());
    assert!(out.verbs.is_empty());
    assert!(out.adverbs.is_empty());
    assert!(!out.has_entries());
}

#[test]
fn no_lines_yields_empty_vocabulary() {
    let out = MorphemeProcessor::process_lines(&lines(&[]));
    assert!(!out.has_entries());
}

#[test]
fn comma_line_classified_by_pos_marker() {
    let out = MorphemeProcessor::process_lines(&lines(&[
        "header",
        "a,b,犬,d,e,f,名詞,h",
        "a,b,は,d,e,f,助詞,h",
        "a,b,走る,d,e,f,動詞,h",
        "a,b,ゆっくり,d,e,f,副詞,h",
    ]));
    assert_eq!(out.nouns, lines(&["犬"]));
    assert_eq!(out.particles, lines(&["は"]));
    assert_eq!(out.verbs, lines(&["走る"]));
    assert_eq!(out.adverbs, lines(&["ゆっくり"]));
}

#[test]
fn tab_line_classified_when_no_comma() {
    let out = MorphemeProcessor::process_lines(&lines(&[
        "header",
        "a\tb\t猫\td\te\tf\t名詞\th",
    ]));
    assert_eq!(out.nouns, lines(&["猫"]));
}

#[test]
fn pronoun_and_suffix_markers_count_as_nouns() {
    let out = MorphemeProcessor::process_lines(&lines(&[
        "header",
        "a,b,これ,d,e,f,代名詞,h",
        "a,b,さん,d,e,f,接尾辞,h",
    ]));
    assert_eq!(out.nouns, lines(&["これ", "さん"]));
}

#[test]
fn unmatched_pos_is_skipped() {
    let out = MorphemeProcessor::process_lines(&lines(&[
        "header",
        "a,b,!,d,e,f,記号,h",
    ]));
    assert!(!out.has_entries());
}

#[test]
fn too_few_fields_is_skipped() {
    let out = MorphemeProcessor::process_lines(&lines(&[
        "header",
        "a,b,犬,d,e,f,名詞",
    ]));
    assert!(!out.has_entries());
}

#[test]
fn quote_only_surface_form_is_skipped() {
    let out = MorphemeProcessor::process_lines(&lines(&[
        "header",
        "a,b,\"\"\"\",d,e,f,名詞,h",
        "a,b,\"\",d,e,f,名詞,h",
    ]));
    assert!(!out.has_entries());
}

#[test]
fn surface_form_is_trimmed_and_unquoted() {
    let out = MorphemeProcessor::process_lines(&lines(&[
        "header",
        "a,b, \"犬\" ,d,e,f,名詞,h",
    ]));
    assert_eq!(out.nouns, lines(&["犬"]));
}

#[test]
fn duplicate_surface_forms_collapse() {
    let out = MorphemeProcessor::process_lines(&lines(&[
        "header",
        "a,b,犬,d,e,f,名詞,h",
        "a,b,犬,d,e,f,名詞,h",
        "x,y,犬,z,w,u,名詞,v",
    ]));
    assert_eq!(out.nouns, lines(&["犬"]));
}

#[test]
fn verb_marker_inside_auxiliary_tag() {
    let out = MorphemeProcessor::process_lines(&lines(&[
        "header",
        "a,b,れる,d,e,f,助動詞,h",
    ]));
    assert_eq!(out.verbs, lines(&["れる"]));
    assert!(out.particles.is_empty());
}
