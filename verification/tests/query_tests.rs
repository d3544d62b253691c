use sven::lexicon::{Dictionary, Inflection, Synonym, Word};

fn empty_dict(words: Vec<Word>) -> Dictionary {
    Dictionary {
        comment: None,
        created: None,
        last_changed: None,
        name: None,
        source_language: None,
        target_language: None,
        version: None,
        license: None,
        license_comment: None,
        origin_url: None,
        words,
    }
}

fn bare_word(value: &str) -> Word {
    Word {
        class: None,
        comment: None,
        lang: None,
        value: value.to_string(),
        translations: vec![],
        synonyms: vec![],
        phonetics: vec![],
        inflections: vec![],
        sees: vec![],
        examples: vec![],
        related_words: vec![],
        definitions: vec![],
    }
}

fn scenario_dict() -> Dictionary {
    let mut hund = bare_word("hund");
    hund.class = Some("noun".to_string());
    hund.inflections = vec![Inflection { value: "hundar".to_string() }];
    let mut katt = bare_word("katt");
    katt.class = Some("noun".to_string());
    katt.synonyms = vec![Synonym { level: None, value: "kisse".to_string() }];
    empty_dict(vec![hund, katt])
}

#[test]
fn lookup_by_canonical_value() {
    let d = scenario_dict();
    let w = d.lookup("hund").expect("hund should be found");
    assert_eq!(w.value, "hund");
    assert_eq!(w.class, Some("noun".to_string()));
}

#[test]
fn lookup_by_inflection() {
    let d = scenario_dict();
    let w = d.lookup("hundar").expect("inflection should resolve");
    assert_eq!(w.value, "hund");
}

#[test]
fn lookup_miss() {
    let d = scenario_dict();
    assert!(d.lookup("nonexistent").is_err());
    assert!(d.lookup("mus").is_err());
}

#[test]
fn lookup_document_order_tie_break() {
    let mut first = bare_word("bok");
    first.class = Some("noun".to_string());
    let mut second = bare_word("bok");
    second.class = Some("verb".to_string());
    let d = empty_dict(vec![first, second]);
    let w = d.lookup("bok").expect("bok should be found");
    assert_eq!(w.class, Some("noun".to_string()));
}

#[test]
fn lookup_prefers_document_order_over_canonical_match() {
    // An earlier word matching by inflection wins over a later word whose
    // canonical value matches: the scan is a single left-to-right pass.
    let mut first = bare_word("ga");
    first.inflections = vec![Inflection { value: "gick".to_string() }];
    let second = bare_word("gick");
    let d = empty_dict(vec![first, second]);
    let w = d.lookup("gick").expect("gick should be found");
    assert_eq!(w.value, "ga");
}

#[test]
fn search_substring() {
    let d = scenario_dict();
    let r = d.search("a");
    assert_eq!(r.len(), 1);
    assert_eq!(r[0].value, "katt");
}

#[test]
fn search_case_sensitive() {
    let d = scenario_dict();
    let r = d.search("Hund");
    assert!(r.is_empty());
}

#[test]
fn search_empty_substring_matches_every_word() {
    let d = scenario_dict();
    let r = d.search("");
    assert_eq!(r.len(), 2);
    assert_eq!(r[0].value, "hund");
    assert_eq!(r[1].value, "katt");
}

#[test]
fn search_keeps_document_order() {
    let d = empty_dict(vec![bare_word("katten"), bare_word("matta"), bare_word("bil")]);
    let r = d.search("tt");
    assert_eq!(r.len(), 2);
    assert_eq!(r[0].value, "katten");
    assert_eq!(r[1].value, "matta");
}

#[test]
fn lookup_result_contained_in_search() {
    // Whenever the query is literally a substring of the found word's
    // canonical value, search on the same query returns that word too.
    let d = scenario_dict();
    let w = d.lookup("hund").expect("hund should be found");
    let r = d.search("hund");
    assert!(r.iter().any(|c| c.value == w.value));
}
