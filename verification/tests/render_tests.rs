use sven::lexicon::{Example, Inflection, Synonym, Translation, Word};
use sven::render::format_word_entry;

fn entry_word() -> Word {
    Word {
        class: Some("nn".to_string()),
        comment: None,
        lang: None,
        value: "hund".to_string(),
        translations: vec![
            Translation { comment: Some("animal".to_string()), value: Some("dog".to_string()) },
            Translation { comment: None, value: None },
        ],
        synonyms: vec![Synonym { level: None, value: "jycke".to_string() }],
        phonetics: vec![],
        inflections: vec![
            Inflection { value: "hundar".to_string() },
            Inflection { value: "hunden".to_string() },
        ],
        sees: vec![],
        examples: vec![Example {
            value: Some("hunden skaller".to_string()),
            translation: Some(Translation {
                comment: None,
                value: Some("the dog barks".to_string()),
            }),
        }],
        related_words: vec![],
        definitions: vec![],
    }
}

#[test]
fn renders_full_entry() {
    let expected = "Word: hund\nClass: nn\nInflections: hundar, hunden\nTranslations:\n- dog\nComment: animal\n- \nSynonyms:\n- jycke\nExamples:\n- hunden skaller (the dog barks)\n";
    assert_eq!(format_word_entry(&entry_word()), expected);
}

#[test]
fn renders_bare_word() {
    let mut w = entry_word();
    w.class = None;
    w.translations = vec![];
    w.synonyms = vec![];
    w.inflections = vec![];
    w.examples = vec![];
    assert_eq!(format_word_entry(&w), "Word: hund\n");
}

#[test]
fn renders_comment_line_and_skips_empty_translation_comment() {
    let mut w = entry_word();
    w.comment = Some("best friend".to_string());
    w.translations = vec![Translation {
        comment: Some(String::new()),
        value: Some("dog".to_string()),
    }];
    let expected = "Word: hund\nClass: nn\nComment: best friend\nInflections: hundar, hunden\nTranslations:\n- dog\nSynonyms:\n- jycke\nExamples:\n- hunden skaller (the dog barks)\n";
    assert_eq!(format_word_entry(&w), expected);
}

#[test]
fn renders_example_without_translation() {
    let mut w = entry_word();
    w.examples = vec![Example { value: Some("hunden skaller".to_string()), translation: None }];
    w.translations = vec![];
    w.synonyms = vec![];
    w.class = None;
    w.inflections = vec![];
    assert_eq!(format_word_entry(&w), "Word: hund\nExamples:\n- hunden skaller\n");
}
