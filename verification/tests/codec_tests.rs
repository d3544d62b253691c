use sven::cache::{deserialize, roundtrip, serialize};
use sven::error::ParseError;
use sven::lexicon::{
    Definition, Dictionary, Example, Inflection, Phonetic, RelatedWord, See, Synonym, Translation,
    Word,
};

fn full_dictionary() -> Dictionary {
    Dictionary {
        comment: Some("a comment".to_string()),
        created: Some("2010-01-01".to_string()),
        last_changed: None,
        name: Some("Folkets lexikon".to_string()),
        source_language: Some("sv".to_string()),
        target_language: Some("en".to_string()),
        version: Some("1.0".to_string()),
        license: None,
        license_comment: Some("".to_string()),
        origin_url: None,
        words: vec![
            Word {
                class: Some("nn".to_string()),
                comment: None,
                lang: Some("sv".to_string()),
                value: "hund".to_string(),
                translations: vec![
                    Translation { comment: Some("animal".to_string()), value: Some("dog".to_string()) },
                    Translation { comment: None, value: None },
                ],
                synonyms: vec![Synonym { level: Some("3.2".to_string()), value: "jycke".to_string() }],
                phonetics: vec![Phonetic {
                    sound_file: Some("hund.mp3".to_string()),
                    value: Some("h}nd".to_string()),
                }],
                inflections: vec![
                    Inflection { value: "hundar".to_string() },
                    Inflection { value: "hunden".to_string() },
                ],
                sees: vec![See { see_type: Some("compare".to_string()), value: None }],
                examples: vec![Example {
                    value: Some("hunden skäller".to_string()),
                    translation: Some(Translation {
                        comment: None,
                        value: Some("the dog barks".to_string()),
                    }),
                }],
                related_words: vec![RelatedWord {
                    word_type: "animal".to_string(),
                    value: "katt".to_string(),
                }],
                definitions: vec![Definition { value: Some("ett husdjur".to_string()), translation: None }],
            },
            Word {
                class: None,
                comment: Some("colon : and 1:1 marks survive".to_string()),
                lang: None,
                value: "katt".to_string(),
                translations: vec![],
                synonyms: vec![],
                phonetics: vec![],
                inflections: vec![],
                sees: vec![],
                examples: vec![Example { value: None, translation: None }],
                related_words: vec![],
                definitions: vec![],
            },
        ],
    }
}

#[test]
fn roundtrip_preserves_every_field() {
    let d = full_dictionary();
    let s = serialize(&d);
    let d2 = deserialize(&s).expect("a serialized dictionary deserializes");
    assert_eq!(d, d2);
}

#[test]
fn roundtrip_helper_agrees() {
    let d = full_dictionary();
    let d2 = roundtrip(&d).expect("round trip succeeds");
    assert_eq!(d, d2);
}

#[test]
fn roundtrip_keeps_absent_and_empty_apart() {
    let mut d = full_dictionary();
    d.comment = Some(String::new());
    d.created = None;
    let d2 = roundtrip(&d).expect("round trip succeeds");
    assert_eq!(d2.comment, Some(String::new()));
    assert_eq!(d2.created, None);
}

#[test]
fn roundtrip_keeps_sequence_order() {
    let d = full_dictionary();
    let d2 = roundtrip(&d).expect("round trip succeeds");
    assert_eq!(d2.words[0].inflections[0].value, "hundar");
    assert_eq!(d2.words[0].inflections[1].value, "hunden");
    assert_eq!(d2.words[0].value, "hund");
    assert_eq!(d2.words[1].value, "katt");
}

#[test]
fn deserialize_rejects_corrupt_cache() {
    assert_eq!(deserialize("not a cache"), Err(ParseError::Cache));
    assert_eq!(deserialize(""), Err(ParseError::Cache));
    assert_eq!(deserialize("111:"), Err(ParseError::Cache));
    let d = full_dictionary();
    let mut s = serialize(&d);
    s.pop();
    assert_eq!(deserialize(&s), Err(ParseError::Cache));
}

#[test]
fn serialize_is_deterministic() {
    let d = full_dictionary();
    assert_eq!(serialize(&d), serialize(&d));
}
