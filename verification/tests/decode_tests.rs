use sven::cache::{deserialize, serialize};
use sven::error::ParseError;
use sven::xml::decode;

const SAMPLE: &str = "<?xml version=\"1.0\" encoding=\"UTF-8\"?>\n\
<!-- a comment with a word element inside: <word value=\"x\"/> -->\n\
<dictionary comment=\"folkets\" created=\"2010-01-01\" name=\"Folkets lexikon\" \
source-language=\"sv\" target-language=\"en\" version=\"1.0\" licenseComment=\"CC\" \
originURL=\"http://folkets-lexikon.csc.kth.se/folkets/\">\n\
  <word class=\"nn\" comment=\"best friend\" lang=\"sv\" value=\"hund\">\n\
    <translation comment=\"the animal\" value=\"dog\"/>\n\
    <phonetic soundFile=\"hund.swf\" value=\"h&amp;nd\"/>\n\
    <synonym level=\"3.2\" value=\"jycke\"/>\n\
    <inflection value=\"hundar\"/>\n\
    <inflection value=\"hunden\"/>\n\
    <see type=\"saldo\" value=\"hund..1\"/>\n\
    <example value=\"hunden sk&auml;ller\">\n\
      <translation value=\"the dog barks\"/>\n\
    </example>\n\
    <related type=\"animal\" value=\"katt\"/>\n\
    <definition value=\"ett husdjur\">\n\
      <translation value=\"a pet\"/>\n\
    </definition>\n\
    <mystery>ignored text</mystery>\n\
  </word>\n\
  <word value=\"katt\"/>\n\
</dictionary>\n";

#[test]
fn decode_reads_metadata_and_words_in_order() {
    let d = decode(SAMPLE).expect("sample document decodes");
    assert_eq!(d.comment, Some("folkets".to_string()));
    assert_eq!(d.created, Some("2010-01-01".to_string()));
    assert_eq!(d.last_changed, None);
    assert_eq!(d.name, Some("Folkets lexikon".to_string()));
    assert_eq!(d.source_language, Some("sv".to_string()));
    assert_eq!(d.target_language, Some("en".to_string()));
    assert_eq!(d.version, Some("1.0".to_string()));
    assert_eq!(d.license, None);
    assert_eq!(d.license_comment, Some("CC".to_string()));
    assert_eq!(d.words.len(), 2);
    assert_eq!(d.words[0].value, "hund");
    assert_eq!(d.words[1].value, "katt");
}

#[test]
fn decode_reads_nested_children() {
    let d = decode(SAMPLE).expect("sample document decodes");
    let w = &d.words[0];
    assert_eq!(w.class, Some("nn".to_string()));
    assert_eq!(w.comment, Some("best friend".to_string()));
    assert_eq!(w.lang, Some("sv".to_string()));
    assert_eq!(w.translations.len(), 1);
    assert_eq!(w.translations[0].comment, Some("the animal".to_string()));
    assert_eq!(w.translations[0].value, Some("dog".to_string()));
    assert_eq!(w.phonetics.len(), 1);
    assert_eq!(w.phonetics[0].sound_file, Some("hund.swf".to_string()));
    assert_eq!(w.phonetics[0].value, Some("h&nd".to_string()));
    assert_eq!(w.synonyms.len(), 1);
    assert_eq!(w.synonyms[0].value, "jycke");
    assert_eq!(w.inflections.len(), 2);
    assert_eq!(w.inflections[0].value, "hundar");
    assert_eq!(w.inflections[1].value, "hunden");
    assert_eq!(w.sees.len(), 1);
    assert_eq!(w.sees[0].see_type, Some("saldo".to_string()));
    assert_eq!(w.examples.len(), 1);
    assert_eq!(w.examples[0].value, Some("hunden sk&auml;ller".to_string()));
    assert_eq!(
        w.examples[0].translation.as_ref().and_then(|t| t.value.clone()),
        Some("the dog barks".to_string())
    );
    assert_eq!(w.related_words.len(), 1);
    assert_eq!(w.related_words[0].word_type, "animal");
    assert_eq!(w.related_words[0].value, "katt");
    assert_eq!(w.definitions.len(), 1);
    assert_eq!(w.definitions[0].value, Some("ett husdjur".to_string()));
}

#[test]
fn decode_decodes_standard_entities() {
    let s = "<dictionary><word value=\"a&lt;b&gt;c&amp;d&quot;e&apos;f\"/></dictionary>";
    let d = decode(s).expect("document decodes");
    assert_eq!(d.words[0].value, "a<b>c&d\"e'f");
}

#[test]
fn decode_rejects_missing_required_value() {
    let s = "<dictionary><word class=\"nn\"/></dictionary>";
    assert_eq!(decode(s), Err(ParseError::Document));
}

#[test]
fn decode_rejects_empty_required_value() {
    let s = "<dictionary><word value=\"\"/></dictionary>";
    assert_eq!(decode(s), Err(ParseError::Document));
    let s2 = "<dictionary><word value=\"ok\"><synonym value=\"\"/></word></dictionary>";
    assert_eq!(decode(s2), Err(ParseError::Document));
    let s3 = "<dictionary><word value=\"ok\"><inflection/></word></dictionary>";
    assert_eq!(decode(s3), Err(ParseError::Document));
    let s4 = "<dictionary><word value=\"ok\"><related value=\"x\"/></word></dictionary>";
    assert_eq!(decode(s4), Err(ParseError::Document));
}

#[test]
fn decode_ignores_unknown_elements_and_attributes() {
    let s = "<dictionary future=\"yes\"><index/><word value=\"ok\" novel=\"attr\">\
             <unknown><deep/></unknown></word></dictionary>";
    let d = decode(s).expect("document decodes");
    assert_eq!(d.words.len(), 1);
    assert_eq!(d.words[0].value, "ok");
}

#[test]
fn decode_rejects_truncated_document() {
    let s = "<dictionary><word value=\"hund\">";
    assert_eq!(decode(s), Err(ParseError::Document));
}

#[test]
fn decode_then_cache_round_trip_is_lossless() {
    let d = decode(SAMPLE).expect("sample document decodes");
    let d2 = deserialize(&serialize(&d)).expect("cache round trip succeeds");
    assert_eq!(d, d2);
}

#[test]
fn decode_keeps_numeric_character_references_literal() {
    // Only the five named entities are decoded; a numeric character
    // reference is deliberately kept as literal text.
    let s = "<dictionary><word value=\"sk&#229;l\"/></dictionary>";
    let d = decode(s).expect("document decodes");
    assert_eq!(d.words[0].value, "sk&#229;l");
}
