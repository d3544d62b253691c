use sven::common::Lexicon;
use sven::error::ParseError;

#[test]
fn name_ids_are_stable() {
    assert_eq!(Lexicon::EnglishToSwedish.name_id(), "folkets_en_sv_public");
    assert_eq!(Lexicon::SwedishToEnglish.name_id(), "folkets_sv_en_public");
}

#[test]
fn file_names_carry_the_identifier() {
    assert_eq!(Lexicon::EnglishToSwedish.xml_file_name(), "folkets_en_sv_public.xml");
    assert_eq!(Lexicon::EnglishToSwedish.json_file_name(), "folkets_en_sv_public.json");
    assert_eq!(Lexicon::SwedishToEnglish.xml_file_name(), "folkets_sv_en_public.xml");
    assert_eq!(Lexicon::SwedishToEnglish.json_file_name(), "folkets_sv_en_public.json");
}

#[test]
fn cache_paths_join_the_directory() {
    assert_eq!(
        Lexicon::SwedishToEnglish.xml_file_path("/tmp/lexicons"),
        "/tmp/lexicons/folkets_sv_en_public.xml"
    );
    assert_eq!(
        Lexicon::EnglishToSwedish.json_file_path("cache"),
        "cache/folkets_en_sv_public.json"
    );
}

#[test]
fn remote_urls_point_at_the_fixed_base() {
    assert_eq!(
        Lexicon::EnglishToSwedish.file_url(),
        "https://folkets-lexikon.csc.kth.se/folkets/folkets_en_sv_public.xml"
    );
    assert_eq!(
        Lexicon::SwedishToEnglish.file_url(),
        "https://folkets-lexikon.csc.kth.se/folkets/folkets_sv_en_public.xml"
    );
}

#[test]
fn directions_describe_themselves() {
    assert_eq!(Lexicon::EnglishToSwedish.describe(), "English to Swedish");
    assert_eq!(Lexicon::SwedishToEnglish.describe(), "Swedish to English");
}

#[test]
fn parse_errors_describe_themselves() {
    assert_eq!(ParseError::Document.describe(), "malformed dictionary document");
    assert_eq!(ParseError::Cache.describe(), "corrupt decoded cache");
}
