//! The lexicon selector: a pure mapping from a translation direction to a
//! stable identifier, the remote document URL, and the two local cache file
//! names. Exactly two directions exist; no I/O happens here.
use vstd::prelude::*;

verus! {

/// One of the two supported translation directions.
#[derive(Debug, Clone, Copy, PartialEq, Eq, Structural)]
pub enum Lexicon {
    EnglishToSwedish,
    SwedishToEnglish,
}

/// Base URL the raw documents are fetched from.
pub open spec fn base_url_spec() -> Seq<char> {
    "https://folkets-lexikon.csc.kth.se/folkets/"@
}

impl Lexicon {
    /// The stable identifier that names this direction's cache artifacts.
    pub open spec fn name_id_spec(self) -> Seq<char> {
        match self {
            Lexicon::EnglishToSwedish => "folkets_en_sv_public"@,
            Lexicon::SwedishToEnglish => "folkets_sv_en_public"@,
        }
    }

    /// A short description of the direction, for messages.
    pub fn describe(&self) -> (r: &'static str)
        ensures
            *self is EnglishToSwedish ==> r@ == "English to Swedish"@,
            *self is SwedishToEnglish ==> r@ == "Swedish to English"@,
    {
        match self {
            Lexicon::EnglishToSwedish => "English to Swedish",
            Lexicon::SwedishToEnglish => "Swedish to English",
        }
    }

    pub fn name_id(&self) -> (r: &'static str)
        ensures
            r@ == self.name_id_spec(),
    {
        match self {
            Lexicon::EnglishToSwedish => "folkets_en_sv_public",
            Lexicon::SwedishToEnglish => "folkets_sv_en_public",
        }
    }

    /// File name of the raw document cache artifact.
    pub fn xml_file_name(&self) -> (r: String)
        ensures
            r@ == self.name_id_spec() + ".xml"@,
    {
        let mut s = String::from_str(self.name_id());
        s.append(".xml");
        s
    }

    /// File name of the decoded cache artifact.
    pub fn json_file_name(&self) -> (r: String)
        ensures
            r@ == self.name_id_spec() + ".json"@,
    {
        let mut s = String::from_str(self.name_id());
        s.append(".json");
        s
    }

    /// Path of the raw document inside the given cache directory.
    pub fn xml_file_path(&self, cache_dir: &str) -> (r: String)
        ensures
            r@ == cache_dir@ + "/"@ + self.name_id_spec() + ".xml"@,
    {
        let mut s = String::from_str(cache_dir);
        s.append("/");
        s.append(self.name_id());
        s.append(".xml");
        s
    }

    /// Path of the decoded cache inside the given cache directory.
    pub fn json_file_path(&self, cache_dir: &str) -> (r: String)
        ensures
            r@ == cache_dir@ + "/"@ + self.name_id_spec() + ".json"@,
    {
        let mut s = String::from_str(cache_dir);
        s.append("/");
        s.append(self.name_id());
        s.append(".json");
        s
    }

    /// URL the raw document for this direction is fetched from.
    pub fn file_url(&self) -> (r: String)
        ensures
            r@ == base_url_spec() + self.name_id_spec() + ".xml"@,
    {
        let mut s = String::from_str("https://folkets-lexikon.csc.kth.se/folkets/");
        s.append(self.name_id());
        s.append(".xml");
        s
    }
}

} // verus!
