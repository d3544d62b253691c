//! The entity model: a `Dictionary` of `Word` entries with their nested
//! attributes, together with the mathematical views the contracts speak of
//! and the well-formedness invariants (required fields are non-empty,
//! absent optional attributes are `None`, never an empty string).
use vstd::prelude::*;

verus! {

/// The root entity for one translation direction: optional metadata and the
/// ordered sequence of word entries (order is document order, significant
/// for deterministic tie-breaking on lookup).
#[derive(Debug, Clone, PartialEq, Eq)]
pub struct Dictionary {
    pub comment: Option<String>,
    pub created: Option<String>,
    pub last_changed: Option<String>,
    pub name: Option<String>,
    pub source_language: Option<String>,
    pub target_language: Option<String>,
    pub version: Option<String>,
    pub license: Option<String>,
    pub license_comment: Option<String>,
    pub origin_url: Option<String>,
    pub words: Vec<Word>,
}

/// One lexical entry: the canonical written form `value` plus optional
/// grammatical metadata and ordered sequences of nested attributes.
#[derive(Debug, Clone, PartialEq, Eq)]
pub struct Word {
    pub class: Option<String>,
    pub comment: Option<String>,
    pub lang: Option<String>,
    pub value: String,
    pub translations: Vec<Translation>,
    pub synonyms: Vec<Synonym>,
    pub phonetics: Vec<Phonetic>,
    pub inflections: Vec<Inflection>,
    pub sees: Vec<See>,
    pub examples: Vec<Example>,
    pub related_words: Vec<RelatedWord>,
    pub definitions: Vec<Definition>,
}

#[derive(Debug, Clone, PartialEq, Eq)]
pub struct Translation {
    pub comment: Option<String>,
    pub value: Option<String>,
}

#[derive(Debug, Clone, PartialEq, Eq)]
pub struct Synonym {
    pub level: Option<String>,
    pub value: String,
}

#[derive(Debug, Clone, PartialEq, Eq)]
pub struct Phonetic {
    pub sound_file: Option<String>,
    pub value: Option<String>,
}

/// An alternate surface form that resolves to its `Word` on exact lookup.
#[derive(Debug, Clone, PartialEq, Eq)]
pub struct Inflection {
    pub value: String,
}

/// A cross-reference to another entry.
#[derive(Debug, Clone, PartialEq, Eq)]
pub struct See {
    pub see_type: Option<String>,
    pub value: Option<String>,
}

#[derive(Debug, Clone, PartialEq, Eq)]
pub struct Example {
    pub value: Option<String>,
    pub translation: Option<Translation>,
}

#[derive(Debug, Clone, PartialEq, Eq)]
pub struct RelatedWord {
    pub word_type: String,
    pub value: String,
}

#[derive(Debug, Clone, PartialEq, Eq)]
pub struct Definition {
    pub value: Option<String>,
    pub translation: Option<Translation>,
}

// The views: field-for-field mathematical models of the entities, over
// `Seq<char>`. `deep_view` maps an entity to its view; two entities are
// equal in the sense of every contract of this crate exactly when their
// deep views are equal.

#[verifier::ext_equal]
pub ghost struct DictionaryView {
    pub comment: Option<Seq<char>>,
    pub created: Option<Seq<char>>,
    pub last_changed: Option<Seq<char>>,
    pub name: Option<Seq<char>>,
    pub source_language: Option<Seq<char>>,
    pub target_language: Option<Seq<char>>,
    pub version: Option<Seq<char>>,
    pub license: Option<Seq<char>>,
    pub license_comment: Option<Seq<char>>,
    pub origin_url: Option<Seq<char>>,
    pub words: Seq<WordView>,
}

#[verifier::ext_equal]
pub ghost struct WordView {
    pub class: Option<Seq<char>>,
    pub comment: Option<Seq<char>>,
    pub lang: Option<Seq<char>>,
    pub value: Seq<char>,
    pub translations: Seq<TranslationView>,
    pub synonyms: Seq<SynonymView>,
    pub phonetics: Seq<PhoneticView>,
    pub inflections: Seq<InflectionView>,
    pub sees: Seq<SeeView>,
    pub examples: Seq<ExampleView>,
    pub related_words: Seq<RelatedWordView>,
    pub definitions: Seq<DefinitionView>,
}

#[verifier::ext_equal]
pub ghost struct TranslationView {
    pub comment: Option<Seq<char>>,
    pub value: Option<Seq<char>>,
}

#[verifier::ext_equal]
pub ghost struct SynonymView {
    pub level: Option<Seq<char>>,
    pub value: Seq<char>,
}

#[verifier::ext_equal]
pub ghost struct PhoneticView {
    pub sound_file: Option<Seq<char>>,
    pub value: Option<Seq<char>>,
}

#[verifier::ext_equal]
pub ghost struct InflectionView {
    pub value: Seq<char>,
}

#[verifier::ext_equal]
pub ghost struct SeeView {
    pub see_type: Option<Seq<char>>,
    pub value: Option<Seq<char>>,
}

#[verifier::ext_equal]
pub ghost struct ExampleView {
    pub value: Option<Seq<char>>,
    pub translation: Option<TranslationView>,
}

#[verifier::ext_equal]
pub ghost struct RelatedWordView {
    pub word_type: Seq<char>,
    pub value: Seq<char>,
}

#[verifier::ext_equal]
pub ghost struct DefinitionView {
    pub value: Option<Seq<char>>,
    pub translation: Option<TranslationView>,
}

impl DeepView for Translation {
    type V = TranslationView;

    open spec fn deep_view(&self) -> TranslationView {
        TranslationView { comment: self.comment.deep_view(), value: self.value.deep_view() }
    }
}

impl DeepView for Synonym {
    type V = SynonymView;

    open spec fn deep_view(&self) -> SynonymView {
        SynonymView { level: self.level.deep_view(), value: self.value.deep_view() }
    }
}

impl DeepView for Phonetic {
    type V = PhoneticView;

    open spec fn deep_view(&self) -> PhoneticView {
        PhoneticView { sound_file: self.sound_file.deep_view(), value: self.value.deep_view() }
    }
}

impl DeepView for Inflection {
    type V = InflectionView;

    open spec fn deep_view(&self) -> InflectionView {
        InflectionView { value: self.value.deep_view() }
    }
}

impl DeepView for See {
    type V = SeeView;

    open spec fn deep_view(&self) -> SeeView {
        SeeView { see_type: self.see_type.deep_view(), value: self.value.deep_view() }
    }
}

impl DeepView for Example {
    type V = ExampleView;

    open spec fn deep_view(&self) -> ExampleView {
        ExampleView { value: self.value.deep_view(), translation: self.translation.deep_view() }
    }
}

impl DeepView for RelatedWord {
    type V = RelatedWordView;

    open spec fn deep_view(&self) -> RelatedWordView {
        RelatedWordView { word_type: self.word_type.deep_view(), value: self.value.deep_view() }
    }
}

impl DeepView for Definition {
    type V = DefinitionView;

    open spec fn deep_view(&self) -> DefinitionView {
        DefinitionView { value: self.value.deep_view(), translation: self.translation.deep_view() }
    }
}

impl DeepView for Word {
    type V = WordView;

    open spec fn deep_view(&self) -> WordView {
        WordView {
            class: self.class.deep_view(),
            comment: self.comment.deep_view(),
            lang: self.lang.deep_view(),
            value: self.value.deep_view(),
            translations: self.translations.deep_view(),
            synonyms: self.synonyms.deep_view(),
            phonetics: self.phonetics.deep_view(),
            inflections: self.inflections.deep_view(),
            sees: self.sees.deep_view(),
            examples: self.examples.deep_view(),
            related_words: self.related_words.deep_view(),
            definitions: self.definitions.deep_view(),
        }
    }
}

impl DeepView for Dictionary {
    type V = DictionaryView;

    open spec fn deep_view(&self) -> DictionaryView {
        DictionaryView {
            comment: self.comment.deep_view(),
            created: self.created.deep_view(),
            last_changed: self.last_changed.deep_view(),
            name: self.name.deep_view(),
            source_language: self.source_language.deep_view(),
            target_language: self.target_language.deep_view(),
            version: self.version.deep_view(),
            license: self.license.deep_view(),
            license_comment: self.license_comment.deep_view(),
            origin_url: self.origin_url.deep_view(),
            words: self.words.deep_view(),
        }
    }
}

/// Required fields of a word and of its nested attributes are non-empty.
pub open spec fn word_wf(w: WordView) -> bool {
    &&& w.value.len() > 0
    &&& forall|i: int| 0 <= i < w.synonyms.len() ==> (#[trigger] w.synonyms[i]).value.len() > 0
    &&& forall|i: int|
        0 <= i < w.inflections.len() ==> (#[trigger] w.inflections[i]).value.len() > 0
    &&& forall|i: int|
        0 <= i < w.related_words.len() ==> (#[trigger] w.related_words[i]).word_type.len() > 0
            && w.related_words[i].value.len() > 0
}

/// Every word of the dictionary is well-formed.
pub open spec fn dictionary_wf(d: DictionaryView) -> bool {
    forall|i: int| 0 <= i < d.words.len() ==> word_wf(#[trigger] d.words[i])
}

} // verus!
