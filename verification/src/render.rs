//! The entry renderer: the text that a lookup prints for a word — its
//! value, class and comment, the joined inflections, the translations with
//! their comments, the synonym values, and the examples paired with their
//! translation when present. The exec function returns exactly the text
//! the spec functions describe; printing it is the caller's affair.
use vstd::prelude::*;
use vstd::string::*;

use crate::lexicon::{ExampleView, InflectionView, SynonymView, TranslationView, Word, WordView};

verus! {

/// An optional labelled line: nothing when the field is absent.
pub open spec fn render_opt_line(label: Seq<char>, o: Option<Seq<char>>) -> Seq<char> {
    match o {
        Some(v) => label + v + "\n"@,
        None => Seq::empty(),
    }
}

/// The inflection values joined with a comma and a space.
pub open spec fn render_inflections(l: Seq<InflectionView>) -> Seq<char>
    decreases l.len(),
{
    if l.len() == 0 {
        Seq::empty()
    } else if l.len() == 1 {
        l[0].value
    } else {
        l[0].value + ", "@ + render_inflections(l.drop_first())
    }
}

/// One translation: its value line, then its comment line when the comment
/// is present and non-empty.
pub open spec fn render_translation(t: TranslationView) -> Seq<char> {
    "- "@ + (match t.value {
        Some(v) => v,
        None => Seq::empty(),
    }) + "\n"@ + (match t.comment {
        Some(c) => if c.len() > 0 {
            "Comment: "@ + c + "\n"@
        } else {
            Seq::empty()
        },
        None => Seq::empty(),
    })
}

pub open spec fn render_translation_items(l: Seq<TranslationView>) -> Seq<char>
    decreases l.len(),
{
    if l.len() == 0 {
        Seq::empty()
    } else {
        render_translation(l[0]) + render_translation_items(l.drop_first())
    }
}

pub open spec fn render_synonym_items(l: Seq<SynonymView>) -> Seq<char>
    decreases l.len(),
{
    if l.len() == 0 {
        Seq::empty()
    } else {
        "- "@ + l[0].value + "\n"@ + render_synonym_items(l.drop_first())
    }
}

/// One example: its original-language value, and its translation's value
/// in parentheses when a translation is present.
pub open spec fn render_example(e: ExampleView) -> Seq<char> {
    "- "@ + (match e.value {
        Some(v) => v,
        None => Seq::empty(),
    }) + (match e.translation {
        Some(t) => " ("@ + (match t.value {
            Some(v) => v,
            None => Seq::empty(),
        }) + ")"@,
        None => Seq::empty(),
    }) + "\n"@
}

pub open spec fn render_example_items(l: Seq<ExampleView>) -> Seq<char>
    decreases l.len(),
{
    if l.len() == 0 {
        Seq::empty()
    } else {
        render_example(l[0]) + render_example_items(l.drop_first())
    }
}

/// The whole rendered entry.
pub open spec fn render_word(w: WordView) -> Seq<char> {
    "Word: "@ + w.value + "\n"@ + render_opt_line("Class: "@, w.class) + render_opt_line(
        "Comment: "@,
        w.comment,
    ) + (if w.inflections.len() == 0 {
        Seq::<char>::empty()
    } else {
        "Inflections: "@ + render_inflections(w.inflections) + "\n"@
    }) + (if w.translations.len() == 0 {
        Seq::<char>::empty()
    } else {
        "Translations:\n"@ + render_translation_items(w.translations)
    }) + (if w.synonyms.len() == 0 {
        Seq::<char>::empty()
    } else {
        "Synonyms:\n"@ + render_synonym_items(w.synonyms)
    }) + (if w.examples.len() == 0 {
        Seq::<char>::empty()
    } else {
        "Examples:\n"@ + render_example_items(w.examples)
    })
}

proof fn lemma_render_inflections_push(l: Seq<InflectionView>, x: InflectionView)
    requires
        l.len() >= 1,
    ensures
        render_inflections(l.push(x)) == render_inflections(l) + ", "@ + x.value,
    decreases l.len(),
{
    if l.len() == 1 {
        assert(l.push(x).drop_first() =~= seq![x]);
        assert(render_inflections(seq![x]) == x.value);
        assert(l[0].value + ", "@ + x.value =~= l[0].value + ", "@ + x.value);
    } else {
        assert(l.push(x).drop_first() =~= l.drop_first().push(x));
        lemma_render_inflections_push(l.drop_first(), x);
        assert(l[0].value + ", "@ + (render_inflections(l.drop_first()) + ", "@ + x.value) =~= (l[0].value
            + ", "@ + render_inflections(l.drop_first())) + ", "@ + x.value);
    }
}

proof fn lemma_render_translation_items_push(l: Seq<TranslationView>, x: TranslationView)
    ensures
        render_translation_items(l.push(x)) == render_translation_items(l) + render_translation(x),
    decreases l.len(),
{
    if l.len() == 0 {
        assert(l.push(x) =~= seq![x]);
        assert((l.push(x)).drop_first() =~= Seq::<TranslationView>::empty());
        assert(render_translation_items(Seq::<TranslationView>::empty()) == Seq::<char>::empty());
        assert(render_translation_items(l) == Seq::<char>::empty());
        assert(render_translation(x) + Seq::<char>::empty() =~= render_translation(x));
        assert(Seq::<char>::empty() + render_translation(x) =~= render_translation(x));
    } else {
        assert(l.push(x).drop_first() =~= l.drop_first().push(x));
        lemma_render_translation_items_push(l.drop_first(), x);
        assert(render_translation(l[0]) + (render_translation_items(l.drop_first())
            + render_translation(x)) =~= (render_translation(l[0]) + render_translation_items(
            l.drop_first(),
        )) + render_translation(x));
    }
}

proof fn lemma_render_synonym_items_push(l: Seq<SynonymView>, x: SynonymView)
    ensures
        render_synonym_items(l.push(x)) == render_synonym_items(l) + ("- "@ + x.value + "\n"@),
    decreases l.len(),
{
    if l.len() == 0 {
        assert(l.push(x) =~= seq![x]);
        assert((l.push(x)).drop_first() =~= Seq::<SynonymView>::empty());
        assert(render_synonym_items(Seq::<SynonymView>::empty()) == Seq::<char>::empty());
        assert(render_synonym_items(l) == Seq::<char>::empty());
        assert(("- "@ + x.value + "\n"@) + Seq::<char>::empty() =~= ("- "@ + x.value + "\n"@));
        assert(Seq::<char>::empty() + ("- "@ + x.value + "\n"@) =~= ("- "@ + x.value + "\n"@));
    } else {
        assert(l.push(x).drop_first() =~= l.drop_first().push(x));
        lemma_render_synonym_items_push(l.drop_first(), x);
        assert(("- "@ + l[0].value + "\n"@) + (render_synonym_items(l.drop_first()) + ("- "@
            + x.value + "\n"@)) =~= (("- "@ + l[0].value + "\n"@) + render_synonym_items(
            l.drop_first(),
        )) + ("- "@ + x.value + "\n"@));
    }
}

proof fn lemma_render_example_items_push(l: Seq<ExampleView>, x: ExampleView)
    ensures
        render_example_items(l.push(x)) == render_example_items(l) + render_example(x),
    decreases l.len(),
{
    if l.len() == 0 {
        assert(l.push(x) =~= seq![x]);
        assert((l.push(x)).drop_first() =~= Seq::<ExampleView>::empty());
        assert(render_example_items(Seq::<ExampleView>::empty()) == Seq::<char>::empty());
        assert(render_example_items(l) == Seq::<char>::empty());
        assert(render_example(x) + Seq::<char>::empty() =~= render_example(x));
        assert(Seq::<char>::empty() + render_example(x) =~= render_example(x));
    } else {
        assert(l.push(x).drop_first() =~= l.drop_first().push(x));
        lemma_render_example_items_push(l.drop_first(), x);
        assert(render_example(l[0]) + (render_example_items(l.drop_first()) + render_example(x))
            =~= (render_example(l[0]) + render_example_items(l.drop_first())) + render_example(x));
    }
}

/// Renders a word entry as the exact text that `render_word` describes.
#[verifier::rlimit(100)]
#[verifier::spinoff_prover]
pub fn format_word_entry(w: &Word) -> (r: String)
    ensures
        r@ == render_word(w.deep_view()),
{
    let ghost wv = w.deep_view();
    let mut out = String::new();
    out.append("Word: ");
    out.append(w.value.as_str());
    out.append("\n");
    let ghost part1 = "Word: "@ + wv.value + "\n"@;
    proof {
        assert(out@ =~= part1);
    }
    match &w.class {
        Some(c) => {
            out.append("Class: ");
            out.append(c.as_str());
            out.append("\n");
        },
        None => {},
    }
    let ghost part2 = part1 + render_opt_line("Class: "@, wv.class);
    proof {
        assert(out@ =~= part2);
    }
    match &w.comment {
        Some(c) => {
            out.append("Comment: ");
            out.append(c.as_str());
            out.append("\n");
        },
        None => {},
    }
    let ghost part3 = part2 + render_opt_line("Comment: "@, wv.comment);
    proof {
        assert(out@ =~= part3);
    }
    let n = w.inflections.len();
    if n > 0 {
        out.append("Inflections: ");
        out.append(w.inflections[0].value.as_str());
        proof {
            assert(wv.inflections.take(1) =~= seq![wv.inflections[0]]);
            assert(render_inflections(wv.inflections.take(1)) == wv.inflections[0].value);
        }
        let mut i: usize = 1;
        while i < n
            invariant
                1 <= i <= n,
                n == w.inflections@.len(),
                wv == w.deep_view(),
                part3 == "Word: "@ + wv.value + "\n"@ + render_opt_line("Class: "@, wv.class)
                    + render_opt_line("Comment: "@, wv.comment),
                out@ == part3 + "Inflections: "@ + render_inflections(wv.inflections.take(i as int)),
            decreases n - i,
        {
            out.append(", ");
            out.append(w.inflections[i].value.as_str());
            proof {
                assert(wv.inflections.take(i as int).push(wv.inflections[i as int])
                    =~= wv.inflections.take(i as int + 1));
                lemma_render_inflections_push(
                    wv.inflections.take(i as int),
                    wv.inflections[i as int],
                );
                assert(((part3 + "Inflections: "@ + render_inflections(
                    wv.inflections.take(i as int),
                )) + ", "@) + wv.inflections[i as int].value =~= part3 + "Inflections: "@
                    + render_inflections(wv.inflections.take(i as int + 1)));
            }
            i += 1;
        }
        out.append("\n");
        proof {
            assert(wv.inflections.take(n as int) =~= wv.inflections);
        }
    }
    let ghost part4 = part3 + (if wv.inflections.len() == 0 {
        Seq::<char>::empty()
    } else {
        "Inflections: "@ + render_inflections(wv.inflections) + "\n"@
    });
    proof {
        assert(out@ =~= part4);
    }
    let tn = w.translations.len();
    if tn > 0 {
        out.append("Translations:\n");
        proof {
            assert(wv.translations.take(0) =~= Seq::<TranslationView>::empty());
            assert(out@ =~= part4 + "Translations:\n"@ + render_translation_items(
                wv.translations.take(0),
            ));
        }
        let mut i: usize = 0;
        while i < tn
            invariant
                i <= tn,
                tn == w.translations@.len(),
                wv == w.deep_view(),
                out@ == part4 + "Translations:\n"@ + render_translation_items(
                    wv.translations.take(i as int),
                ),
            decreases tn - i,
        {
            out.append("- ");
            match &w.translations[i].value {
                Some(v) => {
                    out.append(v.as_str());
                },
                None => {},
            }
            out.append("\n");
            match &w.translations[i].comment {
                Some(c) => {
                    if c.unicode_len() > 0 {
                        out.append("Comment: ");
                        out.append(c.as_str());
                        out.append("\n");
                    }
                },
                None => {},
            }
            proof {
                assert(wv.translations.take(i as int).push(wv.translations[i as int])
                    =~= wv.translations.take(i as int + 1));
                lemma_render_translation_items_push(
                    wv.translations.take(i as int),
                    wv.translations[i as int],
                );
                assert(out@ =~= part4 + "Translations:\n"@ + render_translation_items(
                    wv.translations.take(i as int + 1),
                ));
            }
            i += 1;
        }
        proof {
            assert(wv.translations.take(tn as int) =~= wv.translations);
        }
    }
    let ghost part5 = part4 + (if wv.translations.len() == 0 {
        Seq::<char>::empty()
    } else {
        "Translations:\n"@ + render_translation_items(wv.translations)
    });
    proof {
        assert(out@ =~= part5);
    }
    let sn = w.synonyms.len();
    if sn > 0 {
        out.append("Synonyms:\n");
        proof {
            assert(wv.synonyms.take(0) =~= Seq::<SynonymView>::empty());
            assert(out@ =~= part5 + "Synonyms:\n"@ + render_synonym_items(wv.synonyms.take(0)));
        }
        let mut i: usize = 0;
        while i < sn
            invariant
                i <= sn,
                sn == w.synonyms@.len(),
                wv == w.deep_view(),
                out@ == part5 + "Synonyms:\n"@ + render_synonym_items(wv.synonyms.take(i as int)),
            decreases sn - i,
        {
            out.append("- ");
            out.append(w.synonyms[i].value.as_str());
            out.append("\n");
            proof {
                assert(wv.synonyms.take(i as int).push(wv.synonyms[i as int]) =~= wv.synonyms.take(
                    i as int + 1,
                ));
                lemma_render_synonym_items_push(
                    wv.synonyms.take(i as int),
                    wv.synonyms[i as int],
                );
                assert(out@ =~= part5 + "Synonyms:\n"@ + render_synonym_items(
                    wv.synonyms.take(i as int + 1),
                ));
            }
            i += 1;
        }
        proof {
            assert(wv.synonyms.take(sn as int) =~= wv.synonyms);
        }
    }
    let ghost part6 = part5 + (if wv.synonyms.len() == 0 {
        Seq::<char>::empty()
    } else {
        "Synonyms:\n"@ + render_synonym_items(wv.synonyms)
    });
    proof {
        assert(out@ =~= part6);
    }
    let en = w.examples.len();
    if en > 0 {
        out.append("Examples:\n");
        proof {
            assert(wv.examples.take(0) =~= Seq::<ExampleView>::empty());
            assert(out@ =~= part6 + "Examples:\n"@ + render_example_items(wv.examples.take(0)));
        }
        let mut i: usize = 0;
        while i < en
            invariant
                i <= en,
                en == w.examples@.len(),
                wv == w.deep_view(),
                out@ == part6 + "Examples:\n"@ + render_example_items(wv.examples.take(i as int)),
            decreases en - i,
        {
            out.append("- ");
            match &w.examples[i].value {
                Some(v) => {
                    out.append(v.as_str());
                },
                None => {},
            }
            match &w.examples[i].translation {
                Some(t) => {
                    out.append(" (");
                    match &t.value {
                        Some(v) => {
                            out.append(v.as_str());
                        },
                        None => {},
                    }
                    out.append(")");
                },
                None => {},
            }
            out.append("\n");
            proof {
                assert(wv.examples.take(i as int).push(wv.examples[i as int]) =~= wv.examples.take(
                    i as int + 1,
                ));
                lemma_render_example_items_push(wv.examples.take(i as int), wv.examples[i as int]);
                assert(out@ =~= part6 + "Examples:\n"@ + render_example_items(
                    wv.examples.take(i as int + 1),
                ));
            }
            i += 1;
        }
        proof {
            assert(wv.examples.take(en as int) =~= wv.examples);
        }
    }
    proof {
        assert(out@ =~= render_word(wv));
    }
    out
}

} // verus!
