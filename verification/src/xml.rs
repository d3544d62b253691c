//! The document decoder: parses the remote XML document into the entity
//! tree. The root element carries the dictionary metadata as attributes and
//! holds repeated word elements; each word carries its own attributes and
//! nested repeated child elements. Required fields that are missing or
//! empty are a hard parse failure; absent optional attributes become "not
//! present"; unrecognized elements and attributes are ignored; document
//! order is preserved in every sequence.
//!
//! Those rules are not prose alone: `spec_tokens` defines which tokens the
//! text lexes to, `spec_build` defines which dictionary the tokens build,
//! and `decode` is verified to return exactly their composition,
//! `spec_decode`, succeeding exactly where it does.
use vstd::prelude::*;
use vstd::string::*;

use crate::error::ParseError;
use crate::lexicon::{
    Definition, DefinitionView, Dictionary, DictionaryView, Example, ExampleView, Inflection,
    InflectionView, Phonetic, PhoneticView, RelatedWord, RelatedWordView, See, SeeView, Synonym,
    SynonymView, Translation, TranslationView, Word, WordView,
};
use crate::lexicon::{dictionary_wf, word_wf};
use crate::query::str_eq;

verus! {

broadcast use vstd::string::group_string_axioms;

/// One markup token: an opening tag with its attributes, a closing tag, or
/// the end of the input. Text content, comments, processing instructions
/// and document type declarations are skipped.
pub enum Tag {
    Open { name: String, attrs: Vec<(String, String)>, self_closing: bool },
    Close,
    Eof,
}

/// The mathematical view of a token.
pub ghost enum TagView {
    Open { name: Seq<char>, attrs: Seq<(Seq<char>, Seq<char>)>, self_closing: bool },
    Close,
    Eof,
}

impl DeepView for Tag {
    type V = TagView;

    open spec fn deep_view(&self) -> TagView {
        match self {
            Tag::Open { name, attrs, self_closing } => TagView::Open {
                name: name.deep_view(),
                attrs: attrs.deep_view(),
                self_closing: *self_closing,
            },
            Tag::Close => TagView::Close,
            Tag::Eof => TagView::Eof,
        }
    }
}

pub open spec fn is_ws_char(c: char) -> bool {
    c == ' ' || c == '\t' || c == '\n' || c == '\r'
}

pub open spec fn is_name_end_char(c: char) -> bool {
    c == ' ' || c == '\t' || c == '\n' || c == '\r' || c == '/' || c == '>' || c == '='
}

fn is_ws(c: char) -> (r: bool)
    ensures
        r == is_ws_char(c),
{
    c == ' ' || c == '\t' || c == '\n' || c == '\r'
}

fn is_name_end(c: char) -> (r: bool)
    ensures
        r == is_name_end_char(c),
{
    c == ' ' || c == '\t' || c == '\n' || c == '\r' || c == '/' || c == '>' || c == '='
}

// ---------------------------------------------------------------------------
// The meaning of the input text as a token sequence. These spec functions
// define, character by character, which tokens a given document lexes to:
// where each tag starts and ends, which attributes it carries, how quoted
// values and the five named character entities are decoded, and that text
// content, comments, processing instructions and declarations are skipped.
// `tokenize` below is verified to return exactly this token sequence, and
// `decode` composes it with `spec_build`.
// ---------------------------------------------------------------------------

/// The first position at or after `i` holding `'<'`, or the end.
pub open spec fn scan_to_lt(s: Seq<char>, i: int) -> int
    decreases s.len() - i,
{
    if i < 0 || i >= s.len() {
        s.len() as int
    } else if s[i] == '<' {
        i
    } else {
        scan_to_lt(s, i + 1)
    }
}

/// The first position at or after `i` holding `'>'`, or the end.
pub open spec fn scan_to_gt(s: Seq<char>, i: int) -> int
    decreases s.len() - i,
{
    if i < 0 || i >= s.len() {
        s.len() as int
    } else if s[i] == '>' {
        i
    } else {
        scan_to_gt(s, i + 1)
    }
}

/// The first position at or after `i` that closes a comment (`-->`), or
/// the end.
pub open spec fn scan_comment_end(s: Seq<char>, i: int) -> int
    decreases s.len() - i,
{
    if i < 0 || i >= s.len() {
        s.len() as int
    } else if i >= 2 && s[i] == '>' && s[i - 1] == '-' && s[i - 2] == '-' {
        i
    } else {
        scan_comment_end(s, i + 1)
    }
}

/// The first position at or after `i` that is not whitespace, or the end.
pub open spec fn scan_ws(s: Seq<char>, i: int) -> int
    decreases s.len() - i,
{
    if i < 0 || i >= s.len() {
        s.len() as int
    } else if !is_ws_char(s[i]) {
        i
    } else {
        scan_ws(s, i + 1)
    }
}

/// The first position at or after `i` that ends a name, or the end.
pub open spec fn scan_name(s: Seq<char>, i: int) -> int
    decreases s.len() - i,
{
    if i < 0 || i >= s.len() {
        s.len() as int
    } else if is_name_end_char(s[i]) {
        i
    } else {
        scan_name(s, i + 1)
    }
}

/// A named character entity starting at `i`: how many characters it spans
/// and what it stands for. Only the five named entities are decoded; an
/// ampersand that opens no known entity — numeric character references
/// included — is deliberately kept as literal text.
pub open spec fn spec_entity_at(s: Seq<char>, i: int) -> Option<(int, Seq<char>)> {
    if 0 <= i < s.len() && s[i] == '&' {
        if s.len() - i >= 5 && s[i + 1] == 'a' && s[i + 2] == 'm' && s[i + 3] == 'p' && s[i + 4]
            == ';' {
            Some((5, "&"@))
        } else if s.len() - i >= 4 && s[i + 1] == 'l' && s[i + 2] == 't' && s[i + 3] == ';' {
            Some((4, "<"@))
        } else if s.len() - i >= 4 && s[i + 1] == 'g' && s[i + 2] == 't' && s[i + 3] == ';' {
            Some((4, ">"@))
        } else if s.len() - i >= 6 && s[i + 1] == 'q' && s[i + 2] == 'u' && s[i + 3] == 'o' && s[i
            + 4] == 't' && s[i + 5] == ';' {
            Some((6, "\""@))
        } else if s.len() - i >= 6 && s[i + 1] == 'a' && s[i + 2] == 'p' && s[i + 3] == 'o' && s[i
            + 4] == 's' && s[i + 5] == ';' {
            Some((6, "'"@))
        } else {
            None
        }
    } else {
        None
    }
}

/// A quoted value read from `i` up to the closing `quote`, entities
/// decoded; nothing if the input ends first.
pub open spec fn value_scan(s: Seq<char>, i: int, quote: char) -> Option<(Seq<char>, int)>
    decreases s.len() - i,
{
    if i < 0 || i >= s.len() {
        None
    } else if s[i] == quote {
        Some((Seq::empty(), i + 1))
    } else {
        match spec_entity_at(s, i) {
            Some(kr) => if kr.0 >= 1 && i + kr.0 <= s.len() {
                match value_scan(s, i + kr.0, quote) {
                    Some(ve) => Some((kr.1 + ve.0, ve.1)),
                    None => None,
                }
            } else {
                None
            },
            None => match value_scan(s, i + 1, quote) {
                Some(ve) => Some((seq![s[i]] + ve.0, ve.1)),
                None => None,
            },
        }
    }
}

/// A whole attribute value: an opening quote at `i`, the content, the
/// closing quote.
pub open spec fn spec_attr_value(s: Seq<char>, i: int) -> Option<(Seq<char>, int)> {
    if 0 <= i < s.len() && (s[i] == '"' || s[i] == '\'') {
        value_scan(s, i + 1, s[i])
    } else {
        None
    }
}

/// The attributes of an opening tag from `i` to the tag's end: the pairs
/// in source order, whether the tag closes itself, and the position past
/// `'>'`.
pub open spec fn attr_scan(s: Seq<char>, i: int) -> Option<
    (Seq<(Seq<char>, Seq<char>)>, bool, int),
>
    decreases s.len() - i,
{
    let w = scan_ws(s, i);
    if w < i || w >= s.len() {
        None
    } else if s[w] == '>' {
        Some((Seq::empty(), false, w + 1))
    } else if s[w] == '/' {
        if w + 1 < s.len() && s[w + 1] == '>' {
            Some((Seq::empty(), true, w + 2))
        } else {
            None
        }
    } else {
        let e = scan_name(s, w);
        if e >= s.len() || e <= w {
            None
        } else if s[e] != '=' {
            None
        } else {
            match spec_attr_value(s, e + 1) {
                Some(vp) => if i < vp.1 <= s.len() {
                    match attr_scan(s, vp.1) {
                        Some(rest) => Some(
                            (seq![(s.subrange(w, e), vp.0)] + rest.0, rest.1, rest.2),
                        ),
                        None => None,
                    }
                } else {
                    None
                },
                None => None,
            }
        }
    }
}

/// The next token at or after `pos`: text is skipped to the next `'<'`;
/// comments, processing instructions and declarations are skipped whole;
/// an opening tag carries its name and attributes; nothing on malformed
/// markup.
pub open spec fn spec_next_tag(s: Seq<char>, pos: int) -> Option<(TagView, int)>
    decreases s.len() - pos,
{
    let t = scan_to_lt(s, pos);
    if t >= s.len() {
        Some((TagView::Eof, s.len() as int))
    } else if t < pos {
        None
    } else {
        let ci = t + 1;
        if ci >= s.len() {
            None
        } else {
            let c = s[ci];
            if c == '/' {
                let g = scan_to_gt(s, ci);
                if g >= s.len() {
                    None
                } else {
                    Some((TagView::Close, g + 1))
                }
            } else if c == '?' || c == '!' {
                let e = if c == '!' && s.len() - ci > 2 && s[ci + 1] == '-' && s[ci + 2] == '-' {
                    scan_comment_end(s, ci + 3)
                } else {
                    scan_to_gt(s, ci)
                };
                if e >= s.len() {
                    None
                } else if pos < e + 1 <= s.len() {
                    spec_next_tag(s, e + 1)
                } else {
                    None
                }
            } else {
                let ne = scan_name(s, ci);
                if ne <= ci {
                    None
                } else {
                    match attr_scan(s, ne) {
                        Some(ar) => Some(
                            (
                                TagView::Open {
                                    name: s.subrange(ci, ne),
                                    attrs: ar.0,
                                    self_closing: ar.1,
                                },
                                ar.2,
                            ),
                        ),
                        None => None,
                    }
                }
            }
        }
    }
}

/// The token sequence of the input from `pos` on, ending at the end of
/// input; nothing on malformed markup.
pub open spec fn tokens_from(s: Seq<char>, pos: int) -> Option<Seq<TagView>>
    decreases s.len() - pos,
{
    match spec_next_tag(s, pos) {
        Some(tp) => if tp.0 is Eof {
            Some(Seq::empty())
        } else if pos < tp.1 <= s.len() {
            match tokens_from(s, tp.1) {
                Some(rest) => Some(seq![tp.0] + rest),
                None => None,
            }
        } else {
            None
        },
        None => None,
    }
}

/// The token sequence of the whole input.
pub open spec fn spec_tokens(s: Seq<char>) -> Option<Seq<TagView>> {
    tokens_from(s, 0)
}

/// A named character entity starting at `pos`. Only the five named
/// entities are decoded; numeric character references are deliberately
/// kept as literal text, like any other unrecognized ampersand.
fn entity_at(s: &str, pos: usize) -> (r: Option<(usize, &'static str)>)
    requires
        pos <= s@.len(),
        s@.len() <= usize::MAX,
    ensures
        r matches Some(t) ==> 1 <= t.0 && pos + t.0 <= s@.len() && spec_entity_at(s@, pos as int)
            == Some((t.0 as int, t.1@)),
        r is None ==> spec_entity_at(s@, pos as int) is None,
{
    let len = s.unicode_len();
    if pos < len && s.get_char(pos) == '&' {
        if len - pos >= 5 && s.get_char(pos + 1) == 'a' && s.get_char(pos + 2) == 'm' && s.get_char(
            pos + 3,
        ) == 'p' && s.get_char(pos + 4) == ';' {
            return Some((5, "&"));
        }
        if len - pos >= 4 && s.get_char(pos + 1) == 'l' && s.get_char(pos + 2) == 't' && s.get_char(
            pos + 3,
        ) == ';' {
            return Some((4, "<"));
        }
        if len - pos >= 4 && s.get_char(pos + 1) == 'g' && s.get_char(pos + 2) == 't' && s.get_char(
            pos + 3,
        ) == ';' {
            return Some((4, ">"));
        }
        if len - pos >= 6 && s.get_char(pos + 1) == 'q' && s.get_char(pos + 2) == 'u' && s.get_char(
            pos + 3,
        ) == 'o' && s.get_char(pos + 4) == 't' && s.get_char(pos + 5) == ';' {
            return Some((6, "\""));
        }
        if len - pos >= 6 && s.get_char(pos + 1) == 'a' && s.get_char(pos + 2) == 'p' && s.get_char(
            pos + 3,
        ) == 'o' && s.get_char(pos + 4) == 's' && s.get_char(pos + 5) == ';' {
            return Some((6, "'"));
        }
    }
    None
}

/// `r` with `prefix` put before its value, when it holds one.
pub open spec fn prepend_scan(prefix: Seq<char>, r: Option<(Seq<char>, int)>) -> Option<
    (Seq<char>, int),
> {
    match r {
        Some(ve) => Some((prefix + ve.0, ve.1)),
        None => None,
    }
}

proof fn lemma_prepend_id(r: Option<(Seq<char>, int)>)
    ensures
        prepend_scan(Seq::empty(), r) == r,
{
    if r is Some {
        let ve = r->0;
        assert(Seq::empty() + ve.0 =~= ve.0);
    }
}

proof fn lemma_prepend_assoc(a: Seq<char>, b: Seq<char>, r: Option<(Seq<char>, int)>)
    ensures
        prepend_scan(a, prepend_scan(b, r)) == prepend_scan(a + b, r),
{
    if r is Some {
        let ve = r->0;
        assert(a + (b + ve.0) =~= (a + b) + ve.0);
    }
}

/// Read one quoted attribute value starting at `pos` (the opening quote),
/// decoding character entities. Returns exactly the value and end position
/// that `spec_attr_value` assigns.
fn read_attr_value(s: &str, pos: usize) -> (r: Result<(String, usize), ParseError>)
    requires
        pos < s@.len(),
        s@.len() <= usize::MAX,
    ensures
        r matches Ok(t) ==> pos < t.1 <= s@.len() && spec_attr_value(s@, pos as int) == Some(
            (t.0@, t.1 as int),
        ),
        r is Err ==> spec_attr_value(s@, pos as int) is None,
{
    let len = s.unicode_len();
    let quote = s.get_char(pos);
    if quote != '"' && quote != '\'' {
        return Err(ParseError::Document);
    }
    let mut cur = pos + 1;
    let mut seg = cur;
    let mut val = String::new();
    proof {
        assert(val@ + s@.subrange(seg as int, cur as int) =~= Seq::<char>::empty());
        lemma_prepend_id(value_scan(s@, cur as int, quote));
    }
    while cur < len && s.get_char(cur) != quote
        invariant
            pos < seg <= cur <= len,
            len == s@.len(),
            quote == s@[pos as int],
            quote == '"' || quote == '\'',
            value_scan(s@, pos + 1, quote) == prepend_scan(
                val@ + s@.subrange(seg as int, cur as int),
                value_scan(s@, cur as int, quote),
            ),
        decreases len - cur,
    {
        let ghost val0 = val@;
        let ghost seg0 = seg as int;
        let ghost cur0 = cur as int;
        let ghost p0 = val0 + s@.subrange(seg0, cur0);
        match entity_at(s, cur) {
            Some((k, rep)) => {
                val.append(s.substring_char(seg, cur));
                val.append(rep);
                cur += k;
                seg = cur;
                proof {
                    assert(value_scan(s@, cur0, quote) == prepend_scan(
                        rep@,
                        value_scan(s@, cur as int, quote),
                    ));
                    lemma_prepend_assoc(p0, rep@, value_scan(s@, cur as int, quote));
                    assert(val@ + s@.subrange(seg as int, cur as int) =~= p0 + rep@);
                }
            },
            None => {
                cur += 1;
                proof {
                    assert(value_scan(s@, cur0, quote) == prepend_scan(
                        seq![s@[cur0]],
                        value_scan(s@, cur as int, quote),
                    ));
                    lemma_prepend_assoc(p0, seq![s@[cur0]], value_scan(s@, cur as int, quote));
                    assert(val@ + s@.subrange(seg as int, cur as int) =~= p0 + seq![s@[cur0]]);
                }
            },
        }
    }
    if cur >= len {
        return Err(ParseError::Document);
    }
    proof {
        assert(value_scan(s@, cur as int, quote) == Some((Seq::<char>::empty(), cur as int + 1)));
    }
    let ghost pfin = val@ + s@.subrange(seg as int, cur as int);
    val.append(s.substring_char(seg, cur));
    proof {
        assert(val@ =~= pfin);
        assert(pfin + Seq::<char>::empty() =~= pfin);
        assert(value_scan(s@, pos + 1, quote) == Some((val@, cur as int + 1)));
    }
    Ok((val, cur + 1))
}

/// `r` with `prefix` put before its attribute list, when it holds one.
pub open spec fn prepend_attrs(
    prefix: Seq<(Seq<char>, Seq<char>)>,
    r: Option<(Seq<(Seq<char>, Seq<char>)>, bool, int)>,
) -> Option<(Seq<(Seq<char>, Seq<char>)>, bool, int)> {
    match r {
        Some(ar) => Some((prefix + ar.0, ar.1, ar.2)),
        None => None,
    }
}

proof fn lemma_prepend_attrs_id(r: Option<(Seq<(Seq<char>, Seq<char>)>, bool, int)>)
    ensures
        prepend_attrs(Seq::empty(), r) == r,
{
    if r is Some {
        let ar = r->0;
        assert(Seq::empty() + ar.0 =~= ar.0);
    }
}

proof fn lemma_prepend_attrs_assoc(
    a: Seq<(Seq<char>, Seq<char>)>,
    b: Seq<(Seq<char>, Seq<char>)>,
    r: Option<(Seq<(Seq<char>, Seq<char>)>, bool, int)>,
)
    ensures
        prepend_attrs(a, prepend_attrs(b, r)) == prepend_attrs(a + b, r),
{
    if r is Some {
        let ar = r->0;
        assert(a + (b + ar.0) =~= (a + b) + ar.0);
    }
}

/// Read the next markup token at or after `pos`, skipping text content,
/// comments, processing instructions and declarations. Returns exactly the
/// token and end position that `spec_next_tag` assigns.
#[verifier::rlimit(100)]
#[verifier::spinoff_prover]
fn next_tag(s: &str, pos: usize) -> (r: Result<(Tag, usize), ParseError>)
    requires
        pos <= s@.len(),
        s@.len() <= usize::MAX,
    ensures
        r matches Ok(t) ==> t.1 <= s@.len() && (t.0 is Eof || pos + 2 <= t.1) && spec_next_tag(
            s@,
            pos as int,
        ) == Some((t.0.deep_view(), t.1 as int)),
        r is Err ==> spec_next_tag(s@, pos as int) is None,
{
    let len = s.unicode_len();
    let mut cur = pos;
    loop
        invariant
            pos <= cur <= len,
            len == s@.len(),
            spec_next_tag(s@, pos as int) == spec_next_tag(s@, cur as int),
        decreases len - cur,
    {
        let ghost cur0 = cur as int;
        while cur < len && s.get_char(cur) != '<'
            invariant
                pos <= cur <= len,
                cur0 <= cur,
                len == s@.len(),
                scan_to_lt(s@, cur0) == scan_to_lt(s@, cur as int),
            decreases len - cur,
        {
            cur += 1;
        }
        proof {
            assert(scan_to_lt(s@, cur0) == cur as int);
        }
        if cur >= len {
            return Ok((Tag::Eof, len));
        }
        let ghost t0 = cur as int;
        cur += 1;
        if cur >= len {
            return Err(ParseError::Document);
        }
        let c = s.get_char(cur);
        if c == '/' {
            let ghost g0 = cur as int;
            while cur < len && s.get_char(cur) != '>'
                invariant
                    pos < cur <= len,
                    g0 <= cur,
                    len == s@.len(),
                    scan_to_gt(s@, g0) == scan_to_gt(s@, cur as int),
                decreases len - cur,
            {
                cur += 1;
            }
            proof {
                assert(scan_to_gt(s@, g0) == cur as int);
            }
            if cur >= len {
                return Err(ParseError::Document);
            }
            return Ok((Tag::Close, cur + 1));
        }
        if c == '?' || c == '!' {
            let ghost ci = cur as int;
            if c == '!' && len - cur > 2 && s.get_char(cur + 1) == '-' && s.get_char(cur + 2)
                == '-' {
                cur += 3;
                while cur < len && !(s.get_char(cur) == '>' && s.get_char(cur - 1) == '-'
                    && s.get_char(cur - 2) == '-')
                    invariant
                        2 < cur <= len,
                        pos <= cur,
                        ci + 3 <= cur,
                        len == s@.len(),
                        scan_comment_end(s@, ci + 3) == scan_comment_end(s@, cur as int),
                    decreases len - cur,
                {
                    cur += 1;
                }
                proof {
                    assert(scan_comment_end(s@, ci + 3) == cur as int);
                }
            } else {
                let ghost gs = cur as int;
                while cur < len && s.get_char(cur) != '>'
                    invariant
                        pos <= cur <= len,
                        gs <= cur,
                        len == s@.len(),
                        scan_to_gt(s@, gs) == scan_to_gt(s@, cur as int),
                    decreases len - cur,
                {
                    cur += 1;
                }
                proof {
                    assert(scan_to_gt(s@, gs) == cur as int);
                }
            }
            if cur >= len {
                return Err(ParseError::Document);
            }
            cur += 1;
            proof {
                assert(spec_next_tag(s@, cur0) == spec_next_tag(s@, cur as int));
            }
        } else {
            let start = cur;
            while cur < len && !is_name_end(s.get_char(cur))
                invariant
                    pos < start <= cur <= len,
                    len == s@.len(),
                    scan_name(s@, start as int) == scan_name(s@, cur as int),
                decreases len - cur,
            {
                cur += 1;
            }
            proof {
                assert(scan_name(s@, start as int) == cur as int);
            }
            if cur == start {
                return Err(ParseError::Document);
            }
            let name = String::from_str(s.substring_char(start, cur));
            let ghost nm = s@.subrange(start as int, cur as int);
            let ghost ne0 = cur as int;
            let mut attrs: Vec<(String, String)> = Vec::new();
            proof {
                assert(spec_next_tag(s@, cur0) == (match attr_scan(s@, ne0) {
                    Some(ar) => Some(
                        ((TagView::Open { name: nm, attrs: ar.0, self_closing: ar.1 }), ar.2),
                    ),
                    None => None::<(TagView, int)>,
                }));
                assert(attrs.deep_view() =~= Seq::<(Seq<char>, Seq<char>)>::empty());
                lemma_prepend_attrs_id(attr_scan(s@, cur as int));
            }
            loop
                invariant
                    pos + 2 <= cur <= len,
                    len == s@.len(),
                    nm == name@,
                    spec_next_tag(s@, pos as int) == (match attr_scan(s@, ne0) {
                        Some(ar) => Some(
                            ((TagView::Open { name: nm, attrs: ar.0, self_closing: ar.1 }), ar.2),
                        ),
                        None => None::<(TagView, int)>,
                    }),
                    attr_scan(s@, ne0) == prepend_attrs(
                        attrs.deep_view(),
                        attr_scan(s@, cur as int),
                    ),
                decreases len - cur,
            {
                let ghost acur0 = cur as int;
                let ghost attrs0 = attrs.deep_view();
                while cur < len && is_ws(s.get_char(cur))
                    invariant
                        pos + 2 <= cur <= len,
                        acur0 <= cur,
                        len == s@.len(),
                        scan_ws(s@, acur0) == scan_ws(s@, cur as int),
                    decreases len - cur,
                {
                    cur += 1;
                }
                proof {
                    assert(scan_ws(s@, acur0) == cur as int);
                }
                if cur >= len {
                    return Err(ParseError::Document);
                }
                let c2 = s.get_char(cur);
                if c2 == '>' {
                    proof {
                        assert(attr_scan(s@, acur0) == Some(
                            (Seq::<(Seq<char>, Seq<char>)>::empty(), false, cur + 1),
                        ));
                        assert(attrs.deep_view() + Seq::<(Seq<char>, Seq<char>)>::empty()
                            =~= attrs.deep_view());
                    }
                    return Ok((Tag::Open { name, attrs, self_closing: false }, cur + 1));
                }
                if c2 == '/' {
                    if cur + 1 < len && s.get_char(cur + 1) == '>' {
                        proof {
                            assert(attr_scan(s@, acur0) == Some(
                                (Seq::<(Seq<char>, Seq<char>)>::empty(), true, cur + 2),
                            ));
                            assert(attrs.deep_view() + Seq::<(Seq<char>, Seq<char>)>::empty()
                                =~= attrs.deep_view());
                        }
                        return Ok((Tag::Open { name, attrs, self_closing: true }, cur + 2));
                    }
                    return Err(ParseError::Document);
                }
                let astart = cur;
                while cur < len && !is_name_end(s.get_char(cur))
                    invariant
                        pos + 2 <= astart <= cur <= len,
                        len == s@.len(),
                        scan_name(s@, astart as int) == scan_name(s@, cur as int),
                    decreases len - cur,
                {
                    cur += 1;
                }
                proof {
                    assert(scan_name(s@, astart as int) == cur as int);
                }
                if cur >= len || cur == astart {
                    return Err(ParseError::Document);
                }
                if s.get_char(cur) != '=' {
                    return Err(ParseError::Document);
                }
                let aname = String::from_str(s.substring_char(astart, cur));
                cur += 1;
                if cur >= len {
                    return Err(ParseError::Document);
                }
                let (aval, p) = match read_attr_value(s, cur) {
                    Ok(t) => t,
                    Err(e) => {
                        return Err(ParseError::Document);
                    },
                };
                let ghost pair = (aname@, aval@);
                attrs.push((aname, aval));
                proof {
                    assert(attr_scan(s@, acur0) == prepend_attrs(
                        seq![pair],
                        attr_scan(s@, p as int),
                    ));
                    lemma_prepend_attrs_assoc(attrs0, seq![pair], attr_scan(s@, p as int));
                    assert(attrs.deep_view() =~= attrs0 + seq![pair]);
                }
                cur = p;
            }
        }
    }
}

// ---------------------------------------------------------------------------
// The meaning of a token sequence. These spec functions define, token by
// token, which dictionary a given sequence decodes to: which attribute a
// field comes from (first occurrence; absent means `None`, an empty value
// stays an empty string), that a missing or empty required field makes the
// whole decode fail, that every sequence keeps the order of the child
// elements, and that unrecognized elements and attributes change nothing.
// `build_dictionary` below is verified to return exactly this meaning.
// ---------------------------------------------------------------------------

/// The value of the first attribute with the given name, if present.
pub open spec fn attr_of(attrs: Seq<(Seq<char>, Seq<char>)>, name: Seq<char>) -> Option<Seq<char>>
    decreases attrs.len(),
{
    if attrs.len() == 0 {
        None
    } else if attrs[0].0 == name {
        Some(attrs[0].1)
    } else {
        attr_of(attrs.drop_first(), name)
    }
}

/// A required attribute: present and non-empty, else nothing.
pub open spec fn required_of(attrs: Seq<(Seq<char>, Seq<char>)>, name: Seq<char>) -> Option<
    Seq<char>,
> {
    match attr_of(attrs, name) {
        Some(v) => if v.len() > 0 {
            Some(v)
        } else {
            None
        },
        None => None,
    }
}

/// The index just past the end of the element whose opening tag was read,
/// entering `depth` elements deep; nothing if the input ends first.
pub open spec fn skip_spec(tags: Seq<TagView>, i: int, depth: int) -> Option<int>
    decreases tags.len() - i,
{
    if depth <= 0 {
        Some(i)
    } else if i < 0 || i >= tags.len() {
        None
    } else {
        match tags[i] {
            TagView::Open { name, attrs, self_closing } => skip_spec(
                tags,
                i + 1,
                if self_closing {
                    depth
                } else {
                    depth + 1
                },
            ),
            TagView::Close => skip_spec(tags, i + 1, depth - 1),
            TagView::Eof => None,
        }
    }
}

/// A word as its attributes alone describe it, with every child sequence
/// still empty.
pub open spec fn base_word(attrs: Seq<(Seq<char>, Seq<char>)>) -> WordView {
    WordView {
        class: attr_of(attrs, "class"@),
        comment: attr_of(attrs, "comment"@),
        lang: attr_of(attrs, "lang"@),
        value: match attr_of(attrs, "value"@) {
            Some(v) => v,
            None => Seq::empty(),
        },
        translations: Seq::empty(),
        synonyms: Seq::empty(),
        phonetics: Seq::empty(),
        inflections: Seq::empty(),
        sees: Seq::empty(),
        examples: Seq::empty(),
        related_words: Seq::empty(),
        definitions: Seq::empty(),
    }
}

/// Scan the children of an example or definition element for its optional
/// nested translation: the first translation child wins, everything else is
/// skipped, and the element's closing tag ends the scan.
pub open spec fn nested_translation_spec(
    tags: Seq<TagView>,
    i: int,
    acc: Option<TranslationView>,
) -> Option<(Option<TranslationView>, int)>
    decreases tags.len() - i,
{
    if i < 0 || i >= tags.len() {
        None
    } else {
        match tags[i] {
            TagView::Close => Some((acc, i + 1)),
            TagView::Eof => None,
            TagView::Open { name, attrs, self_closing } => {
                let acc2 = if acc is None && name == "translation"@ {
                    Some(
                        TranslationView {
                            comment: attr_of(attrs, "comment"@),
                            value: attr_of(attrs, "value"@),
                        },
                    )
                } else {
                    acc
                };
                if self_closing {
                    nested_translation_spec(tags, i + 1, acc2)
                } else {
                    match skip_spec(tags, i + 1, 1) {
                        Some(j) => if i + 1 <= j <= tags.len() {
                            nested_translation_spec(tags, j, acc2)
                        } else {
                            None
                        },
                        None => None,
                    }
                }
            },
        }
    }
}

/// Fold the children of a word element into the word, in document order.
/// A recognized child appends to its sequence (a missing or empty required
/// value fails the decode); an unrecognized child is skipped whole.
pub open spec fn word_children_spec(tags: Seq<TagView>, i: int, acc: WordView) -> Option<
    (WordView, int),
>
    decreases tags.len() - i,
{
    if i < 0 || i >= tags.len() {
        None
    } else {
        match tags[i] {
            TagView::Close => Some((acc, i + 1)),
            TagView::Eof => None,
            TagView::Open { name, attrs, self_closing } => {
                if name == "example"@ || name == "definition"@ {
                    let value = attr_of(attrs, "value"@);
                    if self_closing {
                        let acc2 = if name == "example"@ {
                            WordView {
                                examples: acc.examples.push(
                                    ExampleView { value, translation: None },
                                ),
                                ..acc
                            }
                        } else {
                            WordView {
                                definitions: acc.definitions.push(
                                    DefinitionView { value, translation: None },
                                ),
                                ..acc
                            }
                        };
                        word_children_spec(tags, i + 1, acc2)
                    } else {
                        match nested_translation_spec(tags, i + 1, None) {
                            Some(tj) => {
                                let acc2 = if name == "example"@ {
                                    WordView {
                                        examples: acc.examples.push(
                                            ExampleView { value, translation: tj.0 },
                                        ),
                                        ..acc
                                    }
                                } else {
                                    WordView {
                                        definitions: acc.definitions.push(
                                            DefinitionView { value, translation: tj.0 },
                                        ),
                                        ..acc
                                    }
                                };
                                if i + 1 <= tj.1 <= tags.len() {
                                    word_children_spec(tags, tj.1, acc2)
                                } else {
                                    None
                                }
                            },
                            None => None,
                        }
                    }
                } else {
                    let step = if name == "translation"@ {
                        Some(
                            WordView {
                                translations: acc.translations.push(
                                    TranslationView {
                                        comment: attr_of(attrs, "comment"@),
                                        value: attr_of(attrs, "value"@),
                                    },
                                ),
                                ..acc
                            },
                        )
                    } else if name == "synonym"@ {
                        match required_of(attrs, "value"@) {
                            Some(v) => Some(
                                WordView {
                                    synonyms: acc.synonyms.push(
                                        SynonymView { level: attr_of(attrs, "level"@), value: v },
                                    ),
                                    ..acc
                                },
                            ),
                            None => None,
                        }
                    } else if name == "phonetic"@ {
                        Some(
                            WordView {
                                phonetics: acc.phonetics.push(
                                    PhoneticView {
                                        sound_file: attr_of(attrs, "soundFile"@),
                                        value: attr_of(attrs, "value"@),
                                    },
                                ),
                                ..acc
                            },
                        )
                    } else if name == "inflection"@ {
                        match required_of(attrs, "value"@) {
                            Some(v) => Some(
                                WordView {
                                    inflections: acc.inflections.push(InflectionView { value: v }),
                                    ..acc
                                },
                            ),
                            None => None,
                        }
                    } else if name == "see"@ {
                        Some(
                            WordView {
                                sees: acc.sees.push(
                                    SeeView {
                                        see_type: attr_of(attrs, "type"@),
                                        value: attr_of(attrs, "value"@),
                                    },
                                ),
                                ..acc
                            },
                        )
                    } else if name == "related"@ {
                        match (required_of(attrs, "type"@), required_of(attrs, "value"@)) {
                            (Some(t), Some(v)) => Some(
                                WordView {
                                    related_words: acc.related_words.push(
                                        RelatedWordView { word_type: t, value: v },
                                    ),
                                    ..acc
                                },
                            ),
                            _ => None,
                        }
                    } else {
                        Some(acc)
                    };
                    match step {
                        None => None,
                        Some(acc2) => if self_closing {
                            word_children_spec(tags, i + 1, acc2)
                        } else {
                            match skip_spec(tags, i + 1, 1) {
                                Some(j) => if i + 1 <= j <= tags.len() {
                                    word_children_spec(tags, j, acc2)
                                } else {
                                    None
                                },
                                None => None,
                            }
                        },
                    }
                }
            },
        }
    }
}

/// A word element: its required non-empty value, its attributes, then its
/// children from `i` on (none when the tag closes itself).
pub open spec fn read_word_spec(
    tags: Seq<TagView>,
    i: int,
    attrs: Seq<(Seq<char>, Seq<char>)>,
    self_closing: bool,
) -> Option<(WordView, int)> {
    match required_of(attrs, "value"@) {
        None => None,
        Some(v) => if self_closing {
            Some((base_word(attrs), i))
        } else {
            word_children_spec(tags, i, base_word(attrs))
        },
    }
}

/// Fold the children of the dictionary element: word elements append to the
/// sequence in document order, unrecognized elements are skipped whole.
pub open spec fn dict_children_spec(tags: Seq<TagView>, i: int, acc: Seq<WordView>) -> Option<
    (Seq<WordView>, int),
>
    decreases tags.len() - i,
{
    if i < 0 || i >= tags.len() {
        None
    } else {
        match tags[i] {
            TagView::Close => Some((acc, i + 1)),
            TagView::Eof => None,
            TagView::Open { name, attrs, self_closing } => {
                if name == "word"@ {
                    match read_word_spec(tags, i + 1, attrs, self_closing) {
                        Some(wj) => if i + 1 <= wj.1 <= tags.len() {
                            dict_children_spec(tags, wj.1, acc.push(wj.0))
                        } else {
                            None
                        },
                        None => None,
                    }
                } else {
                    if self_closing {
                        dict_children_spec(tags, i + 1, acc)
                    } else {
                        match skip_spec(tags, i + 1, 1) {
                            Some(j) => if i + 1 <= j <= tags.len() {
                                dict_children_spec(tags, j, acc)
                            } else {
                                None
                            },
                            None => None,
                        }
                    }
                }
            },
        }
    }
}

/// The dictionary a token sequence decodes to, if any: the first token
/// must open a `dictionary` element, whose attributes give the metadata
/// and whose children give the words.
pub open spec fn spec_build(tags: Seq<TagView>) -> Option<DictionaryView> {
    if tags.len() == 0 {
        None
    } else {
        match tags[0] {
            TagView::Open { name, attrs, self_closing } => {
                if name == "dictionary"@ {
                    let meta = DictionaryView {
                        comment: attr_of(attrs, "comment"@),
                        created: attr_of(attrs, "created"@),
                        last_changed: attr_of(attrs, "last-changed"@),
                        name: attr_of(attrs, "name"@),
                        source_language: attr_of(attrs, "source-language"@),
                        target_language: attr_of(attrs, "target-language"@),
                        version: attr_of(attrs, "version"@),
                        license: attr_of(attrs, "license"@),
                        license_comment: attr_of(attrs, "licenseComment"@),
                        origin_url: attr_of(attrs, "originURL"@),
                        words: Seq::empty(),
                    };
                    if self_closing {
                        Some(meta)
                    } else {
                        match dict_children_spec(tags, 1, Seq::empty()) {
                            Some(wj) => Some(DictionaryView { words: wj.0, ..meta }),
                            None => None,
                        }
                    }
                } else {
                    None
                }
            },
            TagView::Close => None,
            TagView::Eof => None,
        }
    }
}

/// `r` with `prefix` put before its token list, when it holds one.
pub open spec fn prepend_tokens(prefix: Seq<TagView>, r: Option<Seq<TagView>>) -> Option<
    Seq<TagView>,
> {
    match r {
        Some(rest) => Some(prefix + rest),
        None => None,
    }
}

proof fn lemma_prepend_tokens_id(r: Option<Seq<TagView>>)
    ensures
        prepend_tokens(Seq::empty(), r) == r,
{
    if r is Some {
        assert(Seq::empty() + r->0 =~= r->0);
    }
}

proof fn lemma_prepend_tokens_assoc(a: Seq<TagView>, b: Seq<TagView>, r: Option<Seq<TagView>>)
    ensures
        prepend_tokens(a, prepend_tokens(b, r)) == prepend_tokens(a + b, r),
{
    if r is Some {
        assert(a + (b + r->0) =~= (a + b) + r->0);
    }
}

/// Read the whole input into its token sequence: exactly the sequence that
/// `spec_tokens` assigns to the text. Each token spans at least two
/// characters of the input, so the sequence is at most half as long.
pub fn tokenize(s: &str) -> (r: Result<Vec<Tag>, ParseError>)
    ensures
        r matches Ok(v) ==> 2 * v@.len() <= s@.len() && s@.len() <= usize::MAX && spec_tokens(s@)
            == Some(v.deep_view()),
        r is Err ==> spec_tokens(s@) is None,
{
    let len = s.unicode_len();
    let mut pos: usize = 0;
    let mut out: Vec<Tag> = Vec::new();
    proof {
        assert(out.deep_view() =~= Seq::<TagView>::empty());
        lemma_prepend_tokens_id(tokens_from(s@, 0));
    }
    loop
        invariant
            pos <= len,
            len == s@.len(),
            2 * out@.len() <= pos,
            tokens_from(s@, 0) == prepend_tokens(out.deep_view(), tokens_from(s@, pos as int)),
        decreases len - pos,
    {
        match next_tag(s, pos) {
            Err(e) => {
                return Err(ParseError::Document);
            },
            Ok((tag, p2)) => {
                match tag {
                    Tag::Eof => {
                        proof {
                            assert(tokens_from(s@, pos as int) == Some(Seq::<TagView>::empty()));
                            assert(out.deep_view() + Seq::<TagView>::empty() =~= out.deep_view());
                        }
                        return Ok(out);
                    },
                    other => {
                        let ghost out0 = out.deep_view();
                        let ghost tv = other.deep_view();
                        proof {
                            assert(tokens_from(s@, pos as int) == prepend_tokens(
                                seq![tv],
                                tokens_from(s@, p2 as int),
                            ));
                            lemma_prepend_tokens_assoc(
                                out0,
                                seq![tv],
                                tokens_from(s@, p2 as int),
                            );
                        }
                        out.push(other);
                        proof {
                            assert(out.deep_view() =~= out0 + seq![tv]);
                        }
                        pos = p2;
                    },
                }
            },
        }
    }
}

/// The dictionary the whole input decodes to: its token sequence built
/// into a dictionary, nothing when either step fails.
pub open spec fn spec_decode(s: Seq<char>) -> Option<DictionaryView> {
    match spec_tokens(s) {
        Some(tv) => spec_build(tv),
        None => None,
    }
}

/// The value of the first attribute with the given name, if present.
fn find_attr(attrs: &Vec<(String, String)>, name: &str) -> (r: Option<String>)
    ensures
        r.deep_view() == attr_of(attrs.deep_view(), name@),
{
    let ghost av = attrs.deep_view();
    proof {
        assert(av.skip(0) =~= av);
    }
    let n = attrs.len();
    let mut i: usize = 0;
    while i < n
        invariant
            i <= n,
            n == attrs@.len(),
            av == attrs.deep_view(),
            attr_of(av, name@) == attr_of(av.skip(i as int), name@),
        decreases n - i,
    {
        proof {
            assert(av.skip(i as int)[0] == av[i as int]);
            assert(av.skip(i as int).drop_first() =~= av.skip(i as int + 1));
        }
        if str_eq(attrs[i].0.as_str(), name) {
            return Some(attrs[i].1.clone());
        }
        i += 1;
    }
    proof {
        assert(av.skip(n as int) =~= Seq::<(Seq<char>, Seq<char>)>::empty());
    }
    None
}

/// An attribute that the schema requires: present and non-empty, or the
/// document is malformed.
fn required_attr(attrs: &Vec<(String, String)>, name: &str) -> (r: Result<String, ParseError>)
    ensures
        r matches Ok(v) ==> required_of(attrs.deep_view(), name@) == Some(v@) && v@.len() > 0,
        r is Err ==> required_of(attrs.deep_view(), name@) is None,
{
    match find_attr(attrs, name) {
        Some(v) => {
            if v.unicode_len() > 0 {
                Ok(v)
            } else {
                Err(ParseError::Document)
            }
        },
        None => Err(ParseError::Document),
    }
}

/// Skip over the rest of an element whose opening tag was just read,
/// including any nested elements.
fn skip_tokens(tags: &Vec<Tag>, pos: usize) -> (r: Result<usize, ParseError>)
    requires
        pos <= tags@.len(),
        tags@.len() < usize::MAX,
    ensures
        r matches Ok(p) ==> pos <= p <= tags@.len() && skip_spec(tags.deep_view(), pos as int, 1)
            == Some(p as int),
        r is Err ==> skip_spec(tags.deep_view(), pos as int, 1) is None,
{
    let ghost tv = tags.deep_view();
    let len = tags.len();
    let mut depth: usize = 1;
    let mut cur = pos;
    while depth > 0
        invariant
            pos <= cur <= len,
            len == tags@.len(),
            len < usize::MAX,
            tv == tags.deep_view(),
            depth <= cur - pos + 1,
            skip_spec(tv, pos as int, 1) == skip_spec(tv, cur as int, depth as int),
        decreases len - cur,
    {
        if cur >= len {
            return Err(ParseError::Document);
        }
        match &tags[cur] {
            Tag::Open { name: _n, attrs: _a, self_closing } => {
                if !*self_closing {
                    depth += 1;
                }
            },
            Tag::Close => {
                depth -= 1;
            },
            Tag::Eof => {
                return Err(ParseError::Document);
            },
        }
        cur += 1;
    }
    Ok(cur)
}

/// Scan the children of an example or definition element for its optional
/// nested translation, up to the element's closing tag.
fn read_nested_translation(tags: &Vec<Tag>, pos: usize) -> (r: Result<
    (Option<Translation>, usize),
    ParseError,
>)
    requires
        pos <= tags@.len(),
        tags@.len() < usize::MAX,
    ensures
        r matches Ok(t) ==> pos <= t.1 <= tags@.len() && nested_translation_spec(
            tags.deep_view(),
            pos as int,
            None,
        ) == Some((t.0.deep_view(), t.1 as int)),
        r is Err ==> nested_translation_spec(tags.deep_view(), pos as int, None) is None,
{
    let ghost tv = tags.deep_view();
    let len = tags.len();
    let mut cur = pos;
    let mut tr: Option<Translation> = None;
    loop
        invariant
            pos <= cur <= len,
            len == tags@.len(),
            len < usize::MAX,
            tv == tags.deep_view(),
            nested_translation_spec(tv, pos as int, None) == nested_translation_spec(
                tv,
                cur as int,
                tr.deep_view(),
            ),
        decreases len - cur,
    {
        if cur >= len {
            return Err(ParseError::Document);
        }
        match &tags[cur] {
            Tag::Close => {
                return Ok((tr, cur + 1));
            },
            Tag::Eof => {
                return Err(ParseError::Document);
            },
            Tag::Open { name, attrs, self_closing } => {
                if tr.is_none() && str_eq(name.as_str(), "translation") {
                    tr = Some(
                        Translation {
                            comment: find_attr(attrs, "comment"),
                            value: find_attr(attrs, "value"),
                        },
                    );
                }
                if *self_closing {
                    cur += 1;
                } else {
                    match skip_tokens(tags, cur + 1) {
                        Ok(p) => {
                            cur = p;
                        },
                        Err(e) => {
                            return Err(ParseError::Document);
                        },
                    }
                }
            },
        }
    }
}


/// The recognized child element names are pairwise distinct.
proof fn lemma_element_names_distinct()
    ensures
        "translation"@ != "synonym"@,
        "translation"@ != "phonetic"@,
        "translation"@ != "inflection"@,
        "translation"@ != "see"@,
        "translation"@ != "example"@,
        "translation"@ != "related"@,
        "translation"@ != "definition"@,
        "synonym"@ != "phonetic"@,
        "synonym"@ != "inflection"@,
        "synonym"@ != "see"@,
        "synonym"@ != "example"@,
        "synonym"@ != "related"@,
        "synonym"@ != "definition"@,
        "phonetic"@ != "inflection"@,
        "phonetic"@ != "see"@,
        "phonetic"@ != "example"@,
        "phonetic"@ != "related"@,
        "phonetic"@ != "definition"@,
        "inflection"@ != "see"@,
        "inflection"@ != "example"@,
        "inflection"@ != "related"@,
        "inflection"@ != "definition"@,
        "see"@ != "example"@,
        "see"@ != "related"@,
        "see"@ != "definition"@,
        "example"@ != "related"@,
        "example"@ != "definition"@,
        "related"@ != "definition"@,
{
    reveal_strlit("translation");
    reveal_strlit("synonym");
    reveal_strlit("phonetic");
    reveal_strlit("inflection");
    reveal_strlit("see");
    reveal_strlit("example");
    reveal_strlit("related");
    reveal_strlit("definition");
    assert("translation"@.len() == 11);
    assert("synonym"@.len() == 7);
    assert("phonetic"@.len() == 8);
    assert("inflection"@.len() == 10);
    assert("see"@.len() == 3);
    assert("example"@.len() == 7);
    assert("related"@.len() == 7);
    assert("definition"@.len() == 10);
    assert("synonym"@[0] == 's');
    assert("example"@[0] == 'e');
    assert("related"@[0] == 'r');
    assert("inflection"@[0] == 'i');
    assert("definition"@[0] == 'd');
}

/// Read the children of a word element and build the word. `pos` stands
/// just past the word's opening tag; `attrs` are the tag's attributes.
/// The result is exactly what `read_word_spec` assigns to these tokens.
#[verifier::rlimit(100)]
#[verifier::spinoff_prover]
fn read_word(tags: &Vec<Tag>, pos: usize, attrs: &Vec<(String, String)>, self_closing: bool) -> (r:
    Result<(Word, usize), ParseError>)
    requires
        pos <= tags@.len(),
        tags@.len() < usize::MAX,
    ensures
        r matches Ok(t) ==> word_wf(t.0.deep_view()) && pos <= t.1 <= tags@.len()
            && read_word_spec(tags.deep_view(), pos as int, attrs.deep_view(), self_closing)
            == Some((t.0.deep_view(), t.1 as int)),
        r is Err ==> read_word_spec(
            tags.deep_view(),
            pos as int,
            attrs.deep_view(),
            self_closing,
        ) is None,
{
    let ghost tv = tags.deep_view();
    let ghost av = attrs.deep_view();
    let len = tags.len();
    let value = match required_attr(attrs, "value") {
        Ok(v) => v,
        Err(e) => {
            return Err(ParseError::Document);
        },
    };
    proof {
        assert(attr_of(av, "value"@) == Some(value@));
    }
    let class = find_attr(attrs, "class");
    let comment = find_attr(attrs, "comment");
    let lang = find_attr(attrs, "lang");
    let mut translations: Vec<Translation> = Vec::new();
    let mut synonyms: Vec<Synonym> = Vec::new();
    let mut phonetics: Vec<Phonetic> = Vec::new();
    let mut inflections: Vec<Inflection> = Vec::new();
    let mut sees: Vec<See> = Vec::new();
    let mut examples: Vec<Example> = Vec::new();
    let mut related_words: Vec<RelatedWord> = Vec::new();
    let mut definitions: Vec<Definition> = Vec::new();
    let ghost bw = base_word(av);
    if self_closing {
        let w = Word {
            class,
            comment,
            lang,
            value,
            translations,
            synonyms,
            phonetics,
            inflections,
            sees,
            examples,
            related_words,
            definitions,
        };
        proof {
            assert(w.deep_view() =~= bw);
        }
        return Ok((w, pos));
    }
    let mut cur = pos;
    proof {
        assert(required_of(av, "value"@) == Some(value@));
        assert((WordView {
            translations: translations.deep_view(),
            synonyms: synonyms.deep_view(),
            phonetics: phonetics.deep_view(),
            inflections: inflections.deep_view(),
            sees: sees.deep_view(),
            examples: examples.deep_view(),
            related_words: related_words.deep_view(),
            definitions: definitions.deep_view(),
            ..bw
        }) =~= bw);
    }
    loop
        invariant
            pos <= cur <= len,
            len == tags@.len(),
            len < usize::MAX,
            tv == tags.deep_view(),
            av == attrs.deep_view(),
            bw == base_word(av),
            !self_closing,
            required_of(av, "value"@) == Some(value@),
            value@ == bw.value,
            value@.len() > 0,
            class.deep_view() == bw.class,
            comment.deep_view() == bw.comment,
            lang.deep_view() == bw.lang,
            forall|i: int|
                0 <= i < synonyms.deep_view().len()
                    ==> (#[trigger] synonyms.deep_view()[i]).value.len() > 0,
            forall|i: int|
                0 <= i < inflections.deep_view().len()
                    ==> (#[trigger] inflections.deep_view()[i]).value.len() > 0,
            forall|i: int|
                0 <= i < related_words.deep_view().len() ==> (
                #[trigger] related_words.deep_view()[i]).word_type.len() > 0
                    && related_words.deep_view()[i].value.len() > 0,
            word_children_spec(tv, pos as int, bw) == word_children_spec(
                tv,
                cur as int,
                (WordView {
                    translations: translations.deep_view(),
                    synonyms: synonyms.deep_view(),
                    phonetics: phonetics.deep_view(),
                    inflections: inflections.deep_view(),
                    sees: sees.deep_view(),
                    examples: examples.deep_view(),
                    related_words: related_words.deep_view(),
                    definitions: definitions.deep_view(),
                    ..bw
                }),
            ),
        decreases len - cur,
    {
        let ghost accv = WordView {
            translations: translations.deep_view(),
            synonyms: synonyms.deep_view(),
            phonetics: phonetics.deep_view(),
            inflections: inflections.deep_view(),
            sees: sees.deep_view(),
            examples: examples.deep_view(),
            related_words: related_words.deep_view(),
            definitions: definitions.deep_view(),
            ..bw
        };
        if cur >= len {
            return Err(ParseError::Document);
        }
        match &tags[cur] {
            Tag::Close => {
                let w = Word {
                    class,
                    comment,
                    lang,
                    value,
                    translations,
                    synonyms,
                    phonetics,
                    inflections,
                    sees,
                    examples,
                    related_words,
                    definitions,
                };
                proof {
                    assert(w.deep_view() =~= accv);
                }
                return Ok((w, cur + 1));
            },
            Tag::Eof => {
                return Err(ParseError::Document);
            },
            Tag::Open { name, attrs: cattrs, self_closing: sc } => {
                proof {
                    lemma_element_names_distinct();
                }
                let mut consumed = false;
                if str_eq(name.as_str(), "translation") {
                    let ghost pre = translations.deep_view();
                    translations.push(
                        Translation {
                            comment: find_attr(cattrs, "comment"),
                            value: find_attr(cattrs, "value"),
                        },
                    );
                    proof {
                        assert(translations.deep_view() =~= pre.push(
                            translations@[translations@.len() - 1].deep_view(),
                        ));
                    }
                } else if str_eq(name.as_str(), "synonym") {
                    let v = match required_attr(cattrs, "value") {
                        Ok(v) => v,
                        Err(e) => {
                            return Err(ParseError::Document);
                        },
                    };
                    let ghost pre = synonyms.deep_view();
                    synonyms.push(Synonym { level: find_attr(cattrs, "level"), value: v });
                    proof {
                        assert(synonyms.deep_view() =~= pre.push(
                            synonyms@[synonyms@.len() - 1].deep_view(),
                        ));
                    }
                } else if str_eq(name.as_str(), "phonetic") {
                    let ghost pre = phonetics.deep_view();
                    phonetics.push(
                        Phonetic {
                            sound_file: find_attr(cattrs, "soundFile"),
                            value: find_attr(cattrs, "value"),
                        },
                    );
                    proof {
                        assert(phonetics.deep_view() =~= pre.push(
                            phonetics@[phonetics@.len() - 1].deep_view(),
                        ));
                    }
                } else if str_eq(name.as_str(), "inflection") {
                    let v = match required_attr(cattrs, "value") {
                        Ok(v) => v,
                        Err(e) => {
                            return Err(ParseError::Document);
                        },
                    };
                    let ghost pre = inflections.deep_view();
                    inflections.push(Inflection { value: v });
                    proof {
                        assert(inflections.deep_view() =~= pre.push(
                            inflections@[inflections@.len() - 1].deep_view(),
                        ));
                    }
                } else if str_eq(name.as_str(), "see") {
                    let ghost pre = sees.deep_view();
                    sees.push(
                        See {
                            see_type: find_attr(cattrs, "type"),
                            value: find_attr(cattrs, "value"),
                        },
                    );
                    proof {
                        assert(sees.deep_view() =~= pre.push(sees@[sees@.len() - 1].deep_view()));
                    }
                } else if str_eq(name.as_str(), "example") {
                    let v = find_attr(cattrs, "value");
                    let mut tr: Option<Translation> = None;
                    if !*sc {
                        let (t, p) = match read_nested_translation(tags, cur + 1) {
                            Ok(t) => t,
                            Err(e) => {
                                return Err(ParseError::Document);
                            },
                        };
                        tr = t;
                        cur = p;
                        consumed = true;
                    }
                    let ghost pre = examples.deep_view();
                    examples.push(Example { value: v, translation: tr });
                    proof {
                        assert(examples.deep_view() =~= pre.push(
                            examples@[examples@.len() - 1].deep_view(),
                        ));
                    }
                } else if str_eq(name.as_str(), "related") {
                    let t = match required_attr(cattrs, "type") {
                        Ok(v) => v,
                        Err(e) => {
                            return Err(ParseError::Document);
                        },
                    };
                    let v = match required_attr(cattrs, "value") {
                        Ok(v) => v,
                        Err(e) => {
                            return Err(ParseError::Document);
                        },
                    };
                    let ghost pre = related_words.deep_view();
                    related_words.push(RelatedWord { word_type: t, value: v });
                    proof {
                        assert(related_words.deep_view() =~= pre.push(
                            related_words@[related_words@.len() - 1].deep_view(),
                        ));
                    }
                } else if str_eq(name.as_str(), "definition") {
                    let v = find_attr(cattrs, "value");
                    let mut tr: Option<Translation> = None;
                    if !*sc {
                        let (t, p) = match read_nested_translation(tags, cur + 1) {
                            Ok(t) => t,
                            Err(e) => {
                                return Err(ParseError::Document);
                            },
                        };
                        tr = t;
                        cur = p;
                        consumed = true;
                    }
                    let ghost pre = definitions.deep_view();
                    definitions.push(Definition { value: v, translation: tr });
                    proof {
                        assert(definitions.deep_view() =~= pre.push(
                            definitions@[definitions@.len() - 1].deep_view(),
                        ));
                    }
                }
                if !consumed {
                    if *sc {
                        cur += 1;
                    } else {
                        cur = match skip_tokens(tags, cur + 1) {
                            Ok(p) => p,
                            Err(e) => {
                                return Err(ParseError::Document);
                            },
                        };
                    }
                }
            },
        }
    }
}

/// Build the dictionary a token sequence describes. The result is exactly
/// `spec_build` of the tokens: the metadata comes from the root element's
/// attributes (absent means `None`, never the empty string), the words
/// appear in document order, a missing or empty required field fails the
/// decode, and unrecognized elements and attributes change nothing.
#[verifier::rlimit(100)]
#[verifier::spinoff_prover]
pub fn build_dictionary(tags: &Vec<Tag>) -> (r: Result<Dictionary, ParseError>)
    requires
        tags@.len() < usize::MAX,
    ensures
        r matches Ok(d) ==> dictionary_wf(d.deep_view()) && spec_build(tags.deep_view()) == Some(
            d.deep_view(),
        ),
        r is Err ==> spec_build(tags.deep_view()) is None,
{
    let ghost tv = tags.deep_view();
    let len = tags.len();
    if len == 0 {
        return Err(ParseError::Document);
    }
    match &tags[0] {
        Tag::Close => Err(ParseError::Document),
        Tag::Eof => Err(ParseError::Document),
        Tag::Open { name, attrs, self_closing } => {
            if !str_eq(name.as_str(), "dictionary") {
                return Err(ParseError::Document);
            }
            let comment = find_attr(attrs, "comment");
            let created = find_attr(attrs, "created");
            let last_changed = find_attr(attrs, "last-changed");
            let dname = find_attr(attrs, "name");
            let source_language = find_attr(attrs, "source-language");
            let target_language = find_attr(attrs, "target-language");
            let version = find_attr(attrs, "version");
            let license = find_attr(attrs, "license");
            let license_comment = find_attr(attrs, "licenseComment");
            let origin_url = find_attr(attrs, "originURL");
            let ghost av0 = attrs.deep_view();
            let ghost meta = DictionaryView {
                comment: attr_of(av0, "comment"@),
                created: attr_of(av0, "created"@),
                last_changed: attr_of(av0, "last-changed"@),
                name: attr_of(av0, "name"@),
                source_language: attr_of(av0, "source-language"@),
                target_language: attr_of(av0, "target-language"@),
                version: attr_of(av0, "version"@),
                license: attr_of(av0, "license"@),
                license_comment: attr_of(av0, "licenseComment"@),
                origin_url: attr_of(av0, "originURL"@),
                words: Seq::empty(),
            };
            let mut words: Vec<Word> = Vec::new();
            if *self_closing {
                let d = Dictionary {
                    comment,
                    created,
                    last_changed,
                    name: dname,
                    source_language,
                    target_language,
                    version,
                    license,
                    license_comment,
                    origin_url,
                    words,
                };
                proof {
                    assert(d.deep_view() =~= meta);
                    assert(spec_build(tv) == Some(d.deep_view()));
                }
                return Ok(d);
            }
            let mut cur: usize = 1;
            proof {
                assert(words.deep_view() =~= Seq::<WordView>::empty());
            }
            loop
                invariant
                    1 <= cur <= len,
                    len == tags@.len(),
                    len < usize::MAX,
                    tv == tags.deep_view(),
                    comment.deep_view() == meta.comment,
                    created.deep_view() == meta.created,
                    last_changed.deep_view() == meta.last_changed,
                    dname.deep_view() == meta.name,
                    source_language.deep_view() == meta.source_language,
                    target_language.deep_view() == meta.target_language,
                    version.deep_view() == meta.version,
                    license.deep_view() == meta.license,
                    license_comment.deep_view() == meta.license_comment,
                    origin_url.deep_view() == meta.origin_url,
                    spec_build(tv) == (match dict_children_spec(tv, 1, Seq::empty()) {
                        Some(wj) => Some((DictionaryView { words: wj.0, ..meta })),
                        None => None,
                    }),
                    forall|i: int|
                        0 <= i < words.deep_view().len() ==> word_wf(
                            #[trigger] words.deep_view()[i],
                        ),
                    dict_children_spec(tv, 1, Seq::empty()) == dict_children_spec(
                        tv,
                        cur as int,
                        words.deep_view(),
                    ),
                decreases len - cur,
            {
                if cur >= len {
                    return Err(ParseError::Document);
                }
                match &tags[cur] {
                    Tag::Eof => {
                        return Err(ParseError::Document);
                    },
                    Tag::Close => {
                        let d = Dictionary {
                            comment,
                            created,
                            last_changed,
                            name: dname,
                            source_language,
                            target_language,
                            version,
                            license,
                            license_comment,
                            origin_url,
                            words,
                        };
                        proof {
                            assert(d.deep_view() =~= (DictionaryView {
                                words: words.deep_view(),
                                ..meta
                            }));
                            assert(spec_build(tv) == Some(d.deep_view()));
                        }
                        return Ok(d);
                    },
                    Tag::Open { name: cname, attrs: cattrs, self_closing: csc } => {
                        if str_eq(cname.as_str(), "word") {
                            match read_word(tags, cur + 1, cattrs, *csc) {
                                Ok((w, p)) => {
                                    let ghost pre = words.deep_view();
                                    words.push(w);
                                    proof {
                                        assert(words.deep_view() =~= pre.push(
                                            words@[words@.len() - 1].deep_view(),
                                        ));
                                    }
                                    cur = p;
                                },
                                Err(e) => {
                                    return Err(ParseError::Document);
                                },
                            }
                        } else {
                            if *csc {
                                cur += 1;
                            } else {
                                cur = match skip_tokens(tags, cur + 1) {
                                    Ok(p) => p,
                                    Err(e) => {
                                        return Err(ParseError::Document);
                                    },
                                };
                            }
                        }
                    },
                }
            }
        },
    }
}

/// Decodes the raw document into a dictionary: returns exactly the
/// dictionary that `spec_decode` assigns to the text — the input is
/// tokenized by the rules of `spec_tokens` and the tokens are built by the
/// rules of `spec_build` — and fails exactly when `spec_decode` assigns
/// none. On success every word of the result is well-formed: the
/// canonical value and every required nested value are non-empty strings.
pub fn decode(s: &str) -> (r: Result<Dictionary, ParseError>)
    ensures
        r matches Ok(d) ==> dictionary_wf(d.deep_view()) && spec_decode(s@) == Some(d.deep_view()),
        r is Err ==> spec_decode(s@) is None,
{
    match tokenize(s) {
        Ok(tags) => {
            proof {
                assert(tags@.len() < usize::MAX);
            }
            build_dictionary(&tags)
        },
        Err(e) => Err(ParseError::Document),
    }
}

} // verus!
