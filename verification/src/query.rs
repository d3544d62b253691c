//! The query engine: exact lookup (by canonical value or by inflection,
//! first match in document order) and case-sensitive substring search over
//! the canonical values, in document order.
use vstd::prelude::*;
use vstd::string::*;

use crate::error::NotFound;
use crate::lexicon::{Dictionary, Word, WordView};

verus! {

/// `q` matches `w` exactly: `q` equals the canonical value, or equals the
/// value of one of the word's inflections.
pub open spec fn word_matches(w: WordView, q: Seq<char>) -> bool {
    w.value == q || exists|i: int|
        0 <= i < w.inflections.len() && (#[trigger] w.inflections[i]).value == q
}

/// The word that a single left-to-right scan of `ws` resolves `q` to:
/// the first word that `q` matches, if any.
pub open spec fn lookup_spec(ws: Seq<WordView>, q: Seq<char>) -> Option<WordView>
    decreases ws.len(),
{
    if ws.len() == 0 {
        None
    } else if word_matches(ws[0], q) {
        Some(ws[0])
    } else {
        lookup_spec(ws.drop_first(), q)
    }
}

/// `needle` occurs in `hay` as a contiguous (case-sensitive) substring.
/// The empty needle occurs in every string.
pub open spec fn contains_sub(hay: Seq<char>, needle: Seq<char>) -> bool {
    exists|k: int|
        0 <= k && k + needle.len() <= hay.len() && #[trigger] hay.subrange(k, k + needle.len())
            == needle
}

/// Character-for-character string equality.
pub fn str_eq(a: &str, b: &str) -> (r: bool)
    ensures
        r == (a@ == b@),
{
    let alen = a.unicode_len();
    let blen = b.unicode_len();
    if alen != blen {
        return false;
    }
    let mut i: usize = 0;
    while i < alen
        invariant
            i <= alen,
            alen == a@.len(),
            alen == b@.len(),
            forall|j: int| 0 <= j < i ==> a@[j] == b@[j],
        decreases alen - i,
    {
        if a.get_char(i) != b.get_char(i) {
            return false;
        }
        i += 1;
    }
    proof {
        assert(a@ =~= b@);
    }
    true
}

/// Whether `needle` stands at offset `k` of `hay`.
fn match_at(hay: &str, needle: &str, k: usize) -> (r: bool)
    requires
        k + needle@.len() <= hay@.len(),
        hay@.len() <= usize::MAX,
    ensures
        r == (hay@.subrange(k as int, k + needle@.len() as int) == needle@),
{
    let nlen = needle.unicode_len();
    let mut j: usize = 0;
    while j < nlen
        invariant
            j <= nlen,
            nlen == needle@.len(),
            k + nlen <= hay@.len(),
            hay@.len() <= usize::MAX,
            forall|j2: int| 0 <= j2 < j ==> hay@[k + j2] == needle@[j2],
        decreases nlen - j,
    {
        if hay.get_char(k + j) != needle.get_char(j) {
            proof {
                let ghost kk = k as int;
                let ghost jj = j as int;
                assert(hay@.subrange(kk, kk + needle@.len() as int)[jj] != needle@[jj]);
            }
            return false;
        }
        j += 1;
    }
    proof {
        assert(hay@.subrange(k as int, k + needle@.len() as int) =~= needle@);
    }
    true
}

/// Whether `needle` occurs in `hay` as a contiguous substring.
pub fn str_contains(hay: &str, needle: &str) -> (r: bool)
    ensures
        r == contains_sub(hay@, needle@),
{
    let hlen = hay.unicode_len();
    let nlen = needle.unicode_len();
    if nlen > hlen {
        proof {
            assert(!contains_sub(hay@, needle@));
        }
        return false;
    }
    let mut k: usize = 0;
    loop
        invariant
            nlen <= hlen,
            hlen == hay@.len(),
            nlen == needle@.len(),
            k <= hlen - nlen,
            forall|k2: int|
                0 <= k2 < k ==> #[trigger] hay@.subrange(k2, k2 + needle@.len() as int)
                    != needle@,
        ensures
            forall|k2: int|
                0 <= k2 <= hlen - nlen ==> #[trigger] hay@.subrange(k2, k2 + needle@.len() as int)
                    != needle@,
        decreases hlen - nlen - k,
    {
        if match_at(hay, needle, k) {
            return true;
        }
        if k == hlen - nlen {
            break ;
        }
        k += 1;
    }
    proof {
        assert forall|k2: int| 0 <= k2 && k2 + needle@.len() <= hay@.len() implies #[trigger] hay@
            .subrange(k2, k2 + needle@.len() as int) != needle@ by {
            assert(0 <= k2 <= hlen - nlen);
        }
    }
    false
}

/// Whether `q` matches the word exactly, by canonical value or inflection.
pub fn word_matches_query(w: &Word, q: &str) -> (r: bool)
    ensures
        r == word_matches(w.deep_view(), q@),
{
    if str_eq(w.value.as_str(), q) {
        return true;
    }
    let n = w.inflections.len();
    let mut i: usize = 0;
    while i < n
        invariant
            i <= n,
            n == w.inflections@.len(),
            forall|j: int| 0 <= j < i ==> (#[trigger] w.deep_view().inflections[j]).value != q@,
        decreases n - i,
    {
        if str_eq(w.inflections[i].value.as_str(), q) {
            proof {
                assert(w.deep_view().inflections[i as int].value == q@);
            }
            return true;
        }
        i += 1;
    }
    false
}

impl Dictionary {
    /// Scans the words in document order and returns the first whose
    /// canonical value equals `query` or whose inflection list holds an
    /// element whose value equals `query`; `NotFound` when none matches.
    /// Ties are broken purely by document order.
    pub fn lookup<'a>(&'a self, query: &str) -> (r: Result<&'a Word, NotFound>)
        ensures
            r matches Ok(w) ==> lookup_spec(self.deep_view().words, query@) == Some(w.deep_view()),
            r matches Ok(w) ==> exists|i: int|
                0 <= i < self.deep_view().words.len() && w.deep_view()
                    == self.deep_view().words[i] && word_matches(
                    #[trigger] self.deep_view().words[i],
                    query@,
                ) && (forall|j: int|
                    0 <= j < i ==> !word_matches(#[trigger] self.deep_view().words[j], query@)),
            r is Err ==> lookup_spec(self.deep_view().words, query@) is None,
            r is Err ==> forall|i: int|
                0 <= i < self.deep_view().words.len() ==> !word_matches(
                    #[trigger] self.deep_view().words[i],
                    query@,
                ),
    {
        let ghost ws = self.deep_view().words;
        proof {
            assert(ws.skip(0) =~= ws);
        }
        let n = self.words.len();
        let mut i: usize = 0;
        while i < n
            invariant
                i <= n,
                n == self.words@.len(),
                ws == self.deep_view().words,
                forall|j: int| 0 <= j < i ==> !word_matches(#[trigger] ws[j], query@),
                lookup_spec(ws, query@) == lookup_spec(ws.skip(i as int), query@),
            decreases n - i,
        {
            let w = &self.words[i];
            if word_matches_query(w, query) {
                proof {
                    assert(ws.skip(i as int)[0] == ws[i as int]);
                }
                return Ok(w);
            }
            proof {
                assert(ws.skip(i as int).drop_first() =~= ws.skip(i as int + 1));
                assert(ws.skip(i as int)[0] == ws[i as int]);
            }
            i += 1;
        }
        proof {
            assert(ws.skip(n as int) =~= Seq::<WordView>::empty());
        }
        Err(NotFound)
    }

    /// Returns every word whose canonical value contains `sub` as a
    /// contiguous, case-sensitive substring, in document order. The empty
    /// substring matches every word; an empty result is not an error.
    pub fn search<'a>(&'a self, sub: &str) -> (r: Vec<&'a Word>)
        ensures
            r.deep_view() == self.deep_view().words.filter(
                |w: WordView| contains_sub(w.value, sub@),
            ),
    {
        let ghost ws = self.deep_view().words;
        let ghost pred = |w: WordView| contains_sub(w.value, sub@);
        let n = self.words.len();
        let mut out: Vec<&'a Word> = Vec::new();
        let mut i: usize = 0;
        while i < n
            invariant
                i <= n,
                n == self.words@.len(),
                ws == self.deep_view().words,
                pred == (|w: WordView| contains_sub(w.value, sub@)),
                out.deep_view() == ws.take(i as int).filter(pred),
            decreases n - i,
        {
            let w = &self.words[i];
            proof {
                reveal_with_fuel(Seq::filter, 2);
                assert(ws.take(i as int + 1).drop_last() =~= ws.take(i as int));
                assert(ws.take(i as int + 1).last() == ws[i as int]);
            }
            if str_contains(w.value.as_str(), sub) {
                out.push(w);
                proof {
                    assert(out.deep_view() =~= ws.take(i as int + 1).filter(pred));
                }
            } else {
                proof {
                    assert(out.deep_view() =~= ws.take(i as int + 1).filter(pred));
                }
            }
            i += 1;
        }
        proof {
            assert(ws.take(n as int) =~= ws);
        }
        out
    }
}

/// The first match wins: if the word at `i` matches `q` and no earlier
/// word matches by any criterion, the single left-to-right scan resolves
/// `q` to exactly that word.
pub proof fn lemma_lookup_first_match(ws: Seq<WordView>, q: Seq<char>, i: int)
    requires
        0 <= i < ws.len(),
        word_matches(ws[i], q),
        forall|j: int| 0 <= j < i ==> !word_matches(#[trigger] ws[j], q),
    ensures
        lookup_spec(ws, q) == Some(ws[i]),
    decreases i,
{
    if i > 0 {
        assert(ws.drop_first()[i - 1] == ws[i]);
        assert forall|j: int| 0 <= j < i - 1 implies !word_matches(
            #[trigger] ws.drop_first()[j],
            q,
        ) by {
            assert(ws.drop_first()[j] == ws[j + 1]);
        }
        lemma_lookup_first_match(ws.drop_first(), q, i - 1);
    }
}

/// Lookup by canonical value: a word whose value equals the query is
/// returned, provided no earlier word matches the query by value or by
/// inflection (an earlier match wins the scan).
pub proof fn lemma_lookup_by_value(ws: Seq<WordView>, q: Seq<char>, i: int)
    requires
        0 <= i < ws.len(),
        ws[i].value == q,
        forall|j: int| 0 <= j < i ==> !word_matches(#[trigger] ws[j], q),
    ensures
        lookup_spec(ws, q) == Some(ws[i]),
{
    lemma_lookup_first_match(ws, q, i);
}

/// Lookup by inflection: a word one of whose inflection values equals the
/// query resolves to that word, provided no earlier word matches the query
/// by value or by inflection.
pub proof fn lemma_lookup_by_inflection(ws: Seq<WordView>, q: Seq<char>, i: int, k: int)
    requires
        0 <= i < ws.len(),
        0 <= k < ws[i].inflections.len(),
        ws[i].inflections[k].value == q,
        forall|j: int| 0 <= j < i ==> !word_matches(#[trigger] ws[j], q),
    ensures
        lookup_spec(ws, q) == Some(ws[i]),
{
    lemma_lookup_first_match(ws, q, i);
}

/// Document-order tie-break: of two words with the same canonical value,
/// the scan returns the earlier one, provided no word before it matches
/// the query by value or by inflection.
pub proof fn lemma_lookup_tie_break(ws: Seq<WordView>, q: Seq<char>, i: int, j: int)
    requires
        0 <= i < j < ws.len(),
        ws[i].value == q,
        ws[j].value == q,
        forall|k: int| 0 <= k < i ==> !word_matches(#[trigger] ws[k], q),
    ensures
        lookup_spec(ws, q) == Some(ws[i]),
{
    lemma_lookup_first_match(ws, q, i);
}

/// Search contains whatever lookup finds, whenever the query is literally
/// a substring of the found word's canonical value: if a single scan
/// resolves `q` to the word `w` and `q` occurs in `w.value`, then `w` is
/// among the words whose value contains `q`.
pub proof fn lemma_lookup_within_search(ws: Seq<WordView>, q: Seq<char>)
    requires
        lookup_spec(ws, q) is Some,
        contains_sub(lookup_spec(ws, q)->Some_0.value, q),
    ensures
        ws.filter(|w: WordView| contains_sub(w.value, q)).contains(lookup_spec(ws, q)->Some_0),
    decreases ws.len(),
{
    reveal_with_fuel(Seq::filter, 2);
    let w = lookup_spec(ws, q)->Some_0;
    let pred = |w: WordView| contains_sub(w.value, q);
    if word_matches(ws[0], q) {
        lemma_filter_keeps_element(ws, pred, 0);
    } else {
        lemma_lookup_within_search(ws.drop_first(), q);
        let sub = ws.drop_first().filter(pred);
        let k = choose|k: int| 0 <= k < sub.len() && sub[k] == w;
        lemma_filter_of_drop_first_subset(ws, pred, k);
    }
}

/// An element of the filtered tail is an element of the whole filter.
proof fn lemma_filter_of_drop_first_subset(ws: Seq<WordView>, pred: spec_fn(WordView) -> bool, k: int)
    requires
        ws.len() > 0,
        0 <= k < ws.drop_first().filter(pred).len(),
    ensures
        ws.filter(pred).contains(ws.drop_first().filter(pred)[k]),
{
    let x = ws.drop_first().filter(pred)[k];
    ws.drop_first().lemma_filter_pred(pred, k);
    lemma_filter_membership(ws.drop_first(), pred, k);
    let i = choose|i: int| 0 <= i < ws.drop_first().len() && ws.drop_first()[i] == x;
    assert(ws[i + 1] == x);
    lemma_filter_keeps_element(ws, pred, i + 1);
}

/// A filtered element comes from somewhere in the original sequence.
proof fn lemma_filter_membership(s: Seq<WordView>, pred: spec_fn(WordView) -> bool, k: int)
    requires
        0 <= k < s.filter(pred).len(),
    ensures
        exists|i: int| 0 <= i < s.len() && s[i] == s.filter(pred)[k],
    decreases s.len(),
{
    reveal_with_fuel(Seq::filter, 2);
    if s.len() > 0 {
        let sub = s.drop_last().filter(pred);
        if k < sub.len() {
            lemma_filter_membership(s.drop_last(), pred, k);
            let i = choose|i: int| 0 <= i < s.drop_last().len() && s.drop_last()[i] == sub[k];
            assert(s[i] == s.filter(pred)[k]);
        } else {
            assert(s[s.len() - 1] == s.filter(pred)[k]);
        }
    }
}

/// An element of the sequence that satisfies the predicate stands in the
/// filtered sequence.
proof fn lemma_filter_keeps_element(s: Seq<WordView>, pred: spec_fn(WordView) -> bool, i: int)
    requires
        0 <= i < s.len(),
        pred(s[i]),
    ensures
        s.filter(pred).contains(s[i]),
{
    s.lemma_filter_contains(pred, i);
}

} // verus!
