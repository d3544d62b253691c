//! The cache codec: a compact self-describing text form of a `Dictionary`,
//! chosen for fast reload. `serialize` emits exactly the encoding that the
//! spec functions below describe; `deserialize` accepts exactly the
//! encodings and returns the encoded value, so the round trip is lossless
//! for every field, including "not present" versus empty string and the
//! order of every sequence.
//!
//! The building block is a length-prefixed string: a run of `'1'` marks,
//! one per character, then `':'`, then the characters themselves. A record
//! is a length-prefixed list of parts, each part itself such a string; an
//! optional field is `'N'`, or `'S'` followed by the content.
use vstd::prelude::*;
use vstd::string::*;

use crate::error::ParseError;
use crate::lexicon::{
    Definition, DefinitionView, Dictionary, DictionaryView, Example, ExampleView, Inflection,
    InflectionView, Phonetic, PhoneticView, RelatedWord, RelatedWordView, See, SeeView, Synonym,
    SynonymView, Translation, TranslationView, Word, WordView,
};

verus! {

/// `n` repetitions of the `'1'` mark.
pub open spec fn ones(n: nat) -> Seq<char>
    decreases n,
{
    if n == 0 {
        Seq::empty()
    } else {
        ones((n - 1) as nat).push('1')
    }
}

/// One length-prefixed string: its length in marks, `':'`, its characters.
pub open spec fn enc_str(s: Seq<char>) -> Seq<char> {
    ones(s.len()) + seq![':'] + s
}

/// The parts of a list, each one length-prefixed, laid end to end.
pub open spec fn enc_items(l: Seq<Seq<char>>) -> Seq<char>
    decreases l.len(),
{
    if l.len() == 0 {
        Seq::empty()
    } else {
        enc_str(l[0]) + enc_items(l.drop_first())
    }
}

/// A list of strings: its length in marks, `':'`, then its parts.
pub open spec fn enc_str_list(l: Seq<Seq<char>>) -> Seq<char> {
    ones(l.len()) + seq![':'] + enc_items(l)
}

/// `t` stands at offset `pos` of `s`.
pub open spec fn has_at(s: Seq<char>, pos: int, t: Seq<char>) -> bool {
    0 <= pos && pos + t.len() <= s.len() && s.subrange(pos, pos + t.len()) == t
}

proof fn lemma_ones_props(n: nat)
    ensures
        ones(n).len() == n,
        forall|i: int| 0 <= i < n ==> #[trigger] ones(n)[i] == '1',
    decreases n,
{
    if n > 0 {
        lemma_ones_props((n - 1) as nat);
    }
}

proof fn lemma_enc_items_concat(a: Seq<Seq<char>>, b: Seq<Seq<char>>)
    ensures
        enc_items(a + b) == enc_items(a) + enc_items(b),
    decreases a.len(),
{
    if a.len() == 0 {
        assert(a + b =~= b);
        assert(enc_items(a) + enc_items(b) =~= enc_items(b));
    } else {
        assert((a + b)[0] == a[0]);
        assert((a + b).drop_first() =~= a.drop_first() + b);
        lemma_enc_items_concat(a.drop_first(), b);
        assert(enc_str(a[0]) + (enc_items(a.drop_first()) + enc_items(b)) =~= (enc_str(a[0])
            + enc_items(a.drop_first())) + enc_items(b));
    }
}

proof fn lemma_enc_items_push(l: Seq<Seq<char>>, x: Seq<char>)
    ensures
        enc_items(l.push(x)) == enc_items(l) + enc_str(x),
{
    assert(l.push(x) =~= l + seq![x]);
    lemma_enc_items_concat(l, seq![x]);
    let single = seq![x];
    assert(single[0] == x);
    assert(single.drop_first() =~= Seq::<Seq<char>>::empty());
    assert(enc_items(single) == enc_str(x) + enc_items(single.drop_first()));
    assert(enc_str(x) + Seq::<char>::empty() =~= enc_str(x));
}

proof fn lemma_has_at_split(s: Seq<char>, pos: int, a: Seq<char>, b: Seq<char>)
    requires
        has_at(s, pos, a + b),
    ensures
        has_at(s, pos, a),
        has_at(s, pos + a.len(), b),
{
    let ab = a + b;
    let e = s.subrange(pos, pos + ab.len() as int);
    assert forall|i: int| 0 <= i < a.len() implies s.subrange(pos, pos + a.len() as int)[i]
        == a[i] by {
        assert(e[i] == ab[i]);
    }
    assert(s.subrange(pos, pos + a.len() as int) =~= a);
    assert forall|i: int|
        0 <= i < b.len() implies s.subrange(pos + a.len(), pos + a.len() + b.len() as int)[i]
        == b[i] by {
        assert(e[a.len() + i] == ab[a.len() + i]);
    }
    assert(s.subrange(pos + a.len(), pos + a.len() + b.len() as int) =~= b);
}

/// Append `n` marks to `out`.
fn write_ones(out: &mut String, n: usize)
    ensures
        final(out)@ == old(out)@ + ones(n as nat),
{
    proof {
        assert(out@ =~= out@ + ones(0));
    }
    let mut i: usize = 0;
    while i < n
        invariant
            i <= n,
            out@ == old(out)@ + ones(i as nat),
        decreases n - i,
    {
        out.append("1");
        proof {
            reveal_strlit("1");
            assert("1"@ =~= seq!['1']);
            assert(ones((i + 1) as nat) == ones(i as nat).push('1'));
            assert((old(out)@ + ones(i as nat)) + seq!['1'] =~= old(out)@ + ones((i + 1) as nat));
        }
        i += 1;
    }
}

/// Append the length-prefixed form of `s` to `out`.
fn write_enc_str(out: &mut String, s: &str)
    ensures
        final(out)@ == old(out)@ + enc_str(s@),
{
    let n = s.unicode_len();
    write_ones(out, n);
    out.append(":");
    out.append(s);
    proof {
        reveal_strlit(":");
        assert(":"@ =~= seq![':']);
        assert(((old(out)@ + ones(n as nat)) + seq![':']) + s@ =~= old(out)@ + enc_str(s@));
    }
}

/// Emit a list of parts in the list encoding.
fn enc_parts(parts: &Vec<String>) -> (r: String)
    ensures
        r@ == enc_str_list(parts.deep_view()),
{
    let ghost pdv = parts.deep_view();
    let mut out = String::new();
    write_ones(&mut out, parts.len());
    out.append(":");
    proof {
        reveal_strlit(":");
        assert(":"@ =~= seq![':']);
        assert(pdv.take(0) =~= Seq::<Seq<char>>::empty());
        assert((Seq::<char>::empty() + ones(pdv.len())) + seq![':'] =~= ones(pdv.len())
            + seq![':'] + enc_items(pdv.take(0)));
    }
    let n = parts.len();
    let mut j: usize = 0;
    while j < n
        invariant
            j <= n,
            n == parts@.len(),
            pdv == parts.deep_view(),
            out@ == ones(pdv.len()) + seq![':'] + enc_items(pdv.take(j as int)),
        decreases n - j,
    {
        write_enc_str(&mut out, parts[j].as_str());
        proof {
            lemma_enc_items_push(pdv.take(j as int), pdv[j as int]);
            assert(pdv.take(j as int).push(pdv[j as int]) =~= pdv.take(j as int + 1));
            assert((ones(pdv.len()) + seq![':'] + enc_items(pdv.take(j as int))) + enc_str(
                pdv[j as int],
            ) =~= ones(pdv.len()) + seq![':'] + enc_items(pdv.take(j as int + 1)));
        }
        j += 1;
    }
    proof {
        assert(pdv.take(n as int) =~= pdv);
    }
    out
}

/// Read a run of marks and the `':'` after it, starting at `pos`.
fn parse_ones(s: &str, pos: usize) -> (r: Result<(usize, usize), ParseError>)
    requires
        pos <= s@.len(),
        s@.len() <= usize::MAX,
    ensures
        r matches Ok(kp) ==> pos + kp.0 + 1 == kp.1 && kp.1 <= s@.len() && s@.subrange(
            pos as int,
            kp.1 as int,
        ) == ones(kp.0 as nat) + seq![':'],
        forall|k: nat|
            #[trigger] has_at(s@, pos as int, ones(k) + seq![':']) ==> (r matches Ok(kp) && kp.0
                == k && kp.1 == pos + k + 1),
{
    let len = s.unicode_len();
    let mut i: usize = pos;
    while i < len && s.get_char(i) == '1'
        invariant
            pos <= i <= len,
            len == s@.len(),
            forall|m: int| pos <= m < i ==> s@[m] == '1',
        decreases len - i,
    {
        i += 1;
    }
    proof {
        assert forall|k: nat| #[trigger] has_at(s@, pos as int, ones(k) + seq![':']) implies i
            == pos + k && pos + k < len && s@[pos + k] == ':' by {
            lemma_ones_props(k);
            let t = ones(k) + seq![':'];
            let sub = s@.subrange(pos as int, pos + t.len() as int);
            assert(sub == t);
            assert(sub[k as int] == s@[pos + k]);
            assert(t[k as int] == ':');
            assert forall|m: int| pos <= m < pos + k implies s@[m] == '1' by {
                assert(sub[m - pos] == s@[m]);
                assert(t[m - pos] == ones(k)[m - pos]);
                assert(ones(k)[m - pos] == '1');
            }
            if i < pos + k {
                assert(s@[i as int] == '1');
                assert(i < len);
                assert(false);
            }
            if i > pos + k {
                assert(s@[pos + k] == '1');
                assert(false);
            }
        }
    }
    if i < len {
        if s.get_char(i) == ':' {
            proof {
                lemma_ones_props((i - pos) as nat);
                assert(s@.subrange(pos as int, i + 1 as int) =~= ones((i - pos) as nat)
                    + seq![':']);
            }
            return Ok((i - pos, i + 1));
        }
    }
    Err(ParseError::Cache)
}

/// Read one length-prefixed string starting at `pos`.
fn parse_str(s: &str, pos: usize) -> (r: Result<(String, usize), ParseError>)
    requires
        pos <= s@.len(),
        s@.len() <= usize::MAX,
    ensures
        r matches Ok(vp) ==> pos <= vp.1 <= s@.len() && s@.subrange(pos as int, vp.1 as int)
            == enc_str(vp.0@),
        forall|t: Seq<char>|
            #[trigger] has_at(s@, pos as int, enc_str(t)) ==> (r matches Ok(vp) && vp.0@ == t
                && vp.1 == pos + enc_str(t).len()),
{
    proof {
        assert forall|t: Seq<char>| #[trigger] has_at(s@, pos as int, enc_str(t)) implies has_at(
            s@,
            pos as int,
            ones(t.len()) + seq![':'],
        ) && has_at(s@, pos + t.len() + 1, t) by {
            lemma_ones_props(t.len());
            lemma_has_at_split(s@, pos as int, ones(t.len()) + seq![':'], t);
        }
    }
    let len = s.unicode_len();
    match parse_ones(s, pos) {
        Ok((k, p1)) => {
            if k <= len - p1 {
                let sub = s.substring_char(p1, p1 + k);
                let v = String::from_str(sub);
                proof {
                    lemma_ones_props(k as nat);
                    assert(s@.subrange(pos as int, (p1 + k) as int) =~= (ones(k as nat)
                        + seq![':']) + v@);
                    assert(enc_str(v@) == (ones(k as nat) + seq![':']) + v@);
                    assert forall|t: Seq<char>| #[trigger] has_at(
                        s@,
                        pos as int,
                        enc_str(t),
                    ) implies v@ == t by {
                        lemma_ones_props(t.len());
                        assert(k == t.len());
                        assert(s@.subrange(p1 as int, (p1 + k) as int) =~= t);
                    }
                }
                Ok((v, p1 + k))
            } else {
                proof {
                    assert forall|t: Seq<char>| !has_at(s@, pos as int, enc_str(t)) by {
                        if has_at(s@, pos as int, enc_str(t)) {
                            lemma_ones_props(t.len());
                            assert(k == t.len());
                            assert(pos + enc_str(t).len() <= len);
                            assert(false);
                        }
                    }
                }
                Err(ParseError::Cache)
            }
        },
        Err(e) => {
            proof {
                assert forall|t: Seq<char>| !has_at(s@, pos as int, enc_str(t)) by {
                    if has_at(s@, pos as int, enc_str(t)) {
                        lemma_ones_props(t.len());
                        assert(false);
                    }
                }
            }
            Err(ParseError::Cache)
        },
    }
}

/// Read a whole string as one list of parts; the input must be consumed
/// exactly.
fn parse_parts(s: &str) -> (r: Result<Vec<String>, ParseError>)
    ensures
        r matches Ok(v) ==> s@ == enc_str_list(v.deep_view()),
        forall|l: Seq<Seq<char>>|
            s@ == #[trigger] enc_str_list(l) ==> (r matches Ok(v) && v.deep_view() == l),
{
    let len = s.unicode_len();
    proof {
        assert forall|l: Seq<Seq<char>>| s@ == #[trigger] enc_str_list(l) implies has_at(
            s@,
            0,
            ones(l.len()) + seq![':'],
        ) by {
            lemma_ones_props(l.len());
            assert(s@.subrange(0, s@.len() as int) =~= s@);
            lemma_has_at_split(s@, 0, ones(l.len()) + seq![':'], enc_items(l));
        }
    }
    match parse_ones(s, 0) {
        Err(e) => {
            proof {
                assert forall|l: Seq<Seq<char>>| s@ != #[trigger] enc_str_list(l) by {
                    if s@ == enc_str_list(l) {
                        assert(false);
                    }
                }
            }
            Err(ParseError::Cache)
        },
        Ok((n, p0)) => {
            proof {
                assert forall|l: Seq<Seq<char>>| s@ == #[trigger] enc_str_list(l) implies l.len()
                    == n by {
                    lemma_ones_props(l.len());
                }
            }
            let mut out: Vec<String> = Vec::new();
            let mut pos = p0;
            let mut j: usize = 0;
            proof {
                assert(out.deep_view().take(0) =~= Seq::<Seq<char>>::empty());
                assert(s@.subrange(0, pos as int) =~= ones(n as nat) + seq![':'] + enc_items(
                    out.deep_view(),
                ));
            }
            while j < n
                invariant
                    j <= n,
                    out.deep_view().len() == j,
                    pos <= s@.len(),
                    s@.len() <= usize::MAX,
                    s@.subrange(0, pos as int) == ones(n as nat) + seq![':'] + enc_items(
                        out.deep_view(),
                    ),
                    forall|l: Seq<Seq<char>>|
                        s@ == #[trigger] enc_str_list(l) ==> l.len() == n && out.deep_view()
                            == l.take(j as int),
                decreases n - j,
            {
                proof {
                    assert forall|l: Seq<Seq<char>>| s@ == #[trigger] enc_str_list(l) implies
                    has_at(s@, pos as int, enc_str(l[j as int])) by {
                        let head = ones(n as nat) + seq![':'];
                        assert(l =~= l.take(j as int) + l.skip(j as int));
                        lemma_enc_items_concat(l.take(j as int), l.skip(j as int));
                        assert(l.skip(j as int)[0] == l[j as int]);
                        assert(l.skip(j as int).drop_first() =~= l.skip(j as int + 1));
                        assert(enc_items(l.skip(j as int)) == enc_str(l[j as int]) + enc_items(
                            l.skip(j as int + 1),
                        ));
                        let a = head + enc_items(l.take(j as int));
                        let b = enc_str(l[j as int]);
                        let c = enc_items(l.skip(j as int + 1));
                        assert(s@ =~= a + (b + c));
                        assert(a.len() == pos);
                        assert(s@.subrange(0, s@.len() as int) =~= s@);
                        lemma_has_at_split(s@, 0, a, b + c);
                        lemma_has_at_split(s@, pos as int, b, c);
                    }
                }
                match parse_str(s, pos) {
                    Err(e) => {
                        proof {
                            assert forall|l: Seq<Seq<char>>| s@ != #[trigger] enc_str_list(l) by {
                                if s@ == enc_str_list(l) {
                                    assert(false);
                                }
                            }
                        }
                        return Err(ParseError::Cache);
                    },
                    Ok((item, p2)) => {
                        proof {
                            lemma_enc_items_push(out.deep_view(), item@);
                            assert(out.deep_view().push(item@) =~= out.deep_view() + seq![item@]);
                        }
                        let ghost old_out = out.deep_view();
                        let ghost old_pos = pos as int;
                        out.push(item);
                        proof {
                            assert(out.deep_view() =~= old_out.push(item@));
                            assert(s@.subrange(0, p2 as int) =~= s@.subrange(0, old_pos)
                                + s@.subrange(old_pos, p2 as int));
                            assert((ones(n as nat) + seq![':'] + enc_items(old_out)) + enc_str(
                                item@,
                            ) =~= ones(n as nat) + seq![':'] + enc_items(out.deep_view()));
                            assert forall|l: Seq<Seq<char>>| s@ == #[trigger] enc_str_list(
                                l,
                            ) implies out.deep_view() == l.take(j as int + 1) by {
                                assert(item@ == l[j as int]);
                                assert(old_out.push(l[j as int]) =~= l.take(j as int + 1));
                            }
                        }
                        pos = p2;
                    },
                }
                j += 1;
            }
            if pos == len {
                proof {
                    assert(s@.subrange(0, pos as int) =~= s@);
                    assert(out.deep_view().len() == n);
                    assert(enc_str_list(out.deep_view()) == ones(n as nat) + seq![':'] + enc_items(
                        out.deep_view(),
                    ));
                    assert forall|l: Seq<Seq<char>>| s@ == #[trigger] enc_str_list(l) implies
                    out.deep_view() == l by {
                        assert(out.deep_view() == l.take(n as int));
                        assert(l.take(n as int) =~= l);
                    }
                }
                Ok(out)
            } else {
                proof {
                    assert forall|l: Seq<Seq<char>>| s@ != #[trigger] enc_str_list(l) by {
                        if s@ == enc_str_list(l) {
                            assert(out.deep_view() == l.take(n as int));
                            assert(l.take(n as int) =~= l);
                            assert(s@.subrange(0, pos as int).len() == s@.len());
                            assert(false);
                        }
                    }
                }
                Err(ParseError::Cache)
            }
        },
    }
}


/// An optional field: `'N'` when absent, `'S'` and the content when present.
pub open spec fn enc_opt(o: Option<Seq<char>>) -> Seq<char> {
    match o {
        Option::None => seq!['N'],
        Option::Some(s) => seq!['S'] + s,
    }
}

fn opt_to_string(o: &Option<String>) -> (r: String)
    ensures
        r@ == enc_opt(o.deep_view()),
{
    match o {
        Option::None => {
            let r = String::from_str("N");
            proof {
                reveal_strlit("N");
                assert(r@ =~= seq!['N']);
            }
            r
        },
        Option::Some(v) => {
            let mut r = String::from_str("S");
            r.append(v.as_str());
            proof {
                reveal_strlit("S");
                assert(r@ =~= seq!['S'] + v@);
            }
            r
        },
    }
}

fn parse_opt_string(s: &str) -> (r: Result<Option<String>, ParseError>)
    ensures
        r matches Ok(o) ==> s@ == enc_opt(o.deep_view()),
        forall|ov: Option<Seq<char>>|
            s@ == #[trigger] enc_opt(ov) ==> (r matches Ok(o) && o.deep_view() == ov),
{
    let len = s.unicode_len();
    if len == 0 {
        proof {
            assert forall|ov: Option<Seq<char>>| s@ != #[trigger] enc_opt(ov) by {
                if s@ == enc_opt(ov) {
                    assert(enc_opt(ov).len() >= 1);
                }
            }
        }
        return Err(ParseError::Cache);
    }
    let c = s.get_char(0);
    if c == 'N' {
        if len == 1 {
            proof {
                assert(s@ =~= seq!['N']);
                assert forall|ov: Option<Seq<char>>| s@ == #[trigger] enc_opt(ov) implies ov
                    is None by {
                    if ov is Some {
                        assert(enc_opt(ov)[0] == 'S');
                    }
                }
            }
            Ok(None)
        } else {
            proof {
                assert forall|ov: Option<Seq<char>>| s@ != #[trigger] enc_opt(ov) by {
                    if s@ == enc_opt(ov) {
                        if ov is Some {
                            assert(enc_opt(ov)[0] == 'S');
                        } else {
                            assert(enc_opt(ov).len() == 1);
                        }
                    }
                }
            }
            Err(ParseError::Cache)
        }
    } else if c == 'S' {
        let inner = s.substring_char(1, len);
        let v = String::from_str(inner);
        proof {
            assert(s@ =~= seq!['S'] + v@);
            assert forall|ov: Option<Seq<char>>| s@ == #[trigger] enc_opt(ov) implies ov
                matches Some(t) && v@ == t by {
                if ov is None {
                    assert(enc_opt(ov)[0] == 'N');
                } else {
                    let t = ov->0;
                    assert((seq!['S'] + t).len() == s@.len());
                    assert forall|m: int| 0 <= m < t.len() implies v@[m] == t[m] by {
                        assert((seq!['S'] + t)[m + 1] == t[m]);
                        assert(s@[m + 1] == v@[m]);
                    }
                    assert(v@ =~= t);
                }
            }
        }
        Ok(Some(v))
    } else {
        proof {
            assert forall|ov: Option<Seq<char>>| s@ != #[trigger] enc_opt(ov) by {
                if s@ == enc_opt(ov) {
                    if ov is Some {
                        assert(enc_opt(ov)[0] == 'S');
                    } else {
                        assert(enc_opt(ov)[0] == 'N');
                    }
                }
            }
        }
        Err(ParseError::Cache)
    }
}

pub open spec fn enc_translation(v: TranslationView) -> Seq<char> {
    enc_str_list(seq![enc_opt(v.comment), enc_opt(v.value)])
}

fn translation_to_string(x: &Translation) -> (r: String)
    ensures
        r@ == enc_translation(x.deep_view()),
{
    let mut parts: Vec<String> = Vec::new();
    parts.push(opt_to_string(&x.comment));
    parts.push(opt_to_string(&x.value));
    proof {
        assert(parts.deep_view() =~= seq![enc_opt(x.deep_view().comment), enc_opt(x.deep_view().value)]);
    }
    enc_parts(&parts)
}

fn parse_translation(s: &str) -> (r: Result<Translation, ParseError>)
    ensures
        r matches Ok(x) ==> s@ == enc_translation(x.deep_view()),
        forall|v: TranslationView|
            s@ == #[trigger] enc_translation(v) ==> (r matches Ok(x) && x.deep_view() == v),
{
    let parts = match parse_parts(s) {
        Ok(p) => p,
        Err(e) => {
            proof {
                assert forall|v: TranslationView| s@ != #[trigger] enc_translation(v) by {
                    if s@ == enc_translation(v) {
                        assert(false);
                    }
                }
            }
            return Err(ParseError::Cache);
        },
    };
    if parts.len() != 2 {
        proof {
            assert forall|v: TranslationView| s@ != #[trigger] enc_translation(v) by {
                if s@ == enc_translation(v) {
                    assert(parts.deep_view() == seq![enc_opt(v.comment), enc_opt(v.value)]);
                }
            }
        }
        return Err(ParseError::Cache);
    }
    let f0 = match parse_opt_string(parts[0].as_str()) {
        Ok(x) => x,
        Err(e) => {
            proof {
                assert forall|v: TranslationView| s@ != #[trigger] enc_translation(v) by {
                    if s@ == enc_translation(v) {
                        assert(parts.deep_view() == seq![enc_opt(v.comment), enc_opt(v.value)]);
                        assert(parts.deep_view()[0] == enc_opt(v.comment));
                        assert(false);
                    }
                }
            }
            return Err(ParseError::Cache);
        },
    };
    let f1 = match parse_opt_string(parts[1].as_str()) {
        Ok(x) => x,
        Err(e) => {
            proof {
                assert forall|v: TranslationView| s@ != #[trigger] enc_translation(v) by {
                    if s@ == enc_translation(v) {
                        assert(parts.deep_view() == seq![enc_opt(v.comment), enc_opt(v.value)]);
                        assert(parts.deep_view()[1] == enc_opt(v.value));
                        assert(false);
                    }
                }
            }
            return Err(ParseError::Cache);
        },
    };
    let x = Translation { comment: f0, value: f1 };
    proof {
        assert(parts.deep_view() =~= seq![enc_opt(x.deep_view().comment), enc_opt(x.deep_view().value)]);
        assert(s@ == enc_translation(x.deep_view()));
        assert forall|v: TranslationView| s@ == #[trigger] enc_translation(v) implies x.deep_view() =~= v by {
            assert(parts.deep_view() == seq![enc_opt(v.comment), enc_opt(v.value)]);
            assert(parts.deep_view()[0] == enc_opt(v.comment));
            assert(f0.deep_view() == v.comment);
            assert(parts.deep_view()[1] == enc_opt(v.value));
            assert(f1.deep_view() == v.value);
        }
    }
    Ok(x)
}

/// An optional nested translation: `'N'`, or `'S'` and its record.
pub open spec fn enc_opt_translation(o: Option<TranslationView>) -> Seq<char> {
    match o {
        Option::None => seq!['N'],
        Option::Some(t) => seq!['S'] + enc_translation(t),
    }
}

fn opt_translation_to_string(o: &Option<Translation>) -> (r: String)
    ensures
        r@ == enc_opt_translation(o.deep_view()),
{
    match o {
        Option::None => {
            let r = String::from_str("N");
            proof {
                reveal_strlit("N");
                assert(r@ =~= seq!['N']);
            }
            r
        },
        Option::Some(t) => {
            let mut r = String::from_str("S");
            let ts = translation_to_string(t);
            r.append(ts.as_str());
            proof {
                reveal_strlit("S");
                assert(r@ =~= seq!['S'] + enc_translation(t.deep_view()));
            }
            r
        },
    }
}

fn parse_opt_translation(s: &str) -> (r: Result<Option<Translation>, ParseError>)
    ensures
        r matches Ok(o) ==> s@ == enc_opt_translation(o.deep_view()),
        forall|ov: Option<TranslationView>|
            s@ == #[trigger] enc_opt_translation(ov) ==> (r matches Ok(o) && o.deep_view() == ov),
{
    let len = s.unicode_len();
    if len == 0 {
        proof {
            assert forall|ov: Option<TranslationView>| s@ != #[trigger] enc_opt_translation(ov) by {
                if s@ == enc_opt_translation(ov) {
                    assert(enc_opt_translation(ov).len() >= 1);
                }
            }
        }
        return Err(ParseError::Cache);
    }
    let c = s.get_char(0);
    if c == 'N' {
        if len == 1 {
            proof {
                assert(s@ =~= seq!['N']);
                assert forall|ov: Option<TranslationView>| s@ == #[trigger] enc_opt_translation(
                    ov,
                ) implies ov is None by {
                    if ov is Some {
                        assert(enc_opt_translation(ov)[0] == 'S');
                    }
                }
            }
            Ok(None)
        } else {
            proof {
                assert forall|ov: Option<TranslationView>| s@ != #[trigger] enc_opt_translation(
                    ov,
                ) by {
                    if s@ == enc_opt_translation(ov) {
                        if ov is Some {
                            assert(enc_opt_translation(ov)[0] == 'S');
                        } else {
                            assert(enc_opt_translation(ov).len() == 1);
                        }
                    }
                }
            }
            Err(ParseError::Cache)
        }
    } else if c == 'S' {
        let inner = s.substring_char(1, len);
        proof {
            assert forall|ov: Option<TranslationView>| s@ == #[trigger] enc_opt_translation(
                ov,
            ) implies ov matches Some(tv) && inner@ == enc_translation(tv) by {
                if ov is None {
                    assert(enc_opt_translation(ov)[0] == 'N');
                } else {
                    let t = enc_translation(ov->0);
                    assert((seq!['S'] + t).len() == s@.len());
                    assert forall|m: int| 0 <= m < t.len() implies inner@[m] == t[m] by {
                        assert((seq!['S'] + t)[m + 1] == t[m]);
                        assert(s@[m + 1] == inner@[m]);
                    }
                    assert(inner@ =~= t);
                }
            }
        }
        match parse_translation(inner) {
            Ok(t) => {
                proof {
                    assert(s@ =~= seq!['S'] + inner@);
                }
                Ok(Some(t))
            },
            Err(e) => {
                proof {
                    assert forall|ov: Option<TranslationView>| s@ != #[trigger] enc_opt_translation(
                        ov,
                    ) by {
                        if s@ == enc_opt_translation(ov) {
                            assert(false);
                        }
                    }
                }
                Err(ParseError::Cache)
            },
        }
    } else {
        proof {
            assert forall|ov: Option<TranslationView>| s@ != #[trigger] enc_opt_translation(ov) by {
                if s@ == enc_opt_translation(ov) {
                    if ov is Some {
                        assert(enc_opt_translation(ov)[0] == 'S');
                    } else {
                        assert(enc_opt_translation(ov)[0] == 'N');
                    }
                }
            }
        }
        Err(ParseError::Cache)
    }
}

pub open spec fn enc_synonym(v: SynonymView) -> Seq<char> {
    enc_str_list(seq![enc_opt(v.level), v.value])
}

fn synonym_to_string(x: &Synonym) -> (r: String)
    ensures
        r@ == enc_synonym(x.deep_view()),
{
    let mut parts: Vec<String> = Vec::new();
    parts.push(opt_to_string(&x.level));
    parts.push(x.value.clone());
    proof {
        assert(parts.deep_view() =~= seq![enc_opt(x.deep_view().level), x.deep_view().value]);
    }
    enc_parts(&parts)
}

fn parse_synonym(s: &str) -> (r: Result<Synonym, ParseError>)
    ensures
        r matches Ok(x) ==> s@ == enc_synonym(x.deep_view()),
        forall|v: SynonymView|
            s@ == #[trigger] enc_synonym(v) ==> (r matches Ok(x) && x.deep_view() == v),
{
    let parts = match parse_parts(s) {
        Ok(p) => p,
        Err(e) => {
            proof {
                assert forall|v: SynonymView| s@ != #[trigger] enc_synonym(v) by {
                    if s@ == enc_synonym(v) {
                        assert(false);
                    }
                }
            }
            return Err(ParseError::Cache);
        },
    };
    if parts.len() != 2 {
        proof {
            assert forall|v: SynonymView| s@ != #[trigger] enc_synonym(v) by {
                if s@ == enc_synonym(v) {
                    assert(parts.deep_view() == seq![enc_opt(v.level), v.value]);
                }
            }
        }
        return Err(ParseError::Cache);
    }
    let f0 = match parse_opt_string(parts[0].as_str()) {
        Ok(x) => x,
        Err(e) => {
            proof {
                assert forall|v: SynonymView| s@ != #[trigger] enc_synonym(v) by {
                    if s@ == enc_synonym(v) {
                        assert(parts.deep_view() == seq![enc_opt(v.level), v.value]);
                        assert(parts.deep_view()[0] == enc_opt(v.level));
                        assert(false);
                    }
                }
            }
            return Err(ParseError::Cache);
        },
    };
    let f1 = String::from_str(parts[1].as_str());
    let x = Synonym { level: f0, value: f1 };
    proof {
        assert(parts.deep_view() =~= seq![enc_opt(x.deep_view().level), x.deep_view().value]);
        assert(s@ == enc_synonym(x.deep_view()));
        assert forall|v: SynonymView| s@ == #[trigger] enc_synonym(v) implies x.deep_view() =~= v by {
            assert(parts.deep_view() == seq![enc_opt(v.level), v.value]);
            assert(parts.deep_view()[0] == enc_opt(v.level));
            assert(f0.deep_view() == v.level);
            assert(parts.deep_view()[1] == v.value);
            assert(f1@ == v.value);
        }
    }
    Ok(x)
}

pub open spec fn enc_phonetic(v: PhoneticView) -> Seq<char> {
    enc_str_list(seq![enc_opt(v.sound_file), enc_opt(v.value)])
}

fn phonetic_to_string(x: &Phonetic) -> (r: String)
    ensures
        r@ == enc_phonetic(x.deep_view()),
{
    let mut parts: Vec<String> = Vec::new();
    parts.push(opt_to_string(&x.sound_file));
    parts.push(opt_to_string(&x.value));
    proof {
        assert(parts.deep_view() =~= seq![enc_opt(x.deep_view().sound_file), enc_opt(x.deep_view().value)]);
    }
    enc_parts(&parts)
}

fn parse_phonetic(s: &str) -> (r: Result<Phonetic, ParseError>)
    ensures
        r matches Ok(x) ==> s@ == enc_phonetic(x.deep_view()),
        forall|v: PhoneticView|
            s@ == #[trigger] enc_phonetic(v) ==> (r matches Ok(x) && x.deep_view() == v),
{
    let parts = match parse_parts(s) {
        Ok(p) => p,
        Err(e) => {
            proof {
                assert forall|v: PhoneticView| s@ != #[trigger] enc_phonetic(v) by {
                    if s@ == enc_phonetic(v) {
                        assert(false);
                    }
                }
            }
            return Err(ParseError::Cache);
        },
    };
    if parts.len() != 2 {
        proof {
            assert forall|v: PhoneticView| s@ != #[trigger] enc_phonetic(v) by {
                if s@ == enc_phonetic(v) {
                    assert(parts.deep_view() == seq![enc_opt(v.sound_file), enc_opt(v.value)]);
                }
            }
        }
        return Err(ParseError::Cache);
    }
    let f0 = match parse_opt_string(parts[0].as_str()) {
        Ok(x) => x,
        Err(e) => {
            proof {
                assert forall|v: PhoneticView| s@ != #[trigger] enc_phonetic(v) by {
                    if s@ == enc_phonetic(v) {
                        assert(parts.deep_view() == seq![enc_opt(v.sound_file), enc_opt(v.value)]);
                        assert(parts.deep_view()[0] == enc_opt(v.sound_file));
                        assert(false);
                    }
                }
            }
            return Err(ParseError::Cache);
        },
    };
    let f1 = match parse_opt_string(parts[1].as_str()) {
        Ok(x) => x,
        Err(e) => {
            proof {
                assert forall|v: PhoneticView| s@ != #[trigger] enc_phonetic(v) by {
                    if s@ == enc_phonetic(v) {
                        assert(parts.deep_view() == seq![enc_opt(v.sound_file), enc_opt(v.value)]);
                        assert(parts.deep_view()[1] == enc_opt(v.value));
                        assert(false);
                    }
                }
            }
            return Err(ParseError::Cache);
        },
    };
    let x = Phonetic { sound_file: f0, value: f1 };
    proof {
        assert(parts.deep_view() =~= seq![enc_opt(x.deep_view().sound_file), enc_opt(x.deep_view().value)]);
        assert(s@ == enc_phonetic(x.deep_view()));
        assert forall|v: PhoneticView| s@ == #[trigger] enc_phonetic(v) implies x.deep_view() =~= v by {
            assert(parts.deep_view() == seq![enc_opt(v.sound_file), enc_opt(v.value)]);
            assert(parts.deep_view()[0] == enc_opt(v.sound_file));
            assert(f0.deep_view() == v.sound_file);
            assert(parts.deep_view()[1] == enc_opt(v.value));
            assert(f1.deep_view() == v.value);
        }
    }
    Ok(x)
}

pub open spec fn enc_inflection(v: InflectionView) -> Seq<char> {
    enc_str_list(seq![v.value])
}

fn inflection_to_string(x: &Inflection) -> (r: String)
    ensures
        r@ == enc_inflection(x.deep_view()),
{
    let mut parts: Vec<String> = Vec::new();
    parts.push(x.value.clone());
    proof {
        assert(parts.deep_view() =~= seq![x.deep_view().value]);
    }
    enc_parts(&parts)
}

fn parse_inflection(s: &str) -> (r: Result<Inflection, ParseError>)
    ensures
        r matches Ok(x) ==> s@ == enc_inflection(x.deep_view()),
        forall|v: InflectionView|
            s@ == #[trigger] enc_inflection(v) ==> (r matches Ok(x) && x.deep_view() == v),
{
    let parts = match parse_parts(s) {
        Ok(p) => p,
        Err(e) => {
            proof {
                assert forall|v: InflectionView| s@ != #[trigger] enc_inflection(v) by {
                    if s@ == enc_inflection(v) {
                        assert(false);
                    }
                }
            }
            return Err(ParseError::Cache);
        },
    };
    if parts.len() != 1 {
        proof {
            assert forall|v: InflectionView| s@ != #[trigger] enc_inflection(v) by {
                if s@ == enc_inflection(v) {
                    assert(parts.deep_view() == seq![v.value]);
                }
            }
        }
        return Err(ParseError::Cache);
    }
    let f0 = String::from_str(parts[0].as_str());
    let x = Inflection { value: f0 };
    proof {
        assert(parts.deep_view() =~= seq![x.deep_view().value]);
        assert(s@ == enc_inflection(x.deep_view()));
        assert forall|v: InflectionView| s@ == #[trigger] enc_inflection(v) implies x.deep_view() =~= v by {
            assert(parts.deep_view() == seq![v.value]);
            assert(parts.deep_view()[0] == v.value);
            assert(f0@ == v.value);
        }
    }
    Ok(x)
}

pub open spec fn enc_see(v: SeeView) -> Seq<char> {
    enc_str_list(seq![enc_opt(v.see_type), enc_opt(v.value)])
}

fn see_to_string(x: &See) -> (r: String)
    ensures
        r@ == enc_see(x.deep_view()),
{
    let mut parts: Vec<String> = Vec::new();
    parts.push(opt_to_string(&x.see_type));
    parts.push(opt_to_string(&x.value));
    proof {
        assert(parts.deep_view() =~= seq![enc_opt(x.deep_view().see_type), enc_opt(x.deep_view().value)]);
    }
    enc_parts(&parts)
}

fn parse_see(s: &str) -> (r: Result<See, ParseError>)
    ensures
        r matches Ok(x) ==> s@ == enc_see(x.deep_view()),
        forall|v: SeeView|
            s@ == #[trigger] enc_see(v) ==> (r matches Ok(x) && x.deep_view() == v),
{
    let parts = match parse_parts(s) {
        Ok(p) => p,
        Err(e) => {
            proof {
                assert forall|v: SeeView| s@ != #[trigger] enc_see(v) by {
                    if s@ == enc_see(v) {
                        assert(false);
                    }
                }
            }
            return Err(ParseError::Cache);
        },
    };
    if parts.len() != 2 {
        proof {
            assert forall|v: SeeView| s@ != #[trigger] enc_see(v) by {
                if s@ == enc_see(v) {
                    assert(parts.deep_view() == seq![enc_opt(v.see_type), enc_opt(v.value)]);
                }
            }
        }
        return Err(ParseError::Cache);
    }
    let f0 = match parse_opt_string(parts[0].as_str()) {
        Ok(x) => x,
        Err(e) => {
            proof {
                assert forall|v: SeeView| s@ != #[trigger] enc_see(v) by {
                    if s@ == enc_see(v) {
                        assert(parts.deep_view() == seq![enc_opt(v.see_type), enc_opt(v.value)]);
                        assert(parts.deep_view()[0] == enc_opt(v.see_type));
                        assert(false);
                    }
                }
            }
            return Err(ParseError::Cache);
        },
    };
    let f1 = match parse_opt_string(parts[1].as_str()) {
        Ok(x) => x,
        Err(e) => {
            proof {
                assert forall|v: SeeView| s@ != #[trigger] enc_see(v) by {
                    if s@ == enc_see(v) {
                        assert(parts.deep_view() == seq![enc_opt(v.see_type), enc_opt(v.value)]);
                        assert(parts.deep_view()[1] == enc_opt(v.value));
                        assert(false);
                    }
                }
            }
            return Err(ParseError::Cache);
        },
    };
    let x = See { see_type: f0, value: f1 };
    proof {
        assert(parts.deep_view() =~= seq![enc_opt(x.deep_view().see_type), enc_opt(x.deep_view().value)]);
        assert(s@ == enc_see(x.deep_view()));
        assert forall|v: SeeView| s@ == #[trigger] enc_see(v) implies x.deep_view() =~= v by {
            assert(parts.deep_view() == seq![enc_opt(v.see_type), enc_opt(v.value)]);
            assert(parts.deep_view()[0] == enc_opt(v.see_type));
            assert(f0.deep_view() == v.see_type);
            assert(parts.deep_view()[1] == enc_opt(v.value));
            assert(f1.deep_view() == v.value);
        }
    }
    Ok(x)
}

pub open spec fn enc_example(v: ExampleView) -> Seq<char> {
    enc_str_list(seq![enc_opt(v.value), enc_opt_translation(v.translation)])
}

fn example_to_string(x: &Example) -> (r: String)
    ensures
        r@ == enc_example(x.deep_view()),
{
    let mut parts: Vec<String> = Vec::new();
    parts.push(opt_to_string(&x.value));
    parts.push(opt_translation_to_string(&x.translation));
    proof {
        assert(parts.deep_view() =~= seq![enc_opt(x.deep_view().value), enc_opt_translation(x.deep_view().translation)]);
    }
    enc_parts(&parts)
}

fn parse_example(s: &str) -> (r: Result<Example, ParseError>)
    ensures
        r matches Ok(x) ==> s@ == enc_example(x.deep_view()),
        forall|v: ExampleView|
            s@ == #[trigger] enc_example(v) ==> (r matches Ok(x) && x.deep_view() == v),
{
    let parts = match parse_parts(s) {
        Ok(p) => p,
        Err(e) => {
            proof {
                assert forall|v: ExampleView| s@ != #[trigger] enc_example(v) by {
                    if s@ == enc_example(v) {
                        assert(false);
                    }
                }
            }
            return Err(ParseError::Cache);
        },
    };
    if parts.len() != 2 {
        proof {
            assert forall|v: ExampleView| s@ != #[trigger] enc_example(v) by {
                if s@ == enc_example(v) {
                    assert(parts.deep_view() == seq![enc_opt(v.value), enc_opt_translation(v.translation)]);
                }
            }
        }
        return Err(ParseError::Cache);
    }
    let f0 = match parse_opt_string(parts[0].as_str()) {
        Ok(x) => x,
        Err(e) => {
            proof {
                assert forall|v: ExampleView| s@ != #[trigger] enc_example(v) by {
                    if s@ == enc_example(v) {
                        assert(parts.deep_view() == seq![enc_opt(v.value), enc_opt_translation(v.translation)]);
                        assert(parts.deep_view()[0] == enc_opt(v.value));
                        assert(false);
                    }
                }
            }
            return Err(ParseError::Cache);
        },
    };
    let f1 = match parse_opt_translation(parts[1].as_str()) {
        Ok(x) => x,
        Err(e) => {
            proof {
                assert forall|v: ExampleView| s@ != #[trigger] enc_example(v) by {
                    if s@ == enc_example(v) {
                        assert(parts.deep_view() == seq![enc_opt(v.value), enc_opt_translation(v.translation)]);
                        assert(parts.deep_view()[1] == enc_opt_translation(v.translation));
                        assert(false);
                    }
                }
            }
            return Err(ParseError::Cache);
        },
    };
    let x = Example { value: f0, translation: f1 };
    proof {
        assert(parts.deep_view() =~= seq![enc_opt(x.deep_view().value), enc_opt_translation(x.deep_view().translation)]);
        assert(s@ == enc_example(x.deep_view()));
        assert forall|v: ExampleView| s@ == #[trigger] enc_example(v) implies x.deep_view() =~= v by {
            assert(parts.deep_view() == seq![enc_opt(v.value), enc_opt_translation(v.translation)]);
            assert(parts.deep_view()[0] == enc_opt(v.value));
            assert(f0.deep_view() == v.value);
            assert(parts.deep_view()[1] == enc_opt_translation(v.translation));
            assert(f1.deep_view() == v.translation);
        }
    }
    Ok(x)
}

pub open spec fn enc_related(v: RelatedWordView) -> Seq<char> {
    enc_str_list(seq![v.word_type, v.value])
}

fn related_to_string(x: &RelatedWord) -> (r: String)
    ensures
        r@ == enc_related(x.deep_view()),
{
    let mut parts: Vec<String> = Vec::new();
    parts.push(x.word_type.clone());
    parts.push(x.value.clone());
    proof {
        assert(parts.deep_view() =~= seq![x.deep_view().word_type, x.deep_view().value]);
    }
    enc_parts(&parts)
}

fn parse_related(s: &str) -> (r: Result<RelatedWord, ParseError>)
    ensures
        r matches Ok(x) ==> s@ == enc_related(x.deep_view()),
        forall|v: RelatedWordView|
            s@ == #[trigger] enc_related(v) ==> (r matches Ok(x) && x.deep_view() == v),
{
    let parts = match parse_parts(s) {
        Ok(p) => p,
        Err(e) => {
            proof {
                assert forall|v: RelatedWordView| s@ != #[trigger] enc_related(v) by {
                    if s@ == enc_related(v) {
                        assert(false);
                    }
                }
            }
            return Err(ParseError::Cache);
        },
    };
    if parts.len() != 2 {
        proof {
            assert forall|v: RelatedWordView| s@ != #[trigger] enc_related(v) by {
                if s@ == enc_related(v) {
                    assert(parts.deep_view() == seq![v.word_type, v.value]);
                }
            }
        }
        return Err(ParseError::Cache);
    }
    let f0 = String::from_str(parts[0].as_str());
    let f1 = String::from_str(parts[1].as_str());
    let x = RelatedWord { word_type: f0, value: f1 };
    proof {
        assert(parts.deep_view() =~= seq![x.deep_view().word_type, x.deep_view().value]);
        assert(s@ == enc_related(x.deep_view()));
        assert forall|v: RelatedWordView| s@ == #[trigger] enc_related(v) implies x.deep_view() =~= v by {
            assert(parts.deep_view() == seq![v.word_type, v.value]);
            assert(parts.deep_view()[0] == v.word_type);
            assert(f0@ == v.word_type);
            assert(parts.deep_view()[1] == v.value);
            assert(f1@ == v.value);
        }
    }
    Ok(x)
}

pub open spec fn enc_definition(v: DefinitionView) -> Seq<char> {
    enc_str_list(seq![enc_opt(v.value), enc_opt_translation(v.translation)])
}

fn definition_to_string(x: &Definition) -> (r: String)
    ensures
        r@ == enc_definition(x.deep_view()),
{
    let mut parts: Vec<String> = Vec::new();
    parts.push(opt_to_string(&x.value));
    parts.push(opt_translation_to_string(&x.translation));
    proof {
        assert(parts.deep_view() =~= seq![enc_opt(x.deep_view().value), enc_opt_translation(x.deep_view().translation)]);
    }
    enc_parts(&parts)
}

fn parse_definition(s: &str) -> (r: Result<Definition, ParseError>)
    ensures
        r matches Ok(x) ==> s@ == enc_definition(x.deep_view()),
        forall|v: DefinitionView|
            s@ == #[trigger] enc_definition(v) ==> (r matches Ok(x) && x.deep_view() == v),
{
    let parts = match parse_parts(s) {
        Ok(p) => p,
        Err(e) => {
            proof {
                assert forall|v: DefinitionView| s@ != #[trigger] enc_definition(v) by {
                    if s@ == enc_definition(v) {
                        assert(false);
                    }
                }
            }
            return Err(ParseError::Cache);
        },
    };
    if parts.len() != 2 {
        proof {
            assert forall|v: DefinitionView| s@ != #[trigger] enc_definition(v) by {
                if s@ == enc_definition(v) {
                    assert(parts.deep_view() == seq![enc_opt(v.value), enc_opt_translation(v.translation)]);
                }
            }
        }
        return Err(ParseError::Cache);
    }
    let f0 = match parse_opt_string(parts[0].as_str()) {
        Ok(x) => x,
        Err(e) => {
            proof {
                assert forall|v: DefinitionView| s@ != #[trigger] enc_definition(v) by {
                    if s@ == enc_definition(v) {
                        assert(parts.deep_view() == seq![enc_opt(v.value), enc_opt_translation(v.translation)]);
                        assert(parts.deep_view()[0] == enc_opt(v.value));
                        assert(false);
                    }
                }
            }
            return Err(ParseError::Cache);
        },
    };
    let f1 = match parse_opt_translation(parts[1].as_str()) {
        Ok(x) => x,
        Err(e) => {
            proof {
                assert forall|v: DefinitionView| s@ != #[trigger] enc_definition(v) by {
                    if s@ == enc_definition(v) {
                        assert(parts.deep_view() == seq![enc_opt(v.value), enc_opt_translation(v.translation)]);
                        assert(parts.deep_view()[1] == enc_opt_translation(v.translation));
                        assert(false);
                    }
                }
            }
            return Err(ParseError::Cache);
        },
    };
    let x = Definition { value: f0, translation: f1 };
    proof {
        assert(parts.deep_view() =~= seq![enc_opt(x.deep_view().value), enc_opt_translation(x.deep_view().translation)]);
        assert(s@ == enc_definition(x.deep_view()));
        assert forall|v: DefinitionView| s@ == #[trigger] enc_definition(v) implies x.deep_view() =~= v by {
            assert(parts.deep_view() == seq![enc_opt(v.value), enc_opt_translation(v.translation)]);
            assert(parts.deep_view()[0] == enc_opt(v.value));
            assert(f0.deep_view() == v.value);
            assert(parts.deep_view()[1] == enc_opt_translation(v.translation));
            assert(f1.deep_view() == v.translation);
        }
    }
    Ok(x)
}

pub open spec fn enc_translation_list(l: Seq<TranslationView>) -> Seq<char> {
    enc_str_list(l.map_values(|t: TranslationView| enc_translation(t)))
}

fn translation_list_to_string(v: &Vec<Translation>) -> (r: String)
    ensures
        r@ == enc_translation_list(v.deep_view()),
{
    let ghost vd = v.deep_view();
    let mut parts: Vec<String> = Vec::new();
    let n = v.len();
    let mut i: usize = 0;
    while i < n
        invariant
            i <= n,
            n == v@.len(),
            vd == v.deep_view(),
            parts.deep_view().len() == i,
            forall|m: int| 0 <= m < i ==> parts.deep_view()[m] == enc_translation(vd[m]),
        decreases n - i,
    {
        let p = translation_to_string(&v[i]);
        let ghost pre = parts.deep_view();
        parts.push(p);
        proof {
            assert(parts.deep_view() =~= pre.push(p@));
            assert(p@ == enc_translation(vd[i as int]));
        }
        i += 1;
    }
    proof {
        assert(parts.deep_view() =~= vd.map_values(|t: TranslationView| enc_translation(t)));
    }
    enc_parts(&parts)
}

fn parse_translation_list(s: &str) -> (r: Result<Vec<Translation>, ParseError>)
    ensures
        r matches Ok(v) ==> s@ == enc_translation_list(v.deep_view()),
        forall|l: Seq<TranslationView>|
            s@ == #[trigger] enc_translation_list(l) ==> (r matches Ok(v) && v.deep_view() == l),
{
    let items = match parse_parts(s) {
        Ok(p) => p,
        Err(e) => {
            proof {
                assert forall|l: Seq<TranslationView>| s@ != #[trigger] enc_translation_list(l) by {
                    if s@ == enc_translation_list(l) {
                        assert(false);
                    }
                }
            }
            return Err(ParseError::Cache);
        },
    };
    let n = items.len();
    let mut out: Vec<Translation> = Vec::new();
    let mut i: usize = 0;
    while i < n
        invariant
            i <= n,
            n == items@.len(),
            s@ == enc_str_list(items.deep_view()),
            out.deep_view().len() == i,
            forall|m: int|
                0 <= m < i ==> items.deep_view()[m] == enc_translation(out.deep_view()[m]),
            forall|l: Seq<TranslationView>|
                s@ == #[trigger] enc_translation_list(l) ==> items.deep_view() == l.map_values(
                    |t: TranslationView| enc_translation(t),
                ),
            forall|l: Seq<TranslationView>|
                s@ == #[trigger] enc_translation_list(l) ==> l.len() == n && out.deep_view() == l.take(
                    i as int,
                ),
        decreases n - i,
    {
        let t = match parse_translation(items[i].as_str()) {
            Ok(t) => t,
            Err(e) => {
                proof {
                    assert forall|l: Seq<TranslationView>| s@ != #[trigger] enc_translation_list(l) by {
                        if s@ == enc_translation_list(l) {
                            assert(items.deep_view()[i as int] == enc_translation(l[i as int]));
                            assert(false);
                        }
                    }
                }
                return Err(ParseError::Cache);
            },
        };
        out.push(t);
        proof {
            assert forall|l: Seq<TranslationView>| s@ == #[trigger] enc_translation_list(l) implies out.deep_view()
                == l.take(i as int + 1) by {
                assert(items.deep_view()[i as int] == enc_translation(l[i as int]));
                assert(t.deep_view() == l[i as int]);
                assert(out.deep_view() =~= l.take(i as int + 1));
            }
        }
        i += 1;
    }
    proof {
        assert(items.deep_view() =~= out.deep_view().map_values(|t: TranslationView| enc_translation(t)));
        assert forall|l: Seq<TranslationView>| s@ == #[trigger] enc_translation_list(l) implies out.deep_view()
            == l by {
            assert(out.deep_view() == l.take(n as int));
            assert(l.take(n as int) =~= l);
        }
    }
    Ok(out)
}

pub open spec fn enc_synonym_list(l: Seq<SynonymView>) -> Seq<char> {
    enc_str_list(l.map_values(|t: SynonymView| enc_synonym(t)))
}

fn synonym_list_to_string(v: &Vec<Synonym>) -> (r: String)
    ensures
        r@ == enc_synonym_list(v.deep_view()),
{
    let ghost vd = v.deep_view();
    let mut parts: Vec<String> = Vec::new();
    let n = v.len();
    let mut i: usize = 0;
    while i < n
        invariant
            i <= n,
            n == v@.len(),
            vd == v.deep_view(),
            parts.deep_view().len() == i,
            forall|m: int| 0 <= m < i ==> parts.deep_view()[m] == enc_synonym(vd[m]),
        decreases n - i,
    {
        let p = synonym_to_string(&v[i]);
        let ghost pre = parts.deep_view();
        parts.push(p);
        proof {
            assert(parts.deep_view() =~= pre.push(p@));
            assert(p@ == enc_synonym(vd[i as int]));
        }
        i += 1;
    }
    proof {
        assert(parts.deep_view() =~= vd.map_values(|t: SynonymView| enc_synonym(t)));
    }
    enc_parts(&parts)
}

fn parse_synonym_list(s: &str) -> (r: Result<Vec<Synonym>, ParseError>)
    ensures
        r matches Ok(v) ==> s@ == enc_synonym_list(v.deep_view()),
        forall|l: Seq<SynonymView>|
            s@ == #[trigger] enc_synonym_list(l) ==> (r matches Ok(v) && v.deep_view() == l),
{
    let items = match parse_parts(s) {
        Ok(p) => p,
        Err(e) => {
            proof {
                assert forall|l: Seq<SynonymView>| s@ != #[trigger] enc_synonym_list(l) by {
                    if s@ == enc_synonym_list(l) {
                        assert(false);
                    }
                }
            }
            return Err(ParseError::Cache);
        },
    };
    let n = items.len();
    let mut out: Vec<Synonym> = Vec::new();
    let mut i: usize = 0;
    while i < n
        invariant
            i <= n,
            n == items@.len(),
            s@ == enc_str_list(items.deep_view()),
            out.deep_view().len() == i,
            forall|m: int|
                0 <= m < i ==> items.deep_view()[m] == enc_synonym(out.deep_view()[m]),
            forall|l: Seq<SynonymView>|
                s@ == #[trigger] enc_synonym_list(l) ==> items.deep_view() == l.map_values(
                    |t: SynonymView| enc_synonym(t),
                ),
            forall|l: Seq<SynonymView>|
                s@ == #[trigger] enc_synonym_list(l) ==> l.len() == n && out.deep_view() == l.take(
                    i as int,
                ),
        decreases n - i,
    {
        let t = match parse_synonym(items[i].as_str()) {
            Ok(t) => t,
            Err(e) => {
                proof {
                    assert forall|l: Seq<SynonymView>| s@ != #[trigger] enc_synonym_list(l) by {
                        if s@ == enc_synonym_list(l) {
                            assert(items.deep_view()[i as int] == enc_synonym(l[i as int]));
                            assert(false);
                        }
                    }
                }
                return Err(ParseError::Cache);
            },
        };
        out.push(t);
        proof {
            assert forall|l: Seq<SynonymView>| s@ == #[trigger] enc_synonym_list(l) implies out.deep_view()
                == l.take(i as int + 1) by {
                assert(items.deep_view()[i as int] == enc_synonym(l[i as int]));
                assert(t.deep_view() == l[i as int]);
                assert(out.deep_view() =~= l.take(i as int + 1));
            }
        }
        i += 1;
    }
    proof {
        assert(items.deep_view() =~= out.deep_view().map_values(|t: SynonymView| enc_synonym(t)));
        assert forall|l: Seq<SynonymView>| s@ == #[trigger] enc_synonym_list(l) implies out.deep_view()
            == l by {
            assert(out.deep_view() == l.take(n as int));
            assert(l.take(n as int) =~= l);
        }
    }
    Ok(out)
}

pub open spec fn enc_phonetic_list(l: Seq<PhoneticView>) -> Seq<char> {
    enc_str_list(l.map_values(|t: PhoneticView| enc_phonetic(t)))
}

fn phonetic_list_to_string(v: &Vec<Phonetic>) -> (r: String)
    ensures
        r@ == enc_phonetic_list(v.deep_view()),
{
    let ghost vd = v.deep_view();
    let mut parts: Vec<String> = Vec::new();
    let n = v.len();
    let mut i: usize = 0;
    while i < n
        invariant
            i <= n,
            n == v@.len(),
            vd == v.deep_view(),
            parts.deep_view().len() == i,
            forall|m: int| 0 <= m < i ==> parts.deep_view()[m] == enc_phonetic(vd[m]),
        decreases n - i,
    {
        let p = phonetic_to_string(&v[i]);
        let ghost pre = parts.deep_view();
        parts.push(p);
        proof {
            assert(parts.deep_view() =~= pre.push(p@));
            assert(p@ == enc_phonetic(vd[i as int]));
        }
        i += 1;
    }
    proof {
        assert(parts.deep_view() =~= vd.map_values(|t: PhoneticView| enc_phonetic(t)));
    }
    enc_parts(&parts)
}

fn parse_phonetic_list(s: &str) -> (r: Result<Vec<Phonetic>, ParseError>)
    ensures
        r matches Ok(v) ==> s@ == enc_phonetic_list(v.deep_view()),
        forall|l: Seq<PhoneticView>|
            s@ == #[trigger] enc_phonetic_list(l) ==> (r matches Ok(v) && v.deep_view() == l),
{
    let items = match parse_parts(s) {
        Ok(p) => p,
        Err(e) => {
            proof {
                assert forall|l: Seq<PhoneticView>| s@ != #[trigger] enc_phonetic_list(l) by {
                    if s@ == enc_phonetic_list(l) {
                        assert(false);
                    }
                }
            }
            return Err(ParseError::Cache);
        },
    };
    let n = items.len();
    let mut out: Vec<Phonetic> = Vec::new();
    let mut i: usize = 0;
    while i < n
        invariant
            i <= n,
            n == items@.len(),
            s@ == enc_str_list(items.deep_view()),
            out.deep_view().len() == i,
            forall|m: int|
                0 <= m < i ==> items.deep_view()[m] == enc_phonetic(out.deep_view()[m]),
            forall|l: Seq<PhoneticView>|
                s@ == #[trigger] enc_phonetic_list(l) ==> items.deep_view() == l.map_values(
                    |t: PhoneticView| enc_phonetic(t),
                ),
            forall|l: Seq<PhoneticView>|
                s@ == #[trigger] enc_phonetic_list(l) ==> l.len() == n && out.deep_view() == l.take(
                    i as int,
                ),
        decreases n - i,
    {
        let t = match parse_phonetic(items[i].as_str()) {
            Ok(t) => t,
            Err(e) => {
                proof {
                    assert forall|l: Seq<PhoneticView>| s@ != #[trigger] enc_phonetic_list(l) by {
                        if s@ == enc_phonetic_list(l) {
                            assert(items.deep_view()[i as int] == enc_phonetic(l[i as int]));
                            assert(false);
                        }
                    }
                }
                return Err(ParseError::Cache);
            },
        };
        out.push(t);
        proof {
            assert forall|l: Seq<PhoneticView>| s@ == #[trigger] enc_phonetic_list(l) implies out.deep_view()
                == l.take(i as int + 1) by {
                assert(items.deep_view()[i as int] == enc_phonetic(l[i as int]));
                assert(t.deep_view() == l[i as int]);
                assert(out.deep_view() =~= l.take(i as int + 1));
            }
        }
        i += 1;
    }
    proof {
        assert(items.deep_view() =~= out.deep_view().map_values(|t: PhoneticView| enc_phonetic(t)));
        assert forall|l: Seq<PhoneticView>| s@ == #[trigger] enc_phonetic_list(l) implies out.deep_view()
            == l by {
            assert(out.deep_view() == l.take(n as int));
            assert(l.take(n as int) =~= l);
        }
    }
    Ok(out)
}

pub open spec fn enc_inflection_list(l: Seq<InflectionView>) -> Seq<char> {
    enc_str_list(l.map_values(|t: InflectionView| enc_inflection(t)))
}

fn inflection_list_to_string(v: &Vec<Inflection>) -> (r: String)
    ensures
        r@ == enc_inflection_list(v.deep_view()),
{
    let ghost vd = v.deep_view();
    let mut parts: Vec<String> = Vec::new();
    let n = v.len();
    let mut i: usize = 0;
    while i < n
        invariant
            i <= n,
            n == v@.len(),
            vd == v.deep_view(),
            parts.deep_view().len() == i,
            forall|m: int| 0 <= m < i ==> parts.deep_view()[m] == enc_inflection(vd[m]),
        decreases n - i,
    {
        let p = inflection_to_string(&v[i]);
        let ghost pre = parts.deep_view();
        parts.push(p);
        proof {
            assert(parts.deep_view() =~= pre.push(p@));
            assert(p@ == enc_inflection(vd[i as int]));
        }
        i += 1;
    }
    proof {
        assert(parts.deep_view() =~= vd.map_values(|t: InflectionView| enc_inflection(t)));
    }
    enc_parts(&parts)
}

fn parse_inflection_list(s: &str) -> (r: Result<Vec<Inflection>, ParseError>)
    ensures
        r matches Ok(v) ==> s@ == enc_inflection_list(v.deep_view()),
        forall|l: Seq<InflectionView>|
            s@ == #[trigger] enc_inflection_list(l) ==> (r matches Ok(v) && v.deep_view() == l),
{
    let items = match parse_parts(s) {
        Ok(p) => p,
        Err(e) => {
            proof {
                assert forall|l: Seq<InflectionView>| s@ != #[trigger] enc_inflection_list(l) by {
                    if s@ == enc_inflection_list(l) {
                        assert(false);
                    }
                }
            }
            return Err(ParseError::Cache);
        },
    };
    let n = items.len();
    let mut out: Vec<Inflection> = Vec::new();
    let mut i: usize = 0;
    while i < n
        invariant
            i <= n,
            n == items@.len(),
            s@ == enc_str_list(items.deep_view()),
            out.deep_view().len() == i,
            forall|m: int|
                0 <= m < i ==> items.deep_view()[m] == enc_inflection(out.deep_view()[m]),
            forall|l: Seq<InflectionView>|
                s@ == #[trigger] enc_inflection_list(l) ==> items.deep_view() == l.map_values(
                    |t: InflectionView| enc_inflection(t),
                ),
            forall|l: Seq<InflectionView>|
                s@ == #[trigger] enc_inflection_list(l) ==> l.len() == n && out.deep_view() == l.take(
                    i as int,
                ),
        decreases n - i,
    {
        let t = match parse_inflection(items[i].as_str()) {
            Ok(t) => t,
            Err(e) => {
                proof {
                    assert forall|l: Seq<InflectionView>| s@ != #[trigger] enc_inflection_list(l) by {
                        if s@ == enc_inflection_list(l) {
                            assert(items.deep_view()[i as int] == enc_inflection(l[i as int]));
                            assert(false);
                        }
                    }
                }
                return Err(ParseError::Cache);
            },
        };
        out.push(t);
        proof {
            assert forall|l: Seq<InflectionView>| s@ == #[trigger] enc_inflection_list(l) implies out.deep_view()
                == l.take(i as int + 1) by {
                assert(items.deep_view()[i as int] == enc_inflection(l[i as int]));
                assert(t.deep_view() == l[i as int]);
                assert(out.deep_view() =~= l.take(i as int + 1));
            }
        }
        i += 1;
    }
    proof {
        assert(items.deep_view() =~= out.deep_view().map_values(|t: InflectionView| enc_inflection(t)));
        assert forall|l: Seq<InflectionView>| s@ == #[trigger] enc_inflection_list(l) implies out.deep_view()
            == l by {
            assert(out.deep_view() == l.take(n as int));
            assert(l.take(n as int) =~= l);
        }
    }
    Ok(out)
}

pub open spec fn enc_see_list(l: Seq<SeeView>) -> Seq<char> {
    enc_str_list(l.map_values(|t: SeeView| enc_see(t)))
}

fn see_list_to_string(v: &Vec<See>) -> (r: String)
    ensures
        r@ == enc_see_list(v.deep_view()),
{
    let ghost vd = v.deep_view();
    let mut parts: Vec<String> = Vec::new();
    let n = v.len();
    let mut i: usize = 0;
    while i < n
        invariant
            i <= n,
            n == v@.len(),
            vd == v.deep_view(),
            parts.deep_view().len() == i,
            forall|m: int| 0 <= m < i ==> parts.deep_view()[m] == enc_see(vd[m]),
        decreases n - i,
    {
        let p = see_to_string(&v[i]);
        let ghost pre = parts.deep_view();
        parts.push(p);
        proof {
            assert(parts.deep_view() =~= pre.push(p@));
            assert(p@ == enc_see(vd[i as int]));
        }
        i += 1;
    }
    proof {
        assert(parts.deep_view() =~= vd.map_values(|t: SeeView| enc_see(t)));
    }
    enc_parts(&parts)
}

fn parse_see_list(s: &str) -> (r: Result<Vec<See>, ParseError>)
    ensures
        r matches Ok(v) ==> s@ == enc_see_list(v.deep_view()),
        forall|l: Seq<SeeView>|
            s@ == #[trigger] enc_see_list(l) ==> (r matches Ok(v) && v.deep_view() == l),
{
    let items = match parse_parts(s) {
        Ok(p) => p,
        Err(e) => {
            proof {
                assert forall|l: Seq<SeeView>| s@ != #[trigger] enc_see_list(l) by {
                    if s@ == enc_see_list(l) {
                        assert(false);
                    }
                }
            }
            return Err(ParseError::Cache);
        },
    };
    let n = items.len();
    let mut out: Vec<See> = Vec::new();
    let mut i: usize = 0;
    while i < n
        invariant
            i <= n,
            n == items@.len(),
            s@ == enc_str_list(items.deep_view()),
            out.deep_view().len() == i,
            forall|m: int|
                0 <= m < i ==> items.deep_view()[m] == enc_see(out.deep_view()[m]),
            forall|l: Seq<SeeView>|
                s@ == #[trigger] enc_see_list(l) ==> items.deep_view() == l.map_values(
                    |t: SeeView| enc_see(t),
                ),
            forall|l: Seq<SeeView>|
                s@ == #[trigger] enc_see_list(l) ==> l.len() == n && out.deep_view() == l.take(
                    i as int,
                ),
        decreases n - i,
    {
        let t = match parse_see(items[i].as_str()) {
            Ok(t) => t,
            Err(e) => {
                proof {
                    assert forall|l: Seq<SeeView>| s@ != #[trigger] enc_see_list(l) by {
                        if s@ == enc_see_list(l) {
                            assert(items.deep_view()[i as int] == enc_see(l[i as int]));
                            assert(false);
                        }
                    }
                }
                return Err(ParseError::Cache);
            },
        };
        out.push(t);
        proof {
            assert forall|l: Seq<SeeView>| s@ == #[trigger] enc_see_list(l) implies out.deep_view()
                == l.take(i as int + 1) by {
                assert(items.deep_view()[i as int] == enc_see(l[i as int]));
                assert(t.deep_view() == l[i as int]);
                assert(out.deep_view() =~= l.take(i as int + 1));
            }
        }
        i += 1;
    }
    proof {
        assert(items.deep_view() =~= out.deep_view().map_values(|t: SeeView| enc_see(t)));
        assert forall|l: Seq<SeeView>| s@ == #[trigger] enc_see_list(l) implies out.deep_view()
            == l by {
            assert(out.deep_view() == l.take(n as int));
            assert(l.take(n as int) =~= l);
        }
    }
    Ok(out)
}

pub open spec fn enc_example_list(l: Seq<ExampleView>) -> Seq<char> {
    enc_str_list(l.map_values(|t: ExampleView| enc_example(t)))
}

fn example_list_to_string(v: &Vec<Example>) -> (r: String)
    ensures
        r@ == enc_example_list(v.deep_view()),
{
    let ghost vd = v.deep_view();
    let mut parts: Vec<String> = Vec::new();
    let n = v.len();
    let mut i: usize = 0;
    while i < n
        invariant
            i <= n,
            n == v@.len(),
            vd == v.deep_view(),
            parts.deep_view().len() == i,
            forall|m: int| 0 <= m < i ==> parts.deep_view()[m] == enc_example(vd[m]),
        decreases n - i,
    {
        let p = example_to_string(&v[i]);
        let ghost pre = parts.deep_view();
        parts.push(p);
        proof {
            assert(parts.deep_view() =~= pre.push(p@));
            assert(p@ == enc_example(vd[i as int]));
        }
        i += 1;
    }
    proof {
        assert(parts.deep_view() =~= vd.map_values(|t: ExampleView| enc_example(t)));
    }
    enc_parts(&parts)
}

fn parse_example_list(s: &str) -> (r: Result<Vec<Example>, ParseError>)
    ensures
        r matches Ok(v) ==> s@ == enc_example_list(v.deep_view()),
        forall|l: Seq<ExampleView>|
            s@ == #[trigger] enc_example_list(l) ==> (r matches Ok(v) && v.deep_view() == l),
{
    let items = match parse_parts(s) {
        Ok(p) => p,
        Err(e) => {
            proof {
                assert forall|l: Seq<ExampleView>| s@ != #[trigger] enc_example_list(l) by {
                    if s@ == enc_example_list(l) {
                        assert(false);
                    }
                }
            }
            return Err(ParseError::Cache);
        },
    };
    let n = items.len();
    let mut out: Vec<Example> = Vec::new();
    let mut i: usize = 0;
    while i < n
        invariant
            i <= n,
            n == items@.len(),
            s@ == enc_str_list(items.deep_view()),
            out.deep_view().len() == i,
            forall|m: int|
                0 <= m < i ==> items.deep_view()[m] == enc_example(out.deep_view()[m]),
            forall|l: Seq<ExampleView>|
                s@ == #[trigger] enc_example_list(l) ==> items.deep_view() == l.map_values(
                    |t: ExampleView| enc_example(t),
                ),
            forall|l: Seq<ExampleView>|
                s@ == #[trigger] enc_example_list(l) ==> l.len() == n && out.deep_view() == l.take(
                    i as int,
                ),
        decreases n - i,
    {
        let t = match parse_example(items[i].as_str()) {
            Ok(t) => t,
            Err(e) => {
                proof {
                    assert forall|l: Seq<ExampleView>| s@ != #[trigger] enc_example_list(l) by {
                        if s@ == enc_example_list(l) {
                            assert(items.deep_view()[i as int] == enc_example(l[i as int]));
                            assert(false);
                        }
                    }
                }
                return Err(ParseError::Cache);
            },
        };
        out.push(t);
        proof {
            assert forall|l: Seq<ExampleView>| s@ == #[trigger] enc_example_list(l) implies out.deep_view()
                == l.take(i as int + 1) by {
                assert(items.deep_view()[i as int] == enc_example(l[i as int]));
                assert(t.deep_view() == l[i as int]);
                assert(out.deep_view() =~= l.take(i as int + 1));
            }
        }
        i += 1;
    }
    proof {
        assert(items.deep_view() =~= out.deep_view().map_values(|t: ExampleView| enc_example(t)));
        assert forall|l: Seq<ExampleView>| s@ == #[trigger] enc_example_list(l) implies out.deep_view()
            == l by {
            assert(out.deep_view() == l.take(n as int));
            assert(l.take(n as int) =~= l);
        }
    }
    Ok(out)
}

pub open spec fn enc_related_list(l: Seq<RelatedWordView>) -> Seq<char> {
    enc_str_list(l.map_values(|t: RelatedWordView| enc_related(t)))
}

fn related_list_to_string(v: &Vec<RelatedWord>) -> (r: String)
    ensures
        r@ == enc_related_list(v.deep_view()),
{
    let ghost vd = v.deep_view();
    let mut parts: Vec<String> = Vec::new();
    let n = v.len();
    let mut i: usize = 0;
    while i < n
        invariant
            i <= n,
            n == v@.len(),
            vd == v.deep_view(),
            parts.deep_view().len() == i,
            forall|m: int| 0 <= m < i ==> parts.deep_view()[m] == enc_related(vd[m]),
        decreases n - i,
    {
        let p = related_to_string(&v[i]);
        let ghost pre = parts.deep_view();
        parts.push(p);
        proof {
            assert(parts.deep_view() =~= pre.push(p@));
            assert(p@ == enc_related(vd[i as int]));
        }
        i += 1;
    }
    proof {
        assert(parts.deep_view() =~= vd.map_values(|t: RelatedWordView| enc_related(t)));
    }
    enc_parts(&parts)
}

fn parse_related_list(s: &str) -> (r: Result<Vec<RelatedWord>, ParseError>)
    ensures
        r matches Ok(v) ==> s@ == enc_related_list(v.deep_view()),
        forall|l: Seq<RelatedWordView>|
            s@ == #[trigger] enc_related_list(l) ==> (r matches Ok(v) && v.deep_view() == l),
{
    let items = match parse_parts(s) {
        Ok(p) => p,
        Err(e) => {
            proof {
                assert forall|l: Seq<RelatedWordView>| s@ != #[trigger] enc_related_list(l) by {
                    if s@ == enc_related_list(l) {
                        assert(false);
                    }
                }
            }
            return Err(ParseError::Cache);
        },
    };
    let n = items.len();
    let mut out: Vec<RelatedWord> = Vec::new();
    let mut i: usize = 0;
    while i < n
        invariant
            i <= n,
            n == items@.len(),
            s@ == enc_str_list(items.deep_view()),
            out.deep_view().len() == i,
            forall|m: int|
                0 <= m < i ==> items.deep_view()[m] == enc_related(out.deep_view()[m]),
            forall|l: Seq<RelatedWordView>|
                s@ == #[trigger] enc_related_list(l) ==> items.deep_view() == l.map_values(
                    |t: RelatedWordView| enc_related(t),
                ),
            forall|l: Seq<RelatedWordView>|
                s@ == #[trigger] enc_related_list(l) ==> l.len() == n && out.deep_view() == l.take(
                    i as int,
                ),
        decreases n - i,
    {
        let t = match parse_related(items[i].as_str()) {
            Ok(t) => t,
            Err(e) => {
                proof {
                    assert forall|l: Seq<RelatedWordView>| s@ != #[trigger] enc_related_list(l) by {
                        if s@ == enc_related_list(l) {
                            assert(items.deep_view()[i as int] == enc_related(l[i as int]));
                            assert(false);
                        }
                    }
                }
                return Err(ParseError::Cache);
            },
        };
        out.push(t);
        proof {
            assert forall|l: Seq<RelatedWordView>| s@ == #[trigger] enc_related_list(l) implies out.deep_view()
                == l.take(i as int + 1) by {
                assert(items.deep_view()[i as int] == enc_related(l[i as int]));
                assert(t.deep_view() == l[i as int]);
                assert(out.deep_view() =~= l.take(i as int + 1));
            }
        }
        i += 1;
    }
    proof {
        assert(items.deep_view() =~= out.deep_view().map_values(|t: RelatedWordView| enc_related(t)));
        assert forall|l: Seq<RelatedWordView>| s@ == #[trigger] enc_related_list(l) implies out.deep_view()
            == l by {
            assert(out.deep_view() == l.take(n as int));
            assert(l.take(n as int) =~= l);
        }
    }
    Ok(out)
}

pub open spec fn enc_definition_list(l: Seq<DefinitionView>) -> Seq<char> {
    enc_str_list(l.map_values(|t: DefinitionView| enc_definition(t)))
}

fn definition_list_to_string(v: &Vec<Definition>) -> (r: String)
    ensures
        r@ == enc_definition_list(v.deep_view()),
{
    let ghost vd = v.deep_view();
    let mut parts: Vec<String> = Vec::new();
    let n = v.len();
    let mut i: usize = 0;
    while i < n
        invariant
            i <= n,
            n == v@.len(),
            vd == v.deep_view(),
            parts.deep_view().len() == i,
            forall|m: int| 0 <= m < i ==> parts.deep_view()[m] == enc_definition(vd[m]),
        decreases n - i,
    {
        let p = definition_to_string(&v[i]);
        let ghost pre = parts.deep_view();
        parts.push(p);
        proof {
            assert(parts.deep_view() =~= pre.push(p@));
            assert(p@ == enc_definition(vd[i as int]));
        }
        i += 1;
    }
    proof {
        assert(parts.deep_view() =~= vd.map_values(|t: DefinitionView| enc_definition(t)));
    }
    enc_parts(&parts)
}

fn parse_definition_list(s: &str) -> (r: Result<Vec<Definition>, ParseError>)
    ensures
        r matches Ok(v) ==> s@ == enc_definition_list(v.deep_view()),
        forall|l: Seq<DefinitionView>|
            s@ == #[trigger] enc_definition_list(l) ==> (r matches Ok(v) && v.deep_view() == l),
{
    let items = match parse_parts(s) {
        Ok(p) => p,
        Err(e) => {
            proof {
                assert forall|l: Seq<DefinitionView>| s@ != #[trigger] enc_definition_list(l) by {
                    if s@ == enc_definition_list(l) {
                        assert(false);
                    }
                }
            }
            return Err(ParseError::Cache);
        },
    };
    let n = items.len();
    let mut out: Vec<Definition> = Vec::new();
    let mut i: usize = 0;
    while i < n
        invariant
            i <= n,
            n == items@.len(),
            s@ == enc_str_list(items.deep_view()),
            out.deep_view().len() == i,
            forall|m: int|
                0 <= m < i ==> items.deep_view()[m] == enc_definition(out.deep_view()[m]),
            forall|l: Seq<DefinitionView>|
                s@ == #[trigger] enc_definition_list(l) ==> items.deep_view() == l.map_values(
                    |t: DefinitionView| enc_definition(t),
                ),
            forall|l: Seq<DefinitionView>|
                s@ == #[trigger] enc_definition_list(l) ==> l.len() == n && out.deep_view() == l.take(
                    i as int,
                ),
        decreases n - i,
    {
        let t = match parse_definition(items[i].as_str()) {
            Ok(t) => t,
            Err(e) => {
                proof {
                    assert forall|l: Seq<DefinitionView>| s@ != #[trigger] enc_definition_list(l) by {
                        if s@ == enc_definition_list(l) {
                            assert(items.deep_view()[i as int] == enc_definition(l[i as int]));
                            assert(false);
                        }
                    }
                }
                return Err(ParseError::Cache);
            },
        };
        out.push(t);
        proof {
            assert forall|l: Seq<DefinitionView>| s@ == #[trigger] enc_definition_list(l) implies out.deep_view()
                == l.take(i as int + 1) by {
                assert(items.deep_view()[i as int] == enc_definition(l[i as int]));
                assert(t.deep_view() == l[i as int]);
                assert(out.deep_view() =~= l.take(i as int + 1));
            }
        }
        i += 1;
    }
    proof {
        assert(items.deep_view() =~= out.deep_view().map_values(|t: DefinitionView| enc_definition(t)));
        assert forall|l: Seq<DefinitionView>| s@ == #[trigger] enc_definition_list(l) implies out.deep_view()
            == l by {
            assert(out.deep_view() == l.take(n as int));
            assert(l.take(n as int) =~= l);
        }
    }
    Ok(out)
}

pub open spec fn enc_word(v: WordView) -> Seq<char> {
    enc_str_list(seq![enc_opt(v.class), enc_opt(v.comment), enc_opt(v.lang), v.value, enc_translation_list(v.translations), enc_synonym_list(v.synonyms), enc_phonetic_list(v.phonetics), enc_inflection_list(v.inflections), enc_see_list(v.sees), enc_example_list(v.examples), enc_related_list(v.related_words), enc_definition_list(v.definitions)])
}

#[verifier::rlimit(100)]
fn word_to_string(x: &Word) -> (r: String)
    ensures
        r@ == enc_word(x.deep_view()),
{
    let mut parts: Vec<String> = Vec::new();
    parts.push(opt_to_string(&x.class));
    parts.push(opt_to_string(&x.comment));
    parts.push(opt_to_string(&x.lang));
    parts.push(x.value.clone());
    parts.push(translation_list_to_string(&x.translations));
    parts.push(synonym_list_to_string(&x.synonyms));
    parts.push(phonetic_list_to_string(&x.phonetics));
    parts.push(inflection_list_to_string(&x.inflections));
    parts.push(see_list_to_string(&x.sees));
    parts.push(example_list_to_string(&x.examples));
    parts.push(related_list_to_string(&x.related_words));
    parts.push(definition_list_to_string(&x.definitions));
    proof {
        assert(parts.deep_view() =~= seq![enc_opt(x.deep_view().class), enc_opt(x.deep_view().comment), enc_opt(x.deep_view().lang), x.deep_view().value, enc_translation_list(x.deep_view().translations), enc_synonym_list(x.deep_view().synonyms), enc_phonetic_list(x.deep_view().phonetics), enc_inflection_list(x.deep_view().inflections), enc_see_list(x.deep_view().sees), enc_example_list(x.deep_view().examples), enc_related_list(x.deep_view().related_words), enc_definition_list(x.deep_view().definitions)]);
    }
    enc_parts(&parts)
}

#[verifier::rlimit(100)]
#[verifier::spinoff_prover]
fn parse_word(s: &str) -> (r: Result<Word, ParseError>)
    ensures
        r matches Ok(x) ==> s@ == enc_word(x.deep_view()),
        forall|v: WordView|
            s@ == #[trigger] enc_word(v) ==> (r matches Ok(x) && x.deep_view() == v),
{
    let parts = match parse_parts(s) {
        Ok(p) => p,
        Err(e) => {
            proof {
                assert forall|v: WordView| s@ != #[trigger] enc_word(v) by {
                    if s@ == enc_word(v) {
                        assert(false);
                    }
                }
            }
            return Err(ParseError::Cache);
        },
    };
    if parts.len() != 12 {
        proof {
            assert forall|v: WordView| s@ != #[trigger] enc_word(v) by {
                if s@ == enc_word(v) {
                    assert(parts.deep_view() == seq![enc_opt(v.class), enc_opt(v.comment), enc_opt(v.lang), v.value, enc_translation_list(v.translations), enc_synonym_list(v.synonyms), enc_phonetic_list(v.phonetics), enc_inflection_list(v.inflections), enc_see_list(v.sees), enc_example_list(v.examples), enc_related_list(v.related_words), enc_definition_list(v.definitions)]);
                }
            }
        }
        return Err(ParseError::Cache);
    }
    proof {
        assert forall|v: WordView| s@ == #[trigger] enc_word(v) implies parts.deep_view() == seq![enc_opt(v.class), enc_opt(v.comment), enc_opt(v.lang), v.value, enc_translation_list(v.translations), enc_synonym_list(v.synonyms), enc_phonetic_list(v.phonetics), enc_inflection_list(v.inflections), enc_see_list(v.sees), enc_example_list(v.examples), enc_related_list(v.related_words), enc_definition_list(v.definitions)] by {}
    }
    let r0 = parse_opt_string(parts[0].as_str());
    let r1 = parse_opt_string(parts[1].as_str());
    let r2 = parse_opt_string(parts[2].as_str());
    let f3 = String::from_str(parts[3].as_str());
    let r4 = parse_translation_list(parts[4].as_str());
    let r5 = parse_synonym_list(parts[5].as_str());
    let r6 = parse_phonetic_list(parts[6].as_str());
    let r7 = parse_inflection_list(parts[7].as_str());
    let r8 = parse_see_list(parts[8].as_str());
    let r9 = parse_example_list(parts[9].as_str());
    let r10 = parse_related_list(parts[10].as_str());
    let r11 = parse_definition_list(parts[11].as_str());
    if !(r0.is_ok() && r1.is_ok() && r2.is_ok() && r4.is_ok() && r5.is_ok() && r6.is_ok() && r7.is_ok() && r8.is_ok() && r9.is_ok() && r10.is_ok() && r11.is_ok()) {
        proof {
            assert forall|v: WordView| s@ != #[trigger] enc_word(v) by {
                if s@ == enc_word(v) {
                    assert(parts.deep_view()[0] == enc_opt(v.class));
                    assert(parts.deep_view()[1] == enc_opt(v.comment));
                    assert(parts.deep_view()[2] == enc_opt(v.lang));
                    assert(parts.deep_view()[4] == enc_translation_list(v.translations));
                    assert(parts.deep_view()[5] == enc_synonym_list(v.synonyms));
                    assert(parts.deep_view()[6] == enc_phonetic_list(v.phonetics));
                    assert(parts.deep_view()[7] == enc_inflection_list(v.inflections));
                    assert(parts.deep_view()[8] == enc_see_list(v.sees));
                    assert(parts.deep_view()[9] == enc_example_list(v.examples));
                    assert(parts.deep_view()[10] == enc_related_list(v.related_words));
                    assert(parts.deep_view()[11] == enc_definition_list(v.definitions));
                    assert(false);
                }
            }
        }
        return Err(ParseError::Cache);
    }
    let f0 = r0.unwrap();
    let f1 = r1.unwrap();
    let f2 = r2.unwrap();
    let f4 = r4.unwrap();
    let f5 = r5.unwrap();
    let f6 = r6.unwrap();
    let f7 = r7.unwrap();
    let f8 = r8.unwrap();
    let f9 = r9.unwrap();
    let f10 = r10.unwrap();
    let f11 = r11.unwrap();
    let x = Word { class: f0, comment: f1, lang: f2, value: f3, translations: f4, synonyms: f5, phonetics: f6, inflections: f7, sees: f8, examples: f9, related_words: f10, definitions: f11 };
    proof {
        assert(parts.deep_view() =~= seq![enc_opt(x.deep_view().class), enc_opt(x.deep_view().comment), enc_opt(x.deep_view().lang), x.deep_view().value, enc_translation_list(x.deep_view().translations), enc_synonym_list(x.deep_view().synonyms), enc_phonetic_list(x.deep_view().phonetics), enc_inflection_list(x.deep_view().inflections), enc_see_list(x.deep_view().sees), enc_example_list(x.deep_view().examples), enc_related_list(x.deep_view().related_words), enc_definition_list(x.deep_view().definitions)]);
        assert(s@ == enc_word(x.deep_view()));
        assert forall|v: WordView| s@ == #[trigger] enc_word(v) implies x.deep_view() =~= v by {
            assert(parts.deep_view()[0] == enc_opt(v.class));
            assert(f0.deep_view() == v.class);
            assert(parts.deep_view()[1] == enc_opt(v.comment));
            assert(f1.deep_view() == v.comment);
            assert(parts.deep_view()[2] == enc_opt(v.lang));
            assert(f2.deep_view() == v.lang);
            assert(parts.deep_view()[3] == v.value);
            assert(f3@ == v.value);
            assert(parts.deep_view()[4] == enc_translation_list(v.translations));
            assert(f4.deep_view() == v.translations);
            assert(parts.deep_view()[5] == enc_synonym_list(v.synonyms));
            assert(f5.deep_view() == v.synonyms);
            assert(parts.deep_view()[6] == enc_phonetic_list(v.phonetics));
            assert(f6.deep_view() == v.phonetics);
            assert(parts.deep_view()[7] == enc_inflection_list(v.inflections));
            assert(f7.deep_view() == v.inflections);
            assert(parts.deep_view()[8] == enc_see_list(v.sees));
            assert(f8.deep_view() == v.sees);
            assert(parts.deep_view()[9] == enc_example_list(v.examples));
            assert(f9.deep_view() == v.examples);
            assert(parts.deep_view()[10] == enc_related_list(v.related_words));
            assert(f10.deep_view() == v.related_words);
            assert(parts.deep_view()[11] == enc_definition_list(v.definitions));
            assert(f11.deep_view() == v.definitions);
        }
    }
    Ok(x)
}

pub open spec fn enc_word_list(l: Seq<WordView>) -> Seq<char> {
    enc_str_list(l.map_values(|t: WordView| enc_word(t)))
}

#[verifier::rlimit(100)]
fn words_to_string(v: &Vec<Word>) -> (r: String)
    ensures
        r@ == enc_word_list(v.deep_view()),
{
    let ghost vd = v.deep_view();
    let mut parts: Vec<String> = Vec::new();
    let n = v.len();
    let mut i: usize = 0;
    while i < n
        invariant
            i <= n,
            n == v@.len(),
            vd == v.deep_view(),
            parts.deep_view().len() == i,
            forall|m: int| 0 <= m < i ==> parts.deep_view()[m] == enc_word(vd[m]),
        decreases n - i,
    {
        let p = word_to_string(&v[i]);
        let ghost pre = parts.deep_view();
        parts.push(p);
        proof {
            assert(parts.deep_view() =~= pre.push(p@));
            assert(p@ == enc_word(vd[i as int]));
        }
        i += 1;
    }
    proof {
        assert(parts.deep_view() =~= vd.map_values(|t: WordView| enc_word(t)));
    }
    enc_parts(&parts)
}

#[verifier::rlimit(100)]
fn parse_word_list(s: &str) -> (r: Result<Vec<Word>, ParseError>)
    ensures
        r matches Ok(v) ==> s@ == enc_word_list(v.deep_view()),
        forall|l: Seq<WordView>|
            s@ == #[trigger] enc_word_list(l) ==> (r matches Ok(v) && v.deep_view() == l),
{
    let items = match parse_parts(s) {
        Ok(p) => p,
        Err(e) => {
            proof {
                assert forall|l: Seq<WordView>| s@ != #[trigger] enc_word_list(l) by {
                    if s@ == enc_word_list(l) {
                        assert(false);
                    }
                }
            }
            return Err(ParseError::Cache);
        },
    };
    let n = items.len();
    let mut out: Vec<Word> = Vec::new();
    let mut i: usize = 0;
    while i < n
        invariant
            i <= n,
            n == items@.len(),
            s@ == enc_str_list(items.deep_view()),
            out.deep_view().len() == i,
            forall|m: int|
                0 <= m < i ==> items.deep_view()[m] == enc_word(out.deep_view()[m]),
            forall|l: Seq<WordView>|
                s@ == #[trigger] enc_word_list(l) ==> items.deep_view() == l.map_values(
                    |t: WordView| enc_word(t),
                ),
            forall|l: Seq<WordView>|
                s@ == #[trigger] enc_word_list(l) ==> l.len() == n && out.deep_view() == l.take(
                    i as int,
                ),
        decreases n - i,
    {
        let t = match parse_word(items[i].as_str()) {
            Ok(t) => t,
            Err(e) => {
                proof {
                    assert forall|l: Seq<WordView>| s@ != #[trigger] enc_word_list(l) by {
                        if s@ == enc_word_list(l) {
                            assert(items.deep_view()[i as int] == enc_word(l[i as int]));
                            assert(false);
                        }
                    }
                }
                return Err(ParseError::Cache);
            },
        };
        out.push(t);
        proof {
            assert forall|l: Seq<WordView>| s@ == #[trigger] enc_word_list(l) implies out.deep_view()
                == l.take(i as int + 1) by {
                assert(items.deep_view()[i as int] == enc_word(l[i as int]));
                assert(t.deep_view() == l[i as int]);
                assert(out.deep_view() =~= l.take(i as int + 1));
            }
        }
        i += 1;
    }
    proof {
        assert(items.deep_view() =~= out.deep_view().map_values(|t: WordView| enc_word(t)));
        assert forall|l: Seq<WordView>| s@ == #[trigger] enc_word_list(l) implies out.deep_view()
            == l by {
            assert(out.deep_view() == l.take(n as int));
            assert(l.take(n as int) =~= l);
        }
    }
    Ok(out)
}

/// The eleven parts of a dictionary record: the ten optional metadata
/// strings, then the word list.
pub open spec fn dict_parts(v: DictionaryView) -> Seq<Seq<char>> {
    seq![enc_opt(v.comment), enc_opt(v.created), enc_opt(v.last_changed), enc_opt(v.name), enc_opt(v.source_language), enc_opt(v.target_language), enc_opt(v.version), enc_opt(v.license), enc_opt(v.license_comment), enc_opt(v.origin_url), enc_word_list(v.words)]
}

pub open spec fn enc_dictionary(v: DictionaryView) -> Seq<char> {
    enc_str_list(dict_parts(v))
}

#[verifier::rlimit(100)]
fn dictionary_to_string(x: &Dictionary) -> (r: String)
    ensures
        r@ == enc_dictionary(x.deep_view()),
{
    let mut parts: Vec<String> = Vec::new();
    parts.push(opt_to_string(&x.comment));
    parts.push(opt_to_string(&x.created));
    parts.push(opt_to_string(&x.last_changed));
    parts.push(opt_to_string(&x.name));
    parts.push(opt_to_string(&x.source_language));
    parts.push(opt_to_string(&x.target_language));
    parts.push(opt_to_string(&x.version));
    parts.push(opt_to_string(&x.license));
    parts.push(opt_to_string(&x.license_comment));
    parts.push(opt_to_string(&x.origin_url));
    parts.push(words_to_string(&x.words));
    proof {
        assert(parts.deep_view() =~= seq![enc_opt(x.deep_view().comment), enc_opt(x.deep_view().created), enc_opt(x.deep_view().last_changed), enc_opt(x.deep_view().name), enc_opt(x.deep_view().source_language), enc_opt(x.deep_view().target_language), enc_opt(x.deep_view().version), enc_opt(x.deep_view().license), enc_opt(x.deep_view().license_comment), enc_opt(x.deep_view().origin_url), enc_word_list(x.deep_view().words)]);
    }
    enc_parts(&parts)
}

proof fn lemma_enc_opt_inj(a: Option<Seq<char>>, b: Option<Seq<char>>)
    requires
        enc_opt(a) == enc_opt(b),
    ensures
        a == b,
{
    if a is None && b is Some {
        assert(enc_opt(a)[0] == 'N');
        assert(enc_opt(b)[0] == 'S');
    }
    if a is Some && b is None {
        assert(enc_opt(a)[0] == 'S');
        assert(enc_opt(b)[0] == 'N');
    }
    if a is Some && b is Some {
        let x = a->0;
        let y = b->0;
        assert((seq!['S'] + x).len() == (seq!['S'] + y).len());
        assert forall|m: int| 0 <= m < x.len() implies x[m] == y[m] by {
            assert((seq!['S'] + x)[m + 1] == x[m]);
            assert((seq!['S'] + y)[m + 1] == y[m]);
        }
        assert(x =~= y);
    }
}

/// The parts of a dictionary record, for a string that is one.
proof fn lemma_dictionary_parts(s: Seq<char>, pd: Seq<Seq<char>>)
    requires
        forall|l: Seq<Seq<char>>| s == #[trigger] enc_str_list(l) ==> pd == l,
    ensures
        forall|v: DictionaryView| s == #[trigger] enc_dictionary(v) ==> pd == dict_parts(v),
{
}

/// Read the ten leading metadata parts of a dictionary record, each an
/// optional string; on failure names the offending part.
#[verifier::rlimit(100)]
#[verifier::spinoff_prover]
fn parse_dict_meta(parts: &Vec<String>) -> (r: Result<Vec<Option<String>>, usize>)
    requires
        parts@.len() == 11,
    ensures
        r matches Ok(v) ==> v@.len() == 10 && forall|m: int|
            0 <= m < 10 ==> parts.deep_view()[m] == enc_opt(#[trigger] v.deep_view()[m]),
        r matches Err(m) ==> m < 10 && (forall|ov: Option<Seq<char>>|
            parts.deep_view()[m as int] != #[trigger] enc_opt(ov)),
{
    let mut metas: Vec<Option<String>> = Vec::new();
    let mut i: usize = 0;
    while i < 10
        invariant
            i <= 10,
            parts@.len() == 11,
            metas@.len() == i,
            forall|m: int|
                0 <= m < i ==> parts.deep_view()[m] == enc_opt(#[trigger] metas.deep_view()[m]),
        decreases 10 - i,
    {
        let o = match parse_opt_string(parts[i].as_str()) {
            Ok(o) => o,
            Err(e) => {
                proof {
                    assert forall|ov: Option<Seq<char>>| parts.deep_view()[i as int]
                        != #[trigger] enc_opt(ov) by {
                        if parts.deep_view()[i as int] == enc_opt(ov) {
                            assert(false);
                        }
                    }
                }
                return Err(i);
            },
        };
        let ghost pre = metas.deep_view();
        metas.push(o);
        proof {
            assert(metas.deep_view() =~= pre.push(o.deep_view()));
        }
        i += 1;
    }
    Ok(metas)
}

/// Assemble a dictionary from the eleven parts of its record.
#[verifier::rlimit(100)]
#[verifier::spinoff_prover]
fn dict_from_parts(parts: &Vec<String>) -> (r: Result<Dictionary, ParseError>)
    requires
        parts@.len() == 11,
    ensures
        r matches Ok(x) ==> parts.deep_view() == dict_parts(x.deep_view()),
        forall|v: DictionaryView|
            parts.deep_view() == #[trigger] dict_parts(v) ==> (r matches Ok(x) && x.deep_view()
                == v),
{
    let mut metas = match parse_dict_meta(parts) {
        Ok(v) => v,
        Err(m) => {
            proof {
                assert forall|v: DictionaryView| parts.deep_view() != #[trigger] dict_parts(v) by {
                    if parts.deep_view() == dict_parts(v) {
                        assert(false);
                    }
                }
            }
            return Err(ParseError::Cache);
        },
    };
    let rwords = parse_word_list(parts[10].as_str());
    if rwords.is_err() {
        proof {
            assert forall|v: DictionaryView| parts.deep_view() != #[trigger] dict_parts(v) by {
                if parts.deep_view() == dict_parts(v) {
                    assert(parts.deep_view()[10] == enc_word_list(v.words));
                    assert(false);
                }
            }
        }
        return Err(ParseError::Cache);
    }
    let fw = rwords.unwrap();
    let ghost morig = metas.deep_view();
    let ghost m0 = metas.deep_view();
    let f0 = metas.remove(0);
    proof {
        assert(m0 =~= morig.skip(0));
        assert(f0.deep_view() == m0[0]);
        assert(metas.deep_view() =~= m0.skip(1));
        assert(f0.deep_view() == morig[0]);
    }
    let ghost m1 = metas.deep_view();
    let f1 = metas.remove(0);
    proof {
        assert(m1 =~= morig.skip(1));
        assert(f1.deep_view() == m1[0]);
        assert(metas.deep_view() =~= m1.skip(1));
        assert(f1.deep_view() == morig[1]);
    }
    let ghost m2 = metas.deep_view();
    let f2 = metas.remove(0);
    proof {
        assert(m2 =~= morig.skip(2));
        assert(f2.deep_view() == m2[0]);
        assert(metas.deep_view() =~= m2.skip(1));
        assert(f2.deep_view() == morig[2]);
    }
    let ghost m3 = metas.deep_view();
    let f3 = metas.remove(0);
    proof {
        assert(m3 =~= morig.skip(3));
        assert(f3.deep_view() == m3[0]);
        assert(metas.deep_view() =~= m3.skip(1));
        assert(f3.deep_view() == morig[3]);
    }
    let ghost m4 = metas.deep_view();
    let f4 = metas.remove(0);
    proof {
        assert(m4 =~= morig.skip(4));
        assert(f4.deep_view() == m4[0]);
        assert(metas.deep_view() =~= m4.skip(1));
        assert(f4.deep_view() == morig[4]);
    }
    let ghost m5 = metas.deep_view();
    let f5 = metas.remove(0);
    proof {
        assert(m5 =~= morig.skip(5));
        assert(f5.deep_view() == m5[0]);
        assert(metas.deep_view() =~= m5.skip(1));
        assert(f5.deep_view() == morig[5]);
    }
    let ghost m6 = metas.deep_view();
    let f6 = metas.remove(0);
    proof {
        assert(m6 =~= morig.skip(6));
        assert(f6.deep_view() == m6[0]);
        assert(metas.deep_view() =~= m6.skip(1));
        assert(f6.deep_view() == morig[6]);
    }
    let ghost m7 = metas.deep_view();
    let f7 = metas.remove(0);
    proof {
        assert(m7 =~= morig.skip(7));
        assert(f7.deep_view() == m7[0]);
        assert(metas.deep_view() =~= m7.skip(1));
        assert(f7.deep_view() == morig[7]);
    }
    let ghost m8 = metas.deep_view();
    let f8 = metas.remove(0);
    proof {
        assert(m8 =~= morig.skip(8));
        assert(f8.deep_view() == m8[0]);
        assert(metas.deep_view() =~= m8.skip(1));
        assert(f8.deep_view() == morig[8]);
    }
    let ghost m9 = metas.deep_view();
    let f9 = metas.remove(0);
    proof {
        assert(m9 =~= morig.skip(9));
        assert(f9.deep_view() == m9[0]);
        assert(metas.deep_view() =~= m9.skip(1));
        assert(f9.deep_view() == morig[9]);
    }
    let x = Dictionary { comment: f0, created: f1, last_changed: f2, name: f3, source_language: f4, target_language: f5, version: f6, license: f7, license_comment: f8, origin_url: f9, words: fw };
    proof {
        assert(parts.deep_view() =~= dict_parts(x.deep_view()));
        assert forall|v: DictionaryView| parts.deep_view() == #[trigger] dict_parts(v) implies
        x.deep_view() =~= v by {
            assert(parts.deep_view()[0] == enc_opt(v.comment));
            assert(parts.deep_view()[0] == enc_opt(x.deep_view().comment));
            lemma_enc_opt_inj(x.deep_view().comment, v.comment);
            assert(parts.deep_view()[1] == enc_opt(v.created));
            assert(parts.deep_view()[1] == enc_opt(x.deep_view().created));
            lemma_enc_opt_inj(x.deep_view().created, v.created);
            assert(parts.deep_view()[2] == enc_opt(v.last_changed));
            assert(parts.deep_view()[2] == enc_opt(x.deep_view().last_changed));
            lemma_enc_opt_inj(x.deep_view().last_changed, v.last_changed);
            assert(parts.deep_view()[3] == enc_opt(v.name));
            assert(parts.deep_view()[3] == enc_opt(x.deep_view().name));
            lemma_enc_opt_inj(x.deep_view().name, v.name);
            assert(parts.deep_view()[4] == enc_opt(v.source_language));
            assert(parts.deep_view()[4] == enc_opt(x.deep_view().source_language));
            lemma_enc_opt_inj(x.deep_view().source_language, v.source_language);
            assert(parts.deep_view()[5] == enc_opt(v.target_language));
            assert(parts.deep_view()[5] == enc_opt(x.deep_view().target_language));
            lemma_enc_opt_inj(x.deep_view().target_language, v.target_language);
            assert(parts.deep_view()[6] == enc_opt(v.version));
            assert(parts.deep_view()[6] == enc_opt(x.deep_view().version));
            lemma_enc_opt_inj(x.deep_view().version, v.version);
            assert(parts.deep_view()[7] == enc_opt(v.license));
            assert(parts.deep_view()[7] == enc_opt(x.deep_view().license));
            lemma_enc_opt_inj(x.deep_view().license, v.license);
            assert(parts.deep_view()[8] == enc_opt(v.license_comment));
            assert(parts.deep_view()[8] == enc_opt(x.deep_view().license_comment));
            lemma_enc_opt_inj(x.deep_view().license_comment, v.license_comment);
            assert(parts.deep_view()[9] == enc_opt(v.origin_url));
            assert(parts.deep_view()[9] == enc_opt(x.deep_view().origin_url));
            lemma_enc_opt_inj(x.deep_view().origin_url, v.origin_url);
            assert(parts.deep_view()[10] == enc_word_list(v.words));
            assert(fw.deep_view() == v.words);
        }
    }
    Ok(x)
}

#[verifier::spinoff_prover]
fn parse_dictionary(s: &str) -> (r: Result<Dictionary, ParseError>)
    ensures
        r matches Ok(x) ==> s@ == enc_dictionary(x.deep_view()),
        forall|v: DictionaryView|
            s@ == #[trigger] enc_dictionary(v) ==> (r matches Ok(x) && x.deep_view() == v),
{
    let parts = match parse_parts(s) {
        Ok(p) => p,
        Err(e) => {
            proof {
                assert forall|v: DictionaryView| s@ != #[trigger] enc_dictionary(v) by {
                    if s@ == enc_dictionary(v) {
                        assert(false);
                    }
                }
            }
            return Err(ParseError::Cache);
        },
    };
    proof {
        lemma_dictionary_parts(s@, parts.deep_view());
    }
    if parts.len() != 11 {
        proof {
            assert forall|v: DictionaryView| s@ != #[trigger] enc_dictionary(v) by {
                if s@ == enc_dictionary(v) {
                    assert(parts.deep_view() == dict_parts(v));
                }
            }
        }
        return Err(ParseError::Cache);
    }
    match dict_from_parts(&parts) {
        Ok(x) => {
            proof {
                assert(s@ == enc_str_list(parts.deep_view()));
                assert(s@ == enc_dictionary(x.deep_view()));
                assert forall|v: DictionaryView| s@ == #[trigger] enc_dictionary(v) implies
                x.deep_view() == v by {
                    assert(parts.deep_view() == dict_parts(v));
                }
            }
            Ok(x)
        },
        Err(e) => {
            proof {
                assert forall|v: DictionaryView| s@ != #[trigger] enc_dictionary(v) by {
                    if s@ == enc_dictionary(v) {
                        assert(parts.deep_view() == dict_parts(v));
                        assert(false);
                    }
                }
            }
            Err(ParseError::Cache)
        },
    }
}

/// Converts the dictionary to its persisted cache form.
pub fn serialize(d: &Dictionary) -> (r: String)
    ensures
        r@ == enc_dictionary(d.deep_view()),
{
    dictionary_to_string(d)
}

/// Reads a dictionary back from its persisted cache form. Succeeds exactly
/// on the encodings that [`serialize`] emits, and then returns the encoded
/// dictionary itself; anything else is a corrupt cache.
pub fn deserialize(s: &str) -> (r: Result<Dictionary, ParseError>)
    ensures
        r matches Ok(d) ==> s@ == enc_dictionary(d.deep_view()),
        forall|dv: DictionaryView|
            s@ == #[trigger] enc_dictionary(dv) ==> (r matches Ok(d) && d.deep_view() == dv),
{
    parse_dictionary(s)
}

/// Lossless round trip: deserializing a serialized dictionary always
/// succeeds and yields a dictionary equal to the original, field for
/// field — "not present" and empty string stay distinct, and every
/// sequence keeps its order.
pub fn roundtrip(d: &Dictionary) -> (r: Result<Dictionary, ParseError>)
    ensures
        r matches Ok(d2) && d2.deep_view() == d.deep_view(),
{
    let s = serialize(d);
    deserialize(s.as_str())
}

} // verus!
