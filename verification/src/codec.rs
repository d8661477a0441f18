//! The vocabulary file format: a JSON object with one vocabulary per
//! language, each class an array of strings.
//!
//! The encoder emits a canonical compact form; the decoder accepts that
//! form with arbitrary whitespace between tokens and the two string
//! escapes `\"` and `\\`. Decoding what was encoded gives the original
//! store back, exactly.

use vstd::prelude::*;

verus! {

use crate::vocab::{VocabView, AllView, VocabularyData, LanguageVocabularies};
use crate::strutil::{chars_of, string_from_chars};
use crate::runner::EsiError;

/// The escaped form of one character inside a JSON string.
pub open spec fn esc_char(c: char) -> Seq<char> {
    if c == '"' {
        seq!['\\', '"']
    } else if c == '\\' {
        seq!['\\', '\\']
    } else {
        seq![c]
    }
}

/// The escaped form of a whole string body.
pub open spec fn esc(s: Seq<char>) -> Seq<char>
    decreases s.len(),
{
    if s.len() == 0 {
        Seq::empty()
    } else {
        esc(s.drop_last()) + esc_char(s.last())
    }
}

/// A JSON string token.
pub open spec fn enc_string(s: Seq<char>) -> Seq<char> {
    seq!['"'] + esc(s) + seq!['"']
}

/// The comma-separated items of an array.
pub open spec fn enc_items(ws: Seq<Seq<char>>) -> Seq<char>
    decreases ws.len(),
{
    if ws.len() == 0 {
        Seq::empty()
    } else if ws.len() == 1 {
        enc_string(ws[0])
    } else {
        enc_items(ws.drop_last()) + seq![','] + enc_string(ws.last())
    }
}

/// A JSON array of strings.
pub open spec fn enc_array(ws: Seq<Seq<char>>) -> Seq<char> {
    seq!['['] + enc_items(ws) + seq![']']
}

/// One `"key":[...]` member.
pub open spec fn enc_class(key: Seq<char>, ws: Seq<Seq<char>>) -> Seq<char> {
    enc_string(key) + seq![':'] + enc_array(ws)
}

/// One vocabulary object, classes in fixed order.
pub open spec fn enc_vocab(v: VocabView) -> Seq<char> {
    seq!['{'] + enc_class("nouns"@, v.nouns) + seq![','] + enc_class("particles"@, v.particles)
        + seq![','] + enc_class("verbs"@, v.verbs) + seq![','] + enc_class("adverbs"@, v.adverbs)
        + seq!['}']
}

/// The whole store, languages in fixed order.
pub open spec fn enc_all(a: AllView) -> Seq<char> {
    seq!['{'] + enc_string("english"@) + seq![':'] + enc_vocab(a.english) + seq![','] + enc_string(
        "japanese"@,
    ) + seq![':'] + enc_vocab(a.japanese) + seq![','] + enc_string("chinese"@) + seq![':']
        + enc_vocab(a.chinese) + seq!['}']
}

/// Appends the JSON string token for `w`.
fn push_string(out: &mut Vec<char>, w: &String)
    ensures
        final(out)@ == old(out)@ + enc_string(w@),
{
    let cs: Vec<char> = chars_of(w.as_str());
    out.push('"');
    let n: usize = cs.len();
    let mut i: usize = 0;
    proof {
        assert(w@.take(0) =~= Seq::<char>::empty());
        assert(out@ =~= old(out)@ + seq!['"'] + esc(w@.take(0)));
    }
    while i < n
        invariant
            n == cs@.len(),
            cs@ == w@,
            0 <= i <= n,
            out@ == old(out)@ + seq!['"'] + esc(w@.take(i as int)),
        decreases n - i,
    {
        let c: char = cs[i];
        proof {
            assert(w@.take(i + 1).drop_last() =~= w@.take(i as int));
            assert(w@.take(i + 1).last() == w@[i as int]);
        }
        if c == '"' {
            out.push('\\');
            out.push('"');
            proof {
                assert(out@ =~= old(out)@ + seq!['"'] + esc(w@.take(i + 1)));
            }
        } else if c == '\\' {
            out.push('\\');
            out.push('\\');
            proof {
                assert(out@ =~= old(out)@ + seq!['"'] + esc(w@.take(i + 1)));
            }
        } else {
            out.push(c);
            proof {
                assert(out@ =~= old(out)@ + seq!['"'] + esc(w@.take(i + 1)));
            }
        }
        i = i + 1;
    }
    out.push('"');
    proof {
        assert(w@.take(n as int) =~= w@);
        assert(out@ =~= old(out)@ + enc_string(w@));
    }
}

/// Appends `"key":[items]` for one word class.
fn push_class(out: &mut Vec<char>, key: &str, class: &Vec<String>)
    ensures
        final(out)@ == old(out)@ + enc_class(key@, crate::vocab::strs_view(class@)),
{
    let ghost cls = crate::vocab::strs_view(class@);
    let key_string: String = key.to_owned();
    push_string(out, &key_string);
    out.push(':');
    out.push('[');
    let n: usize = class.len();
    let mut i: usize = 0;
    proof {
        assert(cls.take(0) =~= Seq::<Seq<char>>::empty());
        assert(out@ =~= old(out)@ + enc_string(key@) + seq![':'] + seq!['['] + enc_items(
            cls.take(0),
        ));
    }
    while i < n
        invariant
            n == class@.len(),
            cls == crate::vocab::strs_view(class@),
            0 <= i <= n,
            out@ == old(out)@ + enc_string(key@) + seq![':'] + seq!['['] + enc_items(
                cls.take(i as int),
            ),
        decreases n - i,
    {
        if i > 0 {
            out.push(',');
        }
        push_string(out, &class[i]);
        proof {
            assert(cls.take(i + 1).drop_last() =~= cls.take(i as int));
            assert(cls.take(i + 1).last() == cls[i as int]);
            assert(cls[i as int] == class@[i as int]@);
            if i == 0 {
                assert(cls.take(1).len() == 1);
                assert(enc_items(cls.take(1)) == enc_string(cls[0]));
                assert(out@ =~= old(out)@ + enc_string(key@) + seq![':'] + seq!['['] + enc_items(
                    cls.take(i + 1),
                ));
            } else {
                assert(enc_items(cls.take(i + 1)) == enc_items(cls.take(i as int)) + seq![',']
                    + enc_string(cls[i as int]));
                assert(out@ =~= old(out)@ + enc_string(key@) + seq![':'] + seq!['['] + enc_items(
                    cls.take(i + 1),
                ));
            }
        }
        i = i + 1;
    }
    out.push(']');
    proof {
        assert(cls.take(n as int) =~= cls);
        assert(out@ =~= old(out)@ + enc_class(key@, cls));
    }
}

/// Appends one vocabulary object.
fn push_vocab(out: &mut Vec<char>, v: &VocabularyData)
    ensures
        final(out)@ == old(out)@ + enc_vocab(v@),
{
    out.push('{');
    push_class(out, "nouns", &v.nouns);
    out.push(',');
    push_class(out, "particles", &v.particles);
    out.push(',');
    push_class(out, "verbs", &v.verbs);
    out.push(',');
    push_class(out, "adverbs", &v.adverbs);
    out.push('}');
    proof {
        assert(out@ =~= old(out)@ + enc_vocab(v@));
    }
}

/// Serializes the whole store in its canonical compact form.
pub fn encode_vocabularies(all: &LanguageVocabularies) -> (r: String)
    ensures
        r@ == enc_all(all@),
{
    let mut out: Vec<char> = Vec::new();
    out.push('{');
    let english_key: String = "english".to_owned();
    push_string(&mut out, &english_key);
    out.push(':');
    push_vocab(&mut out, &all.english);
    out.push(',');
    let japanese_key: String = "japanese".to_owned();
    push_string(&mut out, &japanese_key);
    out.push(':');
    push_vocab(&mut out, &all.japanese);
    out.push(',');
    let chinese_key: String = "chinese".to_owned();
    push_string(&mut out, &chinese_key);
    out.push(':');
    push_vocab(&mut out, &all.chinese);
    out.push('}');
    proof {
        assert(out@ =~= enc_all(all@));
    }
    string_from_chars(&out)
}


/// Whitespace that the decoder skips between tokens.
pub open spec fn is_ws_c(c: char) -> bool {
    c == ' ' || c == '\t' || c == '\r' || c == '\n'
}

pub open spec fn sws(s: Seq<char>) -> Seq<char>
    decreases s.len(),
{
    if s.len() > 0 && is_ws_c(s[0]) {
        sws(s.drop_first())
    } else {
        s
    }
}

/// Skips whitespace, then consumes the single character `c`.
pub open spec fn p_char(s: Seq<char>, c: char) -> Option<Seq<char>> {
    let t = sws(s);
    if t.len() > 0 && t[0] == c {
        Some(t.drop_first())
    } else {
        None
    }
}

/// The body of a string token up to its closing quote; `\"` and `\\`
/// are the only escapes.
pub open spec fn p_str_body(s: Seq<char>, acc: Seq<char>) -> Option<(Seq<char>, Seq<char>)>
    decreases s.len(),
{
    if s.len() == 0 {
        None
    } else if s[0] == '"' {
        Some((acc, s.drop_first()))
    } else if s[0] == '\\' {
        if s.len() >= 2 && (s[1] == '"' || s[1] == '\\') {
            p_str_body(s.skip(2), acc.push(s[1]))
        } else {
            None
        }
    } else {
        p_str_body(s.drop_first(), acc.push(s[0]))
    }
}

/// A string token, leading whitespace allowed.
pub open spec fn p_string(s: Seq<char>) -> Option<(Seq<char>, Seq<char>)> {
    match p_char(s, '"') {
        None => None,
        Some(t) => p_str_body(t, Seq::empty()),
    }
}

/// The items after the first of a non-empty array, plus the closing
/// bracket. `fuel` bounds the number of items.
pub open spec fn p_items(s: Seq<char>, acc: Seq<Seq<char>>, fuel: nat) -> Option<
    (Seq<Seq<char>>, Seq<char>),
>
    decreases fuel,
{
    if fuel == 0 {
        None
    } else {
        match p_string(s) {
            None => None,
            Some(pair) => {
                let t = sws(pair.1);
                if t.len() > 0 && t[0] == ',' {
                    p_items(t.drop_first(), acc.push(pair.0), (fuel - 1) as nat)
                } else if t.len() > 0 && t[0] == ']' {
                    Some((acc.push(pair.0), t.drop_first()))
                } else {
                    None
                }
            },
        }
    }
}

/// A JSON array of strings.
pub open spec fn p_array(s: Seq<char>, fuel: nat) -> Option<(Seq<Seq<char>>, Seq<char>)> {
    match p_char(s, '[') {
        None => None,
        Some(t) => {
            let u = sws(t);
            if u.len() > 0 && u[0] == ']' {
                Some((Seq::empty(), u.drop_first()))
            } else {
                p_items(u, Seq::empty(), fuel)
            }
        },
    }
}

/// One `"key":[...]` member; the key must match exactly.
pub open spec fn p_class(s: Seq<char>, key: Seq<char>, fuel: nat) -> Option<
    (Seq<Seq<char>>, Seq<char>),
> {
    match p_string(s) {
        None => None,
        Some(pair) => if pair.0 != key {
            None
        } else {
            match p_char(pair.1, ':') {
                None => None,
                Some(r) => p_array(r, fuel),
            }
        },
    }
}

/// One vocabulary object, classes in fixed order.
pub open spec fn p_vocab(s: Seq<char>, fuel: nat) -> Option<(VocabView, Seq<char>)> {
    match p_char(s, '{') {
        None => None,
        Some(t0) => match p_class(t0, "nouns"@, fuel) {
            None => None,
            Some(n) => match p_char(n.1, ',') {
                None => None,
                Some(t1) => match p_class(t1, "particles"@, fuel) {
                    None => None,
                    Some(p) => match p_char(p.1, ',') {
                        None => None,
                        Some(t2) => match p_class(t2, "verbs"@, fuel) {
                            None => None,
                            Some(v) => match p_char(v.1, ',') {
                                None => None,
                                Some(t3) => match p_class(t3, "adverbs"@, fuel) {
                                    None => None,
                                    Some(a) => match p_char(a.1, '}') {
                                        None => None,
                                        Some(rest) => Some(
                                            (
                                                VocabView {
                                                    nouns: n.0,
                                                    particles: p.0,
                                                    verbs: v.0,
                                                    adverbs: a.0,
                                                },
                                                rest,
                                            ),
                                        ),
                                    },
                                },
                            },
                        },
                    },
                },
            },
        },
    }
}

/// One `"language":{...}` member.
pub open spec fn p_lang(s: Seq<char>, key: Seq<char>, fuel: nat) -> Option<
    (VocabView, Seq<char>),
> {
    match p_string(s) {
        None => None,
        Some(pair) => if pair.0 != key {
            None
        } else {
            match p_char(pair.1, ':') {
                None => None,
                Some(r) => p_vocab(r, fuel),
            }
        },
    }
}

/// The whole store.
pub open spec fn p_all(s: Seq<char>, fuel: nat) -> Option<(AllView, Seq<char>)> {
    match p_char(s, '{') {
        None => None,
        Some(t0) => match p_lang(t0, "english"@, fuel) {
            None => None,
            Some(e) => match p_char(e.1, ',') {
                None => None,
                Some(t1) => match p_lang(t1, "japanese"@, fuel) {
                    None => None,
                    Some(j) => match p_char(j.1, ',') {
                        None => None,
                        Some(t2) => match p_lang(t2, "chinese"@, fuel) {
                            None => None,
                            Some(c) => match p_char(c.1, '}') {
                                None => None,
                                Some(rest) => Some(
                                    (AllView { english: e.0, japanese: j.0, chinese: c.0 }, rest),
                                ),
                            },
                        },
                    },
                },
            },
        },
    }
}

/// What decoding a whole document yields: the store, provided only
/// whitespace follows the closing brace.
pub open spec fn dec_all(s: Seq<char>) -> Option<AllView> {
    match p_all(s, s.len()) {
        None => None,
        Some(pair) => if sws(pair.1).len() == 0 {
            Some(pair.0)
        } else {
            None
        },
    }
}


proof fn lemma_esc_head(s: Seq<char>)
    requires
        s.len() > 0,
    ensures
        esc(s) == esc_char(s[0]) + esc(s.drop_first()),
    decreases s.len(),
{
    if s.len() == 1 {
        assert(s.drop_last().len() == 0);
        assert(esc(s) == esc(s.drop_last()) + esc_char(s.last()));
        assert(s.drop_first().len() == 0);
        assert(esc(s) =~= esc_char(s[0]) + esc(s.drop_first()));
    } else {
        lemma_esc_head(s.drop_last());
        assert(s.drop_last()[0] == s[0]);
        assert(s.drop_last().drop_first() =~= s.drop_first().drop_last());
        assert(s.drop_first().last() == s.last());
        assert(esc(s.drop_first()) == esc(s.drop_first().drop_last()) + esc_char(s.last()));
        assert(esc(s) == (esc_char(s[0]) + esc(s.drop_first().drop_last())) + esc_char(s.last()));
        assert(esc(s) =~= esc_char(s[0]) + esc(s.drop_first()));
    }
}

proof fn lemma_enc_items_head(ws: Seq<Seq<char>>)
    requires
        ws.len() > 1,
    ensures
        enc_items(ws) == enc_string(ws[0]) + seq![','] + enc_items(ws.drop_first()),
    decreases ws.len(),
{
    if ws.len() == 2 {
        assert(ws.drop_last()[0] == ws[0]);
        assert(ws.drop_last().len() == 1);
        assert(ws.drop_first().len() == 1);
        assert(ws.drop_first()[0] == ws[1]);
        assert(enc_items(ws.drop_last()) == enc_string(ws.drop_last()[0]));
        assert(ws.last() == ws[1]);
        assert(enc_items(ws.drop_first()) == enc_string(ws[1]));
        assert(enc_items(ws) =~= enc_string(ws[0]) + seq![','] + enc_items(ws.drop_first()));
    } else {
        lemma_enc_items_head(ws.drop_last());
        assert(ws.drop_last()[0] == ws[0]);
        assert(ws.drop_last().drop_first() =~= ws.drop_first().drop_last());
        assert(ws.drop_first().last() == ws.last());
        assert(ws.drop_first().len() > 1);
        assert(enc_items(ws.drop_first()) == enc_items(ws.drop_first().drop_last()) + seq![',']
            + enc_string(ws.last()));
        assert(enc_items(ws) == (enc_string(ws[0]) + seq![','] + enc_items(
            ws.drop_first().drop_last(),
        )) + seq![','] + enc_string(ws.last()));
        assert(enc_items(ws) =~= enc_string(ws[0]) + seq![','] + enc_items(ws.drop_first()));
    }
}

proof fn lemma_enc_items_len(ws: Seq<Seq<char>>)
    ensures
        enc_items(ws).len() >= ws.len(),
    decreases ws.len(),
{
    if ws.len() > 1 {
        lemma_enc_items_len(ws.drop_last());
    }
}

proof fn lemma_p_str_body(w: Seq<char>, acc: Seq<char>, rest: Seq<char>)
    ensures
        p_str_body(esc(w) + seq!['"'] + rest, acc) == Some((acc + w, rest)),
    decreases w.len(),
{
    let s = esc(w) + seq!['"'] + rest;
    if w.len() == 0 {
        assert(s[0] == '"');
        assert(s.drop_first() =~= rest);
        assert(acc + w =~= acc);
    } else {
        lemma_esc_head(w);
        let c = w[0];
        if c == '"' {
            assert(s[0] == '\\');
            assert(s[1] == '"');
            assert(s.len() >= 2);
            assert(s.skip(2) =~= esc(w.drop_first()) + seq!['"'] + rest);
            lemma_p_str_body(w.drop_first(), acc.push('"'), rest);
            assert(acc.push('"') + w.drop_first() =~= acc + w);
        } else if c == '\\' {
            assert(s[0] == '\\');
            assert(s[1] == '\\');
            assert(s.len() >= 2);
            assert(s.skip(2) =~= esc(w.drop_first()) + seq!['"'] + rest);
            lemma_p_str_body(w.drop_first(), acc.push('\\'), rest);
            assert(acc.push('\\') + w.drop_first() =~= acc + w);
        } else {
            assert(s[0] == c);
            assert(s.drop_first() =~= esc(w.drop_first()) + seq!['"'] + rest);
            lemma_p_str_body(w.drop_first(), acc.push(c), rest);
            assert(acc.push(c) + w.drop_first() =~= acc + w);
        }
    }
}

proof fn lemma_p_string(w: Seq<char>, rest: Seq<char>)
    ensures
        p_string(enc_string(w) + rest) == Some((w, rest)),
{
    let s = enc_string(w) + rest;
    assert(s.len() > 0 && s[0] == '"');
    assert(!is_ws_c(s[0]));
    assert(sws(s) == s);
    assert(s.drop_first() =~= esc(w) + seq!['"'] + rest);
    lemma_p_str_body(w, Seq::empty(), rest);
    assert(Seq::<char>::empty() + w =~= w);
}

proof fn lemma_p_items(ws: Seq<Seq<char>>, acc: Seq<Seq<char>>, rest: Seq<char>, fuel: nat)
    requires
        ws.len() > 0,
        fuel >= ws.len(),
    ensures
        p_items(enc_items(ws) + seq![']'] + rest, acc, fuel) == Some((acc + ws, rest)),
    decreases ws.len(),
{
    let s = enc_items(ws) + seq![']'] + rest;
    if ws.len() == 1 {
        assert(s =~= enc_string(ws[0]) + (seq![']'] + rest));
        lemma_p_string(ws[0], seq![']'] + rest);
        let after = seq![']'] + rest;
        assert(!is_ws_c(after[0]));
        assert(sws(after) == after);
        assert(after[0] == ']');
        assert(after[0] != ',');
        assert(after.drop_first() =~= rest);
        assert(acc.push(ws[0]) =~= acc + ws);
    } else {
        lemma_enc_items_head(ws);
        let tail = seq![','] + enc_items(ws.drop_first()) + seq![']'] + rest;
        assert(s =~= enc_string(ws[0]) + tail);
        lemma_p_string(ws[0], tail);
        assert(!is_ws_c(tail[0]));
        assert(sws(tail) == tail);
        assert(tail[0] == ',');
        assert(tail.drop_first() =~= enc_items(ws.drop_first()) + seq![']'] + rest);
        lemma_p_items(ws.drop_first(), acc.push(ws[0]), rest, (fuel - 1) as nat);
        assert(acc.push(ws[0]) + ws.drop_first() =~= acc + ws);
    }
}

proof fn lemma_p_array(ws: Seq<Seq<char>>, rest: Seq<char>, fuel: nat)
    requires
        fuel >= ws.len(),
    ensures
        p_array(enc_array(ws) + rest, fuel) == Some((ws, rest)),
{
    let s = enc_array(ws) + rest;
    assert(s.len() > 0 && s[0] == '[');
    assert(!is_ws_c(s[0]));
    assert(sws(s) == s);
    let t = s.drop_first();
    assert(t =~= enc_items(ws) + seq![']'] + rest);
    if ws.len() == 0 {
        assert(t =~= seq![']'] + rest);
        assert(!is_ws_c(t[0]));
        assert(sws(t) == t);
        assert(t[0] == ']');
        assert(t.drop_first() =~= rest);
        assert(Seq::<Seq<char>>::empty() =~= ws);
    } else {
        if ws.len() == 1 {
            assert(enc_items(ws) == enc_string(ws[0]));
        } else {
            lemma_enc_items_head(ws);
        }
        assert(enc_items(ws)[0] == '"');
        assert(t[0] == '"');
        assert(!is_ws_c(t[0]));
        assert(sws(t) == t);
        assert(t[0] != ']');
        lemma_p_items(ws, Seq::empty(), rest, fuel);
        assert(Seq::<Seq<char>>::empty() + ws =~= ws);
    }
}

proof fn lemma_p_class(key: Seq<char>, ws: Seq<Seq<char>>, rest: Seq<char>, fuel: nat)
    requires
        fuel >= ws.len(),
    ensures
        p_class(enc_class(key, ws) + rest, key, fuel) == Some((ws, rest)),
{
    let s = enc_class(key, ws) + rest;
    let tail = seq![':'] + enc_array(ws) + rest;
    assert(s =~= enc_string(key) + tail);
    lemma_p_string(key, tail);
    assert(!is_ws_c(tail[0]));
    assert(sws(tail) == tail);
    assert(tail[0] == ':');
    assert(tail.drop_first() =~= enc_array(ws) + rest);
    lemma_p_array(ws, rest, fuel);
}

#[verifier::rlimit(100)]
#[verifier::spinoff_prover]
proof fn lemma_p_vocab(v: VocabView, rest: Seq<char>, fuel: nat)
    requires
        fuel >= v.nouns.len(),
        fuel >= v.particles.len(),
        fuel >= v.verbs.len(),
        fuel >= v.adverbs.len(),
    ensures
        p_vocab(enc_vocab(v) + rest, fuel) == Some((v, rest)),
{
    let s = enc_vocab(v) + rest;
    assert(s.len() > 0 && s[0] == '{');
    assert(!is_ws_c(s[0]));
    assert(sws(s) == s);
    let r1 = seq![','] + enc_class("particles"@, v.particles) + seq![','] + enc_class(
        "verbs"@,
        v.verbs,
    ) + seq![','] + enc_class("adverbs"@, v.adverbs) + seq!['}'] + rest;
    assert(s.drop_first() =~= enc_class("nouns"@, v.nouns) + r1);
    lemma_p_class("nouns"@, v.nouns, r1, fuel);
    assert(!is_ws_c(r1[0]));
    assert(sws(r1) == r1);
    assert(r1[0] == ',');
    let r2 = seq![','] + enc_class("verbs"@, v.verbs) + seq![','] + enc_class(
        "adverbs"@,
        v.adverbs,
    ) + seq!['}'] + rest;
    assert(r1.drop_first() =~= enc_class("particles"@, v.particles) + r2);
    lemma_p_class("particles"@, v.particles, r2, fuel);
    assert(!is_ws_c(r2[0]));
    assert(sws(r2) == r2);
    assert(r2[0] == ',');
    let r3 = seq![','] + enc_class("adverbs"@, v.adverbs) + seq!['}'] + rest;
    assert(r2.drop_first() =~= enc_class("verbs"@, v.verbs) + r3);
    lemma_p_class("verbs"@, v.verbs, r3, fuel);
    assert(!is_ws_c(r3[0]));
    assert(sws(r3) == r3);
    assert(r3[0] == ',');
    let r4 = seq!['}'] + rest;
    assert(r3.drop_first() =~= enc_class("adverbs"@, v.adverbs) + r4);
    lemma_p_class("adverbs"@, v.adverbs, r4, fuel);
    assert(!is_ws_c(r4[0]));
    assert(sws(r4) == r4);
    assert(r4[0] == '}');
    assert(r4.drop_first() =~= rest);
}

proof fn lemma_p_lang(key: Seq<char>, v: VocabView, rest: Seq<char>, fuel: nat)
    requires
        fuel >= v.nouns.len(),
        fuel >= v.particles.len(),
        fuel >= v.verbs.len(),
        fuel >= v.adverbs.len(),
    ensures
        p_lang(enc_string(key) + seq![':'] + enc_vocab(v) + rest, key, fuel) == Some((v, rest)),
{
    let s = enc_string(key) + seq![':'] + enc_vocab(v) + rest;
    let tail = seq![':'] + enc_vocab(v) + rest;
    assert(s =~= enc_string(key) + tail);
    lemma_p_string(key, tail);
    assert(!is_ws_c(tail[0]));
    assert(sws(tail) == tail);
    assert(tail[0] == ':');
    assert(tail.drop_first() =~= enc_vocab(v) + rest);
    lemma_p_vocab(v, rest, fuel);
}

proof fn lemma_vocab_fits(v: VocabView, fuel: nat)
    requires
        fuel >= enc_vocab(v).len(),
    ensures
        fuel >= v.nouns.len(),
        fuel >= v.particles.len(),
        fuel >= v.verbs.len(),
        fuel >= v.adverbs.len(),
{
    lemma_enc_items_len(v.nouns);
    lemma_enc_items_len(v.particles);
    lemma_enc_items_len(v.verbs);
    lemma_enc_items_len(v.adverbs);
}

/// Decoding an encoded store yields the store back, exactly: the
/// serialization round trip loses nothing.
#[verifier::rlimit(100)]
pub proof fn lemma_codec_round_trip(a: AllView)
    ensures
        dec_all(enc_all(a)) == Some(a),
{
    let s = enc_all(a);
    let fuel = s.len();
    lemma_vocab_fits(a.english, fuel);
    lemma_vocab_fits(a.japanese, fuel);
    lemma_vocab_fits(a.chinese, fuel);
    assert(s.len() > 0 && s[0] == '{');
    assert(!is_ws_c(s[0]));
    assert(sws(s) == s);
    let r1 = seq![','] + enc_string("japanese"@) + seq![':'] + enc_vocab(a.japanese) + seq![',']
        + enc_string("chinese"@) + seq![':'] + enc_vocab(a.chinese) + seq!['}'];
    assert(s.drop_first() =~= enc_string("english"@) + seq![':'] + enc_vocab(a.english) + r1);
    lemma_p_lang("english"@, a.english, r1, fuel);
    assert(!is_ws_c(r1[0]));
    assert(sws(r1) == r1);
    assert(r1[0] == ',');
    let r2 = seq![','] + enc_string("chinese"@) + seq![':'] + enc_vocab(a.chinese) + seq!['}'];
    assert(r1.drop_first() =~= enc_string("japanese"@) + seq![':'] + enc_vocab(a.japanese) + r2);
    lemma_p_lang("japanese"@, a.japanese, r2, fuel);
    assert(!is_ws_c(r2[0]));
    assert(sws(r2) == r2);
    assert(r2[0] == ',');
    let r3 = seq!['}'] + Seq::<char>::empty();
    assert(r2.drop_first() =~= enc_string("chinese"@) + seq![':'] + enc_vocab(a.chinese) + r3);
    lemma_p_lang("chinese"@, a.chinese, r3, fuel);
    assert(!is_ws_c(r3[0]));
    assert(sws(r3) == r3);
    assert(r3[0] == '}');
    assert(r3.drop_first() =~= Seq::<char>::empty());
    assert(p_all(s, fuel) == Some((AllView { english: a.english, japanese: a.japanese, chinese: a.chinese }, Seq::<char>::empty())));
    assert(AllView { english: a.english, japanese: a.japanese, chinese: a.chinese } == a);
    assert(sws(Seq::<char>::empty()).len() == 0);
}


/// Advances past whitespace.
fn skip_ws(v: &Vec<char>, pos: usize) -> (r: usize)
    requires
        pos <= v@.len(),
    ensures
        pos <= r <= v@.len(),
        v@.skip(r as int) == sws(v@.skip(pos as int)),
{
    let n: usize = v.len();
    let mut i: usize = pos;
    while i < n && (v[i] == ' ' || v[i] == '\t' || v[i] == '\r' || v[i] == '\n')
        invariant
            n == v@.len(),
            pos <= i <= n,
            sws(v@.skip(pos as int)) == sws(v@.skip(i as int)),
        decreases n - i,
    {
        proof {
            assert(v@.skip(i as int)[0] == v@[i as int]);
            assert(v@.skip(i as int).drop_first() =~= v@.skip(i + 1));
        }
        i = i + 1;
    }
    proof {
        if i < n {
            assert(v@.skip(i as int)[0] == v@[i as int]);
            assert(sws(v@.skip(i as int)) == v@.skip(i as int));
        } else {
            assert(v@.skip(i as int).len() == 0);
            assert(sws(v@.skip(i as int)) == v@.skip(i as int));
        }
    }
    i
}

/// Consumes one expected character, whitespace before it allowed.
fn expect_char(v: &Vec<char>, pos: usize, c: char) -> (r: Option<usize>)
    requires
        pos <= v@.len(),
    ensures
        match p_char(v@.skip(pos as int), c) {
            Option::Some(rest) => r is Some && pos <= r->0 <= v@.len() && v@.skip(r->0 as int)
                == rest,
            Option::None => r is None,
        },
{
    let i: usize = skip_ws(v, pos);
    if i < v.len() {
        let ch: char = v[i];
        proof {
            assert(v@.skip(i as int)[0] == v@[i as int]);
            assert(v@.skip(i as int).drop_first() =~= v@.skip(i + 1));
        }
        if ch == c {
            Some(i + 1)
        } else {
            None
        }
    } else {
        proof {
            assert(v@.skip(i as int).len() == 0);
        }
        None
    }
}

/// Parses a string token into its unescaped characters.
#[verifier::loop_isolation(false)]
fn parse_string_at(v: &Vec<char>, pos: usize) -> (r: Option<(Vec<char>, usize)>)
    requires
        pos <= v@.len(),
    ensures
        match p_string(v@.skip(pos as int)) {
            Option::Some(pair) => {
                &&& r is Some
                &&& (r->0).0@ == pair.0
                &&& pos <= (r->0).1 <= v@.len()
                &&& v@.skip((r->0).1 as int) == pair.1
            },
            Option::None => r is None,
        },
{
    let start: Option<usize> = expect_char(v, pos, '"');
    match start {
        Option::None => None,
        Option::Some(body) => {
            let n: usize = v.len();
            let mut acc: Vec<char> = Vec::new();
            let mut i: usize = body;
            let ghost s0 = v@.skip(body as int);
            proof {
                assert(acc@ =~= Seq::<char>::empty());
            }
            loop
                invariant
                    n == v@.len(),
                    body <= i <= n,
                    p_str_body(s0, Seq::empty()) == p_str_body(v@.skip(i as int), acc@),
                decreases n - i,
            {
                if i >= n {
                    proof {
                        assert(v@.skip(i as int).len() == 0);
                    }
                    return None;
                }
                let c: char = v[i];
                proof {
                    assert(v@.skip(i as int)[0] == v@[i as int]);
                    assert(v@.skip(i as int).drop_first() =~= v@.skip(i + 1));
                }
                if c == '"' {
                    return Some((acc, i + 1));
                } else if c == '\\' {
                    if i + 1 < n {
                        let e: char = v[i + 1];
                        proof {
                            assert(v@.skip(i as int)[1] == v@[i + 1]);
                            assert(v@.skip(i as int).skip(2) =~= v@.skip(i + 2));
                        }
                        if e == '"' || e == '\\' {
                            acc.push(e);
                            i = i + 2;
                        } else {
                            return None;
                        }
                    } else {
                        proof {
                            assert(v@.skip(i as int).len() == 1);
                        }
                        return None;
                    }
                } else {
                    acc.push(c);
                    i = i + 1;
                }
            }
        },
    }
}

/// Parses a JSON array of strings.
#[verifier::loop_isolation(false)]
fn parse_array_at(v: &Vec<char>, pos: usize, fuel: usize) -> (r: Option<(Vec<String>, usize)>)
    requires
        pos <= v@.len(),
    ensures
        match p_array(v@.skip(pos as int), fuel as nat) {
            Option::Some(pair) => {
                &&& r is Some
                &&& crate::vocab::strs_view((r->0).0@) == pair.0
                &&& pos <= (r->0).1 <= v@.len()
                &&& v@.skip((r->0).1 as int) == pair.1
            },
            Option::None => r is None,
        },
{
    let open: Option<usize> = expect_char(v, pos, '[');
    match open {
        Option::None => None,
        Option::Some(t) => {
            let u: usize = skip_ws(v, t);
            if u < v.len() && v[u] == ']' {
                proof {
                    assert(v@.skip(u as int)[0] == v@[u as int]);
                    assert(v@.skip(u as int).drop_first() =~= v@.skip(u + 1));
                    assert(crate::vocab::strs_view(Seq::<String>::empty())
                        =~= Seq::<Seq<char>>::empty());
                }
                let items: Vec<String> = Vec::new();
                return Some((items, u + 1));
            }
            proof {
                if u < v@.len() {
                    assert(v@.skip(u as int)[0] == v@[u as int]);
                } else {
                    assert(v@.skip(u as int).len() == 0);
                }
            }
            let mut items: Vec<String> = Vec::new();
            let mut i: usize = u;
            let mut f: usize = fuel;
            let ghost s0 = v@.skip(u as int);
            proof {
                assert(crate::vocab::strs_view(items@) =~= Seq::<Seq<char>>::empty());
            }
            loop
                invariant
                    u <= i <= v@.len(),
                    f <= fuel,
                    p_items(s0, Seq::empty(), fuel as nat) == p_items(
                        v@.skip(i as int),
                        crate::vocab::strs_view(items@),
                        f as nat,
                    ),
                decreases f,
            {
                if f == 0 {
                    return None;
                }
                let ghost i0 = i as int;
                let ghost f0 = f as nat;
                let ghost items0 = crate::vocab::strs_view(items@);
                let word: Option<(Vec<char>, usize)> = parse_string_at(v, i);
                match word {
                    Option::None => {
                        return None;
                    },
                    Option::Some(pair) => {
                        let w: String = string_from_chars(&pair.0);
                        let after: usize = skip_ws(v, pair.1);
                        let ghost old_items = crate::vocab::strs_view(items@);
                        items.push(w);
                        proof {
                            assert(crate::vocab::strs_view(items@) =~= old_items.push(
                                pair.0@,
                            ));
                        }
                        if after < v.len() {
                            let ch: char = v[after];
                            proof {
                                assert(v@.skip(after as int)[0] == v@[after as int]);
                                assert(v@.skip(after as int).drop_first() =~= v@.skip(after + 1));
                            }
                            if ch == ',' {
                                proof {
                                    assert(p_string(v@.skip(i0)) == Some(
                                        (pair.0@, v@.skip(pair.1 as int)),
                                    ));
                                    assert(sws(v@.skip(pair.1 as int)) == v@.skip(after as int));
                                    assert(v@.skip(after as int)[0] == ',');
                                    assert(p_items(v@.skip(i0), items0, f0) == p_items(
                                        v@.skip(after + 1),
                                        items0.push(pair.0@),
                                        (f0 - 1) as nat,
                                    ));
                                }
                                i = after + 1;
                                f = f - 1;
                            } else if ch == ']' {
                                return Some((items, after + 1));
                            } else {
                                return None;
                            }
                        } else {
                            proof {
                                assert(v@.skip(after as int).len() == 0);
                            }
                            return None;
                        }
                    },
                }
            }
        },
    }
}

/// True when the vector holds exactly the characters of `s`.
fn chars_match(a: &Vec<char>, s: &str) -> (r: bool)
    ensures
        r == (a@ == s@),
{
    let b: Vec<char> = chars_of(s);
    if a.len() != b.len() {
        proof {
            assert(a@.len() != s@.len());
        }
        return false;
    }
    let n: usize = a.len();
    let mut i: usize = 0;
    while i < n
        invariant
            n == a@.len() == b@.len(),
            b@ == s@,
            0 <= i <= n,
            forall|j: int| 0 <= j < i ==> a@[j] == b@[j],
        decreases n - i,
    {
        if a[i] != b[i] {
            return false;
        }
        i = i + 1;
    }
    proof {
        assert(a@ =~= s@);
    }
    true
}

/// Parses a `"key":[...]` member whose key must match.
fn parse_class_at(v: &Vec<char>, pos: usize, key: &str, fuel: usize) -> (r: Option<
    (Vec<String>, usize),
>)
    requires
        pos <= v@.len(),
    ensures
        match p_class(v@.skip(pos as int), key@, fuel as nat) {
            Option::Some(pair) => {
                &&& r is Some
                &&& crate::vocab::strs_view((r->0).0@) == pair.0
                &&& pos <= (r->0).1 <= v@.len()
                &&& v@.skip((r->0).1 as int) == pair.1
            },
            Option::None => r is None,
        },
{
    let k: Option<(Vec<char>, usize)> = parse_string_at(v, pos);
    match k {
        Option::None => None,
        Option::Some(pair) => {
            if !chars_match(&pair.0, key) {
                return None;
            }
            let colon: Option<usize> = expect_char(v, pair.1, ':');
            match colon {
                Option::None => None,
                Option::Some(r2) => parse_array_at(v, r2, fuel),
            }
        },
    }
}

/// Parses one vocabulary object.
fn parse_vocab_at(v: &Vec<char>, pos: usize, fuel: usize) -> (r: Option<(VocabularyData, usize)>)
    requires
        pos <= v@.len(),
    ensures
        match p_vocab(v@.skip(pos as int), fuel as nat) {
            Option::Some(pair) => {
                &&& r is Some
                &&& (r->0).0@ == pair.0
                &&& pos <= (r->0).1 <= v@.len()
                &&& v@.skip((r->0).1 as int) == pair.1
            },
            Option::None => r is None,
        },
{
    let open: Option<usize> = expect_char(v, pos, '{');
    match open {
        Option::None => None,
        Option::Some(t0) => {
            let nouns: Option<(Vec<String>, usize)> = parse_class_at(v, t0, "nouns", fuel);
            match nouns {
                Option::None => None,
                Option::Some(n) => {
                    let c1: Option<usize> = expect_char(v, n.1, ',');
                    match c1 {
                        Option::None => None,
                        Option::Some(t1) => {
                            let particles: Option<(Vec<String>, usize)> = parse_class_at(
                                v,
                                t1,
                                "particles",
                                fuel,
                            );
                            match particles {
                                Option::None => None,
                                Option::Some(p) => {
                                    let c2: Option<usize> = expect_char(v, p.1, ',');
                                    match c2 {
                                        Option::None => None,
                                        Option::Some(t2) => {
                                            let verbs: Option<(Vec<String>, usize)> =
                                                parse_class_at(v, t2, "verbs", fuel);
                                            match verbs {
                                                Option::None => None,
                                                Option::Some(vb) => {
                                                    let c3: Option<usize> = expect_char(
                                                        v,
                                                        vb.1,
                                                        ',',
                                                    );
                                                    match c3 {
                                                        Option::None => None,
                                                        Option::Some(t3) => {
                                                            let adverbs: Option<
                                                                (Vec<String>, usize),
                                                            > = parse_class_at(
                                                                v,
                                                                t3,
                                                                "adverbs",
                                                                fuel,
                                                            );
                                                            match adverbs {
                                                                Option::None => None,
                                                                Option::Some(a) => {
                                                                    let close: Option<usize> =
                                                                        expect_char(v, a.1, '}');
                                                                    match close {
                                                                        Option::None => None,
                                                                        Option::Some(rest) => Some(
                                                                            (
                                                                                VocabularyData {
                                                                                    nouns: n.0,
                                                                                    particles: p.0,
                                                                                    verbs: vb.0,
                                                                                    adverbs: a.0,
                                                                                },
                                                                                rest,
                                                                            ),
                                                                        ),
                                                                    }
                                                                },
                                                            }
                                                        },
                                                    }
                                                },
                                            }
                                        },
                                    }
                                },
                            }
                        },
                    }
                },
            }
        },
    }
}

/// Parses a `"language":{...}` member whose key must match.
fn parse_lang_at(v: &Vec<char>, pos: usize, key: &str, fuel: usize) -> (r: Option<
    (VocabularyData, usize),
>)
    requires
        pos <= v@.len(),
    ensures
        match p_lang(v@.skip(pos as int), key@, fuel as nat) {
            Option::Some(pair) => {
                &&& r is Some
                &&& (r->0).0@ == pair.0
                &&& pos <= (r->0).1 <= v@.len()
                &&& v@.skip((r->0).1 as int) == pair.1
            },
            Option::None => r is None,
        },
{
    let k: Option<(Vec<char>, usize)> = parse_string_at(v, pos);
    match k {
        Option::None => None,
        Option::Some(pair) => {
            if !chars_match(&pair.0, key) {
                return None;
            }
            let colon: Option<usize> = expect_char(v, pair.1, ':');
            match colon {
                Option::None => None,
                Option::Some(r2) => parse_vocab_at(v, r2, fuel),
            }
        },
    }
}

/// Deserializes the whole store; any deviation from the schema is a
/// `SerializationError`.
pub fn decode_vocabularies(content: &str) -> (r: Result<LanguageVocabularies, EsiError>)
    ensures
        match dec_all(content@) {
            Option::Some(a) => r is Ok && r->Ok_0@ == a,
            Option::None => r is Err && r->Err_0 == EsiError::SerializationError,
        },
{
    let v: Vec<char> = chars_of(content);
    let fuel: usize = v.len();
    proof {
        assert(v@.skip(0) =~= content@);
    }
    let open: Option<usize> = expect_char(&v, 0, '{');
    match open {
        Option::None => Err(EsiError::SerializationError),
        Option::Some(t0) => {
            let english: Option<(VocabularyData, usize)> = parse_lang_at(&v, t0, "english", fuel);
            match english {
                Option::None => Err(EsiError::SerializationError),
                Option::Some(e) => {
                    let c1: Option<usize> = expect_char(&v, e.1, ',');
                    match c1 {
                        Option::None => Err(EsiError::SerializationError),
                        Option::Some(t1) => {
                            let japanese: Option<(VocabularyData, usize)> = parse_lang_at(
                                &v,
                                t1,
                                "japanese",
                                fuel,
                            );
                            match japanese {
                                Option::None => Err(EsiError::SerializationError),
                                Option::Some(j) => {
                                    let c2: Option<usize> = expect_char(&v, j.1, ',');
                                    match c2 {
                                        Option::None => Err(EsiError::SerializationError),
                                        Option::Some(t2) => {
                                            let chinese: Option<(VocabularyData, usize)> =
                                                parse_lang_at(&v, t2, "chinese", fuel);
                                            match chinese {
                                                Option::None => Err(EsiError::SerializationError),
                                                Option::Some(c) => {
                                                    let close: Option<usize> = expect_char(
                                                        &v,
                                                        c.1,
                                                        '}',
                                                    );
                                                    match close {
                                                        Option::None => Err(
                                                            EsiError::SerializationError,
                                                        ),
                                                        Option::Some(rest) => {
                                                            let fin: usize = skip_ws(&v, rest);
                                                            if fin < v.len() {
                                                                Err(EsiError::SerializationError)
                                                            } else {
                                                                proof {
                                                                    assert(v@.skip(
                                                                        fin as int,
                                                                    ).len() == 0);
                                                                }
                                                                Ok(
                                                                    LanguageVocabularies {
                                                                        english: e.0,
                                                                        japanese: j.0,
                                                                        chinese: c.0,
                                                                    },
                                                                )
                                                            }
                                                        },
                                                    }
                                                },
                                            }
                                        },
                                    }
                                },
                            }
                        },
                    }
                },
            }
        },
    }
}


/// Loads the store from the vocabulary file's content when the file
/// existed, else falls back to the built-in defaults (non-empty in every
/// class).
pub fn load_or_default(content: Option<&String>) -> (r: Result<LanguageVocabularies, EsiError>)
    ensures
        content is Some ==> match dec_all(content->0@) {
            Option::Some(a) => r is Ok && r->Ok_0@ == a,
            Option::None => r is Err && r->Err_0 == EsiError::SerializationError,
        },
        content is None ==> {
            &&& r is Ok
            &&& r->Ok_0@.english.nouns =~= seq!["Silence"@]
            &&& r->Ok_0@.english.particles =~= seq!["is"@]
            &&& r->Ok_0@.english.verbs =~= seq!["drifting"@]
            &&& r->Ok_0@.english.adverbs =~= seq!["Gently"@]
            &&& r->Ok_0@.japanese.nouns =~= seq!["静寂"@, "思考"@, "技術"@, "日常"@]
            &&& r->Ok_0@.japanese.particles =~= seq!["は"@, "の"@, "に"@]
            &&& r->Ok_0@.japanese.verbs =~= seq!["加速する"@, "共鳴する"@]
            &&& r->Ok_0@.japanese.adverbs =~= seq!["徐々に"@, "突如として"@]
            &&& r->Ok_0@.chinese.nouns =~= seq!["宁静"@]
            &&& r->Ok_0@.chinese.particles =~= seq!["是"@]
            &&& r->Ok_0@.chinese.verbs =~= seq!["漂流"@]
            &&& r->Ok_0@.chinese.adverbs =~= seq!["温柔地"@]
        },
{
    match content {
        Option::None => Ok(crate::assembler::LinguisticAssembler::get_default_all_vocabs()),
        Option::Some(text) => decode_vocabularies(text.as_str()),
    }
}

} // verus!
